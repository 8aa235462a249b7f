//! How text reaches the focused window.
//!
//! The tool is chosen from the session: on Wayland `wtype` is preferred, except
//! on KDE, whose compositor lacks the protocol that `wtype` needs and where
//! `ydotool` is preferred; on X11 it is `xdotool`.

use vstd::prelude::*;
use vstd::string::*;

use crate::text::{
    chars_of, contains, debug_quoted, debug_text, lower_text, occurs, owned, same, to_lower, views,
};

verus! {

/// Which tool the user asks for.
#[derive(Debug, Clone, Copy, PartialEq, Eq, Structural)]
pub enum InjectMethod {
    Auto,
    WType,
    Ydotool,
    Xdotool,
}

/// A tool that types into the focused window.
#[derive(Debug, Clone, Copy, PartialEq, Eq, Structural)]
pub enum Tool {
    WType,
    Ydotool,
    Xdotool,
}

/// The name of a method that does not exist.
#[derive(Debug)]
pub struct UnknownMethod {
    pub name: String,
}

/// Why no tool can be used.
#[derive(Debug, Clone, Copy, PartialEq, Eq, Structural)]
pub enum NoTool {
    /// A KDE session on Wayland with neither `ydotool` nor `wtype`.
    Kde,
    /// Another Wayland session with neither `wtype` nor `ydotool`.
    Wayland,
    /// No Wayland session and no `xdotool`.
    Any,
}

/// What the choice of a tool depends on: three environment variables and which
/// tools are installed.
#[derive(Debug)]
pub struct Session {
    pub wayland_display: Option<String>,
    pub current_desktop: Option<String>,
    pub kde_full_session: Option<String>,
    pub wtype: bool,
    pub ydotool: bool,
    pub xdotool: bool,
}

/// A program to run, with its arguments.
#[derive(Debug)]
pub struct Invocation {
    pub program: String,
    pub args: Vec<String>,
}

/// The mathematical content of an [`Invocation`].
#[verifier::ext_equal]
pub struct InvocationView {
    pub program: Seq<char>,
    pub args: Seq<Seq<char>>,
}

impl View for Invocation {
    type V = InvocationView;

    open spec fn view(&self) -> InvocationView {
        InvocationView { program: self.program@, args: views(self.args@) }
    }
}

/// Types text into the focused window.
#[derive(Debug)]
pub struct Injector {
    pub method: InjectMethod,
}

impl InjectMethod {
    /// The method that a name stands for.
    pub open spec fn named(s: Seq<char>) -> Option<InjectMethod> {
        if s == "auto"@ {
            Some(InjectMethod::Auto)
        } else if s == "wtype"@ {
            Some(InjectMethod::WType)
        } else if s == "ydotool"@ {
            Some(InjectMethod::Ydotool)
        } else if s == "xdotool"@ {
            Some(InjectMethod::Xdotool)
        } else {
            None
        }
    }

    /// The method that a name stands for.
    pub fn parse(s: &str) -> (result: Result<Self, UnknownMethod>)
        ensures
            match result {
                Ok(m) => InjectMethod::named(s@) == Some(m),
                Err(e) => InjectMethod::named(s@) is None && e.name@ == s@,
            },
    {
        if same(s, "auto") {
            Ok(InjectMethod::Auto)
        } else if same(s, "wtype") {
            Ok(InjectMethod::WType)
        } else if same(s, "ydotool") {
            Ok(InjectMethod::Ydotool)
        } else if same(s, "xdotool") {
            Ok(InjectMethod::Xdotool)
        } else {
            Err(UnknownMethod { name: s.to_string() })
        }
    }
}

impl UnknownMethod {
    /// What the user is told.
    pub fn message(&self) -> (message: String)
        ensures
            message@ == "unknown inject method "@ + debug_text(self.name@)
                + " (expected auto|wtype|ydotool|xdotool)"@,
    {
        "unknown inject method ".to_string().concat(debug_quoted(self.name.as_str()).as_str()).concat(
            " (expected auto|wtype|ydotool|xdotool)",
        )
    }
}

impl NoTool {
    /// What the user is told.
    pub open spec fn text(self) -> Seq<char> {
        match self {
            NoTool::Kde =>
                "KDE/Wayland session but neither ydotool nor wtype found. Install ydotool (and start the ydotoold user service)."@,
            NoTool::Wayland =>
                "Wayland session but neither wtype nor ydotool found. Install wtype (non-KDE) or ydotool."@,
            NoTool::Any => "No injection tool found (wtype/ydotool/xdotool)."@,
        }
    }

    /// What the user is told.
    pub fn message(&self) -> (message: String)
        ensures
            message@ == self.text(),
    {
        match *self {
            NoTool::Kde =>
                "KDE/Wayland session but neither ydotool nor wtype found. Install ydotool (and start the ydotoold user service).".to_string(),
            NoTool::Wayland =>
                "Wayland session but neither wtype nor ydotool found. Install wtype (non-KDE) or ydotool.".to_string(),
            NoTool::Any => "No injection tool found (wtype/ydotool/xdotool).".to_string(),
        }
    }
}

/// Whether a variable is set to something.
pub open spec fn is_filled(value: Option<String>) -> bool {
    value matches Some(v) && v@.len() > 0
}

fn filled(value: &Option<String>) -> (r: bool)
    ensures
        r == is_filled(*value),
{
    match value {
        Some(v) => !v.as_str().is_empty(),
        None => false,
    }
}

impl Session {
    /// Whether this is a KDE session.
    pub open spec fn on_kde(self) -> bool {
        ||| self.current_desktop matches Some(d) && occurs(lower_text(d@), "kde"@)
        ||| is_filled(self.kde_full_session)
    }

    /// Whether a tool is installed.
    pub open spec fn has(self, tool: Tool) -> bool {
        match tool {
            Tool::WType => self.wtype,
            Tool::Ydotool => self.ydotool,
            Tool::Xdotool => self.xdotool,
        }
    }

    /// Whether this is a KDE session.
    pub fn is_kde(&self) -> (kde: bool)
        ensures
            kde == self.on_kde(),
    {
        let named = match &self.current_desktop {
            Some(d) => contains(to_lower(d.as_str()).as_str(), "kde"),
            None => false,
        };
        named || filled(&self.kde_full_session)
    }
}

/// The tool that a method leads to in a session, or why there is none.
pub open spec fn resolved(method: InjectMethod, session: Session) -> Result<Tool, NoTool> {
    match method {
        InjectMethod::WType => Ok(Tool::WType),
        InjectMethod::Ydotool => Ok(Tool::Ydotool),
        InjectMethod::Xdotool => Ok(Tool::Xdotool),
        InjectMethod::Auto => if is_filled(session.wayland_display) {
            let (first, second, none) = if session.on_kde() {
                (Tool::Ydotool, Tool::WType, NoTool::Kde)
            } else {
                (Tool::WType, Tool::Ydotool, NoTool::Wayland)
            };
            if session.has(first) {
                Ok(first)
            } else if session.has(second) {
                Ok(second)
            } else {
                Err(none)
            }
        } else if session.xdotool {
            Ok(Tool::Xdotool)
        } else {
            Err(NoTool::Any)
        },
    }
}

/// A text with every space doubled.
pub open spec fn spaces_doubled(s: Seq<char>) -> Seq<char>
    decreases s.len(),
{
    if s.len() == 0 {
        Seq::empty()
    } else if s.last() == ' ' {
        spaces_doubled(s.drop_last()).push(' ').push(' ')
    } else {
        spaces_doubled(s.drop_last()).push(s.last())
    }
}

/// How a tool is run to type a text.
pub open spec fn typing(tool: Tool, text: Seq<char>) -> InvocationView {
    match tool {
        Tool::WType => InvocationView {
            program: "wtype"@,
            args: seq!["-s"@, "20"@, spaces_doubled(text)],
        },
        Tool::Ydotool => InvocationView {
            program: "ydotool"@,
            args: seq!["type"@, "--key-delay"@, "20"@, text],
        },
        Tool::Xdotool => InvocationView {
            program: "xdotool"@,
            args: seq!["type"@, "--delay"@, "20"@, text],
        },
    }
}

/// How a tool is run to press a key.
pub open spec fn pressing(tool: Tool, key: Seq<char>) -> InvocationView {
    match tool {
        Tool::WType => InvocationView { program: "wtype"@, args: seq!["-k"@, key] },
        Tool::Ydotool => InvocationView { program: "ydotool"@, args: seq!["key"@, key] },
        Tool::Xdotool => InvocationView { program: "xdotool"@, args: seq!["key"@, key] },
    }
}

/// Whether `ydotool` is tried after a tool was run: only after `wtype` failed,
/// and only where `ydotool` is installed.
pub open spec fn falls_back(tool: Tool, succeeded: bool, ydotool_installed: bool) -> bool {
    !succeeded && tool == Tool::WType && ydotool_installed
}

fn double_spaces(s: &str) -> (text: String)
    ensures
        text@ == spaces_doubled(s@),
{
    let chars = chars_of(s);
    let mut text = String::new();
    let mut i: usize = 0;
    assert(s@.take(0) =~= Seq::empty());
    while i < chars.len()
        invariant
            chars@ == s@,
            0 <= i <= chars@.len(),
            text@ == spaces_doubled(s@.take(i as int)),
        decreases chars@.len() - i,
    {
        assert(s@.take(i + 1).drop_last() =~= s@.take(i as int));
        if chars[i] == ' ' {
            text.push(' ');
            text.push(' ');
        } else {
            text.push(chars[i]);
        }
        i += 1;
    }
    assert(s@.take(i as int) =~= s@);
    text
}

fn type_with(tool: Tool, text: &str) -> (run: Invocation)
    ensures
        run@ == typing(tool, text@),
{
    match tool {
        Tool::WType => {
            let spaced = double_spaces(text);
            let args = owned(&["-s", "20", spaced.as_str()]);
            assert(views(args@) =~= seq!["-s"@, "20"@, spaces_doubled(text@)]);
            Invocation { program: "wtype".to_string(), args }
        },
        Tool::Ydotool => {
            let args = owned(&["type", "--key-delay", "20", text]);
            assert(views(args@) =~= seq!["type"@, "--key-delay"@, "20"@, text@]);
            Invocation { program: "ydotool".to_string(), args }
        },
        Tool::Xdotool => {
            let args = owned(&["type", "--delay", "20", text]);
            assert(views(args@) =~= seq!["type"@, "--delay"@, "20"@, text@]);
            Invocation { program: "xdotool".to_string(), args }
        },
    }
}

fn press_with(tool: Tool, key: &str) -> (run: Invocation)
    ensures
        run@ == pressing(tool, key@),
{
    match tool {
        Tool::WType => {
            let args = owned(&["-k", key]);
            assert(views(args@) =~= seq!["-k"@, key@]);
            Invocation { program: "wtype".to_string(), args }
        },
        Tool::Ydotool => {
            let args = owned(&["key", key]);
            assert(views(args@) =~= seq!["key"@, key@]);
            Invocation { program: "ydotool".to_string(), args }
        },
        Tool::Xdotool => {
            let args = owned(&["key", key]);
            assert(views(args@) =~= seq!["key"@, key@]);
            Invocation { program: "xdotool".to_string(), args }
        },
    }
}

impl Injector {
    pub fn new(method: InjectMethod) -> (injector: Self)
        ensures
            injector.method == method,
    {
        Injector { method }
    }

    /// The tool to use in a session.
    pub fn resolve(&self, session: &Session) -> (result: Result<Tool, NoTool>)
        ensures
            result == resolved(self.method, *session),
    {
        match self.method {
            InjectMethod::WType => Ok(Tool::WType),
            InjectMethod::Ydotool => Ok(Tool::Ydotool),
            InjectMethod::Xdotool => Ok(Tool::Xdotool),
            InjectMethod::Auto => {
                if filled(&session.wayland_display) {
                    if session.is_kde() {
                        if session.ydotool {
                            return Ok(Tool::Ydotool);
                        }
                        if session.wtype {
                            return Ok(Tool::WType);
                        }
                        return Err(NoTool::Kde);
                    }
                    if session.wtype {
                        return Ok(Tool::WType);
                    }
                    if session.ydotool {
                        return Ok(Tool::Ydotool);
                    }
                    return Err(NoTool::Wayland);
                }
                if session.xdotool {
                    return Ok(Tool::Xdotool);
                }
                Err(NoTool::Any)
            },
        }
    }

    /// What is run first to type a text: nothing for an empty text.
    pub fn type_text(&self, text: &str, session: &Session) -> (result: Result<
        Option<(Tool, Invocation)>,
        NoTool,
    >)
        ensures
            match result {
                Ok(None) => text@.len() == 0,
                Ok(Some((tool, run))) => text@.len() > 0 && resolved(self.method, *session) == Ok::<
                    Tool,
                    NoTool,
                >(tool) && run@ == typing(tool, text@),
                Err(e) => text@.len() > 0 && resolved(self.method, *session) == Err::<Tool, NoTool>(
                    e,
                ),
            },
    {
        if text.is_empty() {
            return Ok(None);
        }
        match self.resolve(session) {
            Ok(tool) => Ok(Some((tool, type_with(tool, text)))),
            Err(e) => Err(e),
        }
    }

    /// What is run after `tool` was run to type a text, if anything is.
    pub fn type_text_fallback(
        &self,
        text: &str,
        tool: Tool,
        succeeded: bool,
        ydotool_installed: bool,
    ) -> (next: Option<Invocation>)
        ensures
            match next {
                Some(run) => falls_back(tool, succeeded, ydotool_installed) && run@ == typing(
                    Tool::Ydotool,
                    text@,
                ),
                None => !falls_back(tool, succeeded, ydotool_installed),
            },
    {
        if !succeeded && tool == Tool::WType && ydotool_installed {
            Some(type_with(Tool::Ydotool, text))
        } else {
            None
        }
    }

    /// What is run first to press a key.
    pub fn type_command(&self, key: &str, session: &Session) -> (result: Result<
        (Tool, Invocation),
        NoTool,
    >)
        ensures
            match result {
                Ok((tool, run)) => resolved(self.method, *session) == Ok::<Tool, NoTool>(tool)
                    && run@ == pressing(tool, key@),
                Err(e) => resolved(self.method, *session) == Err::<Tool, NoTool>(e),
            },
    {
        match self.resolve(session) {
            Ok(tool) => Ok((tool, press_with(tool, key))),
            Err(e) => Err(e),
        }
    }

    /// What is run after `tool` was run to press a key, if anything is.
    pub fn type_command_fallback(
        &self,
        key: &str,
        tool: Tool,
        succeeded: bool,
        ydotool_installed: bool,
    ) -> (next: Option<Invocation>)
        ensures
            match next {
                Some(run) => falls_back(tool, succeeded, ydotool_installed) && run@ == pressing(
                    Tool::Ydotool,
                    key@,
                ),
                None => !falls_back(tool, succeeded, ydotool_installed),
            },
    {
        if !succeeded && tool == Tool::WType && ydotool_installed {
            Some(press_with(Tool::Ydotool, key))
        } else {
            None
        }
    }
}

/// The automatic choice is always a tool that is installed, and there is no
/// choice only where neither Wayland tool is there (on Wayland) or `xdotool` is
/// not (elsewhere).
pub proof fn law_automatic_choice_is_installed(session: Session)
    ensures
        match resolved(InjectMethod::Auto, session) {
            Ok(tool) => session.has(tool) && (is_filled(session.wayland_display) <==> tool
                != Tool::Xdotool),
            Err(_) => if is_filled(session.wayland_display) {
                !session.wtype && !session.ydotool
            } else {
                !session.xdotool
            },
        },
{
}

/// On Wayland, `ydotool` is chosen on KDE wherever it is installed, and `wtype`
/// elsewhere wherever it is.
pub proof fn law_kde_prefers_ydotool(session: Session)
    requires
        is_filled(session.wayland_display),
    ensures
        session.on_kde() && session.ydotool ==> resolved(InjectMethod::Auto, session) == Ok::<
            Tool,
            NoTool,
        >(Tool::Ydotool),
        !session.on_kde() && session.wtype ==> resolved(InjectMethod::Auto, session) == Ok::<
            Tool,
            NoTool,
        >(Tool::WType),
{
}

/// Which method each name stands for; no other name stands for any.
pub proof fn law_names_stand_for_methods(s: Seq<char>)
    ensures
        InjectMethod::named(s) == Some(InjectMethod::Auto) <==> s == "auto"@,
        InjectMethod::named(s) == Some(InjectMethod::WType) <==> s == "wtype"@,
        InjectMethod::named(s) == Some(InjectMethod::Ydotool) <==> s == "ydotool"@,
        InjectMethod::named(s) == Some(InjectMethod::Xdotool) <==> s == "xdotool"@,
{
    reveal_strlit("auto");
    reveal_strlit("wtype");
    reveal_strlit("ydotool");
    reveal_strlit("xdotool");
    assert("auto"@.len() == 4 && "wtype"@.len() == 5 && "ydotool"@.len() == 7 && "xdotool"@.len()
        == 7);
    assert("ydotool"@[0] != "xdotool"@[0]);
}

/// A tool that the user asks for is used, whatever the session is.
pub proof fn law_a_tool_that_is_asked_for_is_used(session: Session)
    ensures
        resolved(InjectMethod::WType, session) == Ok::<Tool, NoTool>(Tool::WType),
        resolved(InjectMethod::Ydotool, session) == Ok::<Tool, NoTool>(Tool::Ydotool),
        resolved(InjectMethod::Xdotool, session) == Ok::<Tool, NoTool>(Tool::Xdotool),
{
}

/// The automatic choice goes by the session and by what is installed: on Wayland
/// the tool that is not preferred is the second choice, elsewhere there is
/// `xdotool` alone.
pub proof fn law_the_second_choice_is_the_other_tool(session: Session)
    ensures
        ({
            let wayland = is_filled(session.wayland_display);
            let choice = resolved(InjectMethod::Auto, session);
            &&& wayland && session.wtype && !session.ydotool ==> choice == Ok::<Tool, NoTool>(
                Tool::WType,
            )
            &&& wayland && session.ydotool && !session.wtype ==> choice == Ok::<Tool, NoTool>(
                Tool::Ydotool,
            )
            &&& wayland && !session.wtype && !session.ydotool ==> choice == Err::<Tool, NoTool>(
                if session.on_kde() {
                    NoTool::Kde
                } else {
                    NoTool::Wayland
                },
            )
            &&& !wayland && session.xdotool ==> choice == Ok::<Tool, NoTool>(Tool::Xdotool)
            &&& !wayland && !session.xdotool ==> choice == Err::<Tool, NoTool>(NoTool::Any)
        }),
{
}

/// A session is one of Wayland where its display is set to something, and one of
/// KDE where its desktop names KDE or its own variable is set to something.
pub proof fn law_sessions_are_known_by_their_variables(session: Session, value: String)
    ensures
        is_filled(Some(value)) <==> value@.len() > 0,
        !is_filled(None),
        session.on_kde() <==> (session.current_desktop matches Some(d) && occurs(
            lower_text(d@),
            "kde"@,
        )) || (session.kde_full_session matches Some(v) && v@.len() > 0),
        session.has(Tool::WType) == session.wtype,
        session.has(Tool::Ydotool) == session.ydotool,
        session.has(Tool::Xdotool) == session.xdotool,
{
}

/// Doubling spaces doubles each space and keeps every other character as it is,
/// in order, however long the text is.
pub proof fn law_spaces_are_doubled_one_by_one(first: Seq<char>, second: Seq<char>, c: char)
    ensures
        spaces_doubled(Seq::empty()) == Seq::<char>::empty(),
        c != ' ' ==> spaces_doubled(seq![c]) == seq![c],
        spaces_doubled(seq![' ']) == seq![' ', ' '],
        spaces_doubled(first + second) == spaces_doubled(first) + spaces_doubled(second),
    decreases second.len(),
{
    assert(seq![c].drop_last() =~= Seq::empty());
    assert(seq![' '].drop_last() =~= Seq::empty());
    assert(spaces_doubled(Seq::empty()) =~= Seq::empty());
    assert(Seq::<char>::empty().push(c) =~= seq![c]);
    assert(Seq::<char>::empty().push(' ').push(' ') =~= seq![' ', ' ']);
    if second.len() == 0 {
        assert(first + second =~= first);
        assert(spaces_doubled(first) + spaces_doubled(second) =~= spaces_doubled(first));
    } else {
        law_spaces_are_doubled_one_by_one(first, second.drop_last(), c);
        assert((first + second).drop_last() =~= first + second.drop_last());
        assert(spaces_doubled(first + second) =~= spaces_doubled(first) + spaces_doubled(second));
    }
}

/// A text is handed to a tool whole, as the last argument after its options;
/// `wtype` alone gets it with its spaces doubled.
pub proof fn law_a_text_is_typed_whole(text: Seq<char>)
    ensures
        typing(Tool::WType, text).program == "wtype"@,
        typing(Tool::WType, text).args == seq!["-s"@, "20"@, spaces_doubled(text)],
        typing(Tool::Ydotool, text).program == "ydotool"@,
        typing(Tool::Ydotool, text).args == seq!["type"@, "--key-delay"@, "20"@, text],
        typing(Tool::Xdotool, text).program == "xdotool"@,
        typing(Tool::Xdotool, text).args == seq!["type"@, "--delay"@, "20"@, text],
{
}

/// A key is handed to a tool as it is.
pub proof fn law_a_key_is_pressed_as_it_is(key: Seq<char>)
    ensures
        pressing(Tool::WType, key).program == "wtype"@,
        pressing(Tool::WType, key).args == seq!["-k"@, key],
        pressing(Tool::Ydotool, key).program == "ydotool"@,
        pressing(Tool::Ydotool, key).args == seq!["key"@, key],
        pressing(Tool::Xdotool, key).program == "xdotool"@,
        pressing(Tool::Xdotool, key).args == seq!["key"@, key],
{
}

/// A second tool is tried only after `wtype` failed, and then it is tried
/// wherever `ydotool` is installed.
pub proof fn law_only_a_failed_wtype_has_a_second_try(tool: Tool, succeeded: bool, installed: bool)
    ensures
        falls_back(tool, succeeded, installed) <==> tool == Tool::WType && !succeeded && installed,
{
}

/// A program to run is seen as it is.
pub proof fn law_a_run_is_seen_whole(run: Invocation, i: int)
    ensures
        run@.program == run.program@,
        run@.args.len() == run.args@.len(),
        0 <= i < run.args@.len() ==> run@.args[i] == run.args@[i]@,
{
}

} // verus!
