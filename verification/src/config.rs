//! Where settings and API keys are kept, in which order keys are looked for,
//! and what the settings are.
//!
//! Paths are byte strings, as the system keeps them.

use vstd::prelude::*;
use vstd::slice::slice_to_vec;
use vstd::string::*;
use vstd::utf8::*;

verus! {

/// The bytes of a text.
pub open spec fn bytes_of(text: Seq<char>) -> Seq<u8> {
    encode_utf8(text)
}

/// A relative path below a directory.
pub open spec fn path_below(dir: Seq<u8>, path: Seq<u8>) -> Seq<u8> {
    if dir.len() == 0 {
        path
    } else if dir.last() == 0x2f {
        dir + path
    } else {
        dir.push(0x2f) + path
    }
}

/// The directory that holds the settings of programs, from `XDG_CONFIG_HOME` and
/// `HOME`.
pub open spec fn config_base(xdg: Option<Seq<u8>>, home: Option<Seq<u8>>) -> Seq<u8> {
    match (xdg, home) {
        (Some(x), _) if x.len() > 0 => x,
        (_, Some(h)) => path_below(h, bytes_of(".config"@)),
        _ => bytes_of(".config"@),
    }
}

/// The directory of the settings, from `XDG_CONFIG_HOME` and `HOME`.
pub open spec fn config_path(xdg: Option<Seq<u8>>, home: Option<Seq<u8>>) -> Seq<u8> {
    path_below(config_base(xdg, home), bytes_of("way-dictation"@))
}

/// The bytes of an optional path.
pub open spec fn path_view(path: Option<&[u8]>) -> Option<Seq<u8>> {
    match path {
        Some(p) => Some(p@),
        None => None,
    }
}

fn join_path(dir: &[u8], path: &str) -> (joined: Vec<u8>)
    ensures
        joined@ == path_below(dir@, bytes_of(path@)),
{
    let mut joined: Vec<u8> = Vec::new();
    let mut i: usize = 0;
    while i < dir.len()
        invariant
            0 <= i <= dir@.len(),
            joined@ =~= dir@.take(i as int),
        decreases dir@.len() - i,
    {
        joined.push(dir[i]);
        i += 1;
    }
    assert(dir@.take(i as int) =~= dir@);
    if dir.len() > 0 && dir[dir.len() - 1] != 0x2f {
        joined.push(0x2f);
    }
    let ghost start = joined@;
    let tail: &[u8] = path.as_bytes();
    let mut k: usize = 0;
    while k < tail.len()
        invariant
            tail@ == bytes_of(path@),
            0 <= k <= tail@.len(),
            joined@ =~= start + tail@.take(k as int),
        decreases tail@.len() - k,
    {
        joined.push(tail[k]);
        k += 1;
    }
    assert(tail@.take(k as int) =~= tail@);
    assert(joined@ =~= path_below(dir@, bytes_of(path@)));
    joined
}

/// `$XDG_CONFIG_HOME/way-dictation`, or `~/.config/way-dictation` where that
/// variable is unset or empty.
pub fn config_dir(xdg: Option<&[u8]>, home: Option<&[u8]>) -> (dir: Vec<u8>)
    ensures
        dir@ == config_path(path_view(xdg), path_view(home)),
{
    if let Some(x) = xdg {
        if x.len() > 0 {
            return join_path(x, "way-dictation");
        }
    }
    match home {
        Some(h) => join_path(&join_path(h, ".config"), "way-dictation"),
        None => join_path(".config".as_bytes(), "way-dictation"),
    }
}

/// The file of the saved API keys, in the directory of the settings.
pub fn key_file(config_dir: &[u8]) -> (path: Vec<u8>)
    ensures
        path@ == path_below(config_dir@, bytes_of("keys.env"@)),
{
    join_path(config_dir, "keys.env")
}

/// The file of the settings, in their directory.
pub fn config_file(config_dir: &[u8]) -> (path: Vec<u8>)
    ensures
        path@ == path_below(config_dir@, bytes_of("config.json"@)),
{
    join_path(config_dir, "config.json")
}

// ---------------------------------------------------------------------------
// Parent directories
// ---------------------------------------------------------------------------

/// How many bytes at the front of a path are no name: the slash of a path from
/// the root, or the dot of one that starts in the working directory.
pub open spec fn front_len(path: Seq<u8>) -> nat {
    if path.len() > 0 && (path[0] == 0x2f || (path[0] == 0x2e && (path.len() == 1 || path[1]
        == 0x2f))) {
        1
    } else {
        0
    }
}

/// Where the last name among the first `n` bytes of a path starts.
pub open spec fn name_start(path: Seq<u8>, front: nat, n: nat) -> nat
    decreases n,
{
    if n <= front || path[n - 1] == 0x2f {
        n
    } else {
        name_start(path, front, (n - 1) as nat)
    }
}

/// How many bytes are left of the first `n` bytes of a path without the last
/// name and the slash before it.
pub open spec fn without_name(path: Seq<u8>, front: nat, n: nat) -> nat {
    let start = name_start(path, front, n);
    if start > front {
        (start - 1) as nat
    } else {
        start
    }
}

/// Whether the first `n` bytes of a path end in a name that leads nowhere: an
/// empty one, or a dot.
pub open spec fn ends_idly(path: Seq<u8>, front: nat, n: nat) -> bool {
    let start = name_start(path, front, n);
    n > front && (start == n || (start == n - 1 && path[n - 1] == 0x2e))
}

/// How many of the first `n` bytes of a path are left without the names at the
/// end that lead nowhere.
pub open spec fn settled_len(path: Seq<u8>, front: nat, n: nat) -> nat
    decreases n,
{
    if ends_idly(path, front, n) {
        settled_len(path, front, without_name(path, front, n))
    } else {
        n
    }
}

/// A path without the names at its end that lead nowhere.
pub open spec fn settled(path: Seq<u8>) -> Seq<u8> {
    path.take(settled_len(path, front_len(path), path.len()) as int)
}

/// The directory that holds what a path leads to: the path without its last
/// name. The root has none, and neither has the empty path.
pub open spec fn parent_path(path: Seq<u8>) -> Option<Seq<u8>> {
    let front = front_len(path);
    let n = settled_len(path, front, path.len());
    if n > front {
        Some(path.take(settled_len(path, front, without_name(path, front, n)) as int))
    } else if front == 1 && path[0] == 0x2e {
        Some(Seq::empty())
    } else {
        None
    }
}

fn find_name(path: &[u8], front: usize, n: usize) -> (start: usize)
    requires
        n <= path@.len(),
    ensures
        start == name_start(path@, front as nat, n as nat),
        start <= n,
        n >= front ==> start >= front,
{
    let mut start: usize = n;
    while start > front && path[start - 1] != 0x2f
        invariant
            start <= n <= path@.len(),
            n >= front ==> start >= front,
            name_start(path@, front as nat, n as nat) == name_start(
                path@,
                front as nat,
                start as nat,
            ),
        decreases start,
    {
        start -= 1;
    }
    start
}

fn drop_name(path: &[u8], front: usize, n: usize) -> (left: usize)
    requires
        front <= n <= path@.len(),
    ensures
        left == without_name(path@, front as nat, n as nat),
        front <= left <= n,
{
    let start: usize = find_name(path, front, n);
    if start > front {
        start - 1
    } else {
        start
    }
}

fn settle(path: &[u8], front: usize, n: usize) -> (left: usize)
    requires
        front <= n <= path@.len(),
    ensures
        left == settled_len(path@, front as nat, n as nat),
        front <= left <= n,
{
    let mut left: usize = n;
    while left > front
        invariant_except_break
            front <= left <= n <= path@.len(),
            settled_len(path@, front as nat, n as nat) == settled_len(
                path@,
                front as nat,
                left as nat,
            ),
        ensures
            front <= left <= n,
            left == settled_len(path@, front as nat, n as nat),
        decreases left,
    {
        let start: usize = find_name(path, front, left);
        if start == left || (start == left - 1 && path[start] == 0x2e) {
            left = drop_name(path, front, left);
        } else {
            break;
        }
    }
    left
}

/// The directory that holds what a path leads to.
pub fn parent_of(path: &[u8]) -> (parent: Option<Vec<u8>>)
    ensures
        match parent_path(path@) {
            Some(p) => parent matches Some(v) && v@ == p,
            None => parent is None,
        },
{
    let len: usize = path.len();
    let front: usize = if len > 0 && (path[0] == 0x2f || (path[0] == 0x2e && (len == 1 || path[1]
        == 0x2f))) {
        1
    } else {
        0
    };
    let n: usize = settle(path, front, len);
    if n > front {
        let left: usize = settle(path, front, drop_name(path, front, n));
        let parent = slice_to_vec(&path[0..left]);
        assert(parent@ =~= path@.take(left as int));
        Some(parent)
    } else if front == 1 && path[0] == 0x2e {
        Some(Vec::new())
    } else {
        None
    }
}

/// Whether bytes are the name of something in a directory: they hold no slash,
/// and are not the dot that stands for the directory itself.
pub open spec fn is_name(name: Seq<u8>) -> bool {
    &&& name.len() > 0
    &&& forall|i: int| 0 <= i < name.len() ==> (#[trigger] name[i]) != 0x2f
    &&& !(name.len() == 1 && name[0] == 0x2e)
}

/// The directory that holds a name below a directory is that directory, however
/// it is written.
pub proof fn law_parent_undoes_joining(dir: Seq<u8>, name: Seq<u8>)
    requires
        dir.len() > 0,
        is_name(name),
    ensures
        parent_path(path_below(dir, name)) == Some(settled(dir)),
{
    let path = path_below(dir, name);
    let front = front_len(dir);
    let start = (path.len() - name.len()) as nat;
    assert forall|i: int| 0 <= i < dir.len() implies path[i] == dir[i] by {}
    assert forall|i: int| start <= i < path.len() implies (#[trigger] path[i]) != 0x2f by {
        assert(path[i] == name[i - start]);
    }
    assert(path[start - 1] == 0x2f);
    assert(front_len(path) == front);
    lemma_name_start(path, front, start, path.len());
    assert(path[path.len() - 1] == name[name.len() - 1]);
    assert(settled_len(path, front, path.len()) == path.len());
    let left = without_name(path, front, path.len());
    if dir.last() == 0x2f && dir.len() > front {
        assert(left == dir.len() - 1);
        assert(name_start(dir, front, dir.len()) == dir.len());
        lemma_settled_prefix(dir, path, front, left);
    } else {
        assert(left == dir.len());
        lemma_settled_prefix(dir, path, front, left);
    }
    let n = settled_len(dir, front, dir.len());
    lemma_settled_bound(dir, front, dir.len());
    assert(path.take(n as int) =~= dir.take(n as int));
}

proof fn lemma_name_start(path: Seq<u8>, front: nat, start: nat, n: nat)
    requires
        front <= start <= n <= path.len(),
        start > 0 && path[start - 1] == 0x2f,
        forall|i: int| start <= i < n ==> (#[trigger] path[i]) != 0x2f,
    ensures
        name_start(path, front, n) == start,
    decreases n,
{
    if n > start {
        assert(path[n - 1] != 0x2f);
        lemma_name_start(path, front, start, (n - 1) as nat);
    }
}

proof fn lemma_name_prefix(short: Seq<u8>, long: Seq<u8>, front: nat, n: nat)
    requires
        n <= short.len() <= long.len(),
        forall|i: int| 0 <= i < n ==> (#[trigger] short[i]) == long[i],
    ensures
        name_start(short, front, n) == name_start(long, front, n),
        name_start(short, front, n) <= n,
    decreases n,
{
    if n > front {
        assert(short[n - 1] == long[n - 1]);
        if short[n - 1] != 0x2f {
            lemma_name_prefix(short, long, front, (n - 1) as nat);
        }
    }
}

proof fn lemma_settled_prefix(short: Seq<u8>, long: Seq<u8>, front: nat, n: nat)
    requires
        n <= short.len() <= long.len(),
        forall|i: int| 0 <= i < n ==> (#[trigger] short[i]) == long[i],
    ensures
        settled_len(short, front, n) == settled_len(long, front, n),
    decreases n,
{
    lemma_name_prefix(short, long, front, n);
    if n > front {
        assert(short[n - 1] == long[n - 1]);
    }
    if ends_idly(short, front, n) {
        lemma_settled_prefix(short, long, front, without_name(short, front, n));
    }
}

proof fn lemma_settled_bound(path: Seq<u8>, front: nat, n: nat)
    ensures
        settled_len(path, front, n) <= n,
    decreases n,
{
    if ends_idly(path, front, n) {
        lemma_settled_bound(path, front, without_name(path, front, n));
    }
}

// ---------------------------------------------------------------------------
// API keys
// ---------------------------------------------------------------------------

/// One step of loading API keys. A step sets only variables that are not set.
#[derive(Debug)]
pub enum EnvStep {
    /// Load this file if it is there.
    File(Vec<u8>),
    /// Load the nearest `.env` of the working directory and those above it.
    WorkingDirectory,
}

/// The mathematical content of an [`EnvStep`].
#[verifier::ext_equal]
pub enum EnvStepView {
    File(Seq<u8>),
    WorkingDirectory,
}

impl View for EnvStep {
    type V = EnvStepView;

    open spec fn view(&self) -> EnvStepView {
        match self {
            EnvStep::File(path) => EnvStepView::File(path@),
            EnvStep::WorkingDirectory => EnvStepView::WorkingDirectory,
        }
    }
}

/// The content of each step of a list.
pub open spec fn step_views(steps: Seq<EnvStep>) -> Seq<EnvStepView> {
    Seq::new(steps.len(), |i: int| steps[i]@)
}

/// The steps in which API keys are loaded: the saved keys, the keys saved under
/// the program's former name beside them, the `.env` of the project, and the `.env` of the
/// working directory.
pub open spec fn env_steps(
    config_dir: Seq<u8>,
    project_root: Option<Seq<u8>>,
) -> Seq<EnvStepView> {
    let saved = seq![EnvStepView::File(path_below(config_dir, bytes_of("keys.env"@)))];
    let former = match parent_path(config_dir) {
        Some(p) => seq![
            EnvStepView::File(
                path_below(path_below(p, bytes_of("groq-dictation"@)), bytes_of("keys.env"@)),
            ),
        ],
        None => Seq::empty(),
    };
    let project = match project_root {
        Some(r) => seq![EnvStepView::File(path_below(r, bytes_of(".env"@)))],
        None => Seq::empty(),
    };
    saved + former + project + seq![EnvStepView::WorkingDirectory]
}

/// The steps in which API keys are loaded.
pub fn load_env(config_dir: &[u8], project_root: Option<&[u8]>) -> (steps: Vec<EnvStep>)
    ensures
        step_views(steps@) == env_steps(config_dir@, path_view(project_root)),
{
    let mut steps: Vec<EnvStep> = Vec::new();
    steps.push(EnvStep::File(key_file(config_dir)));
    if let Some(p) = parent_of(config_dir) {
        steps.push(EnvStep::File(join_path(&join_path(&p, "groq-dictation"), "keys.env")));
    }
    if let Some(root) = project_root {
        steps.push(EnvStep::File(join_path(root, ".env")));
    }
    steps.push(EnvStep::WorkingDirectory);
    assert(step_views(steps@) =~= env_steps(config_dir@, path_view(project_root)));
    steps
}

/// The keys saved under the program's former name are looked for next to the
/// directory of the settings, right after the saved keys: in a directory that
/// the same directory holds.
pub proof fn law_former_keys_stand_beside(
    xdg: Option<Seq<u8>>,
    home: Option<Seq<u8>>,
    project_root: Option<Seq<u8>>,
)
    ensures
        ({
            let base = settled(config_base(xdg, home));
            let former = path_below(base, bytes_of("groq-dictation"@));
            &&& parent_path(config_path(xdg, home)) == Some(base)
            &&& env_steps(config_path(xdg, home), project_root)[1] == EnvStepView::File(
                path_below(former, bytes_of("keys.env"@)),
            )
        }),
{
    reveal_strlit("way-dictation");
    reveal_strlit(".config");
    is_ascii_chars_encode_utf8("way-dictation"@);
    is_ascii_chars_encode_utf8(".config"@);
    let name = bytes_of("way-dictation"@);
    assert(is_name(name)) by {
        assert forall|i: int| 0 <= i < name.len() implies (#[trigger] name[i]) != 0x2f by {
            assert(name[i] == "way-dictation"@[i] as u8);
        }
    }
    law_parent_undoes_joining(config_base(xdg, home), name);
}

/// Variables and their values.
pub type Vars = Map<Seq<char>, Seq<char>>;

/// The environment after files were loaded in order, each of which sets only
/// the variables that are not set yet.
pub open spec fn after_loading(env: Vars, files: Seq<Vars>) -> Vars
    decreases files.len(),
{
    if files.len() == 0 {
        env
    } else {
        files.last().union_prefer_right(after_loading(env, files.drop_last()))
    }
}

/// A variable of the environment keeps its value whatever is loaded; any other
/// gets the value that the first file to name it gives.
pub proof fn law_first_source_wins(env: Vars, files: Seq<Vars>, name: Seq<char>, i: int)
    requires
        0 <= i < files.len(),
        files[i].contains_key(name),
        forall|j: int| 0 <= j < i ==> !(#[trigger] files[j]).contains_key(name),
    ensures
        after_loading(env, files).contains_key(name),
        after_loading(env, files)[name] == if env.contains_key(name) {
            env[name]
        } else {
            files[i][name]
        },
    decreases files.len(),
{
    let front = files.drop_last();
    if i < front.len() {
        assert(front[i] == files[i]);
        assert forall|j: int| 0 <= j < i implies !(#[trigger] front[j]).contains_key(name) by {
            assert(front[j] == files[j]);
        }
        law_first_source_wins(env, front, name, i);
    } else {
        assert forall|j: int| 0 <= j < front.len() implies !(
        #[trigger] front[j]).contains_key(name) by {
            assert(front[j] == files[j]);
        }
        lemma_unnamed(env, front, name);
    }
}

proof fn lemma_unnamed(env: Vars, files: Seq<Vars>, name: Seq<char>)
    requires
        forall|j: int| 0 <= j < files.len() ==> !(#[trigger] files[j]).contains_key(name),
    ensures
        after_loading(env, files).contains_key(name) == env.contains_key(name),
        env.contains_key(name) ==> after_loading(env, files)[name] == env[name],
    decreases files.len(),
{
    if files.len() > 0 {
        let front = files.drop_last();
        assert forall|j: int| 0 <= j < front.len() implies !(
        #[trigger] front[j]).contains_key(name) by {
            assert(front[j] == files[j]);
        }
        lemma_unnamed(env, front, name);
        assert(!files[files.len() - 1].contains_key(name));
    }
}

/// The environment after the steps were taken in order, where `content` says
/// what each step finds.
pub open spec fn after_steps(
    env: Vars,
    steps: Seq<EnvStepView>,
    content: spec_fn(EnvStepView) -> Vars,
) -> Vars {
    after_loading(env, Seq::new(steps.len(), |i: int| content(steps[i])))
}

/// A variable that is set in the environment wins over every file, and one that
/// is not gets its value from the saved keys wherever they name it, whatever
/// the other files say.
pub proof fn law_saved_keys_take_priority(
    env: Vars,
    config_dir: Seq<u8>,
    project_root: Option<Seq<u8>>,
    content: spec_fn(EnvStepView) -> Vars,
    name: Seq<char>,
)
    ensures
        ({
            let saved = content(
                EnvStepView::File(path_below(config_dir, bytes_of("keys.env"@))),
            );
            let after = after_steps(env, env_steps(config_dir, project_root), content);
            &&& env.contains_key(name) ==> after.contains_key(name) && after[name] == env[name]
            &&& !env.contains_key(name) && saved.contains_key(name) ==> after.contains_key(name)
                && after[name] == saved[name]
        }),
{
    let steps = env_steps(config_dir, project_root);
    let files = Seq::new(steps.len(), |i: int| content(steps[i]));
    lemma_set_stays(env, files, name);
    if files[0].contains_key(name) {
        law_first_source_wins(env, files, name, 0);
    }
}

proof fn lemma_set_stays(env: Vars, files: Seq<Vars>, name: Seq<char>)
    ensures
        env.contains_key(name) ==> after_loading(env, files).contains_key(name) && after_loading(
            env,
            files,
        )[name] == env[name],
    decreases files.len(),
{
    if files.len() > 0 {
        lemma_set_stays(env, files.drop_last(), name);
    }
}

/// The `.env` of the working directory comes last: it gives a variable its
/// value only where no other step names it.
pub proof fn law_working_directory_comes_last(
    env: Vars,
    config_dir: Seq<u8>,
    project_root: Option<Seq<u8>>,
    content: spec_fn(EnvStepView) -> Vars,
    name: Seq<char>,
    i: int,
)
    requires
        0 <= i < env_steps(config_dir, project_root).len() - 1,
        content(env_steps(config_dir, project_root)[i]).contains_key(name),
    ensures
        ({
            let steps = env_steps(config_dir, project_root);
            let without = after_steps(env, steps.drop_last(), content);
            let after = after_steps(env, steps, content);
            &&& steps.last() == EnvStepView::WorkingDirectory
            &&& after.contains_key(name) && without.contains_key(name)
            &&& after[name] == without[name]
        }),
{
    let steps = env_steps(config_dir, project_root);
    let files = Seq::new(steps.len(), |k: int| content(steps[k]));
    let front = steps.drop_last();
    let early = Seq::new(front.len(), |k: int| content(front[k]));
    assert(files.drop_last() =~= early);
    lemma_named_is_set(env, early, name, i);
}

proof fn lemma_named_is_set(env: Vars, files: Seq<Vars>, name: Seq<char>, i: int)
    requires
        0 <= i < files.len(),
        files[i].contains_key(name),
    ensures
        after_loading(env, files).contains_key(name),
    decreases files.len(),
{
    if i < files.len() - 1 {
        lemma_named_is_set(env, files.drop_last(), name, i);
    }
}

/// The line of a key file that sets a variable: nothing for an empty key.
pub open spec fn key_line(name: Seq<char>, key: Seq<char>) -> Seq<char> {
    if key.len() > 0 {
        name + "="@ + key + "\n"@
    } else {
        Seq::empty()
    }
}

fn push_key_line(lines: &mut String, name: &str, key: &str)
    ensures
        final(lines)@ == old(lines)@ + key_line(name@, key@),
{
    if !key.is_empty() {
        let line = name.to_string().concat("=").concat(key).concat("\n");
        lines.append(line.as_str());
    }
    assert(lines@ =~= old(lines)@ + key_line(name@, key@));
}

/// What is written to the key file.
pub fn save_keys(groq: &str, openrouter: &str) -> (content: String)
    ensures
        content@ == key_line("GROQ_API_KEY"@, groq@) + key_line(
            "OPENROUTER_API_KEY"@,
            openrouter@,
        ),
{
    let mut lines = String::new();
    push_key_line(&mut lines, "GROQ_API_KEY", groq);
    push_key_line(&mut lines, "OPENROUTER_API_KEY", openrouter);
    assert(lines@ =~= key_line("GROQ_API_KEY"@, groq@) + key_line(
        "OPENROUTER_API_KEY"@,
        openrouter@,
    ));
    lines
}

// ---------------------------------------------------------------------------
// Settings
// ---------------------------------------------------------------------------

/// The settings of the desktop widget.
#[derive(Debug, Clone)]
pub struct Settings {
    pub provider: String,
    pub language: String,
    pub model: String,
    pub always_on_top: bool,
    pub pos: Option<[i32; 2]>,
}

/// The mathematical content of [`Settings`].
#[verifier::ext_equal]
pub struct SettingsView {
    pub provider: Seq<char>,
    pub language: Seq<char>,
    pub model: Seq<char>,
    pub always_on_top: bool,
    pub pos: Option<(i32, i32)>,
}

impl View for Settings {
    type V = SettingsView;

    open spec fn view(&self) -> SettingsView {
        SettingsView {
            provider: self.provider@,
            language: self.language@,
            model: self.model@,
            always_on_top: self.always_on_top,
            pos: match self.pos {
                Some(p) => Some((p@[0], p@[1])),
                None => None,
            },
        }
    }
}

/// The provider of a widget that was never set up.
pub fn default_provider() -> (provider: String)
    ensures
        provider@ == "gpt-transcribe"@,
{
    "gpt-transcribe".to_string()
}

/// What a switch that is on by default is when nothing sets it.
pub fn default_true() -> (on: bool)
    ensures
        on,
{
    true
}

/// The settings of a widget that was never set up.
pub open spec fn default_settings() -> SettingsView {
    SettingsView {
        provider: "gpt-transcribe"@,
        language: Seq::empty(),
        model: Seq::empty(),
        always_on_top: true,
        pos: None,
    }
}

impl Default for Settings {
    fn default() -> (settings: Self)
        ensures
            settings@ == default_settings(),
    {
        let settings = Settings {
            provider: default_provider(),
            language: String::new(),
            model: String::new(),
            always_on_top: default_true(),
            pos: None,
        };
        assert(settings@ =~= default_settings());
        settings
    }
}

/// What the file of the settings holds, member by member.
#[derive(Debug)]
pub struct SavedSettings {
    pub provider: Option<String>,
    pub language: Option<String>,
    pub model: Option<String>,
    pub always_on_top: Option<bool>,
    pub pos: Option<[i32; 2]>,
}

/// The mathematical content of [`SavedSettings`].
#[verifier::ext_equal]
pub struct SavedView {
    pub provider: Option<Seq<char>>,
    pub language: Option<Seq<char>>,
    pub model: Option<Seq<char>>,
    pub always_on_top: Option<bool>,
    pub pos: Option<(i32, i32)>,
}

/// The characters of an optional text.
pub open spec fn text_view(text: Option<String>) -> Option<Seq<char>> {
    match text {
        Some(t) => Some(t@),
        None => None,
    }
}

impl View for SavedSettings {
    type V = SavedView;

    open spec fn view(&self) -> SavedView {
        SavedView {
            provider: text_view(self.provider),
            language: text_view(self.language),
            model: text_view(self.model),
            always_on_top: self.always_on_top,
            pos: match self.pos {
                Some(p) => Some((p@[0], p@[1])),
                None => None,
            },
        }
    }
}

/// A member that was saved, or else its default.
pub open spec fn or_default<T>(saved: Option<T>, default: T) -> T {
    match saved {
        Some(value) => value,
        None => default,
    }
}

/// The settings that a file holds: a member that is missing has its default.
pub open spec fn read_settings(saved: SavedView) -> SettingsView {
    let default = default_settings();
    SettingsView {
        provider: or_default(saved.provider, default.provider),
        language: or_default(saved.language, default.language),
        model: or_default(saved.model, default.model),
        always_on_top: or_default(saved.always_on_top, default.always_on_top),
        pos: saved.pos,
    }
}

/// What the file of the settings is to hold: every member.
pub open spec fn saved_members(settings: SettingsView) -> SavedView {
    SavedView {
        provider: Some(settings.provider),
        language: Some(settings.language),
        model: Some(settings.model),
        always_on_top: Some(settings.always_on_top),
        pos: settings.pos,
    }
}

/// The settings to start with: those of the file, if one could be read.
pub fn load_settings(read: Option<SavedSettings>) -> (settings: Settings)
    ensures
        settings@ == match read {
            Some(saved) => read_settings(saved@),
            None => default_settings(),
        },
{
    let default = Settings::default();
    let saved = match read {
        Some(s) => s,
        None => {
            return default;
        },
    };
    let settings = Settings {
        provider: match saved.provider {
            Some(p) => p,
            None => default.provider,
        },
        language: match saved.language {
            Some(l) => l,
            None => default.language,
        },
        model: match saved.model {
            Some(m) => m,
            None => default.model,
        },
        always_on_top: match saved.always_on_top {
            Some(on) => on,
            None => default.always_on_top,
        },
        pos: saved.pos,
    };
    assert(settings@ =~= read_settings(saved@));
    settings
}

/// What the file of the settings is to hold.
pub fn save_settings(settings: &Settings) -> (saved: SavedSettings)
    ensures
        saved@ == saved_members(settings@),
{
    SavedSettings {
        provider: Some(settings.provider.as_str().to_string()),
        language: Some(settings.language.as_str().to_string()),
        model: Some(settings.model.as_str().to_string()),
        always_on_top: Some(settings.always_on_top),
        pos: settings.pos,
    }
}

/// Settings that were saved are read back as they were.
pub proof fn law_saved_settings_are_read_back(settings: SettingsView)
    ensures
        read_settings(saved_members(settings)) == settings,
{
}

/// A member that the file lacks has its default, and any other is as the file
/// has it, whatever the rest of the file holds.
pub proof fn law_missing_members_take_defaults(saved: SavedView)
    ensures
        ({
            let (read, default) = (read_settings(saved), default_settings());
            &&& saved.provider is None ==> read.provider == default.provider
            &&& saved.language is None ==> read.language == default.language
            &&& saved.model is None ==> read.model == default.model
            &&& saved.always_on_top is None ==> read.always_on_top == default.always_on_top
            &&& saved.pos is None ==> read.pos == default.pos
            &&& saved.provider matches Some(p) ==> read.provider == p
            &&& saved.language matches Some(l) ==> read.language == l
            &&& saved.model matches Some(m) ==> read.model == m
            &&& saved.always_on_top matches Some(on) ==> read.always_on_top == on
            &&& saved.pos is Some ==> read.pos == saved.pos
        }),
{
}

// ---------------------------------------------------------------------------
// Laws
// ---------------------------------------------------------------------------

/// A path below a directory is the directory, one slash and the path; a slash
/// that ends the directory is not repeated, and the empty directory adds none.
pub proof fn law_a_path_below_is_joined_by_one_slash(dir: Seq<u8>, path: Seq<u8>)
    ensures
        dir.len() == 0 ==> path_below(dir, path) == path,
        dir.len() > 0 && dir.last() == 0x2f ==> path_below(dir, path) == dir + path,
        dir.len() > 0 && dir.last() != 0x2f ==> path_below(dir, path) == dir + seq![0x2fu8] + path,
{
    assert(dir.push(0x2f) =~= dir + seq![0x2fu8]);
}

/// The settings stand below `XDG_CONFIG_HOME` where that is set to something,
/// else below `.config` in the home directory, else below `.config`.
pub proof fn law_settings_stand_in_the_configuration(x: Seq<u8>, h: Seq<u8>, home: Option<Seq<u8>>)
    ensures
        x.len() > 0 ==> config_path(Some(x), home) == path_below(x, bytes_of("way-dictation"@)),
        config_path(None, Some(h)) == path_below(
            path_below(h, bytes_of(".config"@)),
            bytes_of("way-dictation"@),
        ),
        config_path(Some(Seq::empty()), home) == config_path(None, home),
        config_path(None, None) == path_below(bytes_of(".config"@), bytes_of("way-dictation"@)),
{
}

/// Keys are loaded from the saved keys, those of the former name, the project
/// and the working directory, in this order.
pub proof fn law_keys_are_loaded_in_order(config_dir: Seq<u8>, parent: Seq<u8>, root: Seq<u8>)
    requires
        parent_path(config_dir) == Some(parent),
    ensures
        env_steps(config_dir, Some(root)) == seq![
            EnvStepView::File(path_below(config_dir, bytes_of("keys.env"@))),
            EnvStepView::File(
                path_below(path_below(parent, bytes_of("groq-dictation"@)), bytes_of("keys.env"@)),
            ),
            EnvStepView::File(path_below(root, bytes_of(".env"@))),
            EnvStepView::WorkingDirectory,
        ],
        env_steps(config_dir, None) == seq![
            EnvStepView::File(path_below(config_dir, bytes_of("keys.env"@))),
            EnvStepView::File(
                path_below(path_below(parent, bytes_of("groq-dictation"@)), bytes_of("keys.env"@)),
            ),
            EnvStepView::WorkingDirectory,
        ],
{
    assert(env_steps(config_dir, Some(root)) =~= seq![
        EnvStepView::File(path_below(config_dir, bytes_of("keys.env"@))),
        EnvStepView::File(
            path_below(path_below(parent, bytes_of("groq-dictation"@)), bytes_of("keys.env"@)),
        ),
        EnvStepView::File(path_below(root, bytes_of(".env"@))),
        EnvStepView::WorkingDirectory,
    ]);
    assert(env_steps(config_dir, None) =~= seq![
        EnvStepView::File(path_below(config_dir, bytes_of("keys.env"@))),
        EnvStepView::File(
            path_below(path_below(parent, bytes_of("groq-dictation"@)), bytes_of("keys.env"@)),
        ),
        EnvStepView::WorkingDirectory,
    ]);
}

/// A variable that no file names is set after loading exactly where it was set
/// before, to the same value.
pub proof fn law_unnamed_variables_are_left_alone(env: Vars, files: Seq<Vars>, name: Seq<char>)
    requires
        forall|j: int| 0 <= j < files.len() ==> !(#[trigger] files[j]).contains_key(name),
    ensures
        after_loading(env, files).contains_key(name) == env.contains_key(name),
        env.contains_key(name) ==> after_loading(env, files)[name] == env[name],
{
    lemma_unnamed(env, files, name);
}

/// A key that is saved is a line of its own, whole; an empty key leaves no line.
pub proof fn law_a_saved_key_is_a_line(name: Seq<char>, key: Seq<char>)
    ensures
        key.len() == 0 ==> key_line(name, key) == Seq::<char>::empty(),
        key.len() > 0 ==> key_line(name, key) == name.push('=') + key.push('\n'),
{
    reveal_strlit("=");
    reveal_strlit("\n");
    if key.len() > 0 {
        assert(key_line(name, key) =~= name.push('=') + key.push('\n'));
    }
}

/// A path that ends in a name is as it should be: nothing is taken from it.
pub proof fn law_a_path_that_ends_in_a_name_is_settled(dir: Seq<u8>, name: Seq<u8>)
    requires
        is_name(name),
        dir.len() > 0,
    ensures
        settled(path_below(dir, name)) == path_below(dir, name),
{
    let path = path_below(dir, name);
    let front = front_len(dir);
    let start = (path.len() - name.len()) as nat;
    assert forall|i: int| 0 <= i < dir.len() implies path[i] == dir[i] by {}
    assert forall|i: int| start <= i < path.len() implies (#[trigger] path[i]) != 0x2f by {
        assert(path[i] == name[i - start]);
    }
    assert(path[start - 1] == 0x2f);
    assert(front_len(path) == front);
    lemma_name_start(path, front, start, path.len());
    assert(path[path.len() - 1] == name[name.len() - 1]);
    assert(settled_len(path, front, path.len()) == path.len());
    assert(path.take(path.len() as int) =~= path);
}

proof fn lemma_slashes_settle(path: Seq<u8>, n: nat)
    requires
        1 <= n <= path.len(),
        forall|i: int| 0 <= i < path.len() ==> (#[trigger] path[i]) == 0x2f,
    ensures
        settled_len(path, 1, n) == 1,
    decreases n,
{
    if n > 1 {
        assert(path[n - 1] == 0x2f);
        lemma_slashes_settle(path, (n - 1) as nat);
    }
}

/// The root has no parent, however many slashes it is written with, and neither
/// has the empty path. A name alone stands in the working directory.
pub proof fn law_the_root_has_no_parent(path: Seq<u8>, name: Seq<u8>)
    requires
        forall|i: int| 0 <= i < path.len() ==> (#[trigger] path[i]) == 0x2f,
        is_name(name),
    ensures
        parent_path(path) is None,
        parent_path(name) == Some(Seq::<u8>::empty()),
{
    if path.len() > 0 {
        assert(path[0] == 0x2f);
        lemma_slashes_settle(path, path.len());
    }
    assert(name[0] != 0x2f);
    if name.len() > 1 {
        assert(name[1] != 0x2f);
    }
    lemma_no_slash(name, name.len());
    assert(name[name.len() - 1] != 0x2f);
    assert(name.take(0) =~= Seq::empty());
}

proof fn lemma_no_slash(name: Seq<u8>, n: nat)
    requires
        n <= name.len(),
        forall|i: int| 0 <= i < name.len() ==> (#[trigger] name[i]) != 0x2f,
    ensures
        name_start(name, 0, n) == 0,
    decreases n,
{
    if n > 0 {
        assert(name[n - 1] != 0x2f);
        lemma_no_slash(name, (n - 1) as nat);
    }
}

/// Steps, settings and what a file holds are seen as they are.
pub proof fn law_settings_are_seen_whole(settings: Settings, text: String)
    ensures
        settings@.provider == settings.provider@,
        settings@.language == settings.language@,
        settings@.model == settings.model@,
        settings@.always_on_top == settings.always_on_top,
        settings.pos is None ==> settings@.pos is None,
        settings.pos matches Some(p) ==> settings@.pos == Some((p@[0], p@[1])),
        text_view(Some(text)) == Some(text@),
        text_view(None) is None,
        bytes_of(text@) == encode_utf8(text@),
{
}

/// What a file holds is seen member by member.
pub proof fn law_a_file_is_seen_whole(saved: SavedSettings)
    ensures
        saved@.provider == text_view(saved.provider),
        saved@.language == text_view(saved.language),
        saved@.model == text_view(saved.model),
        saved@.always_on_top == saved.always_on_top,
        saved.pos is None ==> saved@.pos is None,
        saved.pos matches Some(p) ==> saved@.pos == Some((p@[0], p@[1])),
{
}

/// Steps are seen as they are, in order.
pub proof fn law_steps_are_seen_whole(steps: Seq<EnvStep>, i: int)
    requires
        0 <= i < steps.len(),
    ensures
        step_views(steps).len() == steps.len(),
        steps[i] matches EnvStep::File(path) ==> step_views(steps)[i] == EnvStepView::File(path@),
        steps[i] is WorkingDirectory ==> step_views(steps)[i] == EnvStepView::WorkingDirectory,
{
}

/// The settings of a widget that was never set up.
pub proof fn law_the_default_provider_is_gpt_transcribe()
    ensures
        default_settings() == (SettingsView {
            provider: "gpt-transcribe"@,
            language: Seq::empty(),
            model: Seq::empty(),
            always_on_top: true,
            pos: None,
        }),
{
}

} // verus!
