//! Choosing and running a typing tool.

use way_dictation::injector::{InjectMethod, Injector, NoTool, Session, Tool};

fn bare() -> Session {
    Session {
        wayland_display: None,
        current_desktop: None,
        kde_full_session: None,
        wtype: false,
        ydotool: false,
        xdotool: false,
    }
}

fn wayland() -> Session {
    Session { wayland_display: Some("wayland-0".to_string()), wtype: true, ydotool: true, ..bare() }
}

fn auto() -> Injector {
    Injector::new(InjectMethod::Auto)
}

#[test]
fn method_parsing() {
    assert_eq!(InjectMethod::parse("auto").unwrap(), InjectMethod::Auto);
    assert_eq!(InjectMethod::parse("wtype").unwrap(), InjectMethod::WType);
    assert!(InjectMethod::parse("nope").is_err());
}

#[test]
fn unknown_methods_are_told() {
    assert_eq!(InjectMethod::parse("ydotool").unwrap(), InjectMethod::Ydotool);
    assert_eq!(InjectMethod::parse("xdotool").unwrap(), InjectMethod::Xdotool);
    assert_eq!(
        InjectMethod::parse("a\"b").unwrap_err().message(),
        "unknown inject method \"a\\\"b\" (expected auto|wtype|ydotool|xdotool)"
    );
}

#[test]
fn auto_resolves_on_headless_box() {
    // no Wayland, no X11 and no tools
    let inj = Injector::new(InjectMethod::Auto);
    let err = inj.type_text("hello", &bare()).unwrap_err().message();
    assert!(err.contains("injection tool"), "{err}");
}

#[test]
fn wayland_prefers_wtype_except_on_kde() {
    assert_eq!(auto().resolve(&wayland()), Ok(Tool::WType));
    let kde = Session { current_desktop: Some("foo:KDE".to_string()), ..wayland() };
    assert!(kde.is_kde());
    assert_eq!(auto().resolve(&kde), Ok(Tool::Ydotool));
    let full = Session { kde_full_session: Some("true".to_string()), ..wayland() };
    assert_eq!(auto().resolve(&full), Ok(Tool::Ydotool));
    let unset = Session { kde_full_session: Some("".to_string()), ..wayland() };
    assert!(!unset.is_kde());
    let poor = Session { ydotool: false, ..kde };
    assert_eq!(auto().resolve(&poor), Ok(Tool::WType));
    let other = Session { wtype: false, ..wayland() };
    assert_eq!(auto().resolve(&other), Ok(Tool::Ydotool));
}

#[test]
fn missing_tools_are_told() {
    let none = Session { wtype: false, ydotool: false, xdotool: true, ..wayland() };
    assert_eq!(auto().resolve(&none), Err(NoTool::Wayland));
    let kde = Session { current_desktop: Some("KDE".to_string()), ..none };
    assert_eq!(auto().resolve(&kde), Err(NoTool::Kde));
    assert_eq!(
        NoTool::Kde.message(),
        "KDE/Wayland session but neither ydotool nor wtype found. \
         Install ydotool (and start the ydotoold user service)."
    );
    assert_eq!(
        NoTool::Wayland.message(),
        "Wayland session but neither wtype nor ydotool found. Install wtype (non-KDE) or ydotool."
    );
    assert_eq!(NoTool::Any.message(), "No injection tool found (wtype/ydotool/xdotool).");
}

#[test]
fn x11_uses_xdotool() {
    let x11 = Session { wayland_display: Some("".to_string()), xdotool: true, ..bare() };
    let (tool, run) = auto().type_text("a b", &x11).unwrap().unwrap();
    assert_eq!(tool, Tool::Xdotool);
    assert_eq!(run.program, "xdotool");
    assert_eq!(run.args, vec!["type", "--delay", "20", "a b"]);
}

#[test]
fn a_chosen_method_is_used_as_it_is() {
    let run = |method: InjectMethod| {
        Injector::new(method).type_text("a  b c", &bare()).unwrap().unwrap().1
    };
    assert_eq!(run(InjectMethod::WType).args, vec!["-s", "20", "a    b  c"]);
    assert_eq!(run(InjectMethod::Ydotool).args, vec!["type", "--key-delay", "20", "a  b c"]);
    assert!(auto().type_text("", &bare()).unwrap().is_none());
}

#[test]
fn keys_are_pressed() {
    let run = |method: InjectMethod| Injector::new(method).type_command("Return", &bare()).unwrap().1;
    assert_eq!(run(InjectMethod::WType).args, vec!["-k", "Return"]);
    assert_eq!(run(InjectMethod::Ydotool).args, vec!["key", "Return"]);
    assert_eq!(run(InjectMethod::Xdotool).program, "xdotool");
    assert_eq!(auto().type_command("Return", &bare()).unwrap_err(), NoTool::Any);
}

#[test]
fn ydotool_is_the_second_try_of_wtype() {
    let i = auto();
    let again = i.type_text_fallback("a b", Tool::WType, false, true).unwrap();
    assert_eq!(again.program, "ydotool");
    assert_eq!(again.args, vec!["type", "--key-delay", "20", "a b"]);
    assert!(i.type_text_fallback("a", Tool::WType, true, true).is_none());
    assert!(i.type_text_fallback("a", Tool::WType, false, false).is_none());
    assert!(i.type_text_fallback("a", Tool::Xdotool, false, true).is_none());
    let key = i.type_command_fallback("Return", Tool::WType, false, true).unwrap();
    assert_eq!(key.args, vec!["key", "Return"]);
    assert!(i.type_command_fallback("Return", Tool::Ydotool, false, true).is_none());
}
