//! Paths, keys and settings.

use way_dictation::config::{
    config_dir, config_file, default_provider, default_true, key_file, load_env, load_settings,
    parent_of, save_keys, save_settings, EnvStep, SavedSettings, Settings,
};

fn text(bytes: Vec<u8>) -> String {
    String::from_utf8(bytes).unwrap()
}

#[test]
fn settings_have_a_directory() {
    assert_eq!(text(config_dir(Some(b"/xdg"), Some(b"/home/u"))), "/xdg/way-dictation");
    assert_eq!(text(config_dir(Some(b"/xdg/"), None)), "/xdg/way-dictation");
    assert_eq!(text(config_dir(Some(b""), Some(b"/home/u"))), "/home/u/.config/way-dictation");
    assert_eq!(text(config_dir(None, Some(b""))), ".config/way-dictation");
    assert_eq!(text(config_dir(None, None)), ".config/way-dictation");
    // a path need not be text
    assert_eq!(config_dir(Some(&[0xff]), None), [&[0xff][..], b"/way-dictation"].concat());
}

#[test]
fn files_stand_in_the_directory() {
    assert_eq!(text(key_file(b"/c")), "/c/keys.env");
    assert_eq!(text(config_file(b"/c")), "/c/config.json");
}

#[test]
fn keys_are_loaded_in_order() {
    let paths = |steps: Vec<EnvStep>| -> Vec<String> {
        steps
            .into_iter()
            .map(|s| match s {
                EnvStep::File(path) => text(path),
                EnvStep::WorkingDirectory => "*".to_string(),
            })
            .collect()
    };
    assert_eq!(
        paths(load_env(b"/c/way-dictation", Some(b"/p"))),
        vec!["/c/way-dictation/keys.env", "/c/groq-dictation/keys.env", "/p/.env", "*"]
    );
    assert_eq!(
        paths(load_env(b"way-dictation", None)),
        vec!["way-dictation/keys.env", "groq-dictation/keys.env", "*"]
    );
    assert_eq!(paths(load_env(b"/", None)), vec!["/keys.env", "*"]);
    // however the directory is written
    for xdg in ["/xdg", "/xdg/", "/xdg//", "/xdg/./"] {
        let steps = paths(load_env(&config_dir(Some(xdg.as_bytes()), None), None));
        assert_eq!(steps[1], "/xdg/groq-dictation/keys.env");
    }
}

#[test]
fn directories_have_parents() {
    for path in [
        "", "/", "//", ".", "./", "..", "a", "a/", "/a", "//a", "./a", ".a", "a/b", "a//b", "a/./b",
        "/a/b/", "/a/b//", "/a/b/.", "a/..", "../a", "././a", "/.", "/./a", "/xdg/way-dictation",
        "a/.b", "./.", "é/ü",
    ] {
        let expected = std::path::Path::new(path).parent().map(|p| p.to_str().unwrap().to_string());
        assert_eq!(parent_of(path.as_bytes()).map(text), expected, "{path}");
    }
}

#[test]
fn keys_are_written() {
    assert_eq!(save_keys("a", "b"), "GROQ_API_KEY=a\nOPENROUTER_API_KEY=b\n");
    assert_eq!(save_keys("", "b"), "OPENROUTER_API_KEY=b\n");
    assert_eq!(save_keys("", ""), "");
}

#[test]
fn settings_have_defaults() {
    let s = Settings::default();
    assert_eq!((s.provider.as_str(), s.language.as_str(), s.model.as_str()), ("gpt-transcribe", "", ""));
    assert!(s.always_on_top);
    assert_eq!(s.pos, None);
    assert_eq!(default_provider(), "gpt-transcribe");
    assert!(default_true());
}

fn empty_file() -> SavedSettings {
    SavedSettings { provider: None, language: None, model: None, always_on_top: None, pos: None }
}

#[test]
fn settings_are_read_back() {
    let saved = Settings {
        provider: "groq".to_string(),
        language: "en".to_string(),
        model: "m".to_string(),
        always_on_top: false,
        pos: Some([1, -2]),
    };
    let s = load_settings(Some(save_settings(&saved)));
    assert_eq!((s.provider, s.language, s.model), (saved.provider, saved.language, saved.model));
    assert_eq!((s.always_on_top, s.pos), (false, Some([1, -2])));
}

#[test]
fn missing_members_take_defaults() {
    for read in [None, Some(empty_file())] {
        let s = load_settings(read);
        assert_eq!((s.provider.as_str(), s.language.as_str(), s.model.as_str()), ("gpt-transcribe", "", ""));
        assert_eq!((s.always_on_top, s.pos), (true, None));
    }
    let s = load_settings(Some(SavedSettings { language: Some("en".to_string()), ..empty_file() }));
    assert_eq!((s.provider.as_str(), s.language.as_str()), ("gpt-transcribe", "en"));
    let s = load_settings(Some(SavedSettings { always_on_top: Some(false), ..empty_file() }));
    assert!(!s.always_on_top);
}
