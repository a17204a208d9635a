//! Configuration texts.
use gpui_vim::config::{parse, Setting};

#[test]
fn set_number_is_on_not_off_mber() {
    // the `no` of `number` is no negation
    let config = parse("set number");
    assert_eq!(config.settings, vec![Setting::On("number".to_owned())]);
}

#[test]
fn set_no_prefix_negates_known_boolean_options() {
    let config = parse("set nonumber\nset nonu");
    assert_eq!(
        config.settings,
        vec![
            Setting::Off("number".to_owned()),
            Setting::Off("nu".to_owned()),
        ]
    );
}

#[test]
fn set_value_and_toggle_forms() {
    let config = parse("set tabstop=8\nset number!");
    assert_eq!(
        config.settings,
        vec![
            Setting::Value("tabstop".to_owned(), "8".to_owned()),
            Setting::Toggle("number".to_owned()),
        ]
    );
}

#[test]
fn set_unknown_option_falls_through_to_on() {
    // `wrap` is not in the engine's option subset: it parses as `On` and
    // is silently ignored at apply time (like IdeaVim's unknown sets)
    let config = parse("set wrap");
    assert_eq!(config.settings, vec![Setting::On("wrap".to_owned())]);
}
