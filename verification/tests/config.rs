use fujin::config::{
    format_bare_key, format_key, is_preview, normalize_key, normalize_value, settings, summoned,
    Config,
};
use fujin::line::Line;
use fujin::plugin::{Answers, Event};
use fujin::state::State;

fn configuration(entries: &[(&str, &str)]) -> Vec<(String, String)> {
    entries.iter().map(|(k, v)| (k.to_string(), v.to_string())).collect()
}

fn answers() -> Answers {
    Answers { focus: None, floating: false, plugin_url: None }
}

fn started(entries: &[(&str, &str)]) -> State {
    let mut state = State::default();
    state.load(&configuration(entries), 100);
    state.update(Event::Permission(true), answers());
    state
}

fn text(line: &Line) -> &str {
    line.content()
}

#[test]
fn the_table_names_all_settings() {
    let keys: Vec<&str> = settings().iter().map(|s| s.key).collect();
    assert_eq!(
        keys,
        vec![
            "show_cwd",
            "show_cwd_tilde",
            "show_deploy_animation",
            "up_key",
            "down_key",
            "go_key",
            "toggle_cwd_key",
        ]
    );
}

#[test]
fn without_settings_the_defaults_hold() {
    let config = Config::parse(&vec![]);
    assert!(!config.show_cwd);
    assert!(!config.show_cwd_tilde);
    assert!(config.show_deploy_animation);
    assert!(config.direct_keys.is_empty());
    assert!(config.warnings.is_empty());
}

#[test]
fn a_configuration_in_quotes_means_the_same() {
    let plain = [("show_cwd", "true"), ("show_cwd_tilde", "yes"), ("go_key", "  "), ("up_key", "Alt u")];
    let quoted: Vec<(String, String)> =
        plain.iter().map(|(k, v)| (k.to_string(), format!("\"{}\"", v))).collect();
    let a = Config::parse(&configuration(&plain));
    let b = Config::parse(&quoted);
    assert!(b.show_cwd);
    assert_eq!(b.warnings, vec!["show_cwd_tilde"]);
    assert_eq!(a.warnings, b.warnings);
    assert_eq!(a.direct_keys, b.direct_keys);
    assert_eq!(b.direct_keys, vec![("up_key", "alt+u".to_string())]);
}

#[test]
fn flags_take_true_and_false_alone() {
    let config = Config::parse(&configuration(&[
        ("show_cwd", "true"),
        ("show_cwd_tilde", "yes"),
        ("show_deploy_animation", "false"),
    ]));
    assert!(config.show_cwd);
    assert!(!config.show_cwd_tilde);
    assert!(!config.show_deploy_animation);
    assert_eq!(config.warnings, vec!["show_cwd_tilde"]);
}

#[test]
fn quotes_and_white_space_around_a_value_do_not_count() {
    assert_eq!(normalize_value("true"), "true");
    assert_eq!(normalize_value("\"true\""), "true");
    assert_eq!(normalize_value("  \"Alt u\" "), "Alt u");
    assert_eq!(normalize_value("\"\""), "");
    assert_eq!(normalize_value("\""), "\"");
    let config = Config::parse(&configuration(&[("show_cwd", "\"true\"")]));
    assert!(config.show_cwd);
    assert!(config.warnings.is_empty());
}

#[test]
fn an_empty_value_counts_as_not_written() {
    let config = Config::parse(&configuration(&[("show_cwd", ""), ("up_key", "\"\"")]));
    assert!(!config.show_cwd);
    assert!(config.direct_keys.is_empty());
    assert!(config.warnings.is_empty());
}

#[test]
fn both_spellings_of_a_key_are_shown_alike() {
    assert_eq!(normalize_key("Alt u"), Some("alt+u".to_string()));
    assert_eq!(normalize_key("alt+u"), Some("alt+u".to_string()));
    assert_eq!(normalize_key("Ctrl Shift p"), Some("ctrl+shift+p".to_string()));
    assert_eq!(normalize_key("Alt Enter"), Some("alt+enter".to_string()));
    assert_eq!(normalize_key("no such key"), None);
}

#[test]
fn keys_are_spelled_with_their_modifiers() {
    assert_eq!(format_bare_key(Some('u'), "u"), "u");
    assert_eq!(format_bare_key(Some(' '), " "), "space");
    let modifiers = vec!["Ctrl".to_string(), "Alt".to_string()];
    assert_eq!(format_key(&modifiers, Some('x'), "x"), "ctrl+alt+x");
    assert_eq!(format_key(&vec![], None, "Enter"), "enter");
}

#[test]
fn a_key_that_cannot_be_read_is_shown_as_written() {
    let config = Config::parse(&configuration(&[("up_key", "Atl u"), ("down_key", "Alt d")]));
    assert_eq!(
        config.direct_keys,
        vec![("up_key", "Atl u".to_string()), ("down_key", "alt+d".to_string())]
    );
    assert_eq!(config.warnings, vec!["up_key"]);
}

#[test]
fn instances_are_told_apart_by_their_configuration() {
    assert!(summoned(&configuration(&[("summoned", "true")])));
    assert!(!summoned(&configuration(&[("summoned", "false")])));
    assert!(!summoned(&vec![]));
    assert!(is_preview(&configuration(&[("preview", "true")])));
    assert!(!is_preview(&configuration(&[("summoned", "true")])));
}

#[test]
fn the_footer_warns_of_a_bad_value_for_a_while() {
    let mut state = started(&[("show_cwd", "1")]);
    assert!(state.showing_config_warning());
    assert_eq!(text(&state.footer_line(32)), "  !bad value: show_cwd");
    // Not quite five seconds.
    state.update(Event::Timer(4_900_000), answers());
    assert!(state.showing_config_warning());
    state.update(Event::Timer(200_000), answers());
    assert!(!state.showing_config_warning());
    assert_eq!(text(&state.footer_line(32)), "  ");
}

#[test]
fn several_bad_values_are_counted_where_room_is_short() {
    let state = started(&[("show_cwd", "1"), ("show_cwd_tilde", "2")]);
    assert_eq!(text(&state.footer_line(60)), "  !bad values: show_cwd show_cwd_tilde");
    assert_eq!(text(&state.footer_line(32)), "  !bad values: show_cwd +1");
    assert_eq!(text(&state.footer_line(16)), "  !bad config");
}

#[test]
fn keys_that_share_their_modifiers_name_them_once() {
    let state = started(&[("up_key", "Alt u"), ("down_key", "Alt d"), ("go_key", "Alt g")]);
    assert_eq!(text(&state.footer_line(32)), "  alt + › u:up  d:down  g:jump");
    // Arrows are shorter than words.
    assert_eq!(text(&state.footer_line(31)), "  alt + › u:↑  d:↓  g:jump");
    // Then whole items go, from the end.
    assert_eq!(text(&state.footer_line(24)), "  alt + › u:up  d:down");
    assert_eq!(text(&state.footer_line(12)), "  alt+u:up");
    assert_eq!(text(&state.footer_line(8)), "  ");
}

#[test]
fn keys_with_different_modifiers_are_written_out() {
    let state = started(&[("up_key", "Alt u"), ("go_key", "Ctrl g")]);
    assert_eq!(text(&state.footer_line(32)), "  alt+u:up  ctrl+g:jump");
}
