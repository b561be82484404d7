use paneru::commands::{Command, Operation};
use paneru::config::{
    bind_keys, default_preset_column_widths, find_keycode, literal_keycode, parse_modifiers,
    virtual_keycode, Config, Keybinding, MainOptions, Modifiers, OneOrMore, WindowParams,
};
use paneru::errors::Error;
use paneru::ratio::Ratio;
use paneru::setup::resolve_properties;
use paneru::systems::EdgePadding;

const ALT: Modifiers = Modifiers { alt: true, shift: false, cmd: false, ctrl: false };
const CTRL: Modifiers = Modifiers { alt: false, shift: false, cmd: false, ctrl: true };
const ALT_CTRL: Modifiers = Modifiers { alt: true, shift: false, cmd: false, ctrl: true };

fn find_key(k: char) -> u8 {
    virtual_keycode()
        .into_iter()
        .find_map(|(s, v)| (format!("{k}") == s).then_some(v))
        .unwrap()
}

/// The configuration
///
/// ```toml
/// [options]
/// focus_follows_mouse = true
///
/// [bindings]
/// quit = "ctrl+alt-q"
/// window_manage = "ctrl+alt-t"
/// window_stack = ["ctrl-s", "alt-s"]
///
/// [windows.pip]
/// title = "picture.*picture"
/// bundle_id = "com.something.apple"
/// floating = true
/// index = 1
/// ```
fn example_config() -> Config {
    let mut options = MainOptions::new();
    options.focus_follows_mouse = Some(true);

    // The names of the keys as the keyboard layout has them.
    let layout: Vec<(String, u8)> =
        virtual_keycode().into_iter().map(|(name, code)| (name.to_string(), code)).collect();
    let mut bindings = Vec::new();
    bind_keys(
        &mut bindings,
        "quit",
        &OneOrMore::Single(Keybinding::parse("ctrl+alt-q").unwrap()),
        &layout,
    )
    .expect("Failed to parse config");
    bind_keys(
        &mut bindings,
        "window_manage",
        &OneOrMore::Single(Keybinding::parse("ctrl+alt-t").unwrap()),
        &layout,
    )
    .expect("Failed to parse config");
    bind_keys(
        &mut bindings,
        "window_stack",
        &OneOrMore::Multiple(vec![
            Keybinding::parse("ctrl-s").unwrap(),
            Keybinding::parse("alt-s").unwrap(),
        ]),
        &layout,
    )
    .expect("Failed to parse config");

    let mut pip =
        WindowParams::new("picture.*picture".to_string(), Some("com.something.apple".to_string()))
            .expect("Failed to parse config");
    pip.floating = Some(true);
    pip.index = Some(1);
    Config::new(options, bindings, vec![pip])
}

#[test]
fn test_config_parsing() {
    let config = example_config();

    assert_eq!(config.options().focus_follows_mouse, Some(true));

    // Modifiers: alt = 1<<0, ctrl = 1<<3.
    let keycode = find_key('q');
    assert!(matches!(config.find_keybind(keycode, &ALT_CTRL), Some(Command::Quit)));

    let keycode = find_key('t');
    assert!(matches!(
        config.find_keybind(keycode, &ALT_CTRL),
        Some(Command::Window(Operation::Manage))
    ));

    let keycode = find_key('s');
    assert!(matches!(
        config.find_keybind(keycode, &CTRL),
        Some(Command::Window(Operation::Stack(true)))
    ));

    assert!(matches!(
        config.find_keybind(keycode, &ALT),
        Some(Command::Window(Operation::Stack(true)))
    ));

    let props = config.find_window_properties("picture in picture", "com.something.apple");
    assert_eq!(props[0].floating, Some(true));
    assert_eq!(props[0].index, Some(1));
}

#[test]
fn a_rule_applies_only_where_pattern_and_bundle_match() {
    let config = example_config();
    assert_eq!(config.find_window_properties("picture in picture", "com.other").len(), 0);
    assert_eq!(config.find_window_properties("a picture", "com.something.apple").len(), 0);
    assert_eq!(config.find_window_properties("", "com.something.apple").len(), 0);
    // The pattern is looked for anywhere in the title.
    assert_eq!(
        config.find_window_properties("my picture of a picture!", "com.something.apple").len(),
        1
    );
    assert_eq!(config.find_keybind(find_key('q'), &CTRL), None);
}

#[test]
fn a_rule_without_a_bundle_applies_to_every_application() {
    let mut rule = WindowParams::new("^Settings$".to_string(), None).unwrap();
    rule.dont_focus = Some(true);
    assert!(rule.matches("Settings", "com.whatever"));
    assert!(!rule.matches("Settings…", "com.whatever"));
    assert!(!rule.matches("settings", "com.whatever"));
    assert!(rule.applies(Some(true), "anything"));
    assert!(!rule.applies(Some(false), "anything"));
    assert!(!rule.applies(None, "anything"));
}

#[test]
fn a_title_that_is_no_pattern_is_refused() {
    assert_eq!(
        WindowParams::new("picture(".to_string(), None).map(|_| ()),
        Err(Error::InvalidConfig)
    );
}

#[test]
fn the_first_rule_that_sets_a_property_decides_it() {
    let mut first = WindowParams::new(".*".to_string(), None).unwrap();
    first.vertical_padding = Some(70);
    first.horizontal_padding = Some(-3);
    first.width = Some(Ratio(500_000));
    let mut second = WindowParams::new(".*".to_string(), None).unwrap();
    second.vertical_padding = Some(10);
    second.index = Some(2);
    second.dont_focus = Some(true);
    let resolved = resolve_properties(&vec![first, second]);
    assert!(!resolved.floating);
    // Padding is held between nothing and fifty pixels.
    assert_eq!(resolved.vertical_padding, Some(50));
    assert_eq!(resolved.horizontal_padding, Some(0));
    assert_eq!(resolved.index, Some(2));
    assert!(resolved.dont_focus);
    assert_eq!(resolved.width, Some(Ratio(500_000)));

    let mut floating = WindowParams::new(".*".to_string(), None).unwrap();
    floating.floating = Some(true);
    floating.vertical_padding = Some(10);
    let resolved = resolve_properties(&vec![floating]);
    assert!(resolved.floating);
    assert_eq!(resolved.vertical_padding, None);
}

#[test]
fn modifiers_are_read_from_their_names() {
    assert_eq!(parse_modifiers("ctrl+alt"), Ok(ALT_CTRL));
    assert_eq!(parse_modifiers(" alt "), Ok(ALT));
    assert_eq!(
        parse_modifiers("shift + cmd"),
        Ok(Modifiers { alt: false, shift: true, cmd: true, ctrl: false })
    );
    assert_eq!(parse_modifiers("hyper"), Err(Error::InvalidConfig));
    assert_eq!(parse_modifiers(""), Err(Error::InvalidConfig));
}

#[test]
fn bindings_are_read_from_modifiers_and_key() {
    let binding = Keybinding::parse("ctrl+alt-q").unwrap();
    assert_eq!(binding.key, "q");
    assert_eq!(binding.modifiers, ALT_CTRL);
    assert_eq!(binding.code, 0);
    assert_eq!(binding.command, Command::Quit);

    let binding = Keybinding::parse("h").unwrap();
    assert_eq!(binding.key, "h");
    assert_eq!(binding.modifiers, Modifiers::empty());

    let binding = Keybinding::parse(" shift - tab ").unwrap();
    assert_eq!(binding.key, "tab");
    assert!(binding.modifiers.shift);

    assert_eq!(Keybinding::parse("ctrl-alt-q").map(|_| ()), Err(Error::InvalidConfig));
    assert_eq!(Keybinding::parse("super-q").map(|_| ()), Err(Error::InvalidConfig));
}

#[test]
fn a_binding_for_no_command_is_refused() {
    let mut bindings = Vec::new();
    let layout = Vec::new();
    let result = bind_keys(
        &mut bindings,
        "window_fly",
        &OneOrMore::Single(Keybinding::parse("ctrl-f").unwrap()),
        &layout,
    );
    assert_eq!(result, Err(Error::InvalidConfig));
    assert!(bindings.is_empty());
}

#[test]
fn key_codes_come_from_the_layout_first() {
    let layout = vec![("q".to_string(), 0x0c), ("adiaeresis".to_string(), 0x27)];
    assert_eq!(find_keycode(&layout, "q"), Some(0x0c));
    assert_eq!(find_keycode(&layout, "adiaeresis"), Some(0x27));
    assert_eq!(find_keycode(&layout, "return"), Some(0x24));
    assert_eq!(find_keycode(&layout, "uparrow"), Some(0x7e));
    assert_eq!(find_keycode(&layout, "nokey"), None);
    // A key that the layout does not name is not known, though it has a
    // code on a US keyboard.
    assert_eq!(find_keycode(&layout, "a"), None);
}

#[test]
fn key_tables_are_complete() {
    let virtual_keys = virtual_keycode();
    assert_eq!(virtual_keys.len(), 66);
    assert_eq!(virtual_keys[0], ("a", 0x00));
    assert_eq!(virtual_keys[10], ("section", 0x0a));
    assert_eq!(virtual_keys[65], ("keypad9", 0x5c));
    let literal_keys = literal_keycode();
    assert_eq!(literal_keys.len(), 49);
    assert_eq!(literal_keys[0], ("return", 0x24));
    assert_eq!(literal_keys[48], ("uparrow", 0x7e));
}

#[test]
fn options_have_their_defaults() {
    let config = Config::new(MainOptions::new(), Vec::new(), Vec::new());
    assert!(config.focus_follows_mouse());
    assert!(config.mouse_follows_focus());
    assert!(!config.auto_center());
    assert!(!config.free_slide());
    assert_eq!(config.swipe_gesture_fingers(), None);
    assert_eq!(config.sliver_width(), 5);
    assert_eq!(config.sliver_height(), Ratio(1_000_000));
    assert_eq!(config.edge_padding(), EdgePadding { top: 0, right: 0, bottom: 0, left: 0 });
    // Without a speed windows move at once, as good as.
    assert_eq!(config.animation_speed(), 100_000_000);
    assert!(config.preset_column_widths().is_empty());
    assert_eq!(
        default_preset_column_widths(),
        vec![Ratio(250_000), Ratio(333_330), Ratio(500_000), Ratio(666_670), Ratio(750_000)]
    );
}

#[test]
fn options_are_held_to_their_ranges() {
    let mut options = MainOptions::new();
    options.sliver_height = Some(Ratio(50_000));
    options.sliver_width = Some(0);
    options.animation_speed = Some(1_000);
    options.padding_top = Some(1);
    options.padding_right = Some(2);
    options.padding_bottom = Some(3);
    options.padding_left = Some(4);
    options.focus_follows_mouse = Some(false);
    options.auto_center = Some(true);
    let config = Config::new(options, Vec::new(), Vec::new());
    assert_eq!(config.sliver_height(), Ratio(100_000));
    assert_eq!(config.sliver_width(), 1);
    // A speed is at least half a display width per second.
    assert_eq!(config.animation_speed(), 500);
    assert_eq!(config.edge_padding(), EdgePadding { top: 1, right: 2, bottom: 3, left: 4 });
    assert!(!config.focus_follows_mouse());
    assert!(config.auto_center());

    let mut options = MainOptions::new();
    options.sliver_height = Some(Ratio(2_000_000));
    options.animation_speed = Some(20_000);
    let config = Config::new(options, Vec::new(), Vec::new());
    assert_eq!(config.sliver_height(), Ratio(1_000_000));
    assert_eq!(config.animation_speed(), 2_000);
}
