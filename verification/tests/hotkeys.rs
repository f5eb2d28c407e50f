use blur_autoclicker::hotkeys::{
    format_hotkey_binding, normalize_hotkey, parse_hotkey_binding, parse_hotkey_main_key,
    modifiers_match, HotkeyBinding, VK_NUMPAD_ENTER_PSEUDO, VK_SCROLL_DOWN_PSEUDO,
    VK_SCROLL_UP_PSEUDO,
};

fn parsed(hotkey: &str) -> HotkeyBinding {
    parse_hotkey_binding(hotkey).expect("hotkey should parse")
}

fn refusal(hotkey: &str) -> String {
    parse_hotkey_binding(hotkey).expect_err("hotkey should be refused")
}

fn key(token: &str) -> (i32, String) {
    parse_hotkey_main_key(token, "the hotkey").expect("token should parse")
}

#[test]
fn numpad_tokens_round_trip() {
    for token in [
        "numpad0", "numpad1", "numpad2", "numpad3", "numpad4", "numpad5", "numpad6", "numpad7",
        "numpad8", "numpad9", "numpadenter", "scrollup", "scrolldown",
    ] {
        let hotkey = format!("ctrl+shift+{token}");
        let binding = parse_hotkey_binding(&hotkey).expect("token should parse");
        assert_eq!(format_hotkey_binding(&binding), hotkey);
    }
}

#[test]
fn empty_hotkeys_are_rejected() {
    assert!(parse_hotkey_binding("").is_err());
    assert!(parse_hotkey_binding("ctrl+").is_err());
}

#[test]
fn extra_modifiers_do_not_block_hotkeys_in_relaxed_mode() {
    let binding = parse_hotkey_binding("f11").expect("hotkey should parse");
    assert!(modifiers_match(&binding, false, false, true, false, false));
}

#[test]
fn extra_modifiers_block_hotkeys_in_strict_mode() {
    let binding = parse_hotkey_binding("f11").expect("hotkey should parse");
    assert!(!modifiers_match(&binding, false, false, true, false, true));
    assert!(modifiers_match(&binding, false, false, false, false, true));
}

#[test]
fn missing_modifiers_block_in_both_modes() {
    let all = parsed("ctrl+alt+shift+super+a");
    assert!(modifiers_match(&all, true, true, true, true, false));
    assert!(modifiers_match(&all, true, true, true, true, true));
    for strict in [false, true] {
        assert!(!modifiers_match(&all, false, true, true, true, strict));
        assert!(!modifiers_match(&all, true, false, true, true, strict));
        assert!(!modifiers_match(&all, true, true, false, true, strict));
        assert!(!modifiers_match(&all, true, true, true, false, strict));
    }
}

#[test]
fn normalizing_trims_lowercases_and_replaces_aliases() {
    assert_eq!(normalize_hotkey("  Control+Command+Meta+Win+A \n"), "ctrl+super+super+super+a");
    assert_eq!(normalize_hotkey("winwin"), "supersuper");
    assert_eq!(normalize_hotkey("cocontrolntrol"), "coctrlntrol");
    assert_eq!(normalize_hotkey("Window"), "superdow");
    assert_eq!(normalize_hotkey("\u{3000}\u{a0}F1\u{2003}"), "f1");
    assert_eq!(normalize_hotkey(""), "");
}

#[test]
fn lowercasing_goes_beyond_ascii() {
    assert_eq!(normalize_hotkey("CTRL+\u{c9}"), "ctrl+\u{e9}");
    // The Kelvin sign lowercases to the letter.
    assert_eq!(parsed("ctrl+\u{212a}"), parsed("ctrl+k"));
}

#[test]
fn normalizing_twice_changes_nothing() {
    for hotkey in [" CONTROL + win+Q", "metameta", "commcommandand", "", "+", "ctrl+F12"] {
        let once = normalize_hotkey(hotkey);
        assert_eq!(normalize_hotkey(&once), once);
        for alias in ["control", "command", "meta", "win"] {
            assert!(!once.contains(alias));
        }
    }
}

#[test]
fn parsing_gives_modifiers_and_main_key() {
    assert_eq!(
        parsed(" Shift + ALT+q "),
        HotkeyBinding {
            ctrl: false,
            alt: true,
            shift: true,
            super_key: false,
            main_vk: 'Q' as i32,
            key_token: String::from("q"),
        }
    );
    assert_eq!(
        parsed("cmd+control+option+shift+shift+Escape"),
        HotkeyBinding {
            ctrl: true,
            alt: true,
            shift: true,
            super_key: true,
            main_vk: 0x1B,
            key_token: String::from("escape"),
        }
    );
    assert_eq!(parsed("a+ctrl"), parsed("ctrl+a"));
}

#[test]
fn refusals_say_what_is_wrong() {
    assert_eq!(refusal("Ctrl++A"), "Invalid hotkey 'Ctrl++A': found empty key token");
    assert_eq!(refusal("   "), "Invalid hotkey '   ': found empty key token");
    assert_eq!(refusal("+a"), "Invalid hotkey '+a': found empty key token");
    assert_eq!(
        refusal("A+B"),
        "Invalid hotkey 'A+B': use modifiers first and only one main key"
    );
    assert_eq!(refusal("Ctrl+Shift"), "Invalid hotkey 'Ctrl+Shift': missing main key");
    assert_eq!(refusal("Ctrl+Nope"), "Couldn't recognize 'nope' as a valid key in 'Ctrl+Nope'");
    assert_eq!(refusal("F13"), "Couldn't recognize 'f13' as a valid key in 'F13'");
    assert_eq!(refusal("windy"), "Couldn't recognize 'superdy' as a valid key in 'windy'");
    // The first problem is the one that is reported.
    assert_eq!(refusal("nope++a+b"), "Couldn't recognize 'nope' as a valid key in 'nope++a+b'");
    assert_eq!(refusal("a+b++"), "Invalid hotkey 'a+b++': use modifiers first and only one main key");
    assert_eq!(refusal("a+nope"), "Couldn't recognize 'nope' as a valid key in 'a+nope'");
}

#[test]
fn key_names_have_codes() {
    let table = [
        ("mouseleft", 1, "mouseleft"),
        ("mouse1", 1, "mouseleft"),
        ("mouseright", 2, "mouseright"),
        ("mouse2", 2, "mouseright"),
        ("mousemiddle", 4, "mousemiddle"),
        ("mouse3", 4, "mousemiddle"),
        ("scrollup", VK_SCROLL_UP_PSEUDO, "scrollup"),
        ("wheelup", -1, "scrollup"),
        ("scrolldown", VK_SCROLL_DOWN_PSEUDO, "scrolldown"),
        ("wheeldown", -2, "scrolldown"),
        ("numpadenter", VK_NUMPAD_ENTER_PSEUDO, "numpadenter"),
        ("numpadenter", -3, "numpadenter"),
        ("numpad0", 0x60, "numpad0"),
        ("numpad9", 0x69, "numpad9"),
        ("space", 0x20, "space"),
        ("spacebar", 0x20, "space"),
        ("tab", 0x09, "tab"),
        ("enter", 0x0D, "enter"),
        ("backspace", 0x08, "backspace"),
        ("delete", 0x2E, "delete"),
        ("home", 0x23, "home"),
        ("end", 0x22, "end"),
        ("pageup", 0x21, "pageup"),
        ("pagedown", 0x22, "pagedown"),
        ("up", 0x26, "up"),
        ("down", 0x28, "down"),
        ("left", 0x25, "left"),
        ("right", 0x27, "right"),
        ("esc", 0x1B, "escape"),
        ("escape", 0x1B, "escape"),
        (" ESC\t", 0x1B, "escape"),
        ("f1", 0x70, "f1"),
        ("F12", 0x7B, "f12"),
        ("f01", 0x70, "f01"),
        ("f+1", 0x70, "f+1"),
        ("a", 0x41, "a"),
        ("z", 0x5A, "z"),
        ("0", 0x30, "0"),
        ("9", 0x39, "9"),
        ("f", 0x46, "f"),
        ("KeyF", 0x46, "f"),
        ("Digit7", 0x37, "7"),
        ("digita", 0x41, "a"),
    ];
    for (token, vk, name) in table {
        assert_eq!(key(token), (vk, String::from(name)));
    }
}

#[test]
fn unknown_keys_are_refused() {
    for token in [
        "", "f0", "f13", "f001", "f-1", "f-", "f+", "ff", "numpad", "numpada", "numpad10", "key",
        "keyab", "digit", "\u{e9}", "key\u{e9}", "-", "!", "control",
    ] {
        assert_eq!(
            parse_hotkey_main_key(token, "hot"),
            Err(format!("Couldn't recognize '{token}' as a valid key in 'hot'"))
        );
    }
    // The character behind the prefix is looked up, and reported, by itself.
    assert_eq!(
        parse_hotkey_main_key("key!", "hot"),
        Err(String::from("Couldn't recognize '!' as a valid key in 'hot'"))
    );
}

#[test]
fn printed_hotkeys_parse_to_the_same_binding() {
    for hotkey in [
        "Win+Alt+Control+Shift+KeyZ", "mouse3", "alt+f01", "option+spacebar", "cmd+esc", "home",
        "meta+digit5", "shift+pagedown", "ctrl+end", " F12 ",
    ] {
        let binding = parsed(hotkey);
        let printed = format_hotkey_binding(&binding);
        assert_eq!(parsed(&printed), binding);
        assert_eq!(normalize_hotkey(&printed), printed);
    }
    assert_eq!(
        format_hotkey_binding(&parsed("Win+Alt+Control+Shift+KeyZ")),
        "ctrl+alt+shift+super+z"
    );
}

#[test]
fn case_and_outer_space_do_not_matter() {
    assert_eq!(parsed("  CTRL+Enter  "), parsed("ctrl+enter"));
}

#[test]
fn order_of_parts_and_repeated_modifiers_do_not_matter() {
    let binding = parsed("Control + win+Q");
    for hotkey in ["win+Q+Control ", "Q+win+Control ", "Control +win+Q+Control ", "WIN+win+q+ctrl"] {
        assert_eq!(parsed(hotkey), binding);
    }
}

#[test]
fn parts_are_normalized_one_by_one() {
    let hotkey = "  Control+ Win +\tcommandQ+Meta ";
    let tokens: Vec<String> =
        normalize_hotkey(hotkey).split('+').map(|token| String::from(token.trim())).collect();
    let parts: Vec<String> = hotkey.split('+').map(normalize_hotkey).collect();
    assert_eq!(tokens, parts);
    assert_eq!(parts, vec!["ctrl", "super", "superq", "super"]);
}

#[test]
fn normal_forms_are_trimmed_and_in_lowercase() {
    for hotkey in ["  CTRL + A ", "\tWindow\n", "", " + "] {
        let normal = normalize_hotkey(hotkey);
        assert_eq!(normal.trim(), normal);
        assert_eq!(normal.to_lowercase(), normal);
    }
}

#[test]
fn names_with_a_plus_sign_are_parsed_again() {
    assert_eq!(key("F+5"), (0x74, String::from("f+5")));
    assert_eq!(key("f+5"), key("F+5"));
}

#[test]
fn every_kind_of_white_space_is_trimmed() {
    let around = "\u{9}\u{a}\u{b}\u{c}\u{d} \u{85}\u{a0}\u{1680}\u{2000}\u{200a}\u{2028}\u{2029}\u{202f}\u{205f}\u{3000}";
    assert_eq!(normalize_hotkey(&format!("{around}F 1{around}")), "f 1");
    assert_eq!(normalize_hotkey(around), "");
    assert_eq!(normalize_hotkey("\u{200b}a\u{feff}"), "\u{200b}a\u{feff}");
    assert_eq!(parsed(&format!("{around}Ctrl{around}+{around}A{around}")), parsed("ctrl+a"));
    assert_eq!(normalize_hotkey(&format!("{around}Win+A{around}")), normalize_hotkey("Win+A"));
}

#[test]
fn texts_beyond_ascii_are_lowercased_character_by_character() {
    for code in 0..=0x10ffffu32 {
        if let Some(c) = char::from_u32(code) {
            if c != '\u{3a3}' {
                let lower: String = c.to_lowercase().collect();
                let normal = normalize_hotkey(&format!("a{c}b"));
                assert_eq!(normal, format!("a{lower}b"));
                assert_eq!(normalize_hotkey(&normal), normal);
                assert_eq!(normal.contains('+'), c == '+');
                let alone = normalize_hotkey(&c.to_string());
                assert_eq!(alone, lower.trim());
                assert_eq!(alone.trim(), alone);
                assert_eq!(alone.is_empty(), c.is_whitespace());
            }
        }
    }
}

#[test]
fn capital_sigmas_go_by_what_stands_around_them() {
    assert_eq!(normalize_hotkey("\u{3a3}"), "\u{3c3}");
    assert_eq!(normalize_hotkey("A\u{3a3}"), "a\u{3c2}");
    assert_eq!(normalize_hotkey("A\u{3a3}A Control"), "a\u{3c3}a ctrl");
    assert_eq!(normalize_hotkey("a\u{3c2}"), "a\u{3c2}");
    assert!(parse_hotkey_binding("ctrl+\u{3a3}").is_err());
    assert!(parse_hotkey_binding("\u{3a3}ctrl+a").is_err());
}

#[test]
fn parts_beyond_ascii_may_stand_in_any_order() {
    // The Kelvin sign is a capital letter of the small `k`.
    let binding = parsed("Ctrl+\u{a0}Shift+\u{212a}");
    assert_eq!((binding.main_vk, binding.key_token.as_str()), (0x4B, "k"));
    assert_eq!(parsed("\u{212a}+Ctrl+\u{a0}Shift"), binding);
    assert_eq!(parsed("\u{a0}Shift+\u{212a}+Ctrl"), binding);
    assert_eq!(parsed("Ctrl+\u{a0}Shift+\u{212a}+\u{a0}Shift"), binding);
    assert_eq!(parsed("bac\u{212a}space"), parsed("backspace"));
    assert!(parse_hotkey_binding("ctrl+\u{e4}").is_err());
    assert!(parse_hotkey_binding("\u{130}").is_err());
}
