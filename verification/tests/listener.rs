use blur_autoclicker::hotkeys::{
    handle_hotkey_pressed, handle_hotkey_released, is_hotkey_binding_pressed, is_mac_keycode_down,
    is_main_key_active, is_modifier_down_mac, is_scroll_event, is_vk_down, parse_hotkey_binding,
    register_hotkey_inner, scroll_update, vk_to_mac_keycode, ClickerCommand, HotkeyEdge,
    HotkeyListener, HotkeyState, InputSnapshot, ScrollUpdate,
};

fn keys(codes: &[u16]) -> [u8; 16] {
    let mut map = [0u8; 16];
    for code in codes {
        map[(*code / 8) as usize] |= 1 << (*code % 8);
    }
    map
}

fn input(codes: &[u16], now_ms: u64) -> InputSnapshot {
    InputSnapshot {
        key_map: keys(codes),
        scroll_up_at: 0,
        scroll_down_at: 0,
        numpad_enter_down: false,
        now_ms,
    }
}

const KEY_A: u16 = 0x00;
const LEFT_CTRL: u16 = 0x3B;
const RIGHT_CTRL: u16 = 0x3E;

#[test]
fn key_codes_are_read_from_the_bit_map() {
    let map = keys(&[0, 9, 127]);
    for code in 0..200u16 {
        assert_eq!(is_mac_keycode_down(&map, code), code == 0 || code == 9 || code == 127);
    }
    assert!(!is_mac_keycode_down(&[0xFF; 16], 128));
    assert!(!is_mac_keycode_down(&[0xFF; 16], u16::MAX));
}

#[test]
fn virtual_keys_map_to_key_codes() {
    let letters: [u16; 26] = [
        0x00, 0x0B, 0x08, 0x02, 0x0E, 0x03, 0x05, 0x04, 0x22, 0x26, 0x28, 0x25, 0x2E, 0x2D, 0x1F,
        0x23, 0x0C, 0x0F, 0x01, 0x11, 0x20, 0x09, 0x0D, 0x07, 0x10, 0x06,
    ];
    for (i, code) in letters.iter().enumerate() {
        assert_eq!(vk_to_mac_keycode('A' as i32 + i as i32), Some(*code));
    }
    let others: [(i32, u16); 26] = [
        (0x30, 0x1D), (0x39, 0x19), (0x70, 0x7A), (0x7B, 0x6F), (0x1B, 0x35), (0x0D, 0x24),
        (0x20, 0x31), (0x09, 0x30), (0x08, 0x33), (0x2E, 0x75), (0x23, 0x73), (0x22, 0x77),
        (0x21, 0x74), (0x26, 0x7E), (0x28, 0x7D), (0x25, 0x7B), (0x27, 0x7C), (0x60, 0x52),
        (0x69, 0x5C), (0x6B, 0x51), (0x11, 0x3B), (0x12, 0x3A), (0x10, 0x38), (0x5B, 0x37),
        (0x5C, 0x36), (0x68, 0x5B),
    ];
    for (vk, code) in others {
        assert_eq!(vk_to_mac_keycode(vk), Some(code));
    }
    for vk in [-3, -2, -1, 0, 1, 2, 4, 0x24, 0x6A, 0x7C, i32::MAX, i32::MIN] {
        assert_eq!(vk_to_mac_keycode(vk), None);
        assert!(!is_vk_down(vk, &[0xFF; 16]));
    }
    let mapped = (-1000..1000).filter(|vk| vk_to_mac_keycode(*vk).is_some()).count();
    assert_eq!(mapped, 77);
    let mut codes: Vec<u16> = (-1000..1000).filter_map(vk_to_mac_keycode).collect();
    codes.sort();
    codes.dedup();
    assert_eq!(codes.len(), 77);
    assert!(is_vk_down('A' as i32, &keys(&[KEY_A])));
    assert!(!is_vk_down('B' as i32, &keys(&[KEY_A])));
}

#[test]
fn modifiers_count_on_both_sides() {
    let sides: [(i32, u16, u16); 5] = [
        (0x11, 0x3B, 0x3E),
        (0x10, 0x38, 0x3C),
        (0x12, 0x3A, 0x3D),
        (0x5B, 0x37, 0x36),
        (0x5C, 0x37, 0x36),
    ];
    for (vk, left, right) in sides {
        assert!(is_modifier_down_mac(vk, &keys(&[left])));
        assert!(is_modifier_down_mac(vk, &keys(&[right])));
        assert!(!is_modifier_down_mac(vk, &keys(&[])));
    }
    assert!(is_modifier_down_mac('A' as i32, &keys(&[KEY_A])));
}

#[test]
fn pseudo_keys_are_active_for_a_while() {
    let mut seen = input(&[], 1000);
    assert!(!is_main_key_active(-1, &seen));
    seen.scroll_up_at = 801;
    assert!(is_main_key_active(-1, &seen));
    assert!(!is_main_key_active(-2, &seen));
    seen.scroll_up_at = 800;
    assert!(!is_main_key_active(-1, &seen));
    seen.scroll_down_at = 5000;
    assert!(is_main_key_active(-2, &seen));
    assert!(!is_main_key_active(-3, &seen));
    seen.numpad_enter_down = true;
    assert!(is_main_key_active(-3, &seen));
    assert!(is_main_key_active('A' as i32, &input(&[KEY_A], 0)));
}

#[test]
fn wheel_events_update_the_right_moment() {
    assert!(is_scroll_event(22));
    assert!(!is_scroll_event(10));
    assert_eq!(scroll_update(3, 77), ScrollUpdate::Up(77));
    assert_eq!(scroll_update(-1, 78), ScrollUpdate::Down(78));
    assert_eq!(scroll_update(0, 79), ScrollUpdate::Keep);
}

#[test]
fn a_binding_is_pressed_with_its_modifiers_and_main_key() {
    let binding = parse_hotkey_binding("ctrl+a").expect("hotkey should parse");
    assert!(is_hotkey_binding_pressed(&binding, true, &input(&[KEY_A, RIGHT_CTRL], 0)));
    assert!(!is_hotkey_binding_pressed(&binding, true, &input(&[KEY_A], 0)));
    assert!(!is_hotkey_binding_pressed(&binding, true, &input(&[LEFT_CTRL], 0)));
    let with_shift = input(&[KEY_A, LEFT_CTRL, 0x38], 0);
    assert!(!is_hotkey_binding_pressed(&binding, true, &with_shift));
    assert!(is_hotkey_binding_pressed(&binding, false, &with_shift));
}

#[test]
fn registering_returns_the_canonical_text_and_suppresses() {
    let mut state = HotkeyState::new();
    let printed = register_hotkey_inner(&mut state, String::from(" Win+KeyA"), 1000);
    assert_eq!(printed, Ok(String::from("super+a")));
    assert_eq!(state.registered_hotkey, parse_hotkey_binding("super+a").ok());
    assert_eq!(state.suppress_hotkey_until_ms, 1250);
    assert!(state.suppress_hotkey_until_release);
    assert!(register_hotkey_inner(&mut state, String::from("b"), u64::MAX - 1).is_ok());
    assert_eq!(state.suppress_hotkey_until_ms, u64::MAX);
}

#[test]
fn a_refused_hotkey_changes_nothing() {
    let mut state = HotkeyState::new();
    let refusal = register_hotkey_inner(&mut state, String::from("ctrl+"), 1000);
    assert_eq!(
        refusal,
        Err(String::from("Invalid hotkey 'ctrl+': found empty key token"))
    );
    assert_eq!(state.registered_hotkey, None);
    assert_eq!(state.suppress_hotkey_until_ms, 0);
    assert!(!state.suppress_hotkey_until_release);
}

#[test]
fn a_registered_hotkey_waits_for_release_and_deadline() {
    let mut state = HotkeyState::new();
    let mut listener = HotkeyListener::new();
    register_hotkey_inner(&mut state, String::from("a"), 1000).expect("hotkey should parse");
    // Held on from before: nothing counts, not even after the deadline.
    for now in [1001, 1300, 2000] {
        let edge = listener.poll(&mut state, false, false, &input(&[KEY_A], now));
        assert_eq!(edge, HotkeyEdge::Unchanged);
        assert!(state.suppress_hotkey_until_release);
    }
    assert_eq!(listener.poll(&mut state, false, false, &input(&[], 2010)), HotkeyEdge::Unchanged);
    assert!(!state.suppress_hotkey_until_release);
    assert_eq!(listener.poll(&mut state, false, false, &input(&[KEY_A], 2020)), HotkeyEdge::Pressed);
    assert_eq!(
        listener.poll(&mut state, false, false, &input(&[KEY_A], 2030)),
        HotkeyEdge::Unchanged
    );
    assert_eq!(listener.poll(&mut state, false, false, &input(&[], 2040)), HotkeyEdge::Released);
    assert_eq!(listener.poll(&mut state, false, false, &input(&[], 2050)), HotkeyEdge::Unchanged);
}

#[test]
fn nothing_counts_before_the_deadline_or_during_capture() {
    let mut state = HotkeyState::new();
    let mut listener = HotkeyListener::new();
    register_hotkey_inner(&mut state, String::from("a"), 1000).expect("hotkey should parse");
    // A capture keeps the wait for the release going.
    assert_eq!(listener.poll(&mut state, false, true, &input(&[], 1001)), HotkeyEdge::Unchanged);
    assert!(state.suppress_hotkey_until_release);
    assert_eq!(listener.poll(&mut state, false, false, &input(&[], 1002)), HotkeyEdge::Unchanged);
    assert_eq!(
        listener.poll(&mut state, false, false, &input(&[KEY_A], 1249)),
        HotkeyEdge::Unchanged
    );
    assert!(listener.was_pressed);
    assert_eq!(listener.poll(&mut state, false, false, &input(&[], 1250)), HotkeyEdge::Released);
    assert_eq!(
        listener.poll(&mut state, false, true, &input(&[KEY_A], 1260)),
        HotkeyEdge::Unchanged
    );
}

#[test]
fn without_a_hotkey_nothing_is_pressed() {
    let mut state = HotkeyState::new();
    let mut listener = HotkeyListener { was_pressed: true };
    let all = InputSnapshot {
        key_map: [0xFF; 16],
        scroll_up_at: 5,
        scroll_down_at: 5,
        numpad_enter_down: true,
        now_ms: 5,
    };
    assert_eq!(listener.poll(&mut state, false, false, &all), HotkeyEdge::Released);
    assert_eq!(listener.poll(&mut state, false, false, &all), HotkeyEdge::Unchanged);
}

#[test]
fn modes_decide_what_edges_command() {
    assert_eq!(handle_hotkey_pressed("Toggle"), Some(ClickerCommand::Toggle));
    assert_eq!(handle_hotkey_pressed("Hold"), Some(ClickerCommand::Start));
    assert_eq!(handle_hotkey_pressed("toggle"), None);
    assert_eq!(
        handle_hotkey_released("Hold"),
        Some(ClickerCommand::Stop(String::from("Stopped from hold hotkey")))
    );
    assert_eq!(handle_hotkey_released("Toggle"), None);
    assert_eq!(handle_hotkey_released(""), None);
}
