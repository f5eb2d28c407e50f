//! The keys that are down: which one a key code means, and whether a hotkey's keys are all down.
use crate::hotkeys::binding;
use crate::hotkeys::binding::HotkeyBinding;
use crate::hotkeys::main_key;
use crate::hotkeys::main_key::{
    VK_NUMPAD_ENTER_PSEUDO, VK_SCROLL_DOWN_PSEUDO, VK_SCROLL_UP_PSEUDO,
};
use vstd::prelude::*;

verus! {

/// How long after a turn of the wheel its pseudo key counts as down, in milliseconds.
pub const SCROLL_WINDOW_MS: u64 = 200;

/// The event type of a turn of the wheel.
pub const K_CG_EVENT_SCROLL_WHEEL: u32 = 22;

/// What was read of the input devices at one moment.
pub struct InputSnapshot {
    /// The keyboard: one bit for each key code below 128, lowest bit first.
    pub key_map: [u8; 16],
    /// When the wheel was last turned up, in milliseconds since the epoch; 0 for never.
    pub scroll_up_at: u64,
    /// When the wheel was last turned down, in milliseconds since the epoch; 0 for never.
    pub scroll_down_at: u64,
    /// Whether the numpad's enter key is down.
    pub numpad_enter_down: bool,
    /// The moment itself, in milliseconds since the epoch.
    pub now_ms: u64,
}

/// Whether bit `i` of `byte` is set.
pub open spec fn bit(byte: u8, i: int) -> bool {
    (byte >> i) & 1 == 1
}

/// Whether the key with the given code is down.
pub open spec fn keycode_down(key_map: Seq<u8>, keycode: int) -> bool {
    0 <= keycode < 128 && bit(key_map[keycode / 8], keycode % 8)
}

/// The keyboard's codes of the letters A to Z.
pub open spec fn letter_keycodes() -> Seq<u16> {
    seq![
        0x00, 0x0B, 0x08, 0x02, 0x0E, 0x03, 0x05, 0x04, 0x22, 0x26, 0x28, 0x25, 0x2E, 0x2D,
        0x1F, 0x23, 0x0C, 0x0F, 0x01, 0x11, 0x20, 0x09, 0x0D, 0x07, 0x10, 0x06,
    ]
}

/// The keyboard's codes of the digits 0 to 9.
pub open spec fn digit_keycodes() -> Seq<u16> {
    seq![0x1D, 0x12, 0x13, 0x14, 0x15, 0x17, 0x16, 0x1A, 0x1C, 0x19]
}

/// The keyboard's codes of the function keys F1 to F12.
pub open spec fn function_keycodes() -> Seq<u16> {
    seq![
        0x7A, 0x78, 0x63, 0x76, 0x60, 0x61, 0x62, 0x64, 0x65, 0x6D, 0x67, 0x6F,
    ]
}

/// The keyboard's codes of the numpad's digits 0 to 9.
pub open spec fn numpad_keycodes() -> Seq<u16> {
    seq![0x52, 0x53, 0x54, 0x55, 0x56, 0x57, 0x58, 0x59, 0x5B, 0x5C]
}

/// The keyboard's code of the key that `vk` means.
pub open spec fn mac_keycode(vk: i32) -> Option<u16> {
    if 'A' as int <= vk <= 'Z' as int {
        Some(letter_keycodes()[vk - 'A' as int])
    } else if '0' as int <= vk <= '9' as int {
        Some(digit_keycodes()[vk - '0' as int])
    } else if 0x70 <= vk <= 0x7B {
        Some(function_keycodes()[vk - 0x70])
    } else if 0x60 <= vk <= 0x69 {
        Some(numpad_keycodes()[vk - 0x60])
    } else {
        match vk {
            0x1B => Some(0x35),  // Escape
            0x0D => Some(0x24),  // Enter
            0x20 => Some(0x31),  // Space
            0x09 => Some(0x30),  // Tab
            0x08 => Some(0x33),  // Backspace
            0x2E => Some(0x75),  // Delete (forward)
            0x23 => Some(0x73),  // Home
            0x22 => Some(0x77),  // End; Page Down shares the code
            0x21 => Some(0x74),  // Page Up
            0x26 => Some(0x7E),  // Up
            0x28 => Some(0x7D),  // Down
            0x25 => Some(0x7B),  // Left
            0x27 => Some(0x7C),  // Right
            0x6B => Some(0x51),  // Numpad enter
            0x11 => Some(0x3B),  // Ctrl (left)
            0x12 => Some(0x3A),  // Alt (left)
            0x10 => Some(0x38),  // Shift (left)
            0x5B => Some(0x37),  // Super (left)
            0x5C => Some(0x36),  // Super (right)
            _ => None,
        }
    }
}

/// The keyboard's code of the key that `vk` means.
pub fn vk_to_mac_keycode(vk: i32) -> (r: Option<u16>)
    ensures
        r == mac_keycode(vk),
{
    match vk {
        0x41 => Some(0x00),  // A
        0x42 => Some(0x0B),  // B
        0x43 => Some(0x08),  // C
        0x44 => Some(0x02),  // D
        0x45 => Some(0x0E),  // E
        0x46 => Some(0x03),  // F
        0x47 => Some(0x05),  // G
        0x48 => Some(0x04),  // H
        0x49 => Some(0x22),  // I
        0x4A => Some(0x26),  // J
        0x4B => Some(0x28),  // K
        0x4C => Some(0x25),  // L
        0x4D => Some(0x2E),  // M
        0x4E => Some(0x2D),  // N
        0x4F => Some(0x1F),  // O
        0x50 => Some(0x23),  // P
        0x51 => Some(0x0C),  // Q
        0x52 => Some(0x0F),  // R
        0x53 => Some(0x01),  // S
        0x54 => Some(0x11),  // T
        0x55 => Some(0x20),  // U
        0x56 => Some(0x09),  // V
        0x57 => Some(0x0D),  // W
        0x58 => Some(0x07),  // X
        0x59 => Some(0x10),  // Y
        0x5A => Some(0x06),  // Z
        0x30 => Some(0x1D),  // 0
        0x31 => Some(0x12),  // 1
        0x32 => Some(0x13),  // 2
        0x33 => Some(0x14),  // 3
        0x34 => Some(0x15),  // 4
        0x35 => Some(0x17),  // 5
        0x36 => Some(0x16),  // 6
        0x37 => Some(0x1A),  // 7
        0x38 => Some(0x1C),  // 8
        0x39 => Some(0x19),  // 9
        0x70 => Some(0x7A),  // F1
        0x71 => Some(0x78),  // F2
        0x72 => Some(0x63),  // F3
        0x73 => Some(0x76),  // F4
        0x74 => Some(0x60),  // F5
        0x75 => Some(0x61),  // F6
        0x76 => Some(0x62),  // F7
        0x77 => Some(0x64),  // F8
        0x78 => Some(0x65),  // F9
        0x79 => Some(0x6D),  // F10
        0x7A => Some(0x67),  // F11
        0x7B => Some(0x6F),  // F12
        0x1B => Some(0x35),  // Escape
        0x0D => Some(0x24),  // Enter
        0x20 => Some(0x31),  // Space
        0x09 => Some(0x30),  // Tab
        0x08 => Some(0x33),  // Backspace
        0x2E => Some(0x75),  // Delete (forward)
        0x23 => Some(0x73),  // Home
        0x22 => Some(0x77),  // End; Page Down shares the code
        0x21 => Some(0x74),  // Page Up
        0x26 => Some(0x7E),  // Up
        0x28 => Some(0x7D),  // Down
        0x25 => Some(0x7B),  // Left
        0x27 => Some(0x7C),  // Right
        0x60 => Some(0x52),  // Numpad 0
        0x61 => Some(0x53),  // Numpad 1
        0x62 => Some(0x54),  // Numpad 2
        0x63 => Some(0x55),  // Numpad 3
        0x64 => Some(0x56),  // Numpad 4
        0x65 => Some(0x57),  // Numpad 5
        0x66 => Some(0x58),  // Numpad 6
        0x67 => Some(0x59),  // Numpad 7
        0x68 => Some(0x5B),  // Numpad 8
        0x69 => Some(0x5C),  // Numpad 9
        0x6B => Some(0x51),  // Numpad enter
        0x11 => Some(0x3B),  // Ctrl (left)
        0x12 => Some(0x3A),  // Alt (left)
        0x10 => Some(0x38),  // Shift (left)
        0x5B => Some(0x37),  // Super (left)
        0x5C => Some(0x36),  // Super (right)
        _ => None,
    }
}

/// Whether the key with the given code is down.
pub fn is_mac_keycode_down(key_map: &[u8; 16], keycode: u16) -> (r: bool)
    ensures
        r == keycode_down(key_map@, keycode as int),
{
    let byte: usize = (keycode / 8) as usize;
    let shift: u16 = keycode % 8;
    if byte >= 16 {
        return false;
    }
    let low: u8 = key_map[byte] >> shift;
    assert(low & 1 == 0 || low & 1 == 1) by (bit_vector);
    low & 1 != 0
}

/// Whether the key that `vk` means is down. A code that means no key of the keyboard never is.
pub open spec fn vk_down(key_map: Seq<u8>, vk: i32) -> bool {
    match mac_keycode(vk) {
        Some(keycode) => keycode_down(key_map, keycode as int),
        None => false,
    }
}

/// Whether the key that `vk` means is down.
pub fn is_vk_down(vk: i32, key_map: &[u8; 16]) -> (r: bool)
    ensures
        r == vk_down(key_map@, vk),
{
    if let Some(keycode) = vk_to_mac_keycode(vk) {
        is_mac_keycode_down(key_map, keycode)
    } else {
        false
    }
}

/// Whether a modifier is down, on the left or on the right.
pub open spec fn modifier_down(key_map: Seq<u8>, vk: i32) -> bool {
    match vk {
        0x11 => keycode_down(key_map, 0x3B) || keycode_down(key_map, 0x3E),  // Ctrl
        0x10 => keycode_down(key_map, 0x38) || keycode_down(key_map, 0x3C),  // Shift
        0x12 => keycode_down(key_map, 0x3A) || keycode_down(key_map, 0x3D),  // Alt
        0x5B | 0x5C => keycode_down(key_map, 0x37) || keycode_down(key_map, 0x36),  // Super
        _ => vk_down(key_map, vk),
    }
}

/// Whether a modifier is down, on the left or on the right.
pub fn is_modifier_down_mac(vk: i32, key_map: &[u8; 16]) -> (r: bool)
    ensures
        r == modifier_down(key_map@, vk),
{
    match vk {
        0x11 => is_mac_keycode_down(key_map, 0x3B) || is_mac_keycode_down(key_map, 0x3E),
        0x10 => is_mac_keycode_down(key_map, 0x38) || is_mac_keycode_down(key_map, 0x3C),
        0x12 => is_mac_keycode_down(key_map, 0x3A) || is_mac_keycode_down(key_map, 0x3D),
        0x5B | 0x5C => is_mac_keycode_down(key_map, 0x37) || is_mac_keycode_down(key_map, 0x36),
        _ => is_vk_down(vk, key_map),
    }
}

/// Whether a turn of the wheel at `at` still counts at `now`.
pub open spec fn recent(at: u64, now: u64) -> bool {
    at != 0 && now - at < SCROLL_WINDOW_MS
}

/// Whether a turn of the wheel at `at` still counts at `now`.
fn is_recent(at: u64, now: u64) -> (r: bool)
    ensures
        r == recent(at, now),
{
    at != 0 && now.saturating_sub(at) < SCROLL_WINDOW_MS
}

/// Whether the main key that `vk` means is down: a pseudo key while its event is recent, any other
/// key while the keyboard says so.
pub open spec fn main_key_active(input: InputSnapshot, vk: i32) -> bool {
    if vk == VK_SCROLL_UP_PSEUDO {
        recent(input.scroll_up_at, input.now_ms)
    } else if vk == VK_SCROLL_DOWN_PSEUDO {
        recent(input.scroll_down_at, input.now_ms)
    } else if vk == VK_NUMPAD_ENTER_PSEUDO {
        input.numpad_enter_down
    } else {
        vk_down(input.key_map@, vk)
    }
}

/// Whether the main key that `vk` means is down.
pub fn is_main_key_active(vk: i32, input: &InputSnapshot) -> (r: bool)
    ensures
        r == main_key_active(*input, vk),
{
    if vk == VK_SCROLL_UP_PSEUDO {
        is_recent(input.scroll_up_at, input.now_ms)
    } else if vk == VK_SCROLL_DOWN_PSEUDO {
        is_recent(input.scroll_down_at, input.now_ms)
    } else if vk == VK_NUMPAD_ENTER_PSEUDO {
        input.numpad_enter_down
    } else {
        is_vk_down(vk, &input.key_map)
    }
}

/// Whether the modifiers that are down fit a binding: all that it asks for, and in strict mode no
/// others.
pub open spec fn modifiers_fit(
    b: binding::BindingModel,
    ctrl_down: bool,
    alt_down: bool,
    shift_down: bool,
    super_down: bool,
    strict: bool,
) -> bool {
    &&& b.ctrl ==> ctrl_down
    &&& b.alt ==> alt_down
    &&& b.shift ==> shift_down
    &&& b.super_key ==> super_down
    &&& strict ==> {
        &&& ctrl_down ==> b.ctrl
        &&& alt_down ==> b.alt
        &&& shift_down ==> b.shift
        &&& super_down ==> b.super_key
    }
}

/// Whether the modifiers that are down fit a binding.
pub fn modifiers_match(
    binding: &HotkeyBinding,
    ctrl_down: bool,
    alt_down: bool,
    shift_down: bool,
    super_down: bool,
    strict: bool,
) -> (r: bool)
    ensures
        r == modifiers_fit(binding@, ctrl_down, alt_down, shift_down, super_down, strict),
{
    if binding.ctrl && !ctrl_down {
        return false;
    }
    if binding.alt && !alt_down {
        return false;
    }
    if binding.shift && !shift_down {
        return false;
    }
    if binding.super_key && !super_down {
        return false;
    }
    if strict {
        if ctrl_down && !binding.ctrl {
            return false;
        }
        if alt_down && !binding.alt {
            return false;
        }
        if shift_down && !binding.shift {
            return false;
        }
        if super_down && !binding.super_key {
            return false;
        }
    }
    true
}

/// Whether a hotkey is pressed: its modifiers fit and its main key is down.
pub open spec fn binding_pressed(
    b: binding::BindingModel,
    strict: bool,
    input: InputSnapshot,
) -> bool {
    &&& modifiers_fit(
        b,
        modifier_down(input.key_map@, 0x11),
        modifier_down(input.key_map@, 0x12),
        modifier_down(input.key_map@, 0x10),
        modifier_down(input.key_map@, 0x5B),
        strict,
    )
    &&& main_key_active(input, b.main_vk)
}

/// Whether a hotkey is pressed.
pub fn is_hotkey_binding_pressed(
    binding: &HotkeyBinding,
    strict: bool,
    input: &InputSnapshot,
) -> (r: bool)
    ensures
        r == binding_pressed(binding@, strict, *input),
{
    let ctrl_down: bool = is_modifier_down_mac(0x11, &input.key_map);
    let alt_down: bool = is_modifier_down_mac(0x12, &input.key_map);
    let shift_down: bool = is_modifier_down_mac(0x10, &input.key_map);
    let super_down: bool = is_modifier_down_mac(0x5B, &input.key_map);
    if !modifiers_match(binding, ctrl_down, alt_down, shift_down, super_down, strict) {
        return false;
    }
    is_main_key_active(binding.main_vk, input)
}

/// What an event of the wheel changes: nothing, or when the wheel was last turned up or down.
#[derive(Clone, Copy, Debug, PartialEq, Eq, Structural)]
pub enum ScrollUpdate {
    Keep,
    Up(u64),
    Down(u64),
}

/// Whether an event is a turn of the wheel.
pub open spec fn wheel_event(type_: u32) -> bool {
    type_ == K_CG_EVENT_SCROLL_WHEEL
}

/// Whether an event is a turn of the wheel.
pub fn is_scroll_event(type_: u32) -> (r: bool)
    ensures
        r == (type_ == K_CG_EVENT_SCROLL_WHEEL),
        r == wheel_event(type_),
{
    type_ == K_CG_EVENT_SCROLL_WHEEL
}

/// What a turn of the wheel by `delta` changes, at the moment `now`.
pub open spec fn wheel_update(delta: i64, now: u64) -> ScrollUpdate {
    if delta > 0 {
        ScrollUpdate::Up(now)
    } else if delta < 0 {
        ScrollUpdate::Down(now)
    } else {
        ScrollUpdate::Keep
    }
}

/// What a turn of the wheel by `delta` changes, at the moment `now`.
pub fn scroll_update(delta: i64, now: u64) -> (r: ScrollUpdate)
    ensures
        r == (if delta > 0 {
            ScrollUpdate::Up(now)
        } else if delta < 0 {
            ScrollUpdate::Down(now)
        } else {
            ScrollUpdate::Keep
        }),
        r == wheel_update(delta, now),
{
    if delta > 0 {
        ScrollUpdate::Up(now)
    } else if delta < 0 {
        ScrollUpdate::Down(now)
    } else {
        ScrollUpdate::Keep
    }
}

/// In strict mode the modifiers that are down must be those of the binding, one for one.
pub proof fn law_strict_modifiers_are_exact(
    b: binding::BindingModel,
    ctrl_down: bool,
    alt_down: bool,
    shift_down: bool,
    super_down: bool,
)
    ensures
        modifiers_fit(b, ctrl_down, alt_down, shift_down, super_down, true) <==> (b.ctrl
            == ctrl_down && b.alt == alt_down && b.shift == shift_down && b.super_key
            == super_down),
{
}

/// In relaxed mode more modifiers never block a hotkey.
pub proof fn law_extra_modifiers_do_not_block(
    b: binding::BindingModel,
    ctrl_down: bool,
    alt_down: bool,
    shift_down: bool,
    super_down: bool,
    more_ctrl: bool,
    more_alt: bool,
    more_shift: bool,
    more_super: bool,
)
    requires
        modifiers_fit(b, ctrl_down, alt_down, shift_down, super_down, false),
    ensures
        modifiers_fit(
            b,
            ctrl_down || more_ctrl,
            alt_down || more_alt,
            shift_down || more_shift,
            super_down || more_super,
            false,
        ),
{
}

/// A hotkey that is pressed in strict mode is pressed in relaxed mode.
pub proof fn law_strict_implies_relaxed(b: binding::BindingModel, input: InputSnapshot)
    requires
        binding_pressed(b, true, input),
    ensures
        binding_pressed(b, false, input),
{
}

/// Every key code of the table is one that the keyboard's bit map has room for.
pub proof fn law_keycodes_are_in_the_key_map(vk: i32)
    ensures
        mac_keycode(vk) matches Some(keycode) ==> keycode < 128,
{
}

/// No two codes mean the same key of the keyboard.
pub proof fn law_keycodes_are_distinct(a: i32, b: i32)
    requires
        mac_keycode(a) is Some,
        mac_keycode(a) == mac_keycode(b),
    ensures
        a == b,
{
}

/// Of the main keys that a hotkey can name, the pseudo keys and the mouse buttons are no keys of the
/// keyboard, and all others are.
pub proof fn law_every_main_key_is_known(token: Seq<char>, hotkey: Seq<char>)
    ensures
        main_key::main_key(token, hotkey) matches Ok((vk, _)) ==> (mac_keycode(vk) is None <==> {
            ||| vk == VK_SCROLL_UP_PSEUDO || vk == VK_SCROLL_DOWN_PSEUDO || vk
                == VK_NUMPAD_ENTER_PSEUDO
            ||| vk == 1 || vk == 2 || vk == 4
        }),
{
}

/// A turn of the wheel counts as its pseudo key until the window is over; moment 0 stands for no
/// turn.
pub proof fn law_scroll_counts_for_its_window(input: InputSnapshot)
    ensures
        main_key_active(input, VK_SCROLL_UP_PSEUDO) <==> input.scroll_up_at != 0 && input.now_ms
            < input.scroll_up_at + SCROLL_WINDOW_MS,
        main_key_active(input, VK_SCROLL_DOWN_PSEUDO) <==> input.scroll_down_at != 0
            && input.now_ms < input.scroll_down_at + SCROLL_WINDOW_MS,
{
}

/// Each byte of the key map is the sum of its keys that are down, the first key counting 1 and each
/// further one twice as much as the one before. Keys beyond the map are never down.
pub proof fn law_bytes_are_made_of_their_keys(key_map: Seq<u8>, byte: int, beyond: int)
    requires
        0 <= byte < 16,
        beyond >= 128,
    ensures
        key_map[byte] == key_weight(key_map, 8 * byte, 1) + key_weight(key_map, 8 * byte + 1, 2)
            + key_weight(key_map, 8 * byte + 2, 4) + key_weight(key_map, 8 * byte + 3, 8)
            + key_weight(key_map, 8 * byte + 4, 16) + key_weight(key_map, 8 * byte + 5, 32)
            + key_weight(key_map, 8 * byte + 6, 64) + key_weight(key_map, 8 * byte + 7, 128),
        !keycode_down(key_map, beyond),
{
    let b: u8 = key_map[byte];
    assert(b == ((b >> 0) & 1) + 2 * ((b >> 1) & 1) + 4 * ((b >> 2) & 1) + 8 * ((b >> 3) & 1) + 16
        * ((b >> 4) & 1) + 32 * ((b >> 5) & 1) + 64 * ((b >> 6) & 1) + 128 * ((b >> 7) & 1))
        by (bit_vector);
    assert((b >> 0) & 1 <= 1 && (b >> 1) & 1 <= 1 && (b >> 2) & 1 <= 1 && (b >> 3) & 1 <= 1 && (b
        >> 4) & 1 <= 1 && (b >> 5) & 1 <= 1 && (b >> 6) & 1 <= 1 && (b >> 7) & 1 <= 1)
        by (bit_vector);
}

/// What a key adds to its byte of the key map.
pub open spec fn key_weight(key_map: Seq<u8>, keycode: int, weight: int) -> int {
    if keycode_down(key_map, keycode) {
        weight
    } else {
        0
    }
}

/// Where the keys are on the keyboard. No code but these means a key.
pub proof fn law_keys_have_their_places(vk: i32)
    ensures
        mac_keycode(0x41) == Some(0x00u16),
        mac_keycode(0x42) == Some(0x0Bu16),
        mac_keycode(0x43) == Some(0x08u16),
        mac_keycode(0x44) == Some(0x02u16),
        mac_keycode(0x45) == Some(0x0Eu16),
        mac_keycode(0x46) == Some(0x03u16),
        mac_keycode(0x47) == Some(0x05u16),
        mac_keycode(0x48) == Some(0x04u16),
        mac_keycode(0x49) == Some(0x22u16),
        mac_keycode(0x4A) == Some(0x26u16),
        mac_keycode(0x4B) == Some(0x28u16),
        mac_keycode(0x4C) == Some(0x25u16),
        mac_keycode(0x4D) == Some(0x2Eu16),
        mac_keycode(0x4E) == Some(0x2Du16),
        mac_keycode(0x4F) == Some(0x1Fu16),
        mac_keycode(0x50) == Some(0x23u16),
        mac_keycode(0x51) == Some(0x0Cu16),
        mac_keycode(0x52) == Some(0x0Fu16),
        mac_keycode(0x53) == Some(0x01u16),
        mac_keycode(0x54) == Some(0x11u16),
        mac_keycode(0x55) == Some(0x20u16),
        mac_keycode(0x56) == Some(0x09u16),
        mac_keycode(0x57) == Some(0x0Du16),
        mac_keycode(0x58) == Some(0x07u16),
        mac_keycode(0x59) == Some(0x10u16),
        mac_keycode(0x5A) == Some(0x06u16),
        mac_keycode(0x30) == Some(0x1Du16),
        mac_keycode(0x31) == Some(0x12u16),
        mac_keycode(0x32) == Some(0x13u16),
        mac_keycode(0x33) == Some(0x14u16),
        mac_keycode(0x34) == Some(0x15u16),
        mac_keycode(0x35) == Some(0x17u16),
        mac_keycode(0x36) == Some(0x16u16),
        mac_keycode(0x37) == Some(0x1Au16),
        mac_keycode(0x38) == Some(0x1Cu16),
        mac_keycode(0x39) == Some(0x19u16),
        mac_keycode(0x70) == Some(0x7Au16),
        mac_keycode(0x71) == Some(0x78u16),
        mac_keycode(0x72) == Some(0x63u16),
        mac_keycode(0x73) == Some(0x76u16),
        mac_keycode(0x74) == Some(0x60u16),
        mac_keycode(0x75) == Some(0x61u16),
        mac_keycode(0x76) == Some(0x62u16),
        mac_keycode(0x77) == Some(0x64u16),
        mac_keycode(0x78) == Some(0x65u16),
        mac_keycode(0x79) == Some(0x6Du16),
        mac_keycode(0x7A) == Some(0x67u16),
        mac_keycode(0x7B) == Some(0x6Fu16),
        mac_keycode(0x1B) == Some(0x35u16),
        mac_keycode(0x0D) == Some(0x24u16),
        mac_keycode(0x20) == Some(0x31u16),
        mac_keycode(0x09) == Some(0x30u16),
        mac_keycode(0x08) == Some(0x33u16),
        mac_keycode(0x2E) == Some(0x75u16),
        mac_keycode(0x23) == Some(0x73u16),
        mac_keycode(0x22) == Some(0x77u16),
        mac_keycode(0x21) == Some(0x74u16),
        mac_keycode(0x26) == Some(0x7Eu16),
        mac_keycode(0x28) == Some(0x7Du16),
        mac_keycode(0x25) == Some(0x7Bu16),
        mac_keycode(0x27) == Some(0x7Cu16),
        mac_keycode(0x60) == Some(0x52u16),
        mac_keycode(0x61) == Some(0x53u16),
        mac_keycode(0x62) == Some(0x54u16),
        mac_keycode(0x63) == Some(0x55u16),
        mac_keycode(0x64) == Some(0x56u16),
        mac_keycode(0x65) == Some(0x57u16),
        mac_keycode(0x66) == Some(0x58u16),
        mac_keycode(0x67) == Some(0x59u16),
        mac_keycode(0x68) == Some(0x5Bu16),
        mac_keycode(0x69) == Some(0x5Cu16),
        mac_keycode(0x6B) == Some(0x51u16),
        mac_keycode(0x11) == Some(0x3Bu16),
        mac_keycode(0x12) == Some(0x3Au16),
        mac_keycode(0x10) == Some(0x38u16),
        mac_keycode(0x5B) == Some(0x37u16),
        mac_keycode(0x5C) == Some(0x36u16),
        mac_keycode(vk) is Some ==> {
            ||| 0x08 <= vk <= 0x09 || vk == 0x0D || 0x10 <= vk <= 0x12 || vk == 0x1B
            ||| 0x20 <= vk <= 0x23 || 0x25 <= vk <= 0x28 || vk == 0x2E
            ||| 0x30 <= vk <= 0x39 || 0x41 <= vk <= 0x5C || 0x60 <= vk <= 0x69 || vk == 0x6B
            ||| 0x70 <= vk <= 0x7B
        },
{
}

/// A modifier is down if it is down on the left or on the right.
pub proof fn law_modifiers_have_two_keys(key_map: Seq<u8>)
    ensures
        modifier_down(key_map, 0x10) <==> keycode_down(key_map, 0x38) || keycode_down(
            key_map,
            0x3C,
        ),
        modifier_down(key_map, 0x11) <==> keycode_down(key_map, 0x3B) || keycode_down(
            key_map,
            0x3E,
        ),
        modifier_down(key_map, 0x12) <==> keycode_down(key_map, 0x3A) || keycode_down(
            key_map,
            0x3D,
        ),
        modifier_down(key_map, 0x5B) <==> keycode_down(key_map, 0x36) || keycode_down(
            key_map,
            0x37,
        ),
        modifier_down(key_map, 0x5C) == modifier_down(key_map, 0x5B),
{
}

/// Asking for a key as a modifier is no different from asking for it as a key, unless the key is one
/// of the four modifiers; a modifier that is down as a key is down as a modifier.
pub proof fn law_other_keys_have_one_side(key_map: Seq<u8>, vk: i32)
    ensures
        vk_down(key_map, vk) ==> modifier_down(key_map, vk),
        !(0x10 <= vk <= 0x12) && vk != 0x5B && vk != 0x5C ==> modifier_down(key_map, vk) == vk_down(
            key_map,
            vk,
        ),
        vk_down(key_map, vk) <==> (mac_keycode(vk) matches Some(keycode) && keycode_down(
            key_map,
            keycode as int,
        )),
{
}

/// The wheel's keys count for 200 ms after a turn, up for -1 and down for -2; -3 is the numpad's
/// enter key. Every other main key is read from the key map alone.
pub proof fn law_main_keys_are_read_from_their_devices(
    input: InputSnapshot,
    other: InputSnapshot,
    vk: i32,
)
    ensures
        main_key_active(input, (-1) as i32) <==> input.scroll_up_at != 0 && input.now_ms < input.scroll_up_at
            + 200,
        main_key_active(input, (-2) as i32) <==> input.scroll_down_at != 0 && input.now_ms
            < input.scroll_down_at + 200,
        main_key_active(input, (-3) as i32) == input.numpad_enter_down,
        vk != -1 && vk != -2 && vk != -3 ==> {
            &&& main_key_active(input, vk) <==> (mac_keycode(vk) matches Some(keycode)
                && keycode_down(input.key_map@, keycode as int))
            &&& input.key_map@ == other.key_map@ ==> main_key_active(input, vk) == main_key_active(
                other,
                vk,
            )
        },
{
}

/// In both modes a modifier that the binding asks for has to be down. In relaxed mode that is all;
/// in strict mode no other may be down either.
pub proof fn law_modifiers_of_the_binding_have_to_be_down(
    b: binding::BindingModel,
    ctrl_down: bool,
    alt_down: bool,
    shift_down: bool,
    super_down: bool,
    strict: bool,
)
    ensures
        modifiers_fit(b, ctrl_down, alt_down, shift_down, super_down, strict) ==> (b.ctrl
            ==> ctrl_down) && (b.alt ==> alt_down) && (b.shift ==> shift_down) && (b.super_key
            ==> super_down),
        (b.ctrl ==> ctrl_down) && (b.alt ==> alt_down) && (b.shift ==> shift_down) && (b.super_key
            ==> super_down) ==> modifiers_fit(
            b,
            ctrl_down,
            alt_down,
            shift_down,
            super_down,
            false,
        ),
        modifiers_fit(b, ctrl_down, alt_down, shift_down, super_down, true) <==> (ctrl_down
            <==> b.ctrl) && (alt_down <==> b.alt) && (shift_down <==> b.shift) && (super_down
            <==> b.super_key),
{
}

/// A hotkey is pressed if and only if its main key is down, every modifier that it asks for is down
/// on the left or on the right, and in strict mode no other modifier is.
pub proof fn law_pressed_hotkey(b: binding::BindingModel, strict: bool, input: InputSnapshot)
    ensures
        ({
            let keys = input.key_map@;
            let ctrl = keycode_down(keys, 0x3B) || keycode_down(keys, 0x3E);
            let alt = keycode_down(keys, 0x3A) || keycode_down(keys, 0x3D);
            let shift = keycode_down(keys, 0x38) || keycode_down(keys, 0x3C);
            let cmd = keycode_down(keys, 0x37) || keycode_down(keys, 0x36);
            binding_pressed(b, strict, input) <==> {
                &&& main_key_active(input, b.main_vk)
                &&& b.ctrl ==> ctrl
                &&& b.alt ==> alt
                &&& b.shift ==> shift
                &&& b.super_key ==> cmd
                &&& strict ==> (ctrl ==> b.ctrl) && (alt ==> b.alt) && (shift ==> b.shift) && (cmd
                    ==> b.super_key)
            }
        }),
{
}

/// Whether a hotkey is pressed does not depend on its name.
pub proof fn law_name_does_not_decide(
    a: binding::BindingModel,
    b: binding::BindingModel,
    strict: bool,
    input: InputSnapshot,
)
    requires
        a.ctrl == b.ctrl && a.alt == b.alt && a.shift == b.shift && a.super_key == b.super_key,
        a.main_vk == b.main_vk,
    ensures
        binding_pressed(a, strict, input) == binding_pressed(b, strict, input),
{
}

/// Turning the wheel one way or the other counts for the key of that way, from that moment on; an
/// event that turns it neither way changes nothing. Only events of type 22 are turns of the wheel.
pub proof fn law_wheel_turns_count_for_their_way(delta: i64, now: u64, type_: u32)
    ensures
        wheel_update(delta, now) == ScrollUpdate::Up(now) <==> delta >= 1,
        wheel_update(delta, now) == ScrollUpdate::Down(now) <==> delta <= -1,
        wheel_update(delta, now) == ScrollUpdate::Keep <==> delta == 0,
        wheel_event(type_) <==> type_ == 22,
{
}

/// A turn of the wheel at a moment other than 0 presses its key at once, and for 200 ms.
pub proof fn law_wheel_turn_presses_its_key(
    delta: i64,
    now: u64,
    before: InputSnapshot,
    after: InputSnapshot,
)
    requires
        now != 0,
        match wheel_update(delta, now) {
            ScrollUpdate::Up(at) => after.scroll_up_at == at && after.scroll_down_at
                == before.scroll_down_at,
            ScrollUpdate::Down(at) => after.scroll_down_at == at && after.scroll_up_at
                == before.scroll_up_at,
            ScrollUpdate::Keep => after.scroll_up_at == before.scroll_up_at && after.scroll_down_at
                == before.scroll_down_at,
        },
    ensures
        delta > 0 ==> (main_key_active(after, (-1) as i32) <==> after.now_ms < now + 200),
        delta < 0 ==> (main_key_active(after, (-2) as i32) <==> after.now_ms < now + 200),
        delta <= 0 ==> after.scroll_up_at == before.scroll_up_at,
        delta >= 0 ==> after.scroll_down_at == before.scroll_down_at,
{
}

} // verus!
