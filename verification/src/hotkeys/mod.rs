//! Hotkeys: their text form, the keys that are down, and the listener that acts on them.
pub mod accepted;
pub mod aliases;
pub mod binding;
pub mod grammar;
pub mod key_names;
pub mod keyboard;
pub mod listener;
pub mod main_key;
pub mod normal_form;
pub mod parts;
pub mod round_trip;

pub use binding::{format_hotkey_binding, normalize_hotkey, parse_hotkey_binding, HotkeyBinding};
pub use keyboard::{
    is_hotkey_binding_pressed, is_mac_keycode_down, is_main_key_active, is_modifier_down_mac,
    is_scroll_event, is_vk_down, modifiers_match, scroll_update, vk_to_mac_keycode, InputSnapshot,
    ScrollUpdate, K_CG_EVENT_SCROLL_WHEEL, SCROLL_WINDOW_MS,
};
pub use listener::{
    handle_hotkey_pressed, handle_hotkey_released, register_hotkey_inner, ClickerCommand,
    HotkeyEdge, HotkeyListener, HotkeyState, POLL_INTERVAL_MS, REGISTRATION_QUIET_MS,
};
pub use main_key::{
    parse_hotkey_main_key, VK_NUMPAD_ENTER_PSEUDO, VK_SCROLL_DOWN_PSEUDO, VK_SCROLL_UP_PSEUDO,
};
