//! The mouse: where it is, how it moves and how it clicks.
pub mod clicks;
pub mod motion;
pub mod screen;

pub use clicks::{
    button_for_type, get_button_flags, get_cursor_pos, send_batch, send_clicks, send_mouse_event,
    ClickAction, ClickBatch, ClickRun, MouseEvent,
};
pub use motion::{smooth_move, GlideAction, GlideRun, Movement};
pub use screen::{current_monitor_rects, current_virtual_screen_rect, VirtualScreenRect};
