use blur_autoclicker::engine::{
    button_for_type, current_monitor_rects, current_virtual_screen_rect, get_button_flags,
    get_cursor_pos, send_batch, send_clicks, send_mouse_event, smooth_move, ClickAction,
    GlideAction, GlideRun, MouseEvent, Movement, VirtualScreenRect,
};

fn rect(left: i32, top: i32, width: i32, height: i32) -> VirtualScreenRect {
    VirtualScreenRect::new(left, top, width, height)
}

#[test]
fn rectangles_are_half_open() {
    let r = rect(-10, 20, 30, 40);
    assert_eq!(r.right(), 20);
    assert_eq!(r.bottom(), 60);
    assert!(r.contains(-10, 20));
    assert!(r.contains(19, 59));
    assert!(!r.contains(20, 59));
    assert!(!r.contains(19, 60));
    assert!(!r.contains(-11, 20));
    assert!(!r.contains(-10, 19));
    assert!(!rect(0, 0, 0, 5).contains(0, 0));
    // The edges need not be numbers where they play no part.
    assert!(!rect(1, 0, i32::MAX, 1).contains(0, 0));
}

#[test]
fn offsets_move_the_corner_only() {
    let r = rect(100, -50, 30, 40);
    let origin = rect(-20, 10, 999, 999);
    let moved = r.offset_from(origin);
    assert_eq!(moved, rect(120, -60, 30, 40));
    assert_eq!(moved.contains(121, -59), r.contains(101, -49));
    assert_eq!(r.offset_from(r), rect(0, 0, 30, 40));
}

#[test]
fn the_main_display_starts_at_the_origin() {
    assert_eq!(current_virtual_screen_rect(1920, 1080), Some(rect(0, 0, 1920, 1080)));
    assert_eq!(current_virtual_screen_rect(0, 1080), None);
    assert_eq!(current_virtual_screen_rect(1920, 0), None);
    assert_eq!(current_virtual_screen_rect(0x8000_0000, 1), None);
    assert_eq!(current_virtual_screen_rect(0x7fff_ffff, 1), Some(rect(0, 0, i32::MAX, 1)));
    let wide: usize = (1u64 << 32) as usize + 7;
    assert_eq!(current_virtual_screen_rect(wide, 1), Some(rect(0, 0, 7, 1)));
}

#[test]
fn monitors_are_ordered_by_corner() {
    let first = rect(5, 0, 1, 1);
    let second = rect(5, 0, 2, 2);
    let bounds = vec![
        rect(0, 10, 3, 3),
        first,
        rect(9, 9, 0, 5),
        rect(-5, 10, 3, 3),
        second,
        rect(9, 9, 5, -1),
        rect(7, -100, 1, 1),
    ];
    assert_eq!(
        current_monitor_rects(0, &bounds, 1, 1),
        Some(vec![rect(7, -100, 1, 1), first, second, rect(-5, 10, 3, 3), rect(0, 10, 3, 3)])
    );
}

#[test]
fn the_main_display_stands_in_for_the_monitors() {
    let good = vec![rect(1, 1, 1, 1)];
    let bad = vec![rect(1, 1, 0, 1)];
    let main = Some(vec![rect(0, 0, 800, 600)]);
    assert_eq!(current_monitor_rects(1, &good, 800, 600), main);
    assert_eq!(current_monitor_rects(0, &bad, 800, 600), main);
    assert_eq!(current_monitor_rects(0, &Vec::new(), 800, 600), main);
    assert_eq!(current_monitor_rects(-1, &good, 0, 600), None);
    assert_eq!(current_monitor_rects(0, &good, 0, 0), Some(good.clone()));
}

#[test]
fn buttons_have_event_types() {
    assert_eq!(get_button_flags(1), (1, 2));
    assert_eq!(get_button_flags(2), (3, 4));
    assert_eq!(get_button_flags(3), (25, 26));
    assert_eq!(get_button_flags(-7), (1, 2));
    for button in -2..6 {
        let (down, up) = get_button_flags(button);
        assert!(down != up);
        assert_eq!(button_for_type(down), button_for_type(up));
    }
    assert_eq!(button_for_type(1), 0);
    assert_eq!(button_for_type(4), 1);
    assert_eq!(button_for_type(25), 2);
    assert_eq!(button_for_type(99), 0);
}

#[test]
fn events_happen_at_the_cursor() {
    assert_eq!(get_cursor_pos(Some((3, -4))), (3, -4));
    assert_eq!(get_cursor_pos(None), (0, 0));
    assert_eq!(
        send_mouse_event(3, Some((3, -4))),
        MouseEvent { event_type: 3, x: 3, y: -4, button: 1 }
    );
    assert_eq!(send_mouse_event(26, None), MouseEvent { event_type: 26, x: 0, y: 0, button: 2 });
}

#[test]
fn a_batch_alternates_presses_and_releases() {
    let mut batch = send_batch(3, 4, 2, 50, Some((8, 9)));
    let down = MouseEvent { event_type: 3, x: 8, y: 9, button: 1 };
    let up = MouseEvent { event_type: 4, x: 8, y: 9, button: 1 };
    let mut events = Vec::new();
    while let Some(event) = batch.next_event() {
        events.push(event);
    }
    assert_eq!(events, vec![down, up, down, up]);
    assert_eq!(batch.next_event(), None);
    assert_eq!(send_batch(1, 2, 0, 0, None).next_event(), None);
    // The release goes by the button of the press.
    let mut mixed = send_batch(1, 4, 1, 0, None);
    mixed.next_event();
    assert_eq!(
        mixed.next_event(),
        Some(MouseEvent { event_type: 4, x: 0, y: 0, button: 0 })
    );
}

fn run(
    count: usize,
    hold_ms: u32,
    gap: bool,
    delay_ms: u32,
    answers: &[bool],
) -> Vec<ClickAction> {
    let mut clicks = send_clicks(1, 2, count, hold_ms, gap, delay_ms);
    let mut actions = Vec::new();
    let mut asked = 0;
    let mut active = false;
    loop {
        let action = clicks.next_action(active);
        if action == ClickAction::Finish {
            assert_eq!(clicks.next_action(true), ClickAction::Finish);
            return actions;
        }
        if action == ClickAction::CheckActive {
            active = asked < answers.len() && answers[asked];
            asked += 1;
        }
        actions.push(action);
    }
}

const ASK: ClickAction = ClickAction::CheckActive;
const DOWN: ClickAction = ClickAction::SendMouseEvent(1);
const UP: ClickAction = ClickAction::SendMouseEvent(2);

#[test]
fn no_clicks_do_nothing() {
    assert_eq!(run(0, 5, true, 5, &[true; 4]), vec![]);
    assert_eq!(run(0, 0, false, 0, &[true; 4]), vec![]);
}

#[test]
fn quick_clicks_go_out_as_a_batch() {
    assert_eq!(
        run(3, 0, false, 40, &[]),
        vec![ClickAction::SendBatch { down: 1, up: 2, count: 3 }]
    );
}

#[test]
fn single_clicks_ask_first() {
    assert_eq!(run(1, 0, false, 40, &[true]), vec![ASK, DOWN, UP]);
    assert_eq!(run(1, 0, true, 40, &[true]), vec![ASK, DOWN, UP]);
    assert_eq!(run(1, 0, false, 40, &[false]), vec![ASK]);
}

#[test]
fn held_clicks_ask_again_before_the_release() {
    let hold = ClickAction::Sleep(7);
    assert_eq!(
        run(2, 7, false, 40, &[true; 4]),
        vec![ASK, DOWN, hold, ASK, UP, ASK, DOWN, hold, ASK, UP]
    );
    assert_eq!(
        run(2, 7, false, 40, &[true, true, true, false]),
        vec![ASK, DOWN, hold, ASK, UP, ASK, DOWN, hold, ASK]
    );
}

#[test]
fn double_clicks_pause_between_clicks_only() {
    let pause = ClickAction::Sleep(40);
    assert_eq!(
        run(2, 0, true, 40, &[true; 2]),
        vec![ASK, DOWN, UP, pause, ASK, DOWN, UP]
    );
    assert_eq!(run(2, 0, true, 0, &[true; 2]), vec![ASK, DOWN, UP, ASK, DOWN, UP]);
    assert_eq!(run(2, 0, true, 40, &[true, false]), vec![ASK, DOWN, UP, pause, ASK]);
}

#[test]
fn uninterrupted_runs_press_and_release_for_each_click() {
    let actions = run(5, 3, true, 4, &[true; 10]);
    assert_eq!(actions.iter().filter(|a| **a == DOWN).count(), 5);
    assert_eq!(actions.iter().filter(|a| **a == UP).count(), 5);
}

#[test]
fn movements_are_planned_by_time_and_distance() {
    assert_eq!(smooth_move(0, 0, 9, 9, 4), Movement::Jump);
    assert_eq!(smooth_move(9, 9, 9, 9, 4), Movement::Jump);
    assert_eq!(smooth_move(9, 9, 9, 9, 5), Movement::Stay);
    assert_eq!(smooth_move(0, 0, 1, 0, 5), Movement::Glide { steps: 10, step_ms: 0 });
    assert_eq!(smooth_move(0, 0, 0, 1, 10), Movement::Glide { steps: 10, step_ms: 1 });
    assert_eq!(smooth_move(0, 0, 1, 1, 150), Movement::Glide { steps: 150, step_ms: 1 });
    assert_eq!(smooth_move(0, 0, 1, 1, 1000), Movement::Glide { steps: 200, step_ms: 5 });
    assert_eq!(smooth_move(0, 0, 1, 1, 1199), Movement::Glide { steps: 200, step_ms: 5 });
}

fn glide(steps: u64, step_ms: u64) -> Vec<GlideAction> {
    let mut run = GlideRun::new(steps, step_ms);
    let mut actions = Vec::new();
    loop {
        let action = run.next_action();
        if action == GlideAction::Finish {
            assert_eq!(run.next_action(), GlideAction::Finish);
            return actions;
        }
        actions.push(action);
    }
}

#[test]
fn glides_sleep_between_their_points_only() {
    let nap = GlideAction::Sleep(7);
    assert_eq!(
        glide(2, 7),
        vec![GlideAction::MoveTo(0), nap, GlideAction::MoveTo(1), nap, GlideAction::MoveTo(2)]
    );
    assert_eq!(glide(0, 7), vec![GlideAction::MoveTo(0)]);
    let long = glide(200, 5);
    assert_eq!(long.len(), 401);
    assert_eq!(long[400], GlideAction::MoveTo(200));
    assert_eq!(long.iter().filter(|a| **a == GlideAction::Sleep(5)).count(), 200);
}

#[test]
fn presses_and_releases_alternate() {
    for hold_ms in [0, 5] {
        for first in [false, true] {
            for second in [false, true] {
                for third in [false, true] {
                    let actions = run(3, hold_ms, true, 7, &[first, second, third]);
                    let types: Vec<u32> = actions
                        .iter()
                        .filter_map(|action| match action {
                            ClickAction::SendMouseEvent(event_type) => Some(*event_type),
                            _ => None,
                        })
                        .collect();
                    for (i, event_type) in types.iter().enumerate() {
                        assert_eq!(*event_type, if i % 2 == 0 { 1 } else { 2 });
                    }
                    assert!(types.len() <= 6);
                    if hold_ms == 0 {
                        assert_eq!(types.len() % 2, 0);
                    }
                }
            }
        }
    }
}
