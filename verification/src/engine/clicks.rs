//! Mouse clicks: the events that a button sends, batches of clicks, and click runs that can be
//! stopped.
use vstd::prelude::*;

verus! {

pub const K_CG_EVENT_LEFT_MOUSE_DOWN: u32 = 1;

pub const K_CG_EVENT_LEFT_MOUSE_UP: u32 = 2;

pub const K_CG_EVENT_RIGHT_MOUSE_DOWN: u32 = 3;

pub const K_CG_EVENT_RIGHT_MOUSE_UP: u32 = 4;

pub const K_CG_OTHER_MOUSE_DOWN: u32 = 25;

pub const K_CG_OTHER_MOUSE_UP: u32 = 26;

pub const K_CG_MOUSE_BUTTON_LEFT: u32 = 0;

pub const K_CG_MOUSE_BUTTON_RIGHT: u32 = 1;

pub const K_CG_MOUSE_BUTTON_CENTER: u32 = 2;

/// An event to be posted: its type, where it happens, and the button it is about.
#[derive(Clone, Copy, Debug, PartialEq, Eq, Structural)]
pub struct MouseEvent {
    pub event_type: u32,
    pub x: i32,
    pub y: i32,
    pub button: u32,
}

/// The event types of pressing and releasing a button: 2 is the right one, 3 the middle one, any
/// other number the left one.
pub open spec fn button_flags(button: i32) -> (u32, u32) {
    if button == 2 {
        (K_CG_EVENT_RIGHT_MOUSE_DOWN, K_CG_EVENT_RIGHT_MOUSE_UP)
    } else if button == 3 {
        (K_CG_OTHER_MOUSE_DOWN, K_CG_OTHER_MOUSE_UP)
    } else {
        (K_CG_EVENT_LEFT_MOUSE_DOWN, K_CG_EVENT_LEFT_MOUSE_UP)
    }
}

/// The event types of pressing and releasing a button.
pub fn get_button_flags(button: i32) -> (r: (u32, u32))
    ensures
        r == button_flags(button),
{
    match button {
        2 => (K_CG_EVENT_RIGHT_MOUSE_DOWN, K_CG_EVENT_RIGHT_MOUSE_UP),
        3 => (K_CG_OTHER_MOUSE_DOWN, K_CG_OTHER_MOUSE_UP),
        _ => (K_CG_EVENT_LEFT_MOUSE_DOWN, K_CG_EVENT_LEFT_MOUSE_UP),
    }
}

/// The button that an event type is about.
pub open spec fn type_button(event_type: u32) -> u32 {
    if event_type == K_CG_EVENT_RIGHT_MOUSE_DOWN || event_type == K_CG_EVENT_RIGHT_MOUSE_UP {
        K_CG_MOUSE_BUTTON_RIGHT
    } else if event_type == K_CG_OTHER_MOUSE_DOWN || event_type == K_CG_OTHER_MOUSE_UP {
        K_CG_MOUSE_BUTTON_CENTER
    } else {
        K_CG_MOUSE_BUTTON_LEFT
    }
}

/// The button that an event type is about.
pub fn button_for_type(event_type: u32) -> (r: u32)
    ensures
        r == type_button(event_type),
{
    if event_type == K_CG_EVENT_RIGHT_MOUSE_DOWN || event_type == K_CG_EVENT_RIGHT_MOUSE_UP {
        K_CG_MOUSE_BUTTON_RIGHT
    } else if event_type == K_CG_OTHER_MOUSE_DOWN || event_type == K_CG_OTHER_MOUSE_UP {
        K_CG_MOUSE_BUTTON_CENTER
    } else {
        K_CG_MOUSE_BUTTON_LEFT
    }
}

/// Where the cursor is taken to be: at the origin where its position is not known.
pub open spec fn cursor_or_origin(position: Option<(i32, i32)>) -> (i32, i32) {
    match position {
        Some(point) => point,
        None => (0, 0),
    }
}

/// Where the cursor is taken to be, from the reply of the system.
pub fn get_cursor_pos(position: Option<(i32, i32)>) -> (r: (i32, i32))
    ensures
        r == cursor_or_origin(position),
{
    match position {
        Some(point) => point,
        None => (0, 0),
    }
}

/// The event of the given type and button at the cursor.
pub open spec fn event_at(event_type: u32, cursor: Option<(i32, i32)>, button: u32) -> MouseEvent {
    MouseEvent {
        event_type,
        x: cursor_or_origin(cursor).0,
        y: cursor_or_origin(cursor).1,
        button,
    }
}

/// The event that a single event type sends at the cursor.
pub open spec fn single_event(event_type: u32, cursor: Option<(i32, i32)>) -> MouseEvent {
    event_at(event_type, cursor, type_button(event_type))
}

/// The event that a single event type sends at the cursor.
pub fn send_mouse_event(event_type: u32, cursor: Option<(i32, i32)>) -> (r: MouseEvent)
    ensures
        r == event_at(event_type, cursor, type_button(event_type)),
        r == single_event(event_type, cursor),
{
    let (x, y) = get_cursor_pos(cursor);
    MouseEvent { event_type, x, y, button: button_for_type(event_type) }
}

/// A batch of clicks at one place: the events that are still to be posted.
pub struct ClickBatch {
    down: MouseEvent,
    up: MouseEvent,
    left: usize,
    up_next: bool,
}

/// `n` times `down` and `up` in turn.
pub open spec fn alternating(down: MouseEvent, up: MouseEvent, n: nat) -> Seq<MouseEvent> {
    Seq::new(
        2 * n,
        |i: int|
            if i % 2 == 0 {
                down
            } else {
                up
            },
    )
}

impl ClickBatch {
    /// Only a click that is not over can have its release still to be posted.
    #[verifier::type_invariant]
    spec fn well_formed(self) -> bool {
        self.up_next ==> self.left > 0
    }

    /// The events that are still to be posted.
    pub closed spec fn events(self) -> Seq<MouseEvent> {
        if self.up_next {
            alternating(self.down, self.up, self.left as nat).drop_first()
        } else {
            alternating(self.down, self.up, self.left as nat)
        }
    }

    /// Takes the next event of the batch.
    pub fn next_event(&mut self) -> (r: Option<MouseEvent>)
        ensures
            match r {
                Some(event) => old(self).events().len() > 0 && event == old(self).events()[0]
                    && final(self).events() == old(self).events().drop_first(),
                None => old(self).events().len() == 0 && final(self).events().len() == 0,
            },
    {
        proof {
            use_type_invariant(&*self);
        }
        if self.left == 0 {
            return None;
        }
        let left: usize = self.left - 1;
        if self.up_next {
            *self = ClickBatch { down: self.down, up: self.up, left, up_next: false };
            assert(self.events() =~= old(self).events().drop_first());
            Some(self.up)
        } else {
            *self = ClickBatch { down: self.down, up: self.up, left: self.left, up_next: true };
            assert(self.events() =~= old(self).events().drop_first());
            Some(self.down)
        }
    }
}

/// The events of a batch of `n` clicks at the cursor.
pub open spec fn batch_events(
    down: u32,
    up: u32,
    n: nat,
    cursor: Option<(i32, i32)>,
) -> Seq<MouseEvent> {
    let button = type_button(down);
    alternating(event_at(down, cursor, button), event_at(up, cursor, button), n)
}

/// A batch of `n` clicks at the cursor. All its events are about the button of `down`; how long a
/// button is held plays no part.
pub fn send_batch(
    down: u32,
    up: u32,
    n: usize,
    _hold_ms: u32,
    cursor: Option<(i32, i32)>,
) -> (r: ClickBatch)
    ensures
        r.events() == alternating(
            event_at(down, cursor, type_button(down)),
            event_at(up, cursor, type_button(down)),
            n as nat,
        ),
        r.events() == batch_events(down, up, n as nat, cursor),
{
    let (x, y) = get_cursor_pos(cursor);
    let button: u32 = button_for_type(down);
    ClickBatch {
        down: MouseEvent { event_type: down, x, y, button },
        up: MouseEvent { event_type: up, x, y, button },
        left: n,
        up_next: false,
    }
}

/// Pressing and releasing a button are different events about that button.
pub proof fn law_button_flags_belong_together(button: i32)
    ensures
        button_flags(button).0 != button_flags(button).1,
        type_button(button_flags(button).0) == type_button(button_flags(button).1),
        type_button(button_flags(button).0) == (if button == 2 {
            K_CG_MOUSE_BUTTON_RIGHT
        } else if button == 3 {
            K_CG_MOUSE_BUTTON_CENTER
        } else {
            K_CG_MOUSE_BUTTON_LEFT
        }),
{
}

/// Button 2 is the right one and 3 the middle one; every other number means the left one. Each has
/// its own types of events, by which the system tells the buttons apart.
pub proof fn law_buttons_send_their_own_events(button: i32, other: i32)
    ensures
        ({
            let (down, up) = button_flags(button);
            &&& button == 2 ==> down == 3 && up == 4 && type_button(down) == 1
            &&& button == 3 ==> down == 25 && up == 26 && type_button(down) == 2
            &&& button != 2 && button != 3 ==> down == 1 && up == 2 && type_button(down) == 0
            &&& type_button(up) == type_button(down)
        }),
        button_flags(button) == button_flags(other) <==> type_button(button_flags(button).0)
            == type_button(button_flags(other).0),
{
}

/// An event type that belongs to neither the right nor the middle button is about the left one.
pub proof fn law_other_events_are_about_the_left_button(event_type: u32)
    requires
        event_type != button_flags(2).0 && event_type != button_flags(2).1,
        event_type != button_flags(3).0 && event_type != button_flags(3).1,
    ensures
        type_button(event_type) == 0,
{
}

/// An event happens where the cursor is, or at the origin where that is not known.
pub proof fn law_events_happen_at_the_cursor(event_type: u32, x: i32, y: i32)
    ensures
        ({
            let e = single_event(event_type, Some((x, y)));
            e.event_type == event_type && e.x == x && e.y == y && e.button == type_button(event_type)
        }),
        single_event(event_type, None) == single_event(event_type, Some((0i32, 0i32))),
        cursor_or_origin(Some((x, y))) == (x, y),
        cursor_or_origin(None) == (0i32, 0i32),
{
}

/// A batch of `n` clicks is `n` presses, each with its release behind it, all at one place and all
/// about the button that is pressed.
pub proof fn law_batch_presses_and_releases(
    down: u32,
    up: u32,
    n: nat,
    cursor: Option<(i32, i32)>,
)
    ensures
        ({
            let events = batch_events(down, up, n, cursor);
            let press = single_event(down, cursor);
            &&& events.len() == 2 * n
            &&& forall|i: int|
                0 <= i < n ==> #[trigger] events[2 * i] == press && events[2 * i + 1]
                    == (MouseEvent { event_type: up, ..press })
        }),
{
}

/// A batch of clicks of one button sends what single events send.
pub proof fn law_batch_is_like_single_events(button: i32, cursor: Option<(i32, i32)>)
    ensures
        ({
            let (down, up) = button_flags(button);
            batch_events(down, up, 1, cursor) == seq![
                single_event(down, cursor),
                single_event(up, cursor),
            ]
        }),
{
    let (down, up) = button_flags(button);
    assert(batch_events(down, up, 1, cursor) =~= seq![
        single_event(down, cursor),
        single_event(up, cursor),
    ]);
}

/// A run of clicks: what it sends, how often, how long the button is held, and the pause between
/// two clicks.
#[derive(Clone, Copy, Debug, PartialEq, Eq, Structural)]
pub struct ClickPlan {
    pub down: u32,
    pub up: u32,
    pub count: usize,
    pub hold_ms: u32,
    pub use_double_click_gap: bool,
    pub double_click_delay_ms: u32,
}

/// What a run of clicks does next.
#[derive(Clone, Copy, Debug, PartialEq, Eq, Structural)]
pub enum ClickAction {
    /// Ask whether the run is still active; the answer decides how it goes on.
    CheckActive,
    /// Send one event of this type, where the cursor then is.
    SendMouseEvent(u32),
    /// Send a batch of clicks.
    SendBatch { down: u32, up: u32, count: usize },
    /// Sleep for so many milliseconds, or until the run is stopped.
    Sleep(u32),
    /// Nothing more.
    Finish,
}

/// Whether the next answer is that the run is active; a missing answer says that it is not.
pub open spec fn says_active(answers: Seq<bool>) -> bool {
    answers.len() > 0 && answers[0]
}

impl ClickPlan {
    /// Whether the clicks go out as one batch: several, not held, and without pauses.
    pub open spec fn is_batch(self) -> bool {
        !self.use_double_click_gap && self.count > 1 && self.hold_ms == 0
    }

    /// The actions of the whole run, where `answers` are the answers to its questions in turn.
    pub open spec fn actions(self, answers: Seq<bool>) -> Seq<ClickAction> {
        if self.count > 0 && self.is_batch() {
            seq![ClickAction::SendBatch { down: self.down, up: self.up, count: self.count }]
        } else {
            self.from_click(0, answers)
        }
    }

    /// The actions from click `i` on: the run must be active before each click.
    pub open spec fn from_click(self, i: int, answers: Seq<bool>) -> Seq<ClickAction>
        decreases self.count - i, 4int,
    {
        if 0 <= i < self.count {
            seq![ClickAction::CheckActive] + self.from_press(i, answers)
        } else {
            seq![]
        }
    }

    /// The actions from the press of click `i` on, if the run is active.
    pub open spec fn from_press(self, i: int, answers: Seq<bool>) -> Seq<ClickAction>
        decreases self.count - i, 3int,
    {
        if says_active(answers) {
            seq![ClickAction::SendMouseEvent(self.down)] + self.from_hold(i, answers.drop_first())
        } else {
            seq![]
        }
    }

    /// The actions behind the press of click `i`: a button that is held is released only if the run
    /// is still active.
    pub open spec fn from_hold(self, i: int, answers: Seq<bool>) -> Seq<ClickAction>
        decreases self.count - i, 2int,
    {
        if self.hold_ms == 0 {
            self.from_release(i, answers)
        } else if says_active(answers) {
            seq![ClickAction::Sleep(self.hold_ms), ClickAction::CheckActive] + self.from_release(
                i,
                answers.drop_first(),
            )
        } else {
            seq![ClickAction::Sleep(self.hold_ms), ClickAction::CheckActive]
        }
    }

    /// The actions from the release of click `i` on.
    pub open spec fn from_release(self, i: int, answers: Seq<bool>) -> Seq<ClickAction>
        decreases self.count - i, 1int,
    {
        seq![ClickAction::SendMouseEvent(self.up)] + self.from_pause(i, answers)
    }

    /// The actions behind click `i`: a pause if another click follows and pauses are asked for.
    pub open spec fn from_pause(self, i: int, answers: Seq<bool>) -> Seq<ClickAction>
        decreases self.count - i, 0int,
    {
        if 0 <= i && i + 1 < self.count {
            if self.use_double_click_gap && self.double_click_delay_ms > 0 {
                seq![ClickAction::Sleep(self.double_click_delay_ms)] + self.from_click(
                    i + 1,
                    answers,
                )
            } else {
                self.from_click(i + 1, answers)
            }
        } else {
            seq![]
        }
    }
}

/// How far a run of clicks has come.
#[derive(Clone, Copy, Debug, PartialEq, Eq, Structural)]
enum ClickStage {
    /// Nothing has been done.
    Begin,
    /// The question before this click has been asked.
    Asked(usize),
    /// The button has been pressed.
    Pressed(usize),
    /// The button has been held.
    Held(usize),
    /// The question after holding the button has been asked.
    AskedHeld(usize),
    /// The button has been released.
    Released(usize),
    /// The pause behind this click is over, and another click follows.
    Paused(usize),
    /// The run is over.
    Over,
}

/// A run of clicks that is under way. The caller performs one action after the other and answers
/// the questions.
pub struct ClickRun {
    plan: ClickPlan,
    stage: ClickStage,
}

impl ClickRun {
    /// The click that the run is at is one of the plan's.
    #[verifier::type_invariant]
    spec fn well_formed(self) -> bool {
        match self.stage {
            ClickStage::Begin | ClickStage::Over => true,
            ClickStage::Asked(i) => i < self.plan.count,
            ClickStage::Pressed(i) => i < self.plan.count,
            ClickStage::Held(i) => i < self.plan.count && self.plan.hold_ms > 0,
            ClickStage::AskedHeld(i) => i < self.plan.count && self.plan.hold_ms > 0,
            ClickStage::Released(i) => i < self.plan.count,
            ClickStage::Paused(i) => i + 1 < self.plan.count,
        }
    }

    /// Whether the last action was a question, so that an answer to it is due.
    pub closed spec fn awaits_answer(self) -> bool {
        self.stage is Asked || self.stage is AskedHeld
    }

    /// The actions that are still to come, where `answers` are the answers to the questions in
    /// turn, the one that is due included.
    pub closed spec fn actions(self, answers: Seq<bool>) -> Seq<ClickAction> {
        match self.stage {
            ClickStage::Begin => self.plan.actions(answers),
            ClickStage::Asked(i) => self.plan.from_press(i as int, answers),
            ClickStage::Pressed(i) => self.plan.from_hold(i as int, answers),
            ClickStage::Held(i) => seq![ClickAction::CheckActive] + (if says_active(answers) {
                self.plan.from_release(i as int, answers.drop_first())
            } else {
                seq![]
            }),
            ClickStage::AskedHeld(i) => if says_active(answers) {
                self.plan.from_release(i as int, answers.drop_first())
            } else {
                seq![]
            },
            ClickStage::Released(i) => self.plan.from_pause(i as int, answers),
            ClickStage::Paused(i) => self.plan.from_click(i + 1, answers),
            ClickStage::Over => seq![],
        }
    }

    /// The answers that `actions` is asked for when `active` answers the question that is due.
    pub open spec fn with_answer(self, active: bool, later: Seq<bool>) -> Seq<bool> {
        if self.awaits_answer() {
            seq![active] + later
        } else {
            later
        }
    }

    /// Takes the next action. `active` is the answer to the last question; it counts only if the
    /// last action was one.
    pub fn next_action(&mut self, active: bool) -> (r: ClickAction)
        ensures
            final(self).awaits_answer() == (r == ClickAction::CheckActive),
            forall|later: Seq<bool>|
                old(self).actions(old(self).with_answer(active, later)) == (if r
                    == ClickAction::Finish {
                    seq![]
                } else {
                    seq![r] + #[trigger] final(self).actions(later)
                }),
            r == ClickAction::Finish ==> forall|later: Seq<bool>|
                (#[trigger] final(self).actions(later)).len() == 0,
    {
        proof {
            use_type_invariant(&*self);
            assert forall|later: Seq<bool>| (#[trigger] (seq![active] + later)).drop_first()
                == later by {
                assert((seq![active] + later).drop_first() =~= later);
            }
        }
        let plan: ClickPlan = self.plan;
        let (stage, action) = match self.stage {
            ClickStage::Begin => {
                if plan.count == 0 {
                    (ClickStage::Over, ClickAction::Finish)
                } else if !plan.use_double_click_gap && plan.count > 1 && plan.hold_ms == 0 {
                    (
                        ClickStage::Over,
                        ClickAction::SendBatch { down: plan.down, up: plan.up, count: plan.count },
                    )
                } else {
                    (ClickStage::Asked(0), ClickAction::CheckActive)
                }
            },
            ClickStage::Asked(i) => {
                if active {
                    (ClickStage::Pressed(i), ClickAction::SendMouseEvent(plan.down))
                } else {
                    (ClickStage::Over, ClickAction::Finish)
                }
            },
            ClickStage::Pressed(i) => {
                if plan.hold_ms > 0 {
                    (ClickStage::Held(i), ClickAction::Sleep(plan.hold_ms))
                } else {
                    (ClickStage::Released(i), ClickAction::SendMouseEvent(plan.up))
                }
            },
            ClickStage::Held(i) => (ClickStage::AskedHeld(i), ClickAction::CheckActive),
            ClickStage::AskedHeld(i) => {
                if active {
                    (ClickStage::Released(i), ClickAction::SendMouseEvent(plan.up))
                } else {
                    (ClickStage::Over, ClickAction::Finish)
                }
            },
            ClickStage::Released(i) => {
                if i + 1 < plan.count {
                    if plan.use_double_click_gap && plan.double_click_delay_ms > 0 {
                        (ClickStage::Paused(i), ClickAction::Sleep(plan.double_click_delay_ms))
                    } else {
                        (ClickStage::Asked(i + 1), ClickAction::CheckActive)
                    }
                } else {
                    (ClickStage::Over, ClickAction::Finish)
                }
            },
            ClickStage::Paused(i) => (ClickStage::Asked(i + 1), ClickAction::CheckActive),
            ClickStage::Over => (ClickStage::Over, ClickAction::Finish),
        };
        *self = ClickRun { plan, stage };
        proof {
            assert forall|later: Seq<bool>|
                old(self).actions(old(self).with_answer(active, later)) == (if action
                    == ClickAction::Finish {
                    seq![]
                } else {
                    seq![action] + #[trigger] self.actions(later)
                }) by {
                assert(old(self).actions(old(self).with_answer(active, later)) =~= (if action
                    == ClickAction::Finish {
                    seq![]
                } else {
                    seq![action] + self.actions(later)
                }));
            }
        }
        action
    }
}

/// A run of `count` clicks: held for `hold_ms` each, with pauses of `double_click_delay_ms` between
/// them if `use_double_click_gap`.
pub fn send_clicks(
    down: u32,
    up: u32,
    count: usize,
    hold_ms: u32,
    use_double_click_gap: bool,
    double_click_delay_ms: u32,
) -> (r: ClickRun)
    ensures
        !r.awaits_answer(),
        forall|answers: Seq<bool>| #[trigger]
            r.actions(answers) == (ClickPlan {
                down,
                up,
                count,
                hold_ms,
                use_double_click_gap,
                double_click_delay_ms,
            }).actions(answers),
{
    let plan = ClickPlan {
        down,
        up,
        count,
        hold_ms,
        use_double_click_gap,
        double_click_delay_ms,
    };
    ClickRun { plan, stage: ClickStage::Begin }
}

/// The types of the mouse events that `actions` sends, in order. A batch of clicks sends as many
/// presses, each with its release behind it.
pub open spec fn sent_types(actions: Seq<ClickAction>) -> Seq<u32>
    decreases actions.len(),
{
    if actions.len() == 0 {
        seq![]
    } else {
        match actions[0] {
            ClickAction::SendMouseEvent(event_type) => seq![event_type] + sent_types(
                actions.drop_first(),
            ),
            ClickAction::SendBatch { down, up, count } => in_turn(down, up, 2 * count as nat)
                + sent_types(actions.drop_first()),
            _ => sent_types(actions.drop_first()),
        }
    }
}

/// The first `n` of the types `down`, `up`, `down`, `up` and so on.
pub open spec fn in_turn(down: u32, up: u32, n: nat) -> Seq<u32> {
    Seq::new(
        n,
        |i: int|
            if i % 2 == 0 {
                down
            } else {
                up
            },
    )
}

/// What an action in front adds to the types.
proof fn lemma_sent_first(a: ClickAction, rest: Seq<ClickAction>)
    ensures
        sent_types(seq![a] + rest) == match a {
            ClickAction::SendMouseEvent(event_type) => seq![event_type] + sent_types(rest),
            ClickAction::SendBatch { down, up, count } => in_turn(down, up, 2 * count as nat)
                + sent_types(rest),
            _ => sent_types(rest),
        },
{
    assert((seq![a] + rest).drop_first() =~= rest);
}

impl ClickPlan {
    /// The types sent from click `i` on.
    proof fn lemma_sent_in_turn(self, i: int, answers: Seq<bool>)
        requires
            0 <= i <= self.count,
        ensures
            ({
                let types = sent_types(self.from_click(i, answers));
                &&& types == in_turn(self.down, self.up, types.len())
                &&& types.len() <= 2 * (self.count - i)
                &&& self.hold_ms == 0 ==> types.len() % 2 == 0
                &&& (answers.len() >= 2 * (self.count - i) && forall|k: int|
                    0 <= k < answers.len() ==> #[trigger] answers[k]) ==> types.len() == 2 * (
                self.count - i)
            }),
        decreases self.count - i,
    {
        let down = self.down;
        let up = self.up;
        let press = ClickAction::SendMouseEvent(down);
        let release = ClickAction::SendMouseEvent(up);
        let check = ClickAction::CheckActive;
        let hold = ClickAction::Sleep(self.hold_ms);
        let pause = ClickAction::Sleep(self.double_click_delay_ms);
        if i < self.count {
            let rest = if self.hold_ms == 0 {
                answers.drop_first()
            } else {
                answers.drop_first().drop_first()
            };
            let next = self.from_click(i + 1, rest);
            let paused = self.from_pause(i, rest);
            let released = self.from_release(i, rest);
            let held = self.from_hold(i, answers.drop_first());
            let pressed = self.from_press(i, answers);
            let later = sent_types(next);
            self.lemma_sent_in_turn(i + 1, rest);
            lemma_sent_first(pause, next);
            lemma_sent_first(release, paused);
            assert(sent_types(released) == seq![up] + later);
            if self.hold_ms > 0 {
                lemma_sent_first(hold, seq![check] + released);
                lemma_sent_first(check, released);
                assert(seq![hold, check] + released =~= seq![hold] + (seq![check] + released));
                assert(seq![hold, check] =~= seq![hold] + (seq![check] + seq![]));
                lemma_sent_first(hold, seq![check] + seq![]);
                lemma_sent_first(check, seq![]);
            }
            lemma_sent_first(press, held);
            lemma_sent_first(check, pressed);
            if answers.len() >= 2 * (self.count - i) && forall|k: int|
                0 <= k < answers.len() ==> #[trigger] answers[k] {
                assert(answers[0] && answers[1]);
                assert(answers.drop_first()[0] == answers[1]);
                assert(forall|k: int|
                    0 <= k < rest.len() ==> #[trigger] rest[k] == answers[k + answers.len()
                        - rest.len()]);
            }
            assert(seq![down] + (seq![up] + later) =~= in_turn(down, up, later.len() + 2));
            assert(seq![down] + seq![] =~= in_turn(down, up, 1));
            assert(Seq::<u32>::empty() =~= in_turn(down, up, 0));
        } else {
            assert(Seq::<u32>::empty() =~= in_turn(down, up, 0));
        }
    }
}

/// The types that any run sends, batch or not.
proof fn lemma_sent(plan: ClickPlan, answers: Seq<bool>)
    ensures
        ({
            let types = sent_types(plan.actions(answers));
            &&& types == in_turn(plan.down, plan.up, types.len())
            &&& types.len() <= 2 * plan.count
            &&& plan.hold_ms == 0 ==> types.len() % 2 == 0
            &&& (answers.len() >= 2 * plan.count && forall|k: int|
                0 <= k < answers.len() ==> #[trigger] answers[k]) ==> types.len() == 2 * plan.count
        }),
{
    let none = Seq::<ClickAction>::empty();
    if plan.count > 0 && plan.is_batch() {
        let batch = ClickAction::SendBatch { down: plan.down, up: plan.up, count: plan.count };
        lemma_sent_first(batch, none);
        assert(seq![batch] + none =~= seq![batch]);
        assert(sent_types(none) =~= Seq::<u32>::empty());
        assert(in_turn(plan.down, plan.up, 2 * plan.count as nat) + sent_types(none) =~= in_turn(
            plan.down,
            plan.up,
            2 * plan.count as nat,
        ));
    } else {
        plan.lemma_sent_in_turn(0, answers);
    }
}

/// A run sends presses and releases of its own button in turn, a press first, and presses at most
/// once for each click. If the button is not held, every press is released; a run that is stopped
/// while it holds the button may leave out the last release.
pub proof fn law_presses_and_releases(plan: ClickPlan, answers: Seq<bool>)
    ensures
        ({
            let types = sent_types(plan.actions(answers));
            &&& forall|i: int|
                0 <= i < types.len() ==> #[trigger] types[i] == (if i % 2 == 0 {
                    plan.down
                } else {
                    plan.up
                })
            &&& types == in_turn(plan.down, plan.up, types.len())
            &&& types.len() <= 2 * plan.count
            &&& plan.hold_ms == 0 ==> types.len() % 2 == 0
        }),
{
    lemma_sent(plan, answers);
}

/// A run that stays active presses and releases its button once for each click.
pub proof fn law_uninterrupted_run_is_complete(plan: ClickPlan, answers: Seq<bool>)
    requires
        answers.len() >= 2 * plan.count,
        forall|k: int| 0 <= k < answers.len() ==> #[trigger] answers[k],
    ensures
        sent_types(plan.actions(answers)).len() == 2 * plan.count,
        sent_types(plan.actions(answers)) == in_turn(plan.down, plan.up, 2 * plan.count as nat),
        forall|i: int|
            0 <= i < plan.count ==> #[trigger] sent_types(plan.actions(answers))[2 * i] == plan.down
                && sent_types(plan.actions(answers))[2 * i + 1] == plan.up,
{
    lemma_sent(plan, answers);
}

/// A run that is not active at its first question does nothing else.
pub proof fn law_inactive_run_sends_nothing(plan: ClickPlan, answers: Seq<bool>)
    requires
        plan.count > 0,
        !plan.is_batch(),
        !says_active(answers),
    ensures
        plan.actions(answers) == seq![ClickAction::CheckActive],
{
    assert(plan.actions(answers) =~= seq![ClickAction::CheckActive]);
}

/// No clicks are no actions. Several clicks that are neither held nor asked to keep a pause go out
/// at once, without a question.
pub proof fn law_quick_clicks_go_out_at_once(plan: ClickPlan, answers: Seq<bool>)
    ensures
        plan.count == 0 ==> plan.actions(answers).len() == 0,
        plan.count > 1 && plan.hold_ms == 0 && !plan.use_double_click_gap ==> plan.actions(answers)
            == seq![
            ClickAction::SendBatch { down: plan.down, up: plan.up, count: plan.count },
        ],
{
}

/// A run of single clicks ends at the first question that is not answered with yes. Before the first
/// click nothing has been sent; while the button is held it has been pressed, and stays so.
pub proof fn law_run_ends_when_stopped(plan: ClickPlan, answers: Seq<bool>)
    requires
        plan.count == 1 || (plan.count > 1 && (plan.hold_ms > 0 || plan.use_double_click_gap)),
    ensures
        answers.len() == 0 || !answers[0] ==> plan.actions(answers) == seq![
            ClickAction::CheckActive,
        ],
        answers.len() > 0 && answers[0] && plan.hold_ms > 0 && (answers.len() == 1 || !answers[1])
            ==> plan.actions(answers) == seq![
            ClickAction::CheckActive,
            ClickAction::SendMouseEvent(plan.down),
            ClickAction::Sleep(plan.hold_ms),
            ClickAction::CheckActive,
        ],
{
    if answers.len() == 0 || !answers[0] {
        law_inactive_run_sends_nothing(plan, answers);
    } else if plan.hold_ms > 0 && (answers.len() == 1 || !answers[1]) {
        let rest = answers.drop_first();
        assert(rest.len() > 0 ==> rest[0] == answers[1]);
        assert(plan.from_hold(0, rest) == seq![
            ClickAction::Sleep(plan.hold_ms),
            ClickAction::CheckActive,
        ]);
        assert(plan.actions(answers) =~= seq![
            ClickAction::CheckActive,
            ClickAction::SendMouseEvent(plan.down),
            ClickAction::Sleep(plan.hold_ms),
            ClickAction::CheckActive,
        ]);
    }
}

impl ClickPlan {
    /// From its second click on, a run goes like one with a click less from its first on.
    proof fn lemma_one_click_less(self, less: ClickPlan, i: int, answers: Seq<bool>)
        requires
            less.count + 1 == self.count,
            less == (ClickPlan { count: less.count, ..self }),
            0 <= i <= less.count,
        ensures
            self.from_click(i + 1, answers) == less.from_click(i, answers),
        decreases less.count - i,
    {
        if i < less.count {
            let after_press = answers.drop_first();
            let after_hold = if self.hold_ms == 0 {
                after_press
            } else {
                after_press.drop_first()
            };
            self.lemma_one_click_less(less, i + 1, after_hold);
            assert(self.from_pause(i + 1, after_hold) == less.from_pause(i, after_hold));
            assert(self.from_release(i + 1, after_hold) == less.from_release(i, after_hold));
            assert(self.from_hold(i + 1, after_press) == less.from_hold(i, after_press));
            assert(self.from_press(i + 1, answers) == less.from_press(i, answers));
        }
    }
}

/// A click whose questions are answered with yes presses the button, holds it as long as the plan
/// says, and releases it. If more clicks are to follow, the run keeps the pause that the plan asks
/// for and goes on like a run with one click less.
pub proof fn law_run_goes_click_by_click(plan: ClickPlan, less: ClickPlan, answers: Seq<bool>)
    requires
        plan.count == 1 || (plan.count > 1 && (plan.hold_ms > 0 || plan.use_double_click_gap)),
        less == (ClickPlan { count: (plan.count - 1) as usize, ..plan }),
        answers.len() >= (if plan.hold_ms > 0 {
            2int
        } else {
            1int
        }),
        answers[0],
        plan.hold_ms > 0 ==> answers[1],
    ensures
        ({
            let click = if plan.hold_ms > 0 {
                seq![
                    ClickAction::CheckActive,
                    ClickAction::SendMouseEvent(plan.down),
                    ClickAction::Sleep(plan.hold_ms),
                    ClickAction::CheckActive,
                    ClickAction::SendMouseEvent(plan.up),
                ]
            } else {
                seq![
                    ClickAction::CheckActive,
                    ClickAction::SendMouseEvent(plan.down),
                    ClickAction::SendMouseEvent(plan.up),
                ]
            };
            let pause = if plan.count > 1 && plan.use_double_click_gap && plan.double_click_delay_ms
                > 0 {
                seq![ClickAction::Sleep(plan.double_click_delay_ms)]
            } else {
                seq![]
            };
            let later = answers.skip(if plan.hold_ms > 0 {
                2
            } else {
                1
            });
            plan.actions(answers) == click + pause + less.actions(later)
        }),
{
    let after_press = answers.drop_first();
    let later = answers.skip(if plan.hold_ms > 0 {
        2
    } else {
        1
    });
    if plan.hold_ms > 0 {
        assert(after_press[0] == answers[1]);
        assert(after_press.drop_first() =~= later);
    } else {
        assert(after_press =~= later);
    }
    plan.lemma_one_click_less(less, 0, later);
    assert(less.actions(later) == less.from_click(0, later));
    let pause = if plan.count > 1 && plan.use_double_click_gap && plan.double_click_delay_ms > 0 {
        seq![ClickAction::Sleep(plan.double_click_delay_ms)]
    } else {
        seq![]
    };
    let paused = plan.from_pause(0, later);
    assert(paused =~= pause + less.actions(later));
    let released = plan.from_release(0, later);
    assert(released =~= seq![ClickAction::SendMouseEvent(plan.up)] + paused);
    let held = plan.from_hold(0, after_press);
    if plan.hold_ms > 0 {
        assert(held =~= seq![ClickAction::Sleep(plan.hold_ms), ClickAction::CheckActive]
            + released);
    } else {
        assert(held == released);
    }
    let pressed = plan.from_press(0, answers);
    assert(pressed =~= seq![ClickAction::SendMouseEvent(plan.down)] + held);
    assert(plan.actions(answers) =~= seq![ClickAction::CheckActive] + pressed);
}

/// The answer that is handed to a run is the one to its last question, and is not used for another.
pub proof fn law_answers_are_taken_in_turn(run: ClickRun, active: bool, later: Seq<bool>)
    ensures
        run.awaits_answer() ==> run.with_answer(active, later).first() == active
            && run.with_answer(active, later).drop_first() == later,
        !run.awaits_answer() ==> run.with_answer(active, later) == later,
{
    assert((seq![active] + later).drop_first() =~= later);
}

} // verus!
