//! Smooth movement of the cursor: in how many steps, and how fast.
use vstd::prelude::*;

verus! {

/// A movement that takes less than this goes in one jump, in milliseconds.
pub const SHORTEST_GLIDE_MS: u64 = 5;

/// The smallest number of steps of a glide.
pub const MIN_STEPS: u64 = 10;

/// The largest number of steps of a glide.
pub const MAX_STEPS: u64 = 200;

/// How the cursor moves.
#[derive(Clone, Copy, Debug, PartialEq, Eq, Structural)]
pub enum Movement {
    /// At once.
    Jump,
    /// Not at all.
    Stay,
    /// Along a curve, with a sleep of `step_ms` between every two of its `steps + 1` points.
    Glide { steps: u64, step_ms: u64 },
}

/// The number of steps of a glide: one for each millisecond, within the limits.
pub open spec fn glide_steps(duration_ms: u64) -> u64 {
    if duration_ms < MIN_STEPS {
        MIN_STEPS
    } else if duration_ms > MAX_STEPS {
        MAX_STEPS
    } else {
        duration_ms
    }
}

/// How the cursor moves from one point to another in the given time.
pub open spec fn movement(
    start_x: i32,
    start_y: i32,
    end_x: i32,
    end_y: i32,
    duration_ms: u64,
) -> Movement {
    if duration_ms < SHORTEST_GLIDE_MS {
        Movement::Jump
    } else if start_x == end_x && start_y == end_y {
        Movement::Stay
    } else {
        Movement::Glide {
            steps: glide_steps(duration_ms),
            step_ms: duration_ms / glide_steps(duration_ms),
        }
    }
}

/// How the cursor moves from one point to another in the given time.
pub fn smooth_move(start_x: i32, start_y: i32, end_x: i32, end_y: i32, duration_ms: u64) -> (r:
    Movement)
    ensures
        r == movement(start_x, start_y, end_x, end_y, duration_ms),
{
    if duration_ms < SHORTEST_GLIDE_MS {
        return Movement::Jump;
    }
    if start_x == end_x && start_y == end_y {
        return Movement::Stay;
    }
    let steps: u64 = if duration_ms < MIN_STEPS {
        MIN_STEPS
    } else if duration_ms > MAX_STEPS {
        MAX_STEPS
    } else {
        duration_ms
    };
    Movement::Glide { steps, step_ms: duration_ms / steps }
}

/// What a glide does next.
#[derive(Clone, Copy, Debug, PartialEq, Eq, Structural)]
pub enum GlideAction {
    /// Move the cursor to this point of the curve; point 0 is the start, the last one the end.
    MoveTo(u64),
    /// Sleep for so many milliseconds.
    Sleep(u64),
    /// Nothing more.
    Finish,
}

/// The actions of a whole glide: its `steps + 1` points in turn, with a sleep between every two.
pub open spec fn glide_actions(steps: u64, step_ms: u64) -> Seq<GlideAction> {
    Seq::new(
        (2 * steps + 1) as nat,
        |k: int|
            if k % 2 == 0 {
                GlideAction::MoveTo((k / 2) as u64)
            } else {
                GlideAction::Sleep(step_ms)
            },
    )
}

/// How far a glide has come.
#[derive(Clone, Copy, Debug, PartialEq, Eq, Structural)]
enum GlideStage {
    /// The move to this point is next.
    Move(u64),
    /// The sleep behind this point is next.
    Sleep(u64),
    /// The glide is over.
    Over,
}

/// A glide that is under way. The caller performs one action after the other.
pub struct GlideRun {
    steps: u64,
    step_ms: u64,
    stage: GlideStage,
}

impl GlideRun {
    /// The point that the glide is at is one of its own, and a sleep follows any but the last.
    #[verifier::type_invariant]
    spec fn well_formed(self) -> bool {
        match self.stage {
            GlideStage::Move(i) => i <= self.steps,
            GlideStage::Sleep(i) => i < self.steps,
            GlideStage::Over => true,
        }
    }

    /// The actions that are still to come.
    pub closed spec fn actions(self) -> Seq<GlideAction> {
        let all = glide_actions(self.steps, self.step_ms);
        match self.stage {
            GlideStage::Move(i) => all.skip(2 * i),
            GlideStage::Sleep(i) => all.skip(2 * i + 1),
            GlideStage::Over => seq![],
        }
    }

    /// A glide of the given number of steps that has not begun.
    pub fn new(steps: u64, step_ms: u64) -> (r: GlideRun)
        ensures
            r.actions() == glide_actions(steps, step_ms),
    {
        let r = GlideRun { steps, step_ms, stage: GlideStage::Move(0) };
        assert(r.actions() =~= glide_actions(steps, step_ms));
        r
    }

    /// Takes the next action.
    pub fn next_action(&mut self) -> (r: GlideAction)
        ensures
            old(self).actions() == (if r == GlideAction::Finish {
                seq![]
            } else {
                seq![r] + final(self).actions()
            }),
            r == GlideAction::Finish ==> final(self).actions().len() == 0,
    {
        proof {
            use_type_invariant(&*self);
        }
        let (stage, action) = match self.stage {
            GlideStage::Move(i) => {
                if i < self.steps {
                    (GlideStage::Sleep(i), GlideAction::MoveTo(i))
                } else {
                    (GlideStage::Over, GlideAction::MoveTo(i))
                }
            },
            GlideStage::Sleep(i) => (GlideStage::Move(i + 1), GlideAction::Sleep(self.step_ms)),
            GlideStage::Over => (GlideStage::Over, GlideAction::Finish),
        };
        *self = GlideRun { steps: self.steps, step_ms: self.step_ms, stage };
        assert(action != GlideAction::Finish ==> old(self).actions() =~= seq![action]
            + self.actions());
        action
    }
}

/// How long a series of actions sleeps in all.
pub open spec fn slept_ms(actions: Seq<GlideAction>) -> int
    decreases actions.len(),
{
    if actions.len() == 0 {
        0
    } else {
        slept_ms(actions.drop_last()) + match actions.last() {
            GlideAction::Sleep(ms) => ms as int,
            _ => 0,
        }
    }
}

/// The sleeps among the first actions of a glide.
proof fn lemma_slept_ms(steps: u64, step_ms: u64, k: int)
    requires
        0 <= k <= 2 * steps + 1,
    ensures
        slept_ms(glide_actions(steps, step_ms).take(k)) == (k / 2) * step_ms,
    decreases k,
{
    let part = glide_actions(steps, step_ms).take(k);
    if k > 0 {
        assert(part.drop_last() =~= glide_actions(steps, step_ms).take(k - 1));
        lemma_slept_ms(steps, step_ms, k - 1);
        if k % 2 == 0 {
            assert((k / 2) * step_ms == (k / 2 - 1) * step_ms + step_ms) by (nonlinear_arith);
            assert((k - 1) / 2 == k / 2 - 1);
        } else {
            assert((k - 1) / 2 == k / 2);
        }
    } else {
        assert((k / 2) * step_ms == 0) by (nonlinear_arith)
            requires
                k == 0,
        ;
    }
}

/// A glide begins with its first point and ends with its last, and sleeps once for each step.
pub proof fn law_glide_goes_from_start_to_end(steps: u64, step_ms: u64)
    ensures
        ({
            let actions = glide_actions(steps, step_ms);
            &&& actions[0] == GlideAction::MoveTo(0)
            &&& actions.last() == GlideAction::MoveTo(steps)
            &&& slept_ms(actions) == steps * step_ms
        }),
{
    let actions = glide_actions(steps, step_ms);
    lemma_slept_ms(steps, step_ms, 2 * steps + 1);
    assert(actions.take(2 * steps + 1) =~= actions);
    assert((2 * steps + 1) / 2 == steps);
}

/// The sleeps of a glide never add up to more than the given time, and fall short of it by less
/// than one millisecond for each step.
pub proof fn law_glide_keeps_its_time(
    start_x: i32,
    start_y: i32,
    end_x: i32,
    end_y: i32,
    duration_ms: u64,
)
    ensures
        movement(start_x, start_y, end_x, end_y, duration_ms) matches Movement::Glide {
            steps,
            step_ms,
        } ==> {
            &&& MIN_STEPS <= steps <= MAX_STEPS
            &&& slept_ms(glide_actions(steps, step_ms)) <= duration_ms
            &&& duration_ms < slept_ms(glide_actions(steps, step_ms)) + steps
        },
{
    let steps = glide_steps(duration_ms);
    let step_ms = duration_ms / steps;
    law_glide_goes_from_start_to_end(steps, step_ms);
    assert(steps * step_ms <= duration_ms < steps * step_ms + steps) by (nonlinear_arith)
        requires
            steps > 0,
            step_ms == duration_ms / steps,
    ;
}

/// The cursor arrives: it stays only where it is already at its end. From any other point it jumps
/// if there is less than 5 ms, and glides otherwise.
pub proof fn law_cursor_arrives(
    start_x: i32,
    start_y: i32,
    end_x: i32,
    end_y: i32,
    duration_ms: u64,
)
    ensures
        ({
            let m = movement(start_x, start_y, end_x, end_y, duration_ms);
            let same_point = (start_x, start_y) == (end_x, end_y);
            &&& m is Stay ==> same_point
            &&& m is Jump <==> duration_ms < 5
            &&& m is Glide <==> duration_ms >= 5 && !same_point
        }),
{
}

/// The way back takes as many steps and as long as the way there.
pub proof fn law_way_back_is_like_the_way_there(
    start_x: i32,
    start_y: i32,
    end_x: i32,
    end_y: i32,
    duration_ms: u64,
)
    ensures
        movement(start_x, start_y, end_x, end_y, duration_ms) == movement(
            end_x,
            end_y,
            start_x,
            start_y,
            duration_ms,
        ),
{
}

/// How the cursor moves depends on the way between the points, not on where they lie.
pub proof fn law_place_does_not_matter(
    start_x: i32,
    start_y: i32,
    end_x: i32,
    end_y: i32,
    other_start_x: i32,
    other_start_y: i32,
    other_end_x: i32,
    other_end_y: i32,
    duration_ms: u64,
)
    requires
        end_x - start_x == other_end_x - other_start_x,
        end_y - start_y == other_end_y - other_start_y,
    ensures
        movement(start_x, start_y, end_x, end_y, duration_ms) == movement(
            other_start_x,
            other_start_y,
            other_end_x,
            other_end_y,
            duration_ms,
        ),
{
}

/// A glide takes 10 to 200 steps, and as many as there are milliseconds where these limits let it.
/// Its sleeps are equal, as long as they can be, and fit in the time.
pub proof fn law_glide_steps(
    start_x: i32,
    start_y: i32,
    end_x: i32,
    end_y: i32,
    duration_ms: u64,
)
    ensures
        movement(start_x, start_y, end_x, end_y, duration_ms) matches Movement::Glide {
            steps,
            step_ms,
        } ==> {
            &&& 10 <= steps <= 200
            &&& steps < duration_ms ==> steps == 200
            &&& steps > duration_ms ==> steps == 10
            &&& steps * step_ms <= duration_ms < steps * (step_ms + 1)
        },
{
    let steps = glide_steps(duration_ms);
    let step_ms = duration_ms / steps;
    assert(steps * step_ms <= duration_ms < steps * (step_ms + 1)) by (nonlinear_arith)
        requires
            steps > 0,
            step_ms == duration_ms / steps,
    ;
}

/// A glide goes to each of its points once, in order, and sleeps between every two and nowhere else.
pub proof fn law_glide_visits_every_point(steps: u64, step_ms: u64)
    ensures
        glide_actions(steps, step_ms).len() == 2 * steps + 1,
        forall|i: int|
            0 <= i <= steps ==> #[trigger] glide_actions(steps, step_ms)[2 * i]
                == GlideAction::MoveTo(i as u64),
        forall|i: int|
            0 <= i < steps ==> #[trigger] glide_actions(steps, step_ms)[2 * i + 1]
                == GlideAction::Sleep(step_ms),
{
}

} // verus!
