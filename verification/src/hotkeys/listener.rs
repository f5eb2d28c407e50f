//! Registering a hotkey and acting on it: when its edges count, and what they command.
use crate::hotkeys::binding;
use crate::hotkeys::binding::{format_hotkey_binding, parse_hotkey_binding, HotkeyBinding};
use crate::hotkeys::keyboard;
use crate::hotkeys::keyboard::{is_hotkey_binding_pressed, InputSnapshot};
use crate::text::same_text;
use vstd::prelude::*;
use vstd::string::*;

verus! {

/// How long a newly registered hotkey is ignored, in milliseconds.
pub const REGISTRATION_QUIET_MS: u64 = 250;

/// How long the listener sleeps between two polls, in milliseconds.
pub const POLL_INTERVAL_MS: u64 = 12;

/// The registered hotkey, and how long it is to be ignored.
pub struct HotkeyState {
    pub registered_hotkey: Option<HotkeyBinding>,
    /// The hotkey is ignored before this moment, in milliseconds since the epoch.
    pub suppress_hotkey_until_ms: u64,
    /// The hotkey is ignored until it has been seen released.
    pub suppress_hotkey_until_release: bool,
}

impl HotkeyState {
    /// The registered binding in the form that contracts speak of.
    pub open spec fn registered(self) -> Option<binding::BindingModel> {
        match self.registered_hotkey {
            Some(b) => Some(b@),
            None => None,
        }
    }

    /// No hotkey, and nothing to ignore.
    pub fn new() -> (r: HotkeyState)
        ensures
            r.registered() is None,
            r.suppress_hotkey_until_ms == 0,
            !r.suppress_hotkey_until_release,
    {
        HotkeyState {
            registered_hotkey: None,
            suppress_hotkey_until_ms: 0,
            suppress_hotkey_until_release: false,
        }
    }
}

/// The sum of two moments, held at the largest one there is.
pub open spec fn held_sum(a: u64, b: u64) -> int {
    if a + b <= u64::MAX {
        a + b
    } else {
        u64::MAX as int
    }
}

/// What registering a hotkey brings about: the binding, its canonical text, and how long it is to be
/// ignored.
pub struct Registration {
    pub binding: binding::BindingModel,
    pub printed: Seq<char>,
    pub until_ms: u64,
    pub until_release: bool,
}

/// What registering a hotkey text at the moment `now` brings about, or the message that refuses it.
pub open spec fn registration(hotkey: Seq<char>, now: u64) -> Result<Registration, Seq<char>> {
    match binding::parsed_hotkey(hotkey) {
        Ok(b) => Ok(
            Registration {
                binding: b,
                printed: binding::formatted(b),
                until_ms: held_sum(now, REGISTRATION_QUIET_MS) as u64,
                until_release: true,
            },
        ),
        Err(message) => Err(message),
    }
}

/// Registers a hotkey at the moment `now` and returns its canonical text. It is ignored for a
/// while, and until it has been released. A hotkey text that is refused changes nothing.
pub fn register_hotkey_inner(state: &mut HotkeyState, hotkey: String, now: u64) -> (r: Result<
    String,
    String,
>)
    ensures
        match binding::parsed_hotkey(hotkey@) {
            Ok(b) => {
                &&& r matches Ok(printed) && printed@ == binding::formatted(b)
                &&& final(state).registered() == Some(b)
                &&& final(state).suppress_hotkey_until_ms == held_sum(now, REGISTRATION_QUIET_MS)
                &&& final(state).suppress_hotkey_until_release
            },
            Err(message) => {
                &&& r matches Err(refusal) && refusal@ == message
                &&& *final(state) == *old(state)
            },
        },
        match registration(hotkey@, now) {
            Ok(reg) => {
                &&& r matches Ok(printed) && printed@ == reg.printed
                &&& final(state).registered() == Some(reg.binding)
                &&& final(state).suppress_hotkey_until_ms == reg.until_ms
                &&& final(state).suppress_hotkey_until_release == reg.until_release
            },
            Err(message) => {
                &&& r matches Err(refusal) && refusal@ == message
                &&& *final(state) == *old(state)
            },
        },
{
    match parse_hotkey_binding(hotkey.as_str()) {
        Ok(parsed) => {
            let printed: String = format_hotkey_binding(&parsed);
            state.suppress_hotkey_until_ms = now.saturating_add(REGISTRATION_QUIET_MS);
            state.suppress_hotkey_until_release = true;
            state.registered_hotkey = Some(parsed);
            Ok(printed)
        },
        Err(message) => Err(message),
    }
}

/// What a poll found: no edge that counts, or that the hotkey went down or up.
#[derive(Clone, Copy, Debug, PartialEq, Eq, Structural)]
pub enum HotkeyEdge {
    Unchanged,
    Pressed,
    Released,
}

/// What the listener remembers from one poll to the next.
pub struct HotkeyListener {
    pub was_pressed: bool,
}

/// What decides a poll: whether the hotkey was down, and how long it is to be ignored.
pub struct ListenerModel {
    pub was_pressed: bool,
    pub until_ms: u64,
    pub until_release: bool,
}

/// What a poll observes: whether the hotkey is down, whether a new hotkey is being captured, and
/// the moment.
pub struct Observation {
    pub pressed: bool,
    pub capturing: bool,
    pub now_ms: u64,
}

/// Whether edges are ignored at an observation.
pub open spec fn ignored(m: ListenerModel, o: Observation) -> bool {
    o.capturing || m.until_release || o.now_ms < m.until_ms
}

/// The edge that counts at an observation.
pub open spec fn edge(m: ListenerModel, o: Observation) -> HotkeyEdge {
    if ignored(m, o) || o.pressed == m.was_pressed {
        HotkeyEdge::Unchanged
    } else if o.pressed {
        HotkeyEdge::Pressed
    } else {
        HotkeyEdge::Released
    }
}

/// What is remembered after an observation. The wait for a release ends with the first observation
/// that finds the hotkey up while no hotkey is being captured.
pub open spec fn after(m: ListenerModel, o: Observation) -> ListenerModel {
    ListenerModel {
        was_pressed: o.pressed,
        until_ms: m.until_ms,
        until_release: m.until_release && (o.capturing || o.pressed),
    }
}

/// What a listener and the state say together.
pub open spec fn listener_model(listener: HotkeyListener, state: HotkeyState) -> ListenerModel {
    ListenerModel {
        was_pressed: listener.was_pressed,
        until_ms: state.suppress_hotkey_until_ms,
        until_release: state.suppress_hotkey_until_release,
    }
}

/// What a poll observes of an input.
pub open spec fn observation(
    state: HotkeyState,
    strict: bool,
    capturing: bool,
    input: InputSnapshot,
) -> Observation {
    Observation {
        pressed: match state.registered() {
            Some(b) => keyboard::binding_pressed(b, strict, input),
            None => false,
        },
        capturing,
        now_ms: input.now_ms,
    }
}

impl HotkeyListener {
    /// A listener that has seen nothing yet.
    pub fn new() -> (r: HotkeyListener)
        ensures
            !r.was_pressed,
    {
        HotkeyListener { was_pressed: false }
    }

    /// Polls the registered hotkey once.
    pub fn poll(
        &mut self,
        state: &mut HotkeyState,
        strict: bool,
        capturing: bool,
        input: &InputSnapshot,
    ) -> (r: HotkeyEdge)
        ensures
            ({
                let before = listener_model(*old(self), *old(state));
                let seen = observation(*old(state), strict, capturing, *input);
                &&& r == edge(before, seen)
                &&& listener_model(*final(self), *final(state)) == after(before, seen)
                &&& final(state).registered_hotkey == old(state).registered_hotkey
            }),
    {
        let pressed: bool = match &state.registered_hotkey {
            Some(b) => is_hotkey_binding_pressed(b, strict, input),
            None => false,
        };
        let was_pressed: bool = self.was_pressed;
        self.was_pressed = pressed;
        if capturing {
            return HotkeyEdge::Unchanged;
        }
        if state.suppress_hotkey_until_release {
            if !pressed {
                state.suppress_hotkey_until_release = false;
            }
            return HotkeyEdge::Unchanged;
        }
        if input.now_ms < state.suppress_hotkey_until_ms {
            return HotkeyEdge::Unchanged;
        }
        if pressed && !was_pressed {
            HotkeyEdge::Pressed
        } else if !pressed && was_pressed {
            HotkeyEdge::Released
        } else {
            HotkeyEdge::Unchanged
        }
    }
}

/// What the clicker is told to do.
#[derive(Debug, PartialEq, Eq)]
pub enum ClickerCommand {
    Toggle,
    Start,
    /// Stop, for the reason given.
    Stop(String),
}

/// A command in the form that contracts speak of.
pub enum CommandModel {
    Toggle,
    Start,
    Stop(Seq<char>),
}

/// A command, if there is one, in the form that contracts speak of.
pub open spec fn command_view(command: Option<ClickerCommand>) -> Option<CommandModel> {
    match command {
        Some(ClickerCommand::Toggle) => Some(CommandModel::Toggle),
        Some(ClickerCommand::Start) => Some(CommandModel::Start),
        Some(ClickerCommand::Stop(reason)) => Some(CommandModel::Stop(reason@)),
        None => None,
    }
}

/// What pressing the hotkey commands in the given mode.
pub open spec fn press_command(mode: Seq<char>) -> Option<CommandModel> {
    if mode == "Toggle"@ {
        Some(CommandModel::Toggle)
    } else if mode == "Hold"@ {
        Some(CommandModel::Start)
    } else {
        None
    }
}

/// What releasing the hotkey commands in the given mode.
pub open spec fn release_command(mode: Seq<char>) -> Option<CommandModel> {
    if mode == "Hold"@ {
        Some(CommandModel::Stop("Stopped from hold hotkey"@))
    } else {
        None
    }
}

/// What pressing the hotkey commands in the given mode.
pub fn handle_hotkey_pressed(mode: &str) -> (r: Option<ClickerCommand>)
    ensures
        mode@ == "Toggle"@ ==> r == Some(ClickerCommand::Toggle),
        mode@ == "Hold"@ ==> r == Some(ClickerCommand::Start),
        mode@ != "Toggle"@ && mode@ != "Hold"@ ==> r is None,
        command_view(r) == press_command(mode@),
{
    proof {
        reveal_strlit("Toggle");
        reveal_strlit("Hold");
        assert("Toggle"@.len() == 6 && "Hold"@.len() == 4);
    }
    if same_text(mode, "Toggle") {
        Some(ClickerCommand::Toggle)
    } else if same_text(mode, "Hold") {
        Some(ClickerCommand::Start)
    } else {
        None
    }
}

/// What releasing the hotkey commands in the given mode.
pub fn handle_hotkey_released(mode: &str) -> (r: Option<ClickerCommand>)
    ensures
        mode@ == "Hold"@ ==> (r matches Some(ClickerCommand::Stop(reason)) && reason@
            == "Stopped from hold hotkey"@),
        mode@ != "Hold"@ ==> r is None,
        command_view(r) == release_command(mode@),
{
    if same_text(mode, "Hold") {
        Some(ClickerCommand::Stop("Stopped from hold hotkey".to_owned()))
    } else {
        None
    }
}

/// What is remembered after a series of observations.
pub open spec fn after_all(m: ListenerModel, seen: Seq<Observation>) -> ListenerModel
    decreases seen.len(),
{
    if seen.len() == 0 {
        m
    } else {
        after(after_all(m, seen.drop_last()), seen.last())
    }
}

/// The edge that counts at observation `i` of a series.
pub open spec fn edge_at(m: ListenerModel, seen: Seq<Observation>, i: int) -> HotkeyEdge {
    edge(after_all(m, seen.take(i)), seen[i])
}

/// What is remembered after a series: the last observation, and the same deadline.
proof fn lemma_after_all(m: ListenerModel, seen: Seq<Observation>)
    ensures
        after_all(m, seen).until_ms == m.until_ms,
        after_all(m, seen).until_release ==> m.until_release,
        seen.len() > 0 ==> after_all(m, seen).was_pressed == seen.last().pressed,
        m.until_release && (forall|i: int|
            0 <= i < seen.len() ==> (#[trigger] seen[i]).capturing || seen[i].pressed)
            ==> after_all(m, seen).until_release,
    decreases seen.len(),
{
    if seen.len() > 0 {
        lemma_after_all(m, seen.drop_last());
        assert(forall|i: int|
            0 <= i < seen.len() - 1 ==> #[trigger] seen.drop_last()[i] == seen[i]);
        assert(seen[seen.len() - 1] == seen.last());
    }
}

/// While a newly registered hotkey has not been seen released, nothing counts.
pub proof fn law_registered_hotkey_waits_for_release(
    m: ListenerModel,
    seen: Seq<Observation>,
    i: int,
)
    requires
        m.until_release,
        0 <= i < seen.len(),
        forall|j: int| 0 <= j < i ==> (#[trigger] seen[j]).capturing || seen[j].pressed,
    ensures
        edge_at(m, seen, i) == HotkeyEdge::Unchanged,
{
    assert(forall|j: int| 0 <= j < i ==> #[trigger] seen.take(i)[j] == seen[j]);
    lemma_after_all(m, seen.take(i));
}

/// Nothing counts before the deadline, nor while a new hotkey is being captured.
pub proof fn law_nothing_counts_while_suppressed(m: ListenerModel, seen: Seq<Observation>, i: int)
    requires
        0 <= i < seen.len(),
        seen[i].capturing || seen[i].now_ms < m.until_ms,
    ensures
        edge_at(m, seen, i) == HotkeyEdge::Unchanged,
{
    lemma_after_all(m, seen.take(i));
}

/// A hotkey that is held down counts once: between two presses that count it has been seen up, and
/// between two releases it has been seen down.
pub proof fn law_holding_counts_once(m: ListenerModel, seen: Seq<Observation>, i: int, j: int)
    requires
        0 <= i < j < seen.len(),
        edge_at(m, seen, i) == edge_at(m, seen, j),
        edge_at(m, seen, i) != HotkeyEdge::Unchanged,
    ensures
        exists|k: int| i < k < j && (#[trigger] seen[k]).pressed != seen[i].pressed,
{
    lemma_after_all(m, seen.take(j));
    assert(seen.take(j).last() == seen[j - 1]);
}

/// Once the deadline has passed, the release has been seen and no capture is going on, every change
/// counts.
pub proof fn law_every_change_counts_afterwards(
    m: ListenerModel,
    seen: Seq<Observation>,
    i: int,
)
    requires
        1 <= i < seen.len(),
        !m.until_release || (exists|j: int|
            0 <= j < i && !(#[trigger] seen[j]).capturing && !seen[j].pressed),
        !seen[i].capturing,
        seen[i].now_ms >= m.until_ms,
    ensures
        edge_at(m, seen, i) == (if seen[i].pressed == seen[i - 1].pressed {
            HotkeyEdge::Unchanged
        } else if seen[i].pressed {
            HotkeyEdge::Pressed
        } else {
            HotkeyEdge::Released
        }),
{
    lemma_after_all(m, seen.take(i));
    assert(seen.take(i).last() == seen[i - 1]);
    if m.until_release {
        let j = choose|j: int| 0 <= j < i && !(#[trigger] seen[j]).capturing && !seen[j].pressed;
        assert(seen.take(i)[j] == seen[j]);
        lemma_release_ends_the_wait(m, seen.take(i), j);
    }
}

/// The first observation of a release ends the wait for it.
proof fn lemma_release_ends_the_wait(m: ListenerModel, seen: Seq<Observation>, j: int)
    requires
        0 <= j < seen.len(),
        !seen[j].capturing,
        !seen[j].pressed,
    ensures
        !after_all(m, seen).until_release,
    decreases seen.len(),
{
    if j < seen.len() - 1 {
        lemma_release_ends_the_wait(m, seen.drop_last(), j);
    }
}

/// A hotkey that is neither suppressed nor being captured, and that was up, is reported as pressed if
/// and only if its main key is active, every modifier that it asks for is down on the left or on the
/// right and, in strict mode, no other modifier is. It is never reported as released then. In relaxed
/// mode other modifiers do not count.
pub proof fn law_poll_reports_a_press(
    listener: HotkeyListener,
    state: HotkeyState,
    hotkey: HotkeyBinding,
    strict: bool,
    input: InputSnapshot,
)
    requires
        !listener.was_pressed,
        state.registered_hotkey == Some(hotkey),
        !state.suppress_hotkey_until_release,
        state.suppress_hotkey_until_ms <= input.now_ms,
    ensures
        ({
            let keys = input.key_map@;
            let ctrl = keyboard::keycode_down(keys, 0x3B) || keyboard::keycode_down(keys, 0x3E);
            let alt = keyboard::keycode_down(keys, 0x3A) || keyboard::keycode_down(keys, 0x3D);
            let shift = keyboard::keycode_down(keys, 0x38) || keyboard::keycode_down(keys, 0x3C);
            let cmd = keyboard::keycode_down(keys, 0x37) || keyboard::keycode_down(keys, 0x36);
            let r = edge(
                listener_model(listener, state),
                observation(state, strict, false, input),
            );
            &&& r == HotkeyEdge::Pressed <==> {
                &&& keyboard::main_key_active(input, hotkey.main_vk)
                &&& hotkey.ctrl ==> ctrl
                &&& hotkey.alt ==> alt
                &&& hotkey.shift ==> shift
                &&& hotkey.super_key ==> cmd
                &&& strict ==> (ctrl ==> hotkey.ctrl) && (alt ==> hotkey.alt) && (shift
                    ==> hotkey.shift) && (cmd ==> hotkey.super_key)
            }
            &&& r != HotkeyEdge::Released
        }),
{
}

/// A hotkey that is neither suppressed nor being captured, and that was down, is reported as released
/// if and only if its main key is no longer active, a modifier that it asks for is down on neither
/// side or, in strict mode, another modifier is down. It is never reported as pressed then.
pub proof fn law_poll_reports_a_release(
    listener: HotkeyListener,
    state: HotkeyState,
    hotkey: HotkeyBinding,
    strict: bool,
    input: InputSnapshot,
)
    requires
        listener.was_pressed,
        state.registered_hotkey == Some(hotkey),
        !state.suppress_hotkey_until_release,
        state.suppress_hotkey_until_ms <= input.now_ms,
    ensures
        ({
            let keys = input.key_map@;
            let ctrl = keyboard::keycode_down(keys, 0x3B) || keyboard::keycode_down(keys, 0x3E);
            let alt = keyboard::keycode_down(keys, 0x3A) || keyboard::keycode_down(keys, 0x3D);
            let shift = keyboard::keycode_down(keys, 0x38) || keyboard::keycode_down(keys, 0x3C);
            let cmd = keyboard::keycode_down(keys, 0x37) || keyboard::keycode_down(keys, 0x36);
            let r = edge(
                listener_model(listener, state),
                observation(state, strict, false, input),
            );
            &&& r == HotkeyEdge::Released <==> {
                ||| !keyboard::main_key_active(input, hotkey.main_vk)
                ||| hotkey.ctrl && !ctrl
                ||| hotkey.alt && !alt
                ||| hotkey.shift && !shift
                ||| hotkey.super_key && !cmd
                ||| strict && (ctrl && !hotkey.ctrl || alt && !hotkey.alt || shift && !hotkey.shift
                    || cmd && !hotkey.super_key)
            }
            &&& r != HotkeyEdge::Pressed
        }),
{
}

/// Without a hotkey nothing is ever pressed; one that was down before counts as released.
pub proof fn law_poll_without_a_hotkey(
    listener: HotkeyListener,
    state: HotkeyState,
    strict: bool,
    capturing: bool,
    input: InputSnapshot,
)
    requires
        state.registered_hotkey is None,
    ensures
        ({
            let m = listener_model(listener, state);
            let o = observation(state, strict, capturing, input);
            &&& edge(m, o) != HotkeyEdge::Pressed
            &&& edge(m, o) == HotkeyEdge::Released <==> listener.was_pressed && !capturing
                && !state.suppress_hotkey_until_release && state.suppress_hotkey_until_ms
                <= input.now_ms
            &&& !after(m, o).was_pressed
        }),
{
}

/// While a hotkey is being captured or suppressed a poll reports nothing. It still takes note of
/// whether the hotkey is pressed, so that a press that begins then is not reported later, and it ends
/// the wait for a release when it finds the hotkey up, unless one is being captured.
pub proof fn law_poll_takes_note(
    listener: HotkeyListener,
    state: HotkeyState,
    hotkey: HotkeyBinding,
    strict: bool,
    capturing: bool,
    input: InputSnapshot,
)
    requires
        state.registered_hotkey == Some(hotkey),
    ensures
        ({
            let m = listener_model(listener, state);
            let o = observation(state, strict, capturing, input);
            let pressed = keyboard::binding_pressed(hotkey@, strict, input);
            &&& capturing || state.suppress_hotkey_until_release || input.now_ms
                < state.suppress_hotkey_until_ms ==> edge(m, o) == HotkeyEdge::Unchanged
            &&& after(m, o).was_pressed == pressed
            &&& after(m, o).until_ms == state.suppress_hotkey_until_ms
            &&& after(m, o).until_release <==> state.suppress_hotkey_until_release && (capturing
                || pressed)
        }),
{
}

/// A hotkey text is registered if and only if it parses, as the binding that it parses to, under that
/// binding's canonical text. It is then ignored for 250 ms, and until it has been released.
pub proof fn law_registration(hotkey: Seq<char>, now: u64)
    ensures
        registration(hotkey, now) is Ok <==> binding::parsed_hotkey(hotkey) is Ok,
        registration(hotkey, now) matches Ok(reg) ==> {
            &&& binding::parsed_hotkey(hotkey) == Ok::<_, Seq<char>>(reg.binding)
            &&& reg.printed == binding::formatted(reg.binding)
            &&& reg.until_release
            &&& now + 250 <= u64::MAX ==> reg.until_ms == now + 250
            &&& now + 250 > u64::MAX ==> reg.until_ms == u64::MAX
        },
        registration(hotkey, now) matches Err(message) ==> binding::parsed_hotkey(hotkey) == Err::<
            binding::BindingModel,
            _,
        >(message),
{
}

/// Nothing that is polled less than 250 ms after a registration counts, nor before the hotkey has
/// been seen up. From then on a press counts.
pub proof fn law_new_hotkey_is_quiet(
    hotkey: Seq<char>,
    now: u64,
    was_pressed: bool,
    seen: Seq<Observation>,
    i: int,
)
    requires
        registration(hotkey, now) is Ok,
        now + 250 <= u64::MAX,
        0 <= i < seen.len(),
    ensures
        ({
            let reg = registration(hotkey, now)->Ok_0;
            let m = ListenerModel {
                was_pressed,
                until_ms: reg.until_ms,
                until_release: reg.until_release,
            };
            let seen_up = exists|j: int|
                0 <= j < i && !(#[trigger] seen[j]).capturing && !seen[j].pressed;
            &&& seen[i].now_ms < now + 250 ==> edge_at(m, seen, i) == HotkeyEdge::Unchanged
            &&& !seen_up ==> edge_at(m, seen, i) == HotkeyEdge::Unchanged
            &&& seen_up && seen[i].now_ms >= now + 250 && !seen[i].capturing && seen[i].pressed
                && !seen[i - 1].pressed ==> edge_at(m, seen, i) == HotkeyEdge::Pressed
            &&& seen_up && seen[i].now_ms >= now + 250 && !seen[i].capturing && !seen[i].pressed
                && seen[i - 1].pressed ==> edge_at(m, seen, i) == HotkeyEdge::Released
        }),
{
    let reg = registration(hotkey, now)->Ok_0;
    let m = ListenerModel {
        was_pressed,
        until_ms: reg.until_ms,
        until_release: reg.until_release,
    };
    if seen[i].now_ms < now + 250 {
        law_nothing_counts_while_suppressed(m, seen, i);
    }
    if exists|j: int| 0 <= j < i && !(#[trigger] seen[j]).capturing && !seen[j].pressed {
        if seen[i].now_ms >= now + 250 && !seen[i].capturing {
            law_every_change_counts_afterwards(m, seen, i);
        }
    } else {
        law_registered_hotkey_waits_for_release(m, seen, i);
    }
}

/// In one mode, "Toggle", each press toggles and a release does nothing; in another, "Hold", a press
/// starts and its release stops. In any other mode the hotkey does nothing.
pub proof fn law_modes(mode: Seq<char>)
    ensures
        press_command(mode) == Some(CommandModel::Toggle) <==> mode == "Toggle"@,
        press_command(mode) == Some(CommandModel::Start) <==> mode == "Hold"@,
        press_command(mode) == Some(CommandModel::Start) <==> release_command(mode) is Some,
        !(press_command(mode) matches Some(CommandModel::Stop(_))),
        release_command(mode) matches Some(command) ==> command == CommandModel::Stop(
            "Stopped from hold hotkey"@,
        ),
        mode != "Toggle"@ && mode != "Hold"@ ==> press_command(mode) is None && release_command(
            mode,
        ) is None,
{
    reveal_strlit("Toggle");
    reveal_strlit("Hold");
    assert("Toggle"@.len() == 6 && "Hold"@.len() == 4);
}

/// Polls are 12 ms apart, so a turn of the wheel still counts 15 polls after the first one that can
/// see it.
pub proof fn law_polls_see_every_turn_of_the_wheel(input: InputSnapshot, first_poll_ms: u64)
    requires
        0 < input.scroll_up_at <= first_poll_ms,
        first_poll_ms - input.scroll_up_at <= POLL_INTERVAL_MS,
        input.now_ms == first_poll_ms + 15 * POLL_INTERVAL_MS,
    ensures
        keyboard::main_key_active(input, (-1) as i32),
        POLL_INTERVAL_MS == 12,
{
}

/// What contracts say of commands and of the registered hotkey, they say of the values themselves.
pub proof fn law_commands_are_told_apart(
    command: Option<ClickerCommand>,
    state: HotkeyState,
    hotkey: HotkeyBinding,
)
    ensures
        command_view(command) is None <==> command is None,
        command_view(command) == Some(CommandModel::Toggle) <==> command == Some(
            ClickerCommand::Toggle,
        ),
        command_view(command) == Some(CommandModel::Start) <==> command == Some(
            ClickerCommand::Start,
        ),
        command matches Some(ClickerCommand::Stop(reason)) ==> command_view(command) == Some(
            CommandModel::Stop(reason@),
        ),
        state.registered_hotkey is None <==> state.registered() is None,
        state.registered_hotkey == Some(hotkey) ==> state.registered() == Some(hotkey@),
{
}

} // verus!
