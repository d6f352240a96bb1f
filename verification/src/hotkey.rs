//! Swapping the registered global hotkeys for a new pair, with rollback:
//! the decisions around the operating system's registrations. A hotkey is
//! known by the id global-hotkey gives it; the daemon performs each action
//! and feeds back whether a registration was taken.

use vstd::prelude::*;

use global_hotkey::hotkey::{Code, HotKey, Modifiers};

use crate::config::{key_code_supported, spec_parse_code, Config, ConfigView, HotkeyModifiers, KeyCode, ParsedHotkey};
use crate::strings::string_from_chars;

verus! {

/// The id that global-hotkey gives the hotkey with these modifiers (the
/// system key, Control, Alt, Shift) and the key whose `Code` is named
/// `code_name`, or `None` when `Code` has no key of that name.
pub uninterp spec fn hotkey_id_of(meta: bool, control: bool, alt: bool, shift: bool, code_name: Seq<char>) -> Option<u32>;

/// `name` is the `Code` name of a key that a hotkey string can name.
pub open spec fn is_supported_code_name(name: Seq<char>) -> bool {
    exists|k: KeyCode| key_code_supported(k) && #[trigger] spec_code_name(k) == name
}

/// `HotKey::new(Some(modifiers), code).id()` of global-hotkey, with the
/// modifiers set from the four flags (`Modifiers::META`, `CONTROL`, `ALT`,
/// `SHIFT`) and the code read from its name by `Code::from_str` of
/// keyboard-types. The contract claims that the result is a function of
/// the flags and the name alone, which the source shows (the id packs the
/// modifier bits and the key's number), and that `Code::from_str` knows
/// the names of the keys a hotkey string can name (its table lists `KeyA` to `KeyZ`, `Digit0`
/// to `Digit9`, `F1` to `F24`, `Space`, `Enter`, `Tab`, `Backspace`,
/// `Escape`); the id's bits are left to the name `hotkey_id_of`.
#[verifier::external_body]
fn global_hotkey_id(meta: bool, control: bool, alt: bool, shift: bool, code_name: &str) -> (id: Option<u32>)
    ensures
        id == hotkey_id_of(meta, control, alt, shift, code_name@),
        is_supported_code_name(code_name@) ==> id is Some,
{
    let mut mods = Modifiers::empty();
    mods.set(Modifiers::META, meta);
    mods.set(Modifiers::CONTROL, control);
    mods.set(Modifiers::ALT, alt);
    mods.set(Modifiers::SHIFT, shift);
    let code = code_name.parse::<Code>().ok()?;
    Some(HotKey::new(Some(mods), code).id())
}

pub open spec fn digit_char(d: int) -> char {
    (d + 48) as char
}

/// The decimal digits of `n`.
pub open spec fn decimal(n: u8) -> Seq<char> {
    let v = n as int;
    if v < 10 {
        seq![digit_char(v)]
    } else if v < 100 {
        seq![digit_char(v / 10), digit_char(v % 10)]
    } else {
        seq![digit_char(v / 100), digit_char((v / 10) % 10), digit_char(v % 10)]
    }
}

/// The name of a key's `Code`: `KeyA`, `Digit5`, `F7`, `Space`, `Enter`,
/// `Tab`, `Backspace`, `Escape`.
pub open spec fn spec_code_name(k: KeyCode) -> Seq<char> {
    match k {
        KeyCode::Letter(c) => seq!['K', 'e', 'y', c],
        KeyCode::Digit(c) => seq!['D', 'i', 'g', 'i', 't', c],
        KeyCode::F(n) => seq!['F'] + decimal(n),
        KeyCode::Space => seq!['S', 'p', 'a', 'c', 'e'],
        KeyCode::Enter => seq!['E', 'n', 't', 'e', 'r'],
        KeyCode::Tab => seq!['T', 'a', 'b'],
        KeyCode::Backspace => seq!['B', 'a', 'c', 'k', 's', 'p', 'a', 'c', 'e'],
        KeyCode::Escape => seq!['E', 's', 'c', 'a', 'p', 'e'],
    }
}

/// The name of the `Code` of the key `k`.
pub fn code_name(k: KeyCode) -> (s: String)
    ensures
        s@ == spec_code_name(k),
{
    let chars: Vec<char> = match k {
        KeyCode::Letter(c) => vec!['K', 'e', 'y', c],
        KeyCode::Digit(c) => vec!['D', 'i', 'g', 'i', 't', c],
        KeyCode::F(n) => {
            if n < 10 {
                vec!['F', (n + 48) as char]
            } else if n < 100 {
                vec!['F', (n / 10 + 48) as char, (n % 10 + 48) as char]
            } else {
                vec!['F', (n / 100 + 48) as char, ((n / 10) % 10 + 48) as char, (n % 10 + 48) as char]
            }
        },
        KeyCode::Space => vec!['S', 'p', 'a', 'c', 'e'],
        KeyCode::Enter => vec!['E', 'n', 't', 'e', 'r'],
        KeyCode::Tab => vec!['T', 'a', 'b'],
        KeyCode::Backspace => vec!['B', 'a', 'c', 'k', 's', 'p', 'a', 'c', 'e'],
        KeyCode::Escape => vec!['E', 's', 'c', 'a', 'p', 'e'],
    };
    let s = string_from_chars(chars.as_slice());
    assert(s@ =~= spec_code_name(k));
    s
}

/// The id global-hotkey gives the hotkey of `modifiers` and `code`.
pub open spec fn spec_hotkey_id(modifiers: HotkeyModifiers, code: KeyCode) -> Option<u32> {
    hotkey_id_of(modifiers.meta, modifiers.control, modifiers.alt, modifiers.shift, spec_code_name(code))
}

/// The id global-hotkey gives the hotkey of `modifiers` and `code`, or
/// `None` when it has no such key.
pub fn hotkey_id(modifiers: HotkeyModifiers, code: KeyCode) -> (id: Option<u32>)
    ensures
        id == spec_hotkey_id(modifiers, code),
        key_code_supported(code) ==> id is Some,
{
    let name = code_name(code);
    assert(key_code_supported(code) ==> is_supported_code_name(name@));
    global_hotkey_id(modifiers.meta, modifiers.control, modifiers.alt, modifiers.shift, name.as_str())
}

/// Which registration of the new pair the system refused.
#[derive(Debug, Clone, Copy, PartialEq, Eq, Structural)]
pub enum RegFailure {
    Region,
    Screen,
}

/// Where a swap stands.
#[derive(Debug, Clone, Copy, PartialEq, Eq, Structural)]
pub enum RegPhase {
    /// No swap in progress.
    Idle,
    /// The old pair is unregistered; the new region hotkey is being
    /// registered.
    RegisteringRegion,
    /// The new region hotkey is registered; the new screen hotkey is being
    /// registered.
    RegisteringScreen,
}

/// The hotkey ids in force (and forwarded to the event loop), the pair
/// being swapped in, and the phase.
#[derive(Debug, Clone, Copy, PartialEq, Eq, Structural)]
pub struct RegState {
    pub region: u32,
    pub screen: u32,
    pub new_region: u32,
    pub new_screen: u32,
    pub phase: RegPhase,
}

/// What the daemon tells the state machine.
#[derive(Debug, Clone, Copy, PartialEq, Eq, Structural)]
pub enum RegEvent {
    /// Swap in the hotkeys with these ids.
    Start { new_region: u32, new_screen: u32 },
    /// Whether the system took the registration the last action list ended
    /// with.
    Registered(bool),
}

/// What the daemon does, in order. A list that ends with `Register` waits
/// for that registration's answer as a `Registered` event; the answers to
/// the other registrations (those of a rollback) are not asked for.
#[derive(Debug, Clone, Copy, PartialEq, Eq)]
pub enum RegAction {
    Unregister(u32),
    Register(u32),
    /// The swap is over: done, or refused and rolled back.
    Finish(Result<(), RegFailure>),
}

/// The state with the pair `(region, screen)` registered and nothing in
/// progress.
pub open spec fn idle_with(region: u32, screen: u32) -> RegState {
    RegState { region, screen, new_region: region, new_screen: screen, phase: RegPhase::Idle }
}

/// One step of a swap:
/// - starting with the ids in force changes nothing and finishes at once;
/// - starting with other ids unregisters the old pair, then registers the
///   new region hotkey;
/// - once that is taken, the new screen hotkey is registered; once that is
///   taken too, the new pair is in force;
/// - a refusal rolls back: the new region hotkey is unregistered if it was
///   taken, the old pair is registered again, and the old ids stay in force;
/// - any other event is ignored.
pub open spec fn spec_reregister_step(s: RegState, ev: RegEvent) -> (RegState, Seq<RegAction>) {
    match (s.phase, ev) {
        (RegPhase::Idle, RegEvent::Start { new_region, new_screen }) => if new_region == s.region
            && new_screen == s.screen {
            (s, seq![RegAction::Finish(Ok(()))])
        } else {
            (
                RegState { new_region, new_screen, phase: RegPhase::RegisteringRegion, ..s },
                seq![
                    RegAction::Unregister(s.region),
                    RegAction::Unregister(s.screen),
                    RegAction::Register(new_region),
                ],
            )
        },
        (RegPhase::RegisteringRegion, RegEvent::Registered(taken)) => if taken {
            (
                RegState { phase: RegPhase::RegisteringScreen, ..s },
                seq![RegAction::Register(s.new_screen)],
            )
        } else {
            (
                idle_with(s.region, s.screen),
                seq![
                    RegAction::Register(s.region),
                    RegAction::Register(s.screen),
                    RegAction::Finish(Err(RegFailure::Region)),
                ],
            )
        },
        (RegPhase::RegisteringScreen, RegEvent::Registered(taken)) => if taken {
            (idle_with(s.new_region, s.new_screen), seq![RegAction::Finish(Ok(()))])
        } else {
            (
                idle_with(s.region, s.screen),
                seq![
                    RegAction::Unregister(s.new_region),
                    RegAction::Register(s.region),
                    RegAction::Register(s.screen),
                    RegAction::Finish(Err(RegFailure::Screen)),
                ],
            )
        },
        _ => (s, Seq::empty()),
    }
}

impl RegState {
    /// The pair `(region, screen)` registered, no swap in progress.
    pub fn new(region: u32, screen: u32) -> (s: RegState)
        ensures
            s == idle_with(region, screen),
    {
        RegState { region, screen, new_region: region, new_screen: screen, phase: RegPhase::Idle }
    }
}

/// Take one event of a swap and say what to do next.
pub fn reregister_step(s: RegState, ev: RegEvent) -> (r: (RegState, Vec<RegAction>))
    ensures
        (r.0, r.1@) == spec_reregister_step(s, ev),
{
    match (s.phase, ev) {
        (RegPhase::Idle, RegEvent::Start { new_region, new_screen }) => {
            if new_region == s.region && new_screen == s.screen {
                (s, vec![RegAction::Finish(Ok(()))])
            } else {
                (
                    RegState { new_region, new_screen, phase: RegPhase::RegisteringRegion, ..s },
                    vec![
                        RegAction::Unregister(s.region),
                        RegAction::Unregister(s.screen),
                        RegAction::Register(new_region),
                    ],
                )
            }
        },
        (RegPhase::RegisteringRegion, RegEvent::Registered(taken)) => {
            if taken {
                (
                    RegState { phase: RegPhase::RegisteringScreen, ..s },
                    vec![RegAction::Register(s.new_screen)],
                )
            } else {
                (
                    RegState::new(s.region, s.screen),
                    vec![
                        RegAction::Register(s.region),
                        RegAction::Register(s.screen),
                        RegAction::Finish(Err(RegFailure::Region)),
                    ],
                )
            }
        },
        (RegPhase::RegisteringScreen, RegEvent::Registered(taken)) => {
            if taken {
                (RegState::new(s.new_region, s.new_screen), vec![RegAction::Finish(Ok(()))])
            } else {
                (
                    RegState::new(s.region, s.screen),
                    vec![
                        RegAction::Unregister(s.new_region),
                        RegAction::Register(s.region),
                        RegAction::Register(s.screen),
                        RegAction::Finish(Err(RegFailure::Screen)),
                    ],
                )
            }
        },
        _ => (s, Vec::new()),
    }
}

/// The state after a run of events, and all the actions asked for.
pub open spec fn run_reregister(s: RegState, events: Seq<RegEvent>) -> (RegState, Seq<RegAction>)
    decreases events.len(),
{
    if events.len() == 0 {
        (s, Seq::empty())
    } else {
        let (s1, a1) = run_reregister(s, events.drop_last());
        let (s2, a2) = spec_reregister_step(s1, events.last());
        (s2, a1 + a2)
    }
}

/// The events of one swap to the pair `(new_region, new_screen)`: the
/// start, then the system's answers to the registrations, in order.
pub open spec fn swap_events(new_region: u32, new_screen: u32, answers: Seq<bool>) -> Seq<RegEvent> {
    seq![RegEvent::Start { new_region, new_screen }] + answers.map_values(
        |b: bool| RegEvent::Registered(b),
    )
}

/// Running two runs of events one after the other is running them joined.
proof fn lemma_run_append(s: RegState, e1: Seq<RegEvent>, e2: Seq<RegEvent>)
    ensures
        run_reregister(s, e1 + e2) == ({
            let (m, a1) = run_reregister(s, e1);
            let (end, a2) = run_reregister(m, e2);
            (end, a1 + a2)
        }),
    decreases e2.len(),
{
    if e2.len() == 0 {
        assert(e1 + e2 =~= e1);
        let (m, a1) = run_reregister(s, e1);
        assert(a1 + Seq::<RegAction>::empty() =~= a1);
    } else {
        lemma_run_append(s, e1, e2.drop_last());
        assert((e1 + e2).drop_last() =~= e1 + e2.drop_last());
        assert((e1 + e2).last() == e2.last());
        let (m, a1) = run_reregister(s, e1);
        let (m2, a2) = run_reregister(m, e2.drop_last());
        let (end, a3) = spec_reregister_step(m2, e2.last());
        assert(a1 + a2 + a3 =~= a1 + (a2 + a3));
    }
}

/// With no swap in progress, answers from the system change nothing and
/// ask for nothing.
proof fn lemma_idle_ignores_answers(s: RegState, answers: Seq<bool>)
    requires
        s.phase == RegPhase::Idle,
    ensures
        run_reregister(s, answers.map_values(|b: bool| RegEvent::Registered(b))) == (
            s,
            Seq::<RegAction>::empty(),
        ),
    decreases answers.len(),
{
    let evs = answers.map_values(|b: bool| RegEvent::Registered(b));
    if answers.len() > 0 {
        lemma_idle_ignores_answers(s, answers.drop_last());
        assert(evs.drop_last() =~= answers.drop_last().map_values(|b: bool| RegEvent::Registered(b)));
        assert(Seq::<RegAction>::empty() + Seq::<RegAction>::empty() =~= Seq::<RegAction>::empty());
    }
}

/// The events of a swap, split after its first `k` answers.
proof fn lemma_split_answers(new_region: u32, new_screen: u32, answers: Seq<bool>, k: int)
    requires
        0 <= k <= answers.len(),
    ensures
        swap_events(new_region, new_screen, answers) =~= swap_events(
            new_region,
            new_screen,
            answers.take(k),
        ) + answers.skip(k).map_values(|b: bool| RegEvent::Registered(b)),
{
}

/// One swap from the pair `(region, screen)` in force to the pair
/// `(new_region, new_screen)`, with the system giving `answers` to the
/// registrations asked of it, in order (answers after the swap finished are
/// ignored):
/// - a swap to the pair in force does nothing but finish well;
/// - while a swap waits for an answer, the ids in force (those forwarded to
///   the event loop) are still the old pair;
/// - when the new region hotkey is refused, the old pair is registered
///   again and stays in force, and the swap finishes with that failure;
/// - when the new screen hotkey is refused, the new region hotkey is
///   unregistered, the old pair is registered again and stays in force, and
///   the swap finishes with that failure;
/// - when both are taken, the new pair is in force and the swap finishes
///   well.
pub proof fn lemma_rollback(region: u32, screen: u32, new_region: u32, new_screen: u32, answers: Seq<bool>)
    ensures
        ({
            let (end, actions) = run_reregister(
                idle_with(region, screen),
                swap_events(new_region, new_screen, answers),
            );
            if new_region == region && new_screen == screen {
                end == idle_with(region, screen) && actions == seq![RegAction::Finish(Ok::<(), RegFailure>(()))]
            } else if answers.len() == 0 {
                &&& end.region == region && end.screen == screen
                &&& actions == seq![
                    RegAction::Unregister(region),
                    RegAction::Unregister(screen),
                    RegAction::Register(new_region),
                ]
            } else if !answers[0] {
                &&& end == idle_with(region, screen)
                &&& actions == seq![
                    RegAction::Unregister(region),
                    RegAction::Unregister(screen),
                    RegAction::Register(new_region),
                    RegAction::Register(region),
                    RegAction::Register(screen),
                    RegAction::Finish(Err(RegFailure::Region)),
                ]
            } else if answers.len() == 1 {
                &&& end.region == region && end.screen == screen
                &&& actions == seq![
                    RegAction::Unregister(region),
                    RegAction::Unregister(screen),
                    RegAction::Register(new_region),
                    RegAction::Register(new_screen),
                ]
            } else if !answers[1] {
                &&& end == idle_with(region, screen)
                &&& actions == seq![
                    RegAction::Unregister(region),
                    RegAction::Unregister(screen),
                    RegAction::Register(new_region),
                    RegAction::Register(new_screen),
                    RegAction::Unregister(new_region),
                    RegAction::Register(region),
                    RegAction::Register(screen),
                    RegAction::Finish(Err(RegFailure::Screen)),
                ]
            } else {
                &&& end == idle_with(new_region, new_screen)
                &&& actions == seq![
                    RegAction::Unregister(region),
                    RegAction::Unregister(screen),
                    RegAction::Register(new_region),
                    RegAction::Register(new_screen),
                    RegAction::Finish(Ok(())),
                ]
            }
        }),
{
    let s = idle_with(region, screen);
    let start = RegEvent::Start { new_region, new_screen };
    let (s1, a1) = spec_reregister_step(s, start);
    assert(seq![start].drop_last() =~= Seq::<RegEvent>::empty());
    assert(Seq::<RegAction>::empty() + a1 =~= a1);
    assert(run_reregister(s, Seq::<RegEvent>::empty()) == (s, Seq::<RegAction>::empty()));
    assert(run_reregister(s, seq![start]) == (s1, a1));
    // The events that matter, and the answers left over after the swap.
    let k: int = if new_region == region && new_screen == screen || answers.len() == 0 {
        0
    } else if !answers[0] || answers.len() == 1 {
        1
    } else {
        2
    };
    lemma_split_answers(new_region, new_screen, answers, k);
    let head = swap_events(new_region, new_screen, answers.take(k));
    let rest = answers.skip(k);
    lemma_run_append(s, head, rest.map_values(|b: bool| RegEvent::Registered(b)));
    assert(swap_events(new_region, new_screen, answers.take(0)) =~= seq![start]);
    if k >= 1 {
        let e2 = swap_events(new_region, new_screen, answers.take(1));
        assert(e2 =~= seq![start, RegEvent::Registered(answers[0])]);
        assert(e2.drop_last() =~= seq![start]);
        let (s2, a2) = spec_reregister_step(s1, RegEvent::Registered(answers[0]));
        assert(run_reregister(s, e2) == (s2, a1 + a2));
        if k >= 2 {
            let e3 = swap_events(new_region, new_screen, answers.take(2));
            assert(e3 =~= seq![start, RegEvent::Registered(answers[0]), RegEvent::Registered(answers[1])]);
            assert(e3.drop_last() =~= e2);
            let (s3, a3) = spec_reregister_step(s2, RegEvent::Registered(answers[1]));
            assert(run_reregister(s, e3) == (s3, a1 + a2 + a3));
            lemma_idle_ignores_answers(s3, rest);
            if answers[1] {
                assert(a1 + a2 + a3 =~= seq![
                    RegAction::Unregister(region),
                    RegAction::Unregister(screen),
                    RegAction::Register(new_region),
                    RegAction::Register(new_screen),
                    RegAction::Finish(Ok(())),
                ]);
            } else {
                assert(a1 + a2 + a3 =~= seq![
                    RegAction::Unregister(region),
                    RegAction::Unregister(screen),
                    RegAction::Register(new_region),
                    RegAction::Register(new_screen),
                    RegAction::Unregister(new_region),
                    RegAction::Register(region),
                    RegAction::Register(screen),
                    RegAction::Finish(Err(RegFailure::Screen)),
                ]);
            }
            assert(a1 + a2 + a3 + Seq::<RegAction>::empty() =~= a1 + a2 + a3);
        } else {
            assert(rest.len() == 0 || !answers[0]);
            if !answers[0] {
                lemma_idle_ignores_answers(s2, rest);
                assert(a1 + a2 =~= seq![
                    RegAction::Unregister(region),
                    RegAction::Unregister(screen),
                    RegAction::Register(new_region),
                    RegAction::Register(region),
                    RegAction::Register(screen),
                    RegAction::Finish(Err(RegFailure::Region)),
                ]);
            } else {
                assert(rest =~= Seq::<bool>::empty());
                assert(rest.map_values(|b: bool| RegEvent::Registered(b)) =~= Seq::<RegEvent>::empty());
                assert(a1 + a2 =~= seq![
                    RegAction::Unregister(region),
                    RegAction::Unregister(screen),
                    RegAction::Register(new_region),
                    RegAction::Register(new_screen),
                ]);
            }
            assert(a1 + a2 + Seq::<RegAction>::empty() =~= a1 + a2);
        }
    } else {
        if new_region == region && new_screen == screen {
            lemma_idle_ignores_answers(s1, rest);
        } else {
            assert(rest =~= Seq::<bool>::empty());
            assert(rest.map_values(|b: bool| RegEvent::Registered(b)) =~= Seq::<RegEvent>::empty());
        }
        assert(a1 + Seq::<RegAction>::empty() =~= a1);
    }
}

/// Over any run of events, from any state, the ids in force (those
/// forwarded to the event loop) change only where a swap finished well: a
/// run that asks for no good finish ends with the ids it started with.
pub proof fn lemma_ids_change_only_on_success(s: RegState, events: Seq<RegEvent>)
    ensures
        ({
            let (end, actions) = run_reregister(s, events);
            !actions.contains(RegAction::Finish(Ok(()))) ==> end.region == s.region && end.screen
                == s.screen
        }),
    decreases events.len(),
{
    if events.len() > 0 {
        lemma_ids_change_only_on_success(s, events.drop_last());
        let (m, a1) = run_reregister(s, events.drop_last());
        let (end, a2) = spec_reregister_step(m, events.last());
        let ok = RegAction::Finish(Ok::<(), RegFailure>(()));
        if a1.contains(ok) {
            let i = choose|i: int| 0 <= i < a1.len() && a1[i] == ok;
            assert((a1 + a2)[i] == ok);
        }
        if !(a1 + a2).contains(ok) {
            assert(!a1.contains(ok));
            if end.region != m.region || end.screen != m.screen {
                assert(a2[a2.len() - 1] == ok);
                assert((a1 + a2)[a1.len() + a2.len() - 1] == ok);
            }
        }
    }
}

/// Every key a hotkey string names is one that `Code` has.
pub proof fn lemma_parsed_key_supported(s: Seq<char>)
    ensures
        spec_parse_code(s) matches Some(k) ==> key_code_supported(k),
{
}

/// The first step of a swap to the hotkeys `region` and `screen`, under the
/// ids global-hotkey gives them; `None` when it has no key for one of them.
pub fn start_reregister(s: RegState, region: &ParsedHotkey, screen: &ParsedHotkey) -> (r: Option<(RegState, Vec<RegAction>)>)
    ensures
        match (spec_hotkey_id(region.modifiers, region.code), spec_hotkey_id(screen.modifiers, screen.code)) {
            (Some(a), Some(b)) => r matches Some(x) && (x.0, x.1@) == spec_reregister_step(
                s,
                RegEvent::Start { new_region: a, new_screen: b },
            ),
            _ => r is None,
        },
        key_code_supported(region.code) && key_code_supported(screen.code) ==> r is Some,
{
    match (hotkey_id(region.modifiers, region.code), hotkey_id(screen.modifiers, screen.code)) {
        (Some(a), Some(b)) => Some(reregister_step(s, RegEvent::Start { new_region: a, new_screen: b })),
        _ => None,
    }
}

/// The config after a reload: the new file's settings, except that the
/// hotkeys stay those of `old` when the new ones could not be registered.
pub open spec fn spec_config_after_reload(old: ConfigView, new: ConfigView, rebound: bool) -> ConfigView {
    if rebound {
        new
    } else {
        ConfigView { region: old.region, fullscreen: old.fullscreen, ..new }
    }
}

/// Take a reloaded config: its hotkeys when they were registered, else the
/// hotkeys of the config in force, with the rest of the new settings.
pub fn config_after_reload(old: Config, new: Config, rebound: bool) -> (c: Config)
    ensures
        c@ == spec_config_after_reload(old@, new@, rebound),
{
    if rebound {
        new
    } else {
        let mut c = new;
        c.hotkey = old.hotkey;
        c
    }
}

} // verus!
