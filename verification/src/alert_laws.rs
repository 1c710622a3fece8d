//! Laws of the alert engine over whole runs of evaluations.
//!
//! `AlertEngine::evaluate` is stated as one step of `evaluated`; a sequence of
//! calls is therefore `evaluated_calls`. With distinct rule names, each rule
//! then runs on its own: its state and its events over all the calls are
//! `run_state` and `run_events` over the readings it took.
use vstd::prelude::*;

use crate::alert::{
    evaluated, initial_state, initial_states, metric_reading, next_state, over_threshold,
    recovered, required_ticks, run_events, run_state, state_for, step_event, step_overflows,
    AlertEvent, AlertRule, AlertState,
};
use crate::float::{f32_ge, f32_le, Float32};
use crate::snapshot::{SystemSnapshot, Timestamp};

verus! {

/// No two rules share a name.
pub open spec fn rule_names_distinct(rules: Seq<AlertRule>) -> bool {
    forall|i: int, j: int|
        0 <= i < rules.len() && 0 <= j < rules.len() && i != j ==> rules[i].name@ != rules[j].name@
}

/// The event `rule` raises on `snapshot` from the states `states`.
pub open spec fn rule_event(
    rule: AlertRule,
    states: Map<Seq<char>, AlertState>,
    snapshot: SystemSnapshot,
) -> Option<AlertEvent> {
    match metric_reading(rule.metric, snapshot) {
        None => None,
        Some(value) => step_event(rule, value, state_for(states, rule.name@), snapshot.timestamp),
    }
}

/// The state of `rule` after `snapshot`: unchanged when it takes no reading.
pub open spec fn rule_state_after(
    rule: AlertRule,
    states: Map<Seq<char>, AlertState>,
    snapshot: SystemSnapshot,
) -> AlertState {
    match metric_reading(rule.metric, snapshot) {
        None => state_for(states, rule.name@),
        Some(value) => next_state(rule, value, state_for(states, rule.name@)),
    }
}

pub open spec fn rule_overflows(
    rule: AlertRule,
    states: Map<Seq<char>, AlertState>,
    snapshot: SystemSnapshot,
) -> bool {
    match metric_reading(rule.metric, snapshot) {
        None => false,
        Some(value) => step_overflows(rule, value, state_for(states, rule.name@)),
    }
}

pub open spec fn option_seq(event: Option<AlertEvent>) -> Seq<AlertEvent> {
    match event {
        Some(e) => seq![e],
        None => Seq::empty(),
    }
}

/// The events of the first `n` rules, each rule on its own, in rule order.
pub open spec fn tick_events(
    rules: Seq<AlertRule>,
    states: Map<Seq<char>, AlertState>,
    snapshot: SystemSnapshot,
    n: nat,
) -> Seq<AlertEvent>
    decreases n,
{
    if n == 0 {
        Seq::empty()
    } else {
        tick_events(rules, states, snapshot, (n - 1) as nat) + option_seq(
            rule_event(rules[n - 1], states, snapshot),
        )
    }
}

/// The states after the first `n` rules, each rule on its own.
pub open spec fn tick_states(
    rules: Seq<AlertRule>,
    states: Map<Seq<char>, AlertState>,
    snapshot: SystemSnapshot,
    n: nat,
) -> Map<Seq<char>, AlertState>
    decreases n,
{
    if n == 0 {
        states
    } else {
        let m = tick_states(rules, states, snapshot, (n - 1) as nat);
        match metric_reading(rules[n - 1].metric, snapshot) {
            None => m,
            Some(_) => m.insert(rules[n - 1].name@, rule_state_after(rules[n - 1], states, snapshot)),
        }
    }
}

pub open spec fn tick_safe(
    rules: Seq<AlertRule>,
    states: Map<Seq<char>, AlertState>,
    snapshot: SystemSnapshot,
    n: nat,
) -> bool {
    forall|i: int| 0 <= i < n ==> !rule_overflows(#[trigger] rules[i], states, snapshot)
}

/// The name of the rule an event is about.
pub open spec fn event_rule_name(event: AlertEvent) -> Seq<char> {
    match event {
        AlertEvent::Triggered { rule_name, .. } => rule_name@,
        AlertEvent::Resolved { rule_name, .. } => rule_name@,
    }
}

/// The time an event carries.
pub open spec fn event_time(event: AlertEvent) -> Timestamp {
    match event {
        AlertEvent::Triggered { at, .. } => at,
        AlertEvent::Resolved { at, .. } => at,
    }
}

/// The events about the rule named `name`, in order.
pub open spec fn events_of(name: Seq<char>, events: Seq<AlertEvent>) -> Seq<AlertEvent>
    decreases events.len(),
{
    if events.len() == 0 {
        Seq::empty()
    } else {
        let earlier = events_of(name, events.drop_last());
        if event_rule_name(events.last()) == name {
            earlier.push(events.last())
        } else {
            earlier
        }
    }
}

proof fn lemma_events_of_add(name: Seq<char>, a: Seq<AlertEvent>, b: Seq<AlertEvent>)
    ensures
        events_of(name, a + b) == events_of(name, a) + events_of(name, b),
    decreases b.len(),
{
    if b.len() == 0 {
        assert(a + b =~= a);
        assert(events_of(name, a) + events_of(name, b) =~= events_of(name, a));
    } else {
        assert((a + b).drop_last() =~= a + b.drop_last());
        lemma_events_of_add(name, a, b.drop_last());
        if event_rule_name(b.last()) == name {
            assert(events_of(name, a) + events_of(name, b.drop_last()).push(b.last()) =~= (
            events_of(name, a) + events_of(name, b.drop_last())).push(b.last()));
        }
    }
}

proof fn lemma_tick_state_of(
    rules: Seq<AlertRule>,
    states: Map<Seq<char>, AlertState>,
    snapshot: SystemSnapshot,
    n: nat,
    k: int,
)
    requires
        rule_names_distinct(rules),
        n <= rules.len(),
        0 <= k < rules.len(),
    ensures
        state_for(tick_states(rules, states, snapshot, n), rules[k].name@) == if k < n {
            rule_state_after(rules[k], states, snapshot)
        } else {
            state_for(states, rules[k].name@)
        },
    decreases n,
{
    if n > 0 {
        lemma_tick_state_of(rules, states, snapshot, (n - 1) as nat, k);
    }
}

/// With distinct rule names, evaluating the rules in turn is each rule
/// stepping on its own from the states before: every rule raises at most one
/// event, the events come in rule order and carry the snapshot's time, and
/// the evaluation fails only where some rule's count would overflow.
pub proof fn lemma_evaluation_rule_by_rule(
    rules: Seq<AlertRule>,
    states: Map<Seq<char>, AlertState>,
    snapshot: SystemSnapshot,
    n: nat,
)
    requires
        rule_names_distinct(rules),
        n <= rules.len(),
    ensures
        evaluated(rules, states, snapshot, n) == if tick_safe(rules, states, snapshot, n) {
            Some((tick_states(rules, states, snapshot, n), tick_events(rules, states, snapshot, n)))
        } else {
            None
        },
        forall|i: int|
            0 <= i < tick_events(rules, states, snapshot, n).len() ==> event_time(
                #[trigger] tick_events(rules, states, snapshot, n)[i],
            ) == snapshot.timestamp,
    decreases n,
{
    if n > 0 {
        let k = (n - 1) as int;
        lemma_evaluation_rule_by_rule(rules, states, snapshot, (n - 1) as nat);
        lemma_tick_state_of(rules, states, snapshot, (n - 1) as nat, k);
        let before = tick_events(rules, states, snapshot, (n - 1) as nat);
        let added = option_seq(rule_event(rules[k], states, snapshot));
        assert forall|i: int|
            0 <= i < tick_events(rules, states, snapshot, n).len() implies event_time(
            #[trigger] tick_events(rules, states, snapshot, n)[i],
        ) == snapshot.timestamp by {
            if i >= before.len() {
                assert(tick_events(rules, states, snapshot, n)[i] == added[i - before.len()]);
            } else {
                assert(tick_events(rules, states, snapshot, n)[i] == before[i]);
            }
        }
        if !tick_safe(rules, states, snapshot, (n - 1) as nat) {
            let j = choose|j: int| 0 <= j < n - 1 && rule_overflows(rules[j], states, snapshot);
            assert(rule_overflows(rules[j], states, snapshot));
        } else if tick_safe(rules, states, snapshot, n) {
            assert(!rule_overflows(rules[k], states, snapshot));
            match rule_event(rules[k], states, snapshot) {
                Some(e) => {
                    assert(before.push(e) =~= before + seq![e]);
                },
                None => {
                    assert(before =~= before + Seq::<AlertEvent>::empty());
                },
            }
        } else {
            assert forall|i: int| 0 <= i < n - 1 implies !rule_overflows(
                #[trigger] rules[i],
                states,
                snapshot,
            ) by {}
            assert(rule_overflows(rules[k], states, snapshot));
        }
    }
}

proof fn lemma_rule_event_name(rule: AlertRule, states: Map<Seq<char>, AlertState>, snapshot: SystemSnapshot)
    ensures
        rule_event(rule, states, snapshot) matches Some(e) ==> event_rule_name(e) == rule.name@,
{
}

/// Of the events of one evaluation, those about rule `k` are the at most one
/// event that rule raises on its own.
proof fn lemma_tick_events_of_rule(
    rules: Seq<AlertRule>,
    states: Map<Seq<char>, AlertState>,
    snapshot: SystemSnapshot,
    n: nat,
    k: int,
)
    requires
        rule_names_distinct(rules),
        n <= rules.len(),
        0 <= k < rules.len(),
    ensures
        events_of(rules[k].name@, tick_events(rules, states, snapshot, n)) == if k < n {
            option_seq(rule_event(rules[k], states, snapshot))
        } else {
            Seq::<AlertEvent>::empty()
        },
    decreases n,
{
    if n > 0 {
        let j = (n - 1) as int;
        lemma_tick_events_of_rule(rules, states, snapshot, (n - 1) as nat, k);
        let name = rules[k].name@;
        let before = tick_events(rules, states, snapshot, (n - 1) as nat);
        let added = option_seq(rule_event(rules[j], states, snapshot));
        lemma_events_of_add(name, before, added);
        lemma_rule_event_name(rules[j], states, snapshot);
        match rule_event(rules[j], states, snapshot) {
            Some(e) => {
                assert(seq![e].drop_last() =~= Seq::<AlertEvent>::empty());
                assert(events_of(name, seq![e]) == if event_rule_name(e) == name {
                    seq![e]
                } else {
                    Seq::<AlertEvent>::empty()
                }) by {
                    assert(seq![e].drop_last() =~= Seq::<AlertEvent>::empty());
                    assert(seq![e].last() == e);
                    assert(events_of(name, Seq::<AlertEvent>::empty()) == Seq::<AlertEvent>::empty());
                    assert(Seq::<AlertEvent>::empty().push(e) =~= seq![e]);
                }
                if j == k {
                    assert(Seq::<AlertEvent>::empty() + seq![e] =~= seq![e]);
                } else {
                    assert(events_of(name, before) + Seq::<AlertEvent>::empty() =~= events_of(
                        name,
                        before,
                    ));
                }
            },
            None => {
                assert(events_of(name, before) + Seq::<AlertEvent>::empty() =~= events_of(name, before));
            },
        }
    }
}

/// Evaluating the snapshots in turn, one call each, starting from `states`:
/// the states after and the events of each call. What a sequence of
/// `AlertEngine::evaluate` calls does, by that function's contract.
pub open spec fn evaluated_calls(
    rules: Seq<AlertRule>,
    states: Map<Seq<char>, AlertState>,
    snapshots: Seq<SystemSnapshot>,
) -> Option<(Map<Seq<char>, AlertState>, Seq<Seq<AlertEvent>>)>
    decreases snapshots.len(),
{
    if snapshots.len() == 0 {
        Some((states, Seq::empty()))
    } else {
        match evaluated_calls(rules, states, snapshots.drop_last()) {
            None => None,
            Some((m, calls)) => match evaluated(rules, m, snapshots.last(), rules.len()) {
                None => None,
                Some((after, events)) => Some((after, calls.push(events))),
            },
        }
    }
}

/// The events of all the calls, in order.
pub open spec fn all_events(calls: Seq<Seq<AlertEvent>>) -> Seq<AlertEvent>
    decreases calls.len(),
{
    if calls.len() == 0 {
        Seq::empty()
    } else {
        all_events(calls.drop_last()) + calls.last()
    }
}

/// The readings `rule` takes from the snapshots, with the time of each;
/// snapshots that give it none (a disk they do not list) are passed over.
pub open spec fn rule_readings(rule: AlertRule, snapshots: Seq<SystemSnapshot>) -> Seq<(Float32, Timestamp)>
    decreases snapshots.len(),
{
    if snapshots.len() == 0 {
        Seq::empty()
    } else {
        let earlier = rule_readings(rule, snapshots.drop_last());
        match metric_reading(rule.metric, snapshots.last()) {
            None => earlier,
            Some(value) => earlier.push((value, snapshots.last().timestamp)),
        }
    }
}

/// Each rule runs on its own across calls: with distinct rule names, after
/// any sequence of evaluations the state of a rule is `run_state` over the
/// readings it took, its events over all the calls are `run_events` over
/// them, and each call raises at most one event about it (the one its own
/// step raises from its state before that call).
pub proof fn lemma_calls_rule_by_rule(
    rules: Seq<AlertRule>,
    states: Map<Seq<char>, AlertState>,
    snapshots: Seq<SystemSnapshot>,
    k: int,
)
    requires
        rule_names_distinct(rules),
        0 <= k < rules.len(),
        evaluated_calls(rules, states, snapshots) is Some,
    ensures
        ({
            let (after, calls) = evaluated_calls(rules, states, snapshots)->0;
            let rule = rules[k];
            let readings = rule_readings(rule, snapshots);
            let start = state_for(states, rule.name@);
            &&& state_for(after, rule.name@) == run_state(rule, readings, start)
            &&& events_of(rule.name@, all_events(calls)) == run_events(rule, readings, start)
            &&& calls.len() == snapshots.len()
        }),
    decreases snapshots.len(),
{
    if snapshots.len() > 0 {
        let prev = snapshots.drop_last();
        let last = snapshots.last();
        lemma_calls_rule_by_rule(rules, states, prev, k);
        let (m, calls) = evaluated_calls(rules, states, prev)->0;
        lemma_evaluation_rule_by_rule(rules, m, last, rules.len());
        lemma_tick_state_of(rules, m, last, rules.len(), k);
        lemma_tick_events_of_rule(rules, m, last, rules.len(), k);
        let events = tick_events(rules, m, last, rules.len());
        let all = calls.push(events);
        assert(all.drop_last() =~= calls);
        lemma_events_of_add(rules[k].name@, all_events(calls), events);
        let rule = rules[k];
        let start = state_for(states, rule.name@);
        let readings = rule_readings(rule, prev);
        match metric_reading(rule.metric, last) {
            None => {
                assert(events_of(rule.name@, all_events(calls)) + Seq::<AlertEvent>::empty()
                    =~= events_of(rule.name@, all_events(calls)));
            },
            Some(value) => {
                let r2 = readings.push((value, last.timestamp));
                assert(r2.drop_last() =~= readings);
                match step_event(rule, value, run_state(rule, readings, start), last.timestamp) {
                    Some(e) => {
                        assert(events_of(rule.name@, all_events(calls)) + seq![e] =~= events_of(
                            rule.name@,
                            all_events(calls),
                        ).push(e));
                    },
                    None => {
                        assert(events_of(rule.name@, all_events(calls)) + Seq::<AlertEvent>::empty()
                            =~= events_of(rule.name@, all_events(calls)));
                    },
                }
            },
        }
    }
}

/// How many of the last readings, in a row, are at or above the threshold.
pub open spec fn trailing_over(rule: AlertRule, readings: Seq<(Float32, Timestamp)>) -> nat
    decreases readings.len(),
{
    if readings.len() == 0 || !over_threshold(rule, readings.last().0) {
        0
    } else {
        trailing_over(rule, readings.drop_last()) + 1
    }
}

/// A rule run from its initial state: its events alternate, a trigger first,
/// so it is active exactly after an odd number of events (a trigger with no
/// resolution since); while inactive its count is the number of last
/// readings in a row at or above the threshold; every event names the rule.
pub proof fn lemma_run_from_initial(rule: AlertRule, readings: Seq<(Float32, Timestamp)>)
    requires
        readings.len() <= u32::MAX,
    ensures
        ({
            let state = run_state(rule, readings, initial_state());
            let events = run_events(rule, readings, initial_state());
            &&& state.consecutive_over_threshold <= readings.len()
            &&& state.active == (events.len() % 2 == 1)
            &&& !state.active ==> state.consecutive_over_threshold == trailing_over(rule, readings)
            &&& forall|i: int|
                0 <= i < events.len() ==> (#[trigger] events[i] is Triggered) == (i % 2 == 0)
            &&& forall|i: int| 0 <= i < events.len() ==> event_rule_name(#[trigger] events[i]) == rule.name@
        }),
    decreases readings.len(),
{
    if readings.len() > 0 {
        let prev = readings.drop_last();
        lemma_run_from_initial(rule, prev);
        let before = run_state(rule, prev, initial_state());
        let earlier = run_events(rule, prev, initial_state());
        let (value, at) = readings.last();
        match step_event(rule, value, before, at) {
            Some(e) => {
                let events = earlier.push(e);
                assert forall|i: int| 0 <= i < events.len() implies (#[trigger] events[i] is Triggered)
                    == (i % 2 == 0) by {
                    if i < earlier.len() {
                        assert(events[i] == earlier[i]);
                    }
                }
                assert forall|i: int| 0 <= i < events.len() implies event_rule_name(
                    #[trigger] events[i],
                ) == rule.name@ by {
                    if i < earlier.len() {
                        assert(events[i] == earlier[i]);
                    }
                }
            },
            None => {},
        }
    }
}

/// The event of a rule's latest reading, from the initial state: a trigger
/// exactly when the rule was inactive and the last `required_ticks` readings
/// (at least) are at or above the threshold; a resolution exactly when it
/// was active and the reading fell to the recovery threshold; otherwise
/// none, and an active rule stays active.
pub proof fn lemma_latest_reading_event(rule: AlertRule, readings: Seq<(Float32, Timestamp)>)
    requires
        1 <= readings.len() <= u32::MAX,
    ensures
        ({
            let prev = readings.drop_last();
            let before = run_state(rule, prev, initial_state());
            let (value, at) = readings.last();
            let event = step_event(rule, value, before, at);
            &&& run_events(rule, readings, initial_state()) == run_events(rule, prev, initial_state())
                + option_seq(event)
            &&& before.active == (run_events(rule, prev, initial_state()).len() % 2 == 1)
            &&& (event is Some && event->0 is Triggered) == (!before.active && trailing_over(
                rule,
                readings,
            ) >= required_ticks(rule))
            &&& (event is Some && event->0 is Triggered) ==> event == Some(
                AlertEvent::Triggered { rule_name: rule.name, value, at },
            )
            &&& (event is Some && event->0 is Resolved) == (before.active && recovered(rule, value))
            &&& (event is Some && event->0 is Resolved) ==> event == Some(
                AlertEvent::Resolved { rule_name: rule.name, at },
            )
            &&& before.active && !recovered(rule, value) ==> event is None && run_state(
                rule,
                readings,
                initial_state(),
            ).active
        }),
{
    let prev = readings.drop_last();
    lemma_run_from_initial(rule, prev);
    let earlier = run_events(rule, prev, initial_state());
    match step_event(rule, readings.last().0, run_state(rule, prev, initial_state()), readings.last().1) {
        Some(e) => {
            assert(earlier.push(e) =~= earlier + seq![e]);
        },
        None => {
            assert(earlier =~= earlier + Seq::<AlertEvent>::empty());
        },
    }
}

/// A snapshot from which a rule takes no reading (a disk it does not list)
/// leaves the rule's readings, and so its state and events in every later
/// call, as if that call had not been made.
pub proof fn lemma_unread_snapshot_is_skipped(
    rule: AlertRule,
    before: Seq<SystemSnapshot>,
    snapshot: SystemSnapshot,
    after: Seq<SystemSnapshot>,
)
    requires
        metric_reading(rule.metric, snapshot) is None,
    ensures
        rule_readings(rule, before.push(snapshot) + after) == rule_readings(rule, before + after),
    decreases after.len(),
{
    if after.len() == 0 {
        assert(before.push(snapshot) + after =~= before.push(snapshot));
        assert(before.push(snapshot).drop_last() =~= before);
        assert(before + after =~= before);
    } else {
        lemma_unread_snapshot_is_skipped(rule, before, snapshot, after.drop_last());
        assert((before.push(snapshot) + after).drop_last() =~= before.push(snapshot) + after.drop_last());
        assert((before + after).drop_last() =~= before + after.drop_last());
        assert((before.push(snapshot) + after).last() == after.last());
        assert((before + after).last() == after.last());
    }
}

/// The first evaluation of a new engine: every rule starts inactive with no
/// count, so nothing resolves, and a rule fires exactly when it needs a
/// single tick and its reading is at or above the threshold.
pub proof fn lemma_new_engine_first_evaluation(rules: Seq<AlertRule>, snapshot: SystemSnapshot, k: int)
    requires
        rule_names_distinct(rules),
        0 <= k < rules.len(),
    ensures
        evaluated(rules, initial_states(rules), snapshot, rules.len()) is Some,
        ({
            let (_, events) = evaluated(rules, initial_states(rules), snapshot, rules.len())->0;
            let rule = rules[k];
            events_of(rule.name@, events) == match metric_reading(rule.metric, snapshot) {
                Some(value) => if over_threshold(rule, value) && required_ticks(rule) == 1 {
                    seq![AlertEvent::Triggered { rule_name: rule.name, value, at: snapshot.timestamp }]
                } else {
                    Seq::empty()
                },
                None => Seq::empty(),
            }
        }),
{
    let states = initial_states(rules);
    assert forall|i: int| 0 <= i < rules.len() implies state_for(states, #[trigger] rules[i].name@)
        == initial_state() by {
        assert(states.contains_key(rules[i].name@));
    }
    assert(tick_safe(rules, states, snapshot, rules.len())) by {
        assert forall|i: int| 0 <= i < rules.len() implies !rule_overflows(
            #[trigger] rules[i],
            states,
            snapshot,
        ) by {
            assert(state_for(states, rules[i].name@) == initial_state());
        }
    }
    lemma_evaluation_rule_by_rule(rules, states, snapshot, rules.len());
    lemma_tick_events_of_rule(rules, states, snapshot, rules.len(), k);
    assert(state_for(states, rules[k].name@) == initial_state());
}

/// The latest call of a run that began with a new engine, for one rule (names
/// distinct): its events about the rule are what the rule's latest reading
/// raises (see `lemma_latest_reading_event`), none when the snapshot gives
/// it no reading; and the rule was active before the call exactly when its
/// earlier events number an odd count (a trigger with no resolution since).
pub proof fn lemma_latest_call_for_rule(rules: Seq<AlertRule>, snapshots: Seq<SystemSnapshot>, k: int)
    requires
        rule_names_distinct(rules),
        0 <= k < rules.len(),
        snapshots.len() >= 1,
        evaluated_calls(rules, initial_states(rules), snapshots) is Some,
        rule_readings(rules[k], snapshots).len() <= u32::MAX,
    ensures
        ({
            let (_, calls) = evaluated_calls(rules, initial_states(rules), snapshots)->0;
            let rule = rules[k];
            let earlier = rule_readings(rule, snapshots.drop_last());
            let before = run_state(rule, earlier, initial_state());
            let last = snapshots.last();
            &&& events_of(rule.name@, calls.last()) == match metric_reading(rule.metric, last) {
                None => Seq::<AlertEvent>::empty(),
                Some(value) => option_seq(step_event(rule, value, before, last.timestamp)),
            }
            &&& before.active == (events_of(rule.name@, all_events(calls.drop_last())).len() % 2 == 1)
        }),
{
    let states = initial_states(rules);
    let rule = rules[k];
    assert(states.contains_key(rule.name@));
    let prev = snapshots.drop_last();
    let last = snapshots.last();
    lemma_calls_rule_by_rule(rules, states, prev, k);
    let (m, calls) = evaluated_calls(rules, states, prev)->0;
    lemma_evaluation_rule_by_rule(rules, m, last, rules.len());
    lemma_tick_events_of_rule(rules, m, last, rules.len(), k);
    let earlier = rule_readings(rule, prev);
    if earlier.len() < rule_readings(rule, snapshots).len() {
        assert(earlier.len() <= u32::MAX);
    }
    lemma_run_from_initial(rule, earlier);
    let (_, all) = evaluated_calls(rules, states, snapshots)->0;
    assert(all.drop_last() =~= calls);
}

/// Sustained firing, over calls of a new engine (names distinct): while every
/// reading a rule has taken is at or above its threshold, the rule raises
/// nothing before its `sustained_ticks`-th reading (its first, when
/// `sustained_ticks` is 0), and from that reading on it has raised exactly
/// one event: the trigger carrying that reading's value and time.
pub proof fn lemma_sustained_readings_fire_once(
    rules: Seq<AlertRule>,
    snapshots: Seq<SystemSnapshot>,
    k: int,
)
    requires
        rule_names_distinct(rules),
        0 <= k < rules.len(),
        evaluated_calls(rules, initial_states(rules), snapshots) is Some,
        rule_readings(rules[k], snapshots).len() < u32::MAX,
        forall|i: int|
            0 <= i < rule_readings(rules[k], snapshots).len() ==> f32_ge(
                (#[trigger] rule_readings(rules[k], snapshots)[i]).0.bits,
                rules[k].threshold_percent.bits,
            ),
    ensures
        ({
            let (_, calls) = evaluated_calls(rules, initial_states(rules), snapshots)->0;
            let rule = rules[k];
            let readings = rule_readings(rule, snapshots);
            let n = readings.len();
            let first = if rule.sustained_ticks == 0 {
                0
            } else {
                rule.sustained_ticks - 1
            };
            &&& (n == 0 || n < rule.sustained_ticks) ==> events_of(rule.name@, all_events(calls))
                == Seq::<AlertEvent>::empty()
            &&& (n >= 1 && n >= rule.sustained_ticks) ==> events_of(rule.name@, all_events(calls))
                == seq![
                AlertEvent::Triggered {
                    rule_name: rule.name,
                    value: readings[first].0,
                    at: readings[first].1,
                },
            ]
        }),
{
    let states = initial_states(rules);
    let rule = rules[k];
    assert(states.contains_key(rule.name@));
    lemma_calls_rule_by_rule(rules, states, snapshots, k);
    let readings = rule_readings(rule, snapshots);
    assert forall|i: int| 0 <= i < readings.len() implies over_threshold(rule, #[trigger] readings[i].0) by {
        assert(f32_ge(readings[i].0.bits, rule.threshold_percent.bits));
    }
    crate::alert::lemma_fires_after_sustained_ticks(rule, readings);
}

/// Resolution with hysteresis, over calls of a new engine (names distinct):
/// in the latest call, a rule that was active before it (an odd number of
/// earlier events about it) raises the resolution, with the snapshot's time,
/// exactly when its reading is below the threshold and at or below the
/// recovery threshold, and nothing otherwise (a reading between the two
/// resolves nothing); a rule that was inactive never raises a resolution.
pub proof fn lemma_resolves_at_recovery_threshold(
    rules: Seq<AlertRule>,
    snapshots: Seq<SystemSnapshot>,
    k: int,
)
    requires
        rule_names_distinct(rules),
        0 <= k < rules.len(),
        snapshots.len() >= 1,
        evaluated_calls(rules, initial_states(rules), snapshots) is Some,
        rule_readings(rules[k], snapshots).len() <= u32::MAX,
    ensures
        ({
            let (_, calls) = evaluated_calls(rules, initial_states(rules), snapshots)->0;
            let rule = rules[k];
            let was_active = events_of(rule.name@, all_events(calls.drop_last())).len() % 2 == 1;
            let now = events_of(rule.name@, calls.last());
            let last = snapshots.last();
            &&& was_active ==> now == match metric_reading(rule.metric, last) {
                Some(v) => if !f32_ge(v.bits, rule.threshold_percent.bits) && f32_le(
                    v.bits,
                    rule.recovery_threshold_percent.bits,
                ) {
                    seq![AlertEvent::Resolved { rule_name: rule.name, at: last.timestamp }]
                } else {
                    Seq::<AlertEvent>::empty()
                },
                None => Seq::<AlertEvent>::empty(),
            }
            &&& !was_active ==> forall|i: int| 0 <= i < now.len() ==> !(#[trigger] now[i] is Resolved)
        }),
{
    lemma_latest_call_for_rule(rules, snapshots, k);
}

} // verus!
