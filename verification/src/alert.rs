//! Threshold alerts with a sustain count and recovery hysteresis.
//!
//! A rule fires once its metric has been at or above the threshold for
//! `sustained_ticks` consecutive evaluations (at least one), and resolves once
//! the metric falls to the recovery threshold or below. Readings between the
//! two keep an active alert active, and reset the count of an inactive one.
use vstd::prelude::*;

use crate::float::{f32_ge, f32_le, Float32};
use crate::snapshot::{DiskInfo, SystemSnapshot, Timestamp};

verus! {

#[derive(Clone, Debug, PartialEq)]
pub struct AlertRule {
    pub name: String,
    pub metric: MetricKind,
    pub threshold_percent: Float32,
    pub recovery_threshold_percent: Float32,
    pub sustained_ticks: u32,
}

#[derive(Clone, Debug, PartialEq)]
pub enum MetricKind {
    Cpu,
    Memory,
    /// The disk mounted at this path.
    Disk(String),
}

#[derive(Clone, Debug, PartialEq)]
pub enum AlertEvent {
    Triggered { rule_name: String, value: Float32, at: Timestamp },
    Resolved { rule_name: String, at: Timestamp },
}

/// What the engine remembers of one rule name.
#[derive(Clone, Copy, Debug, PartialEq, Eq, Structural)]
pub struct AlertState {
    pub consecutive_over_threshold: u32,
    pub active: bool,
}

/// The state a rule starts in: no reading over threshold yet, not active.
pub open spec fn initial_state() -> AlertState {
    AlertState { consecutive_over_threshold: 0, active: false }
}

/// Every rule name in the initial state: what a new engine keeps.
pub open spec fn initial_states(rules: Seq<AlertRule>) -> Map<Seq<char>, AlertState> {
    Map::new(
        |n: Seq<char>| exists|i: int| 0 <= i < rules.len() && rules[i].name@ == n,
        |n: Seq<char>| initial_state(),
    )
}

/// The usage of the first disk (in snapshot order) mounted at `mount_point`.
pub open spec fn disk_percent(disks: Seq<DiskInfo>, mount_point: Seq<char>) -> Option<Float32>
    decreases disks.len(),
{
    if disks.len() == 0 {
        None
    } else if disks[0].mount_point@ == mount_point {
        Some(disks[0].used_percent)
    } else {
        disk_percent(disks.drop_first(), mount_point)
    }
}

/// The reading a rule on `metric` takes from `snapshot`; none for a disk
/// that the snapshot does not list.
pub open spec fn metric_reading(metric: MetricKind, snapshot: SystemSnapshot) -> Option<Float32> {
    match metric {
        MetricKind::Cpu => Some(snapshot.cpu.global_usage_percent),
        MetricKind::Memory => Some(snapshot.memory.used_percent),
        MetricKind::Disk(mount_point) => disk_percent(snapshot.disks@, mount_point@),
    }
}

/// Consecutive readings at or above threshold needed to fire: `sustained_ticks`,
/// and at least one.
pub open spec fn required_ticks(rule: AlertRule) -> nat {
    if rule.sustained_ticks == 0 {
        1
    } else {
        rule.sustained_ticks as nat
    }
}

pub open spec fn over_threshold(rule: AlertRule, value: Float32) -> bool {
    f32_ge(value.bits, rule.threshold_percent.bits)
}

pub open spec fn recovered(rule: AlertRule, value: Float32) -> bool {
    !over_threshold(rule, value) && f32_le(value.bits, rule.recovery_threshold_percent.bits)
}

/// The count of readings over threshold would pass `u32::MAX`.
pub open spec fn step_overflows(rule: AlertRule, value: Float32, state: AlertState) -> bool {
    over_threshold(rule, value) && state.consecutive_over_threshold == u32::MAX
}

/// The state of a rule after one reading.
pub open spec fn next_state(rule: AlertRule, value: Float32, state: AlertState) -> AlertState {
    if over_threshold(rule, value) {
        let count = state.consecutive_over_threshold + 1;
        AlertState {
            consecutive_over_threshold: count as u32,
            active: state.active || count >= required_ticks(rule),
        }
    } else if recovered(rule, value) {
        initial_state()
    } else if !state.active {
        initial_state()
    } else {
        state
    }
}

/// The event (if any) that one reading raises.
pub open spec fn step_event(rule: AlertRule, value: Float32, state: AlertState, at: Timestamp) -> Option<
    AlertEvent,
> {
    if over_threshold(rule, value) && !state.active && state.consecutive_over_threshold + 1
        >= required_ticks(rule) {
        Some(AlertEvent::Triggered { rule_name: rule.name, value, at })
    } else if recovered(rule, value) && state.active {
        Some(AlertEvent::Resolved { rule_name: rule.name, at })
    } else {
        None
    }
}

/// The state kept under a rule's name (the initial one where none is kept).
pub open spec fn state_for(states: Map<Seq<char>, AlertState>, name: Seq<char>) -> AlertState {
    if states.contains_key(name) {
        states[name]
    } else {
        initial_state()
    }
}

/// Evaluating the first `n` rules in order against `snapshot`, starting from
/// `states`: the states after and the events raised, in rule order; `None`
/// where a count would overflow. Rules that share a name share one state.
pub open spec fn evaluated(
    rules: Seq<AlertRule>,
    states: Map<Seq<char>, AlertState>,
    snapshot: SystemSnapshot,
    n: nat,
) -> Option<(Map<Seq<char>, AlertState>, Seq<AlertEvent>)>
    decreases n,
{
    if n == 0 {
        Some((states, Seq::empty()))
    } else {
        match evaluated(rules, states, snapshot, (n - 1) as nat) {
            None => None,
            Some((m, events)) => {
                let rule = rules[n - 1];
                match metric_reading(rule.metric, snapshot) {
                    None => Some((m, events)),
                    Some(value) => {
                        let state = state_for(m, rule.name@);
                        if step_overflows(rule, value, state) {
                            None
                        } else {
                            let events = match step_event(rule, value, state, snapshot.timestamp) {
                                Some(e) => events.push(e),
                                None => events,
                            };
                            Some((m.insert(rule.name@, next_state(rule, value, state)), events))
                        }
                    },
                }
            },
        }
    }
}

/// The state of a rule after the readings `readings` (value and time of each),
/// in order, starting from `state`.
pub open spec fn run_state(rule: AlertRule, readings: Seq<(Float32, Timestamp)>, state: AlertState) -> AlertState
    decreases readings.len(),
{
    if readings.len() == 0 {
        state
    } else {
        next_state(rule, readings.last().0, run_state(rule, readings.drop_last(), state))
    }
}

/// The events those readings raise, in order.
pub open spec fn run_events(rule: AlertRule, readings: Seq<(Float32, Timestamp)>, state: AlertState) -> Seq<
    AlertEvent,
>
    decreases readings.len(),
{
    if readings.len() == 0 {
        Seq::empty()
    } else {
        let before = run_state(rule, readings.drop_last(), state);
        let earlier = run_events(rule, readings.drop_last(), state);
        match step_event(rule, readings.last().0, before, readings.last().1) {
            Some(e) => earlier.push(e),
            None => earlier,
        }
    }
}

/// A trigger comes only from an inactive rule whose reading is at or above
/// the threshold, and leaves it active; a resolution comes only from an
/// active rule whose reading fell to the recovery threshold, and leaves it
/// inactive with its count reset. So each rule's events alternate.
pub proof fn lemma_events_alternate(rule: AlertRule, value: Float32, state: AlertState, at: Timestamp)
    ensures
        step_event(rule, value, state, at) matches Some(AlertEvent::Triggered { rule_name, value: v, at: t })
            ==> !state.active && over_threshold(rule, value) && next_state(rule, value, state).active
            && rule_name == rule.name && v == value && t == at,
        step_event(rule, value, state, at) matches Some(AlertEvent::Resolved { rule_name, at: t })
            ==> state.active && recovered(rule, value) && next_state(rule, value, state)
            == initial_state() && rule_name == rule.name && t == at,
        step_event(rule, value, state, at) is None ==> next_state(rule, value, state).active
            == state.active,
{
}

/// Hysteresis: a reading below the threshold but above the recovery
/// threshold leaves an active alert exactly as it was, and raises nothing.
pub proof fn lemma_active_alert_holds_between_thresholds(
    rule: AlertRule,
    value: Float32,
    state: AlertState,
    at: Timestamp,
)
    requires
        state.active,
        !over_threshold(rule, value),
        !recovered(rule, value),
    ensures
        next_state(rule, value, state) == state,
        step_event(rule, value, state, at) is None,
{
}

/// An inactive rule whose reading is below the threshold starts counting
/// again from zero, and raises nothing: an isolated spike never fires a rule
/// that needs two or more ticks.
pub proof fn lemma_inactive_count_resets_below_threshold(
    rule: AlertRule,
    value: Float32,
    state: AlertState,
    at: Timestamp,
)
    requires
        !state.active,
        !over_threshold(rule, value),
    ensures
        next_state(rule, value, state) == initial_state(),
        step_event(rule, value, state, at) is None,
{
}

/// From the initial state, readings that are all at or above the threshold
/// raise nothing until the `required_ticks`-th one, which raises the one
/// trigger (with its value and time); the count is the number of readings.
pub proof fn lemma_fires_after_sustained_ticks(rule: AlertRule, readings: Seq<(Float32, Timestamp)>)
    requires
        readings.len() < u32::MAX,
        forall|i: int| 0 <= i < readings.len() ==> over_threshold(rule, #[trigger] readings[i].0),
    ensures
        run_state(rule, readings, initial_state()) == (AlertState {
            consecutive_over_threshold: readings.len() as u32,
            active: readings.len() >= required_ticks(rule),
        }),
        run_events(rule, readings, initial_state()) == (if readings.len() >= required_ticks(rule) {
            seq![
                AlertEvent::Triggered {
                    rule_name: rule.name,
                    value: readings[required_ticks(rule) - 1].0,
                    at: readings[required_ticks(rule) - 1].1,
                },
            ]
        } else {
            Seq::empty()
        }),
    decreases readings.len(),
{
    if readings.len() > 0 {
        let init = readings.drop_last();
        assert forall|i: int| 0 <= i < init.len() implies over_threshold(rule, #[trigger] init[i].0) by {
            assert(init[i] == readings[i]);
        }
        lemma_fires_after_sustained_ticks(rule, init);
        assert(over_threshold(rule, readings[readings.len() - 1].0));
        if init.len() >= required_ticks(rule) {
            assert(init[required_ticks(rule) - 1] == readings[required_ticks(rule) - 1]);
        }
    }
}

/// An engine with one rule applies that rule's step to its reading.
pub proof fn lemma_single_rule_evaluation(
    rule: AlertRule,
    states: Map<Seq<char>, AlertState>,
    snapshot: SystemSnapshot,
)
    ensures
        evaluated(seq![rule], states, snapshot, 1) == (match metric_reading(rule.metric, snapshot) {
            None => Some((states, Seq::<AlertEvent>::empty())),
            Some(value) => if step_overflows(rule, value, state_for(states, rule.name@)) {
                None
            } else {
                Some(
                    (
                        states.insert(
                            rule.name@,
                            next_state(rule, value, state_for(states, rule.name@)),
                        ),
                        match step_event(rule, value, state_for(states, rule.name@), snapshot.timestamp) {
                            Some(e) => seq![e],
                            None => Seq::empty(),
                        },
                    ),
                )
            },
        }),
{
    assert(evaluated(seq![rule], states, snapshot, 0) == Some((states, Seq::<AlertEvent>::empty())));
    match metric_reading(rule.metric, snapshot) {
        None => {},
        Some(value) => {
            let st = state_for(states, rule.name@);
            if !step_overflows(rule, value, st) {
                match step_event(rule, value, st, snapshot.timestamp) {
                    Some(e) => {
                        assert(Seq::<AlertEvent>::empty().push(e) =~= seq![e]);
                    },
                    None => {},
                }
            }
        },
    }
}

/// Once a count overflows, evaluating further rules does not undo it.
proof fn lemma_evaluated_stays_none(
    rules: Seq<AlertRule>,
    states: Map<Seq<char>, AlertState>,
    snapshot: SystemSnapshot,
    a: nat,
    b: nat,
)
    requires
        a <= b,
        evaluated(rules, states, snapshot, a) is None,
    ensures
        evaluated(rules, states, snapshot, b) is None,
    decreases b,
{
    if a < b {
        lemma_evaluated_stays_none(rules, states, snapshot, a, (b - 1) as nat);
    }
}

/// The map from each name of `names` to the state at its position.
pub open spec fn states_by_name(names: Seq<String>, states: Seq<AlertState>) -> Map<
    Seq<char>,
    AlertState,
> {
    Map::new(
        |n: Seq<char>| exists|i: int| 0 <= i < names.len() && names[i]@ == n,
        |n: Seq<char>| states[choose|i: int| 0 <= i < names.len() && names[i]@ == n],
    )
}

pub open spec fn names_distinct(names: Seq<String>) -> bool {
    forall|i: int, j: int| 0 <= i < names.len() && 0 <= j < names.len() && i != j ==> names[i]@ != names[j]@
}

proof fn lemma_states_by_name_at(names: Seq<String>, states: Seq<AlertState>, k: int)
    requires
        names_distinct(names),
        names.len() == states.len(),
        0 <= k < names.len(),
    ensures
        states_by_name(names, states).contains_key(names[k]@),
        states_by_name(names, states)[names[k]@] == states[k],
{
    let n = names[k]@;
    assert(0 <= k < names.len() && names[k]@ == n);
    let c = choose|i: int| 0 <= i < names.len() && names[i]@ == n;
    assert(c == k);
}

proof fn lemma_states_by_name_update(
    names: Seq<String>,
    states: Seq<AlertState>,
    k: int,
    s: AlertState,
)
    requires
        names_distinct(names),
        names.len() == states.len(),
        0 <= k < names.len(),
    ensures
        states_by_name(names, states.update(k, s)) == states_by_name(names, states).insert(
            names[k]@,
            s,
        ),
{
    let a = states_by_name(names, states.update(k, s));
    let b = states_by_name(names, states).insert(names[k]@, s);
    assert forall|n: Seq<char>| a.contains_key(n) implies a[n] == b[n] by {
        let c = choose|i: int| 0 <= i < names.len() && names[i]@ == n;
        lemma_states_by_name_at(names, states, c);
        lemma_states_by_name_at(names, states.update(k, s), c);
    }
    assert(a.dom() =~= b.dom()) by {
        assert(0 <= k < names.len() && names[k]@ == names[k]@);
    }
    assert(a =~= b);
}

/// The reading `rule` takes from `snapshot` (none for a disk that is not listed).
fn metric_value(rule: &AlertRule, snapshot: &SystemSnapshot) -> (r: Option<Float32>)
    ensures
        r == metric_reading(rule.metric, *snapshot),
{
    match &rule.metric {
        MetricKind::Cpu => Some(snapshot.cpu.global_usage_percent),
        MetricKind::Memory => Some(snapshot.memory.used_percent),
        MetricKind::Disk(mount_point) => {
            let disks = &snapshot.disks;
            let mut i: usize = 0;
            proof {
                assert(disks@.skip(0) =~= disks@);
            }
            while i < disks.len()
                invariant
                    i <= disks@.len(),
                    metric_reading(rule.metric, *snapshot) == disk_percent(disks@, mount_point@),
                    disk_percent(disks@, mount_point@) == disk_percent(disks@.skip(i as int), mount_point@),
                decreases disks@.len() - i,
            {
                proof {
                    assert(disks@.skip(i as int).drop_first() =~= disks@.skip(i + 1));
                }
                if disks[i].mount_point == *mount_point {
                    proof {
                        assert(disks@.skip(i as int)[0] == disks@[i as int]);

                    }
                    return Some(disks[i].used_percent);
                }
                i = i + 1;
            }
            None
        },
    }
}

#[derive(Debug)]
pub struct AlertEngine {
    rules: Vec<AlertRule>,
    names: Vec<String>,
    states: Vec<AlertState>,
    /// For each rule, the position of its name in `names`.
    slots: Vec<usize>,
}

impl AlertEngine {
    #[verifier::type_invariant]
    spec fn well_formed(self) -> bool {
        &&& self.names@.len() == self.states@.len()
        &&& names_distinct(self.names@)
        &&& self.slots@.len() == self.rules@.len()
        &&& forall|i: int|
            0 <= i < self.rules@.len() ==> #[trigger] self.slots@[i] < self.names@.len()
                && self.names@[self.slots@[i] as int]@ == self.rules@[i].name@
    }

    /// The rules, in the order they are evaluated.
    pub closed spec fn rules_spec(self) -> Seq<AlertRule> {
        self.rules@
    }

    /// The state kept for each rule name.
    pub closed spec fn states_spec(self) -> Map<Seq<char>, AlertState> {
        states_by_name(self.names@, self.states@)
    }

    /// Evaluates every rule, in order, against `snapshot`, and returns the
    /// events raised, in rule order. `None`, with the engine unchanged, where
    /// a count of readings over threshold would pass `u32::MAX`.
    pub fn try_evaluate(&mut self, snapshot: &SystemSnapshot) -> (r: Option<Vec<AlertEvent>>)
        ensures
            final(self).rules_spec() == old(self).rules_spec(),
            match evaluated(
                old(self).rules_spec(),
                old(self).states_spec(),
                *snapshot,
                old(self).rules_spec().len(),
            ) {
                None => r is None && final(self).states_spec() == old(self).states_spec(),
                Some((states, events)) => r matches Some(v) && v@ == events
                    && final(self).states_spec() == states,
            },
    {
        proof {
            use_type_invariant(&*self);
        }
        let ghost rules = self.rules@;
        let ghost start = self.states_spec();
        let mut states: Vec<AlertState> = Vec::new();
        let mut k: usize = 0;
        while k < self.states.len()
            invariant
                k <= self.states@.len(),
                states@ == self.states@.take(k as int),
            decreases self.states@.len() - k,
        {
            states.push(self.states[k]);
            proof {
                assert(self.states@.take(k + 1) =~= self.states@.take(k as int).push(self.states@[k as int]));
            }
            k = k + 1;
        }
        proof {
            assert(self.states@.take(k as int) =~= self.states@);
        }
        let mut events: Vec<AlertEvent> = Vec::new();
        let mut i: usize = 0;
        while i < self.rules.len()
            invariant
                i <= rules.len(),
                rules == self.rules@,
                start == states_by_name(self.names@, self.states@),
                states@.len() == self.names@.len(),
                names_distinct(self.names@),
                self.slots@.len() == rules.len(),
                forall|j: int|
                    0 <= j < rules.len() ==> #[trigger] self.slots@[j] < self.names@.len()
                        && self.names@[self.slots@[j] as int]@ == rules[j].name@,
                evaluated(rules, start, *snapshot, i as nat) == Some(
                    (states_by_name(self.names@, states@), events@),
                ),
            decreases rules.len() - i,
        {
            let rule = &self.rules[i];
            let slot = self.slots[i];
            proof {
                assert(self.slots@[i as int] < self.names@.len());
                lemma_states_by_name_at(self.names@, states@, slot as int);
            }
            match metric_value(rule, snapshot) {
                None => {},
                Some(value) => {
                    let state = states[slot];
                    if value.ge(rule.threshold_percent) {
                        if state.consecutive_over_threshold == u32::MAX {
                            proof {
                                lemma_evaluated_stays_none(
                                    rules,
                                    start,
                                    *snapshot,
                                    (i + 1) as nat,
                                    rules.len(),
                                );
                            }
                            return None;
                        }
                        let count = state.consecutive_over_threshold + 1;
                        let required = if rule.sustained_ticks == 0 {
                            1
                        } else {
                            rule.sustained_ticks
                        };
                        let fire = !state.active && count >= required;
                        proof {
                            lemma_states_by_name_update(
                                self.names@,
                                states@,
                                slot as int,
                                AlertState {
                                    consecutive_over_threshold: count,
                                    active: state.active || fire,
                                },
                            );
                        }
                        states.set(
                            slot,
                            AlertState { consecutive_over_threshold: count, active: state.active || fire },
                        );
                        if fire {
                            events.push(
                                AlertEvent::Triggered {
                                    rule_name: rule.name.clone(),
                                    value,
                                    at: snapshot.timestamp,
                                },
                            );
                        }
                    } else if value.le(rule.recovery_threshold_percent) {
                        proof {
                            lemma_states_by_name_update(
                                self.names@,
                                states@,
                                slot as int,
                                initial_state(),
                            );
                        }
                        states.set(slot, AlertState { consecutive_over_threshold: 0, active: false });
                        if state.active {
                            events.push(
                                AlertEvent::Resolved { rule_name: rule.name.clone(), at: snapshot.timestamp },
                            );
                        }
                    } else if !state.active {
                        proof {
                            lemma_states_by_name_update(
                                self.names@,
                                states@,
                                slot as int,
                                initial_state(),
                            );
                        }
                        states.set(slot, AlertState { consecutive_over_threshold: 0, active: false });
                    } else {
                        proof {
                            lemma_states_by_name_update(self.names@, states@, slot as int, state);
                            assert(states@.update(slot as int, state) =~= states@);
                        }
                    }
                },
            }
            i = i + 1;
        }
        self.states = states;
        Some(events)
    }

    /// Evaluates every rule, in order, against `snapshot`, updates the state
    /// kept for each rule name, and returns the events raised, in rule order.
    /// A rule whose disk the snapshot does not list is passed over.
    pub fn evaluate(&mut self, snapshot: &SystemSnapshot) -> (r: Vec<AlertEvent>)
        requires
            evaluated(
                old(self).rules_spec(),
                old(self).states_spec(),
                *snapshot,
                old(self).rules_spec().len(),
            ) is Some,
        ensures
            final(self).rules_spec() == old(self).rules_spec(),
            evaluated(
                old(self).rules_spec(),
                old(self).states_spec(),
                *snapshot,
                old(self).rules_spec().len(),
            ) == Some((final(self).states_spec(), r@)),
    {
        match self.try_evaluate(snapshot) {
            Some(events) => events,
            None => Vec::new(),
        }
    }

    /// An engine over `rules`, every rule name in its initial state.
    pub fn new(rules: Vec<AlertRule>) -> (r: AlertEngine)
        ensures
            r.rules_spec() == rules@,
            r.states_spec() == initial_states(rules@),
    {
        let mut names: Vec<String> = Vec::new();
        let mut states: Vec<AlertState> = Vec::new();
        let mut slots: Vec<usize> = Vec::new();
        let mut i: usize = 0;
        while i < rules.len()
            invariant
                i <= rules@.len(),
                names@.len() == states@.len(),
                names_distinct(names@),
                slots@.len() == i,
                forall|k: int| 0 <= k < states@.len() ==> states@[k] == initial_state(),
                forall|k: int|
                    0 <= k < i ==> #[trigger] slots@[k] < names@.len() && names@[slots@[k] as int]@
                        == rules@[k].name@,
                forall|k: int|
                    0 <= k < names@.len() ==> exists|j: int| 0 <= j < i && rules@[j].name@ == #[trigger] names@[k]@,
            decreases rules@.len() - i,
        {
            let name = &rules[i].name;
            let mut j: usize = 0;
            let mut found: bool = false;
            while j < names.len() && !found
                invariant
                    j <= names@.len(),
                    !found ==> forall|k: int| 0 <= k < j ==> names@[k]@ != name@,
                    found ==> j < names@.len() && names@[j as int]@ == name@,
                decreases names@.len() - j + (if found { 0int } else { 1 }),
            {
                if names[j] == *name {
                    found = true;
                } else {
                    j = j + 1;
                }
            }
            if found {
                slots.push(j);
            } else {
                let ghost old_names = names@;
                names.push(name.clone());
                states.push(AlertState { consecutive_over_threshold: 0, active: false });
                slots.push(j);
                proof {
                    assert forall|k: int| 0 <= k < names@.len() implies exists|m: int|
                        0 <= m < i + 1 && rules@[m].name@ == #[trigger] names@[k]@ by {
                        if k < old_names.len() {
                            let m = choose|m: int| 0 <= m < i && rules@[m].name@ == old_names[k]@;
                            assert(0 <= m < i + 1 && rules@[m].name@ == names@[k]@);
                        } else {
                            assert(rules@[i as int].name@ == names@[k]@);
                        }
                    }
                }
            }
            proof {
                assert(slots@[i as int] < names@.len() && names@[slots@[i as int] as int]@
                    == rules@[i as int].name@);
            }
            i = i + 1;
        }
        let engine = AlertEngine { rules, names, states, slots };
        proof {
            let m = initial_states(rules@);
            let s = states_by_name(names@, states@);
            assert forall|n: Seq<char>| m.contains_key(n) implies s[n] == m[n] by {
                let j = choose|j: int| 0 <= j < rules@.len() && rules@[j].name@ == n;
                assert(slots@[j] < names@.len());
                lemma_states_by_name_at(names@, states@, slots@[j] as int);
            }
            assert forall|n: Seq<char>| #[trigger] s.dom().contains(n) == m.dom().contains(n) by {
                if s.dom().contains(n) {
                    let k = choose|k: int| 0 <= k < names@.len() && names@[k]@ == n;
                    let j = choose|j: int| 0 <= j < rules@.len() && rules@[j].name@ == names@[k]@;
                    assert(0 <= j < rules@.len() && rules@[j].name@ == n);
                }
                if m.dom().contains(n) {
                    let j = choose|j: int| 0 <= j < rules@.len() && rules@[j].name@ == n;
                    assert(slots@[j] < names@.len());
                    lemma_states_by_name_at(names@, states@, slots@[j] as int);
                }
            }
            assert(s.dom() =~= m.dom());
            assert(s =~= m);
        }
        engine
    }
}

impl Default for AlertEngine {
    /// An engine with no rules.
    fn default() -> (r: AlertEngine)
        ensures
            r.rules_spec() == Seq::<AlertRule>::empty(),
            r.states_spec() == Map::<Seq<char>, AlertState>::empty(),
    {
        let r = AlertEngine::new(Vec::new());
        proof {
            assert(r.states_spec() =~= Map::<Seq<char>, AlertState>::empty());
        }
        r
    }
}

} // verus!
