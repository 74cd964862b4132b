//! Alerts: rules over readings that fire once, stay silent while they hold,
//! and clear with a margin.
use vstd::prelude::*;
use vstd::string::*;
use crate::order::TextMap;

verus! {

broadcast use vstd::string::group_string_axioms;

/// What a rule watches.
#[derive(Debug, Clone, PartialEq, Eq, Hash)]
pub enum Metric {
    /// Overall CPU utilisation, as a fraction.
    CpuUsage,
    /// Memory in use against total, as a fraction.
    MemoryPressure,
    /// Swap in use, as a fraction.
    SwapPressure,
    /// A filesystem's used fraction.
    DiskUsage { mount: String },
    /// A filesystem's remaining bytes. Falls through its threshold.
    DiskSpaceRemaining { mount: String },
    /// The hottest sensor, in degrees.
    Temperature,
}

/// The key of a metric.
pub open spec fn metric_key(m: Metric) -> Seq<char> {
    match m {
        Metric::CpuUsage => "cpu_usage"@,
        Metric::MemoryPressure => "memory_pressure"@,
        Metric::SwapPressure => "swap_pressure"@,
        Metric::Temperature => "temperature"@,
        Metric::DiskUsage { mount } => "disk_usage:"@ + mount@,
        Metric::DiskSpaceRemaining { mount } => "disk_space:"@ + mount@,
    }
}

/// Whether two metrics are the same, mount points compared as texts.
pub open spec fn same_metric(a: Metric, b: Metric) -> bool {
    match (a, b) {
        (Metric::DiskUsage { mount: x }, Metric::DiskUsage { mount: y }) => x@ == y@,
        (
            Metric::DiskSpaceRemaining { mount: x },
            Metric::DiskSpaceRemaining { mount: y },
        ) => x@ == y@,
        _ => a == b,
    }
}

impl Metric {
    /// Whether the alarming direction is downward.
    pub fn alarms_when_falling(&self) -> (r: bool)
        ensures
            r == (self is DiskSpaceRemaining),
    {
        matches!(self, Metric::DiskSpaceRemaining { .. })
    }

    /// A stable key, so that state survives a rule being edited.
    pub fn key(&self) -> (r: String)
        ensures
            r@ == metric_key(*self),
    {
        match self {
            Metric::CpuUsage => "cpu_usage".to_owned(),
            Metric::MemoryPressure => "memory_pressure".to_owned(),
            Metric::SwapPressure => "swap_pressure".to_owned(),
            Metric::Temperature => "temperature".to_owned(),
            Metric::DiskUsage { mount } => {
                let mut out = "disk_usage:".to_owned();
                out.append(mount.as_str());
                out
            },
            Metric::DiskSpaceRemaining { mount } => {
                let mut out = "disk_space:".to_owned();
                out.append(mount.as_str());
                out
            },
        }
    }
}

/// One threshold a user has asked to be told about. The figures it compares
/// with are the caller's; see [`Position`].
#[derive(Debug, Clone, PartialEq, Eq)]
pub struct Rule {
    pub metric: Metric,
    /// Seconds after firing during which it will not fire again.
    pub cooldown_seconds: u64,
    /// Off means silent immediately.
    pub enabled: bool,
}

impl Rule {
    /// A rule with the defaults for a fractional metric.
    pub fn fraction(metric: Metric) -> (r: Self)
        ensures
            r.metric == metric,
            r.cooldown_seconds == 300,
            r.enabled,
    {
        Rule { metric, cooldown_seconds: 300, enabled: true }
    }
}

/// Where a value lies relative to a line.
#[derive(Debug, Clone, Copy, PartialEq, Eq, Structural)]
pub enum Side {
    Below,
    At,
    Above,
    /// The two cannot be compared.
    Unordered,
}

/// Where a value lies relative to the two lines of a rule.
#[derive(Debug, Clone, Copy, PartialEq, Eq, Structural)]
pub struct Position {
    /// Relative to the threshold.
    pub threshold: Side,
    /// Relative to the line that it has to pass on its way back: the
    /// threshold and the margin together.
    pub margin: Side,
}

/// Whether the value has reached the threshold, in the alarming direction.
pub open spec fn is_over(m: Metric, p: Position) -> bool {
    p.threshold == Side::At || if m is DiskSpaceRemaining {
        p.threshold == Side::Below
    } else {
        p.threshold == Side::Above
    }
}

/// Whether the value has come back past the margin.
pub open spec fn is_clear(m: Metric, p: Position) -> bool {
    if m is DiskSpaceRemaining {
        p.margin == Side::Above
    } else {
        p.margin == Side::Below
    }
}

/// What a rule did on one evaluation.
#[derive(Debug, Clone, Copy, PartialEq, Eq, Structural)]
pub enum Outcome {
    /// Crossed the threshold and was not already firing: notify.
    Fired,
    /// Still over, and already notified. Deliberately silent.
    StillFiring,
    /// Came back within its margin.
    Cleared,
    /// Nothing to say.
    Quiet,
    /// Over the threshold, but too soon after the last time.
    Suppressed,
}

impl Outcome {
    /// Whether this outcome should reach the user.
    pub fn notifies(self) -> (r: bool)
        ensures
            r == (self == Outcome::Fired),
    {
        matches!(self, Outcome::Fired)
    }
}

/// What is remembered of one rule.
#[derive(Debug, Clone, Copy, PartialEq, Eq)]
pub struct Firing {
    pub active: bool,
    pub last_fired_at: Option<i64>,
}

/// What is remembered of a rule that has done nothing yet.
pub open spec fn untouched() -> Firing {
    Firing { active: false, last_fired_at: None }
}

impl Default for Firing {
    fn default() -> (r: Self)
        ensures
            r == untouched(),
    {
        Firing { active: false, last_fired_at: None }
    }
}

/// The seconds between two moments, as far as 64 bits hold them.
pub open spec fn elapsed(now: int, last: int) -> int {
    if now - last > i64::MAX {
        i64::MAX as int
    } else if now - last < i64::MIN {
        i64::MIN as int
    } else {
        now - last
    }
}

/// Whether a rule that last fired at some moment is still cooling down.
pub open spec fn cooling(state: Firing, cooldown: u64, now: i64) -> bool {
    state.last_fired_at matches Some(last) && elapsed(now as int, last as int) < if cooldown
        > i64::MAX as u64 {
        i64::MAX as int
    } else {
        cooldown as int
    }
}

/// What a rule does and what is remembered of it afterwards.
pub open spec fn judged(rule: Rule, state: Firing, position: Position, now: i64) -> (
    Outcome,
    Firing,
) {
    if !rule.enabled {
        (Outcome::Quiet, untouched())
    } else if state.active {
        if is_clear(rule.metric, position) {
            (Outcome::Cleared, Firing { active: false, ..state })
        } else {
            (Outcome::StillFiring, state)
        }
    } else if !is_over(rule.metric, position) {
        (Outcome::Quiet, state)
    } else if cooling(state, rule.cooldown_seconds, now) {
        (Outcome::Suppressed, state)
    } else {
        (Outcome::Fired, Firing { active: true, last_fired_at: Some(now) })
    }
}

/// Evaluates rules against readings, remembering what it has already said.
#[derive(Debug)]
pub struct Alerts {
    state: TextMap<Firing>,
}

impl Alerts {
    /// Whether the memory is in order.
    pub closed spec fn wf(&self) -> bool {
        self.state.wf()
    }

    /// What is remembered under a key.
    pub closed spec fn memory(&self, key: Seq<char>) -> Firing {
        if self.state.has(key) {
            self.state.value(key)
        } else {
            untouched()
        }
    }

    /// A set of alerts that has observed nothing.
    pub fn new() -> (r: Self)
        ensures
            r.wf(),
            forall|key: Seq<char>| #[trigger] r.memory(key) == untouched(),
    {
        Alerts { state: TextMap::new() }
    }

    /// Evaluates one rule against one value at one moment, given in seconds
    /// since the epoch.
    pub fn evaluate(&mut self, rule: &Rule, position: Position, now: i64) -> (r: Outcome)
        requires
            old(self).wf(),
        ensures
            final(self).wf(),
            (r, final(self).memory(metric_key(rule.metric))) == judged(
                *rule,
                old(self).memory(metric_key(rule.metric)),
                position,
                now,
            ),
            forall|other: Seq<char>|
                other != metric_key(rule.metric) ==> #[trigger] final(self).memory(other) == old(
                    self,
                ).memory(other),
    {
        let key = rule.metric.key();
        if !rule.enabled {
            self.state.remove(key.as_str());
            return Outcome::Quiet;
        }
        let before: Firing = match self.state.get(key.as_str()) {
            Some(f) => *f,
            None => Firing { active: false, last_fired_at: None },
        };
        let falling = rule.metric.alarms_when_falling();
        let over = position.threshold == Side::At || if falling {
            position.threshold == Side::Below
        } else {
            position.threshold == Side::Above
        };
        let clear = if falling {
            position.margin == Side::Above
        } else {
            position.margin == Side::Below
        };
        if before.active {
            if clear {
                self.state.insert(
                    key.as_str(),
                    Firing { active: false, last_fired_at: before.last_fired_at },
                );
                return Outcome::Cleared;
            }
            return Outcome::StillFiring;
        }
        if !over {
            return Outcome::Quiet;
        }
        if let Some(last) = before.last_fired_at {
            let gap: i128 = now as i128 - last as i128;
            let passed: i128 = if gap > i64::MAX as i128 {
                i64::MAX as i128
            } else if gap < i64::MIN as i128 {
                i64::MIN as i128
            } else {
                gap
            };
            let needed: i128 = if rule.cooldown_seconds > i64::MAX as u64 {
                i64::MAX as i128
            } else {
                rule.cooldown_seconds as i128
            };
            if passed < needed {
                return Outcome::Suppressed;
            }
        }
        self.state.insert(key.as_str(), Firing { active: true, last_fired_at: Some(now) });
        Outcome::Fired
    }

    /// Whether a rule is currently firing.
    pub fn is_firing(&self, metric: &Metric) -> (r: bool)
        requires
            self.wf(),
        ensures
            r == self.memory(metric_key(*metric)).active,
    {
        let key = metric.key();
        match self.state.get(key.as_str()) {
            Some(f) => f.active,
            None => false,
        }
    }

    /// Forgets everything.
    pub fn reset(&mut self)
        ensures
            final(self).wf(),
            forall|key: Seq<char>| #[trigger] final(self).memory(key) == untouched(),
    {
        self.state = TextMap::new();
    }
}

impl Default for Alerts {
    fn default() -> (r: Self)
        ensures
            r.wf(),
            forall|key: Seq<char>| #[trigger] r.memory(key) == untouched(),
    {
        Alerts::new()
    }
}

/// A firing rule does not fire again while it is on and the condition holds:
/// it stays firing, silently, until the value is back past the margin.
pub proof fn law_no_refiring(rule: Rule, state: Firing, position: Position, now: i64)
    requires
        rule.enabled,
        state.active,
    ensures
        judged(rule, state, position, now).0 != Outcome::Fired,
        !is_clear(rule.metric, position) ==> judged(rule, state, position, now) == (
            Outcome::StillFiring,
            state,
        ),
{
}

/// Firing is remembered, so that the next evaluation is not news.
pub proof fn law_firing_is_remembered(rule: Rule, state: Firing, position: Position, now: i64)
    requires
        judged(rule, state, position, now).0 == Outcome::Fired,
    ensures
        judged(rule, state, position, now).1.active,
        judged(rule, state, position, now).1.last_fired_at == Some(now),
        is_over(rule.metric, position),
{
}

/// Between two firings of a rule that stays on, its cooldown passes: while it
/// runs, nothing fires.
pub proof fn law_cooldown_holds(rule: Rule, state: Firing, position: Position, now: i64, last: i64)
    requires
        state.last_fired_at == Some(last),
        now - last < rule.cooldown_seconds,
        now - last < i64::MAX,
    ensures
        judged(rule, state, position, now).0 != Outcome::Fired,
{
}

/// A disabled rule is silent at once, and starts from nothing when it is
/// enabled again.
pub proof fn law_disabling_silences(rule: Rule, state: Firing, position: Position, now: i64)
    requires
        !rule.enabled,
    ensures
        judged(rule, state, position, now) == (Outcome::Quiet, untouched()),
{
}

/// Different metrics have different keys, so no two rules share their state.
pub proof fn law_keys_are_distinct(a: Metric, b: Metric)
    requires
        metric_key(a) == metric_key(b),
    ensures
        same_metric(a, b),
{
    reveal_strlit("cpu_usage");
    reveal_strlit("memory_pressure");
    reveal_strlit("swap_pressure");
    reveal_strlit("temperature");
    reveal_strlit("disk_usage:");
    reveal_strlit("disk_space:");
    let x = metric_key(a);
    let y = metric_key(b);
    assert(x.len() == y.len());
    assert(x[0] == y[0]);
    assert(x[5] == y[5] && x[6] == y[6]);
    match (a, b) {
        (Metric::DiskUsage { mount: p }, Metric::DiskUsage { mount: q }) => {
            assert(x.skip(11) =~= p@);
            assert(y.skip(11) =~= q@);
        },
        (Metric::DiskSpaceRemaining { mount: p }, Metric::DiskSpaceRemaining { mount: q }) => {
            assert(x.skip(11) =~= p@);
            assert(y.skip(11) =~= q@);
        },
        _ => {},
    }
}

/// When a rule fires: exactly when it is on, is not firing already, the value
/// is at its threshold or past it, and the cooldown since the last firing is
/// over. Past it is above, but for the space that remains on a filesystem,
/// which alarms when it falls below.
pub proof fn law_when_a_rule_fires(rule: Rule, state: Firing, position: Position, now: i64)
    ensures
        ({
            let past = if rule.metric is DiskSpaceRemaining {
                Side::Below
            } else {
                Side::Above
            };
            let over = position.threshold == Side::At || position.threshold == past;
            let rested = match state.last_fired_at {
                None => true,
                Some(last) => now - last >= rule.cooldown_seconds,
            };
            &&& judged(rule, state, position, now).0 == Outcome::Fired ==> rule.enabled
                && !state.active && over
            &&& rule.enabled && !state.active && over && rested ==> judged(
                rule,
                state,
                position,
                now,
            ).0 == Outcome::Fired
            &&& rule.enabled && !state.active && over && !rested && now - (
            state.last_fired_at->0) < i64::MAX ==> judged(rule, state, position, now) == (
                Outcome::Suppressed,
                state,
            )
            &&& rule.enabled && !state.active && !over ==> judged(rule, state, position, now) == (
                Outcome::Quiet,
                state,
            )
        }),
{
}

/// When a rule that fires is clear: exactly when the value is back behind the
/// margin, below it, or above it for what alarms when it falls. It then keeps
/// the moment of its last firing, so that the cooldown still counts from it.
pub proof fn law_when_a_rule_clears(rule: Rule, state: Firing, position: Position, now: i64)
    requires
        rule.enabled,
        state.active,
    ensures
        ({
            let back = if rule.metric is DiskSpaceRemaining {
                Side::Above
            } else {
                Side::Below
            };
            if position.margin == back {
                &&& judged(rule, state, position, now).0 == Outcome::Cleared
                &&& !judged(rule, state, position, now).1.active
                &&& judged(rule, state, position, now).1.last_fired_at == state.last_fired_at
            } else {
                judged(rule, state, position, now) == (Outcome::StillFiring, state)
            }
        }),
{
}

/// A rule is remembered by what it measures: two rules share a memory exactly
/// where they measure the same thing, on the same filesystem.
pub proof fn law_a_key_is_a_metric(a: Metric, b: Metric)
    ensures
        metric_key(a) == metric_key(b) <==> match (a, b) {
            (Metric::CpuUsage, Metric::CpuUsage) => true,
            (Metric::MemoryPressure, Metric::MemoryPressure) => true,
            (Metric::SwapPressure, Metric::SwapPressure) => true,
            (Metric::Temperature, Metric::Temperature) => true,
            (Metric::DiskUsage { mount }, Metric::DiskUsage { mount: other }) => mount@ == other@,
            (
                Metric::DiskSpaceRemaining { mount },
                Metric::DiskSpaceRemaining { mount: other },
            ) => mount@ == other@,
            _ => false,
        },
{
    if metric_key(a) == metric_key(b) {
        law_keys_are_distinct(a, b);
    }
}

/// Only a firing notifies, only the space that remains alarms when it falls,
/// and a rule over a fraction starts enabled with a cooldown of five minutes.
pub proof fn law_only_a_firing_notifies(
    o: Outcome,
    notifies: bool,
    m: Metric,
    falling: bool,
    rule: Rule,
)
    requires
        call_ensures(Outcome::notifies, (o,), notifies),
        call_ensures(Metric::alarms_when_falling, (&m,), falling),
        call_ensures(Rule::fraction, (m,), rule),
    ensures
        notifies == (o == Outcome::Fired),
        falling == (m is DiskSpaceRemaining),
        rule.metric == m,
        rule.enabled,
        rule.cooldown_seconds == 5 * 60,
{
}

} // verus!
