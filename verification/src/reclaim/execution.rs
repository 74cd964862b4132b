//! Carrying out a selection of previewed items, one at a time, and the report
//! of what came of it.
use vstd::prelude::*;
use vstd::string::*;
use crate::double::{at_most, capped, nearest, quotient, quotient_at_most, Double};
use crate::exact::{law_a_quotient_is_rounded_once, law_two_hundredths_are_exact};
use crate::error::{plain_error, AppError, ErrorCode};
use crate::helper::{Op, OpResult};
use crate::pkg::capped_add;
use crate::protect::{guard_objection, Guard};
use crate::space::{format_bytes, on_path, size_text, PruneScope, ReclaimMethod};
use crate::text::{copy_strings, debug_path, debug_text, decimal, opt_text, push_u64, texts};
use super::registry::{plural, plural_ending};
use super::PreviewItem;

verus! {

broadcast use vstd::string::group_string_axioms;

/// What happened to one item.
#[derive(Debug, PartialEq, Eq)]
pub enum ItemOutcome {
    /// Removed outright. These bytes are back.
    Reclaimed { id: u64, path: String, bytes: u64 },
    /// Moved to the trash. Recoverable, and not yet freed: the trash is on
    /// the filesystem that its contents were on.
    Trashed { id: u64, path: String, bytes: u64 },
    /// Deliberately not acted on, with the reason.
    Skipped { id: u64, path: String, reason: String },
    /// Attempted and failed.
    Failed { id: u64, path: String, error: AppError },
}

/// The bytes that an outcome gave back to the filesystem.
pub open spec fn freed_by(o: ItemOutcome) -> nat {
    match o {
        ItemOutcome::Reclaimed { bytes, .. } => bytes as nat,
        _ => 0,
    }
}

/// The bytes that an outcome moved to the trash.
pub open spec fn trashed_by(o: ItemOutcome) -> nat {
    match o {
        ItemOutcome::Trashed { bytes, .. } => bytes as nat,
        _ => 0,
    }
}

/// Whether an outcome is about this item.
pub open spec fn about(o: ItemOutcome, item: PreviewItem) -> bool {
    match o {
        ItemOutcome::Reclaimed { id, path, .. } => id == item.id && path == item.path,
        ItemOutcome::Trashed { id, path, .. } => id == item.id && path == item.path,
        ItemOutcome::Skipped { id, path, .. } => id == item.id && path == item.path,
        ItemOutcome::Failed { id, path, .. } => id == item.id && path == item.path,
    }
}

impl ItemOutcome {
    /// Bytes genuinely returned. Trashed bytes do not count.
    pub fn bytes_freed(&self) -> (r: u64)
        ensures
            r == freed_by(*self),
    {
        match self {
            ItemOutcome::Reclaimed { bytes, .. } => *bytes,
            _ => 0,
        }
    }

    /// Bytes moved to the trash, which the filesystem has not given back.
    pub fn bytes_trashed(&self) -> (r: u64)
        ensures
            r == trashed_by(*self),
    {
        match self {
            ItemOutcome::Trashed { bytes, .. } => *bytes,
            _ => 0,
        }
    }

    /// Whether the item was acted on at all.
    pub fn acted(&self) -> (r: bool)
        ensures
            r == (self is Reclaimed || self is Trashed),
    {
        matches!(self, ItemOutcome::Reclaimed { .. } | ItemOutcome::Trashed { .. })
    }
}

// ---------------------------------------------------------------------------
// The report
// ---------------------------------------------------------------------------

/// The per-item account of what was done.
#[derive(Debug, PartialEq, Eq)]
pub struct Report {
    pub outcomes: Vec<ItemOutcome>,
    /// What was actually removed, as far as 64 bits hold it. Excludes
    /// anything moved to the trash.
    pub freed: u64,
    /// What was moved to the trash, as far as 64 bits hold it: recoverable,
    /// and not yet freed.
    pub trashed: u64,
    /// Change in the filesystem's used bytes, measured independently.
    pub measured_delta: Option<u64>,
    /// Whether the two figures agree closely enough.
    pub measurement_agrees: Option<bool>,
    pub cancelled: bool,
    pub reclaimed_count: usize,
    pub skipped_count: usize,
    pub failed_count: usize,
}

/// The sum of what some outcomes gave back.
pub open spec fn freed_total(s: Seq<ItemOutcome>) -> nat
    decreases s.len(),
{
    if s.len() == 0 {
        0
    } else {
        freed_total(s.drop_last()) + freed_by(s.last())
    }
}

/// The sum of what some outcomes moved to the trash.
pub open spec fn trashed_total(s: Seq<ItemOutcome>) -> nat
    decreases s.len(),
{
    if s.len() == 0 {
        0
    } else {
        trashed_total(s.drop_last()) + trashed_by(s.last())
    }
}

/// How many outcomes there are of a kind.
pub open spec fn count_of(s: Seq<ItemOutcome>, which: spec_fn(ItemOutcome) -> bool) -> nat
    decreases s.len(),
{
    if s.len() == 0 {
        0
    } else {
        count_of(s.drop_last(), which) + if which(s.last()) {
            1nat
        } else {
            0
        }
    }
}

/// The outcomes in which the item was acted on.
pub open spec fn was_acted() -> spec_fn(ItemOutcome) -> bool {
    |o: ItemOutcome| o is Reclaimed || o is Trashed
}

/// The outcomes in which the item was left alone.
pub open spec fn was_skipped() -> spec_fn(ItemOutcome) -> bool {
    |o: ItemOutcome| o is Skipped
}

/// The outcomes in which the attempt failed.
pub open spec fn was_failed() -> spec_fn(ItemOutcome) -> bool {
    |o: ItemOutcome| o is Failed
}

/// Two hundredths, as floating point has it.
pub open spec fn tolerance() -> (nat, int) {
    (5764607523034235, -58)
}

/// Whether a count and a measurement agree: both are below a mebibyte, or
/// they differ by at most two hundredths of the larger, in floating point.
pub open spec fn close_enough(counted: nat, measured: nat) -> bool {
    let larger = if counted > measured {
        counted
    } else {
        measured
    };
    let smaller = if counted > measured {
        measured
    } else {
        counted
    };
    ||| counted < 1048576 && measured < 1048576
    ||| larger == smaller
    ||| at_most(quotient(nearest((larger - smaller) as nat, 1), nearest(larger, 1)), tolerance())
}

/// Whether the count and the filesystem's measurement agree within two per
/// cent. Below a mebibyte the comparison says nothing, so it does not object.
pub fn agrees(counted: u64, measured: u64) -> (r: bool)
    ensures
        r == close_enough(counted as nat, measured as nat),
{
    if counted < 1048576 && measured < 1048576 {
        return true;
    }
    let (larger, smaller): (u64, u64) = if counted > measured {
        (counted, measured)
    } else {
        (measured, counted)
    };
    larger == smaller || quotient_at_most(
        larger - smaller,
        larger,
        Double { mantissa: 5764607523034235, exponent: -58 },
    )
}

/// Whether a report gives the account of these outcomes.
pub open spec fn accounts_for(
    r: Report,
    outcomes: Seq<ItemOutcome>,
    measured: Option<u64>,
    cancelled: bool,
) -> bool {
    &&& r.outcomes@ == outcomes
    &&& r.freed == capped(freed_total(outcomes))
    &&& r.trashed == capped(trashed_total(outcomes))
    &&& r.measured_delta == measured
    &&& r.measurement_agrees == match measured {
        Some(m) => Some(close_enough(capped(freed_total(outcomes)) as nat, m as nat)),
        None => None,
    }
    &&& r.cancelled == cancelled
    &&& r.reclaimed_count == count_of(outcomes, was_acted())
    &&& r.skipped_count == count_of(outcomes, was_skipped())
    &&& r.failed_count == count_of(outcomes, was_failed())
}

impl Report {
    /// The account of what happened, every figure derived from it once.
    pub fn new(outcomes: Vec<ItemOutcome>, measured_delta: Option<u64>, cancelled: bool) -> (r:
        Self)
        ensures
            accounts_for(r, outcomes@, measured_delta, cancelled),
    {
        let mut freed: u64 = 0;
        let mut trashed: u64 = 0;
        let mut acted: usize = 0;
        let mut skipped: usize = 0;
        let mut failed: usize = 0;
        let mut i: usize = 0;
        assert(outcomes@.take(0) =~= Seq::<ItemOutcome>::empty());
        while i < outcomes.len()
            invariant
                i <= outcomes@.len(),
                freed == capped(freed_total(outcomes@.take(i as int))),
                trashed == capped(trashed_total(outcomes@.take(i as int))),
                acted == count_of(outcomes@.take(i as int), was_acted()),
                skipped == count_of(outcomes@.take(i as int), was_skipped()),
                failed == count_of(outcomes@.take(i as int), was_failed()),
                acted <= i,
                skipped <= i,
                failed <= i,
            decreases outcomes@.len() - i,
        {
            assert(outcomes@.take(i + 1).drop_last() =~= outcomes@.take(i as int));
            let outcome = &outcomes[i];
            freed = capped_add(freed, outcome.bytes_freed());
            trashed = capped_add(trashed, outcome.bytes_trashed());
            if outcome.acted() {
                acted = acted + 1;
            }
            if matches!(outcome, ItemOutcome::Skipped { .. }) {
                skipped = skipped + 1;
            }
            if matches!(outcome, ItemOutcome::Failed { .. }) {
                failed = failed + 1;
            }
            i = i + 1;
        }
        assert(outcomes@.take(i as int) =~= outcomes@);
        let measurement_agrees = match measured_delta {
            Some(measured) => Some(agrees(freed, measured)),
            None => None,
        };
        Report {
            outcomes,
            freed,
            trashed,
            measured_delta,
            measurement_agrees,
            cancelled,
            reclaimed_count: acted,
            skipped_count: skipped,
            failed_count: failed,
        }
    }

    /// A sentence for the user. Never claims more than happened.
    pub fn summary(&self) -> (r: String)
        ensures
            r@ == summary_text(*self),
    {
        let mut out = "Freed ".to_owned();
        let size = format_bytes(self.freed);
        out.append(size.as_str());
        out.append(" from ");
        push_u64(&mut out, self.reclaimed_count as u64);
        out.append(" item");
        out.append(plural_ending(self.reclaimed_count));
        if self.skipped_count > 0 {
            out.append(", ");
            push_u64(&mut out, self.skipped_count as u64);
            out.append(" skipped");
        }
        if self.failed_count > 0 {
            out.append(", ");
            push_u64(&mut out, self.failed_count as u64);
            out.append(" failed");
        }
        if self.cancelled {
            out.append(", ");
            out.append("stopped early");
        }
        out.append(".");
        assert(out@ =~= summary_text(*self));
        out
    }
}

/// The sentence that a report amounts to.
pub open spec fn summary_text(r: Report) -> Seq<char> {
    let start = "Freed "@ + size_text(r.freed as nat) + " from "@ + decimal(
        r.reclaimed_count as nat,
    ) + " item"@ + plural(r.reclaimed_count as nat);
    let skipped = if r.skipped_count > 0 {
        ", "@ + decimal(r.skipped_count as nat) + " skipped"@
    } else {
        Seq::empty()
    };
    let failed = if r.failed_count > 0 {
        ", "@ + decimal(r.failed_count as nat) + " failed"@
    } else {
        Seq::empty()
    };
    let stopped = if r.cancelled {
        ", "@ + "stopped early"@
    } else {
        Seq::empty()
    };
    start + skipped + failed + stopped + "."@
}

// ---------------------------------------------------------------------------
// Elevation
// ---------------------------------------------------------------------------

/// Whether a batch may escalate at all. An explicit choice, never a default.
#[derive(Debug, Clone, Copy, PartialEq, Eq, Structural)]
pub enum Elevate {
    /// Escalate when something first needs it.
    WhenNeeded,
    /// Never escalate. Every privileged operation fails with a plain reason.
    Never,
}

/// Where a privileged session stands.
#[derive(Debug)]
pub enum Link {
    /// Nothing has needed it yet.
    Unopened,
    /// It is open.
    Open,
    /// It could not be opened. Every item reports the same reason.
    Broken(AppError),
}

/// A privileged session, opened at most once and kept for the whole batch.
#[derive(Debug)]
pub struct Elevation {
    pub how: Elevate,
    pub link: Link,
}

/// What an operation that needs the helper has to do first.
#[derive(Debug, Clone, Copy, PartialEq, Eq, Structural)]
pub enum Channel {
    /// Open the session, and say what came of it.
    Connect,
    /// Use the session that is open.
    Ready,
}

/// Whether an error says that elevation is disabled.
pub open spec fn elevation_disabled(e: AppError) -> bool {
    &&& e.code == ErrorCode::HelperUnavailable
    &&& e.message@
        == "This operation needs administrator rights, and elevation is disabled here."@
    &&& opt_text(e.remedy) == Some("Nothing was changed."@)
    &&& e.cause is None
    &&& e.path is None
}

impl Elevation {
    /// Escalates on first need. The one way to run anything privileged.
    pub fn production() -> (r: Self)
        ensures
            r.how == Elevate::WhenNeeded,
            r.link is Unopened,
    {
        Elevation { how: Elevate::WhenNeeded, link: Link::Unopened }
    }

    /// Refuses to escalate.
    pub fn never() -> (r: Self)
        ensures
            r.how == Elevate::Never,
            r.link is Unopened,
    {
        Elevation { how: Elevate::Never, link: Link::Unopened }
    }

    /// What a privileged operation has to do first, or why it cannot be done.
    pub fn client(&self) -> (r: core::result::Result<Channel, AppError>)
        ensures
            match r {
                Ok(Channel::Connect) => self.how == Elevate::WhenNeeded && self.link is Unopened,
                Ok(Channel::Ready) => self.how == Elevate::WhenNeeded && self.link is Open,
                Err(e) => (self.how == Elevate::Never && elevation_disabled(e)) || (self.how
                    == Elevate::WhenNeeded && self.link == Link::Broken(e)),
            },
            self.how == Elevate::Never ==> r is Err,
    {
        if self.how == Elevate::Never {
            return Err(
                AppError::new(
                    ErrorCode::HelperUnavailable,
                    "This operation needs administrator rights, and elevation is disabled here.".to_owned(),
                ).with_remedy("Nothing was changed."),
            );
        }
        match &self.link {
            Link::Unopened => Ok(Channel::Connect),
            Link::Open => Ok(Channel::Ready),
            Link::Broken(e) => Err(e.clone()),
        }
    }

    /// Records what came of opening the session. It is not tried again.
    pub fn connected(&mut self, result: core::result::Result<(), AppError>)
        ensures
            final(self).how == old(self).how,
            match result {
                Ok(_) => final(self).link is Open,
                Err(e) => final(self).link == Link::Broken(e),
            },
    {
        self.link = match result {
            Ok(_) => Link::Open,
            Err(e) => Link::Broken(e),
        };
    }
}

// ---------------------------------------------------------------------------
// One item
// ---------------------------------------------------------------------------

/// What tells one state of a path from another. Compared immediately before
/// acting.
#[derive(Debug, Clone, Copy, PartialEq, Eq, Structural)]
pub struct Fingerprint {
    pub inode: u64,
    pub size: u64,
    /// Blocks of 512 bytes.
    pub blocks: u64,
}

/// Why an item is left alone, if it is: the protection rules object, the path
/// is gone, or it is not what the preview saw. A logical entry has no path
/// that could be asked about.
pub open spec fn skip_reason(
    item: PreviewItem,
    guard: Guard,
    current: Option<Fingerprint>,
) -> Option<Seq<char>> {
    if !on_path(item.method) {
        None
    } else if let Some((rule, reason)) = guard_objection(guard, item.path@) {
        Some(reason)
    } else if current is None {
        Some("It is already gone."@)
    } else if current != item.fingerprint {
        Some("It changed since the preview, so it was left alone."@)
    } else {
        None
    }
}

/// Something that has to be done outside, for one item.
#[derive(Debug, PartialEq, Eq)]
pub enum Action {
    /// Move a path to the trash.
    Trash { path: String },
    /// Empty the trash of a volume.
    EmptyTrash { volume: String },
    /// Ask the privileged helper.
    Ask(Op),
    /// Have the container runtime prune something.
    Prune { scope: PruneScope },
    /// Have the container runtime remove one volume.
    RemoveVolume { name: String },
}

/// Whether an action is what a method calls for, no more and no less.
pub open spec fn carries_out(a: Action, m: ReclaimMethod) -> bool {
    match m {
        ReclaimMethod::MoveToTrash { path } => a == (Action::Trash { path }),
        ReclaimMethod::TrashEmpty { volume } => a == (Action::EmptyTrash { volume }),
        ReclaimMethod::SystemFile { kind, path } => a == Action::Ask(
            Op::ReclaimFile { kind, path },
        ),
        ReclaimMethod::Packages { kind, names } => a matches Action::Ask(
            Op::RemovePackages { kind: k, packages },
        ) && k == kind && texts(packages@) == texts(names@),
        ReclaimMethod::PackageManager { manager } => a == Action::Ask(
            Op::PackageManagerClean { manager },
        ),
        ReclaimMethod::JournalVacuum { limit } => a == Action::Ask(Op::JournalVacuum { limit }),
        ReclaimMethod::SnapRevision { package, revision } => a == Action::Ask(
            Op::RemoveSnapRevision { package, revision },
        ),
        ReclaimMethod::FlatpakUnused => a == Action::Ask(Op::FlatpakUninstallUnused),
        ReclaimMethod::ContainerPrune { scope } => a == (Action::Prune { scope }),
        ReclaimMethod::ContainerVolume { name } => a == (Action::RemoveVolume { name }),
        ReclaimMethod::Unlink { .. } => false,
    }
}

/// Whether a method goes through the privileged helper.
pub open spec fn needs_helper(m: ReclaimMethod) -> bool {
    m is SystemFile || m is Packages || m is PackageManager || m is JournalVacuum
        || m is SnapRevision || m is FlatpakUnused
}

/// What comes next for one item.
#[derive(Debug, PartialEq, Eq)]
pub enum Step {
    /// The outcome is known already.
    Settled(ItemOutcome),
    /// The privileged session has to be opened first.
    Connect,
    /// This has to be done.
    Do(Action),
}

/// Whether a step settles an item as left alone, with this reason.
pub open spec fn leaves_alone(r: Step, item: PreviewItem, why: Seq<char>) -> bool {
    match r {
        Step::Settled(ItemOutcome::Skipped { id, path, reason }) => id == item.id && path
            == item.path && reason@ == why,
        _ => false,
    }
}

/// The failure with which a step settles an item, if it does.
pub open spec fn failure_of(r: Step, item: PreviewItem) -> Option<AppError> {
    match r {
        Step::Settled(ItemOutcome::Failed { id, path, error }) if id == item.id && path
            == item.path => Some(error),
        _ => None,
    }
}

/// Whether an error says that a method has no implementation.
pub open spec fn unsupported(e: AppError, path: Seq<char>) -> bool {
    &&& e.code == ErrorCode::Unsupported
    &&& e.message@ == "That way of reclaiming space is not implemented yet."@
    &&& opt_text(e.remedy) == Some("Method: Unlink { path: "@ + debug_text(path) + " }"@)
    &&& e.cause is None
    &&& e.path is None
}

/// Whether `r` is what comes next for an item.
pub open spec fn next_step(
    item: PreviewItem,
    guard: Guard,
    elevation: Elevation,
    current: Option<Fingerprint>,
    r: Step,
) -> bool {
    if let Some(why) = skip_reason(item, guard, current) {
        leaves_alone(r, item, why)
    } else if let ReclaimMethod::Unlink { path } = item.method {
        failure_of(r, item) matches Some(e) && unsupported(e, path@)
    } else if needs_helper(item.method) && elevation.how == Elevate::Never {
        failure_of(r, item) matches Some(e) && elevation_disabled(e)
    } else if needs_helper(item.method) && elevation.link is Unopened {
        r is Connect
    } else if needs_helper(item.method) && elevation.link is Broken {
        failure_of(r, item) matches Some(e) && elevation.link == Link::Broken(e)
    } else {
        r matches Step::Do(a) && carries_out(a, item.method)
    }
}

fn skip(item: &PreviewItem, reason: &str) -> (r: Step)
    ensures
        leaves_alone(r, *item, reason@),
{
    Step::Settled(
        ItemOutcome::Skipped { id: item.id, path: item.path.clone(), reason: reason.to_owned() },
    )
}

fn fail(item: &PreviewItem, error: AppError) -> (r: ItemOutcome)
    ensures
        about(r, *item),
        r matches ItemOutcome::Failed { error: e, .. } && e == error,
        failure_of(Step::Settled(r), *item) == Some(error),
{
    ItemOutcome::Failed { id: item.id, path: item.path.clone(), error }
}

/// What a privileged operation comes to, given where the session stands.
fn through_helper(item: &PreviewItem, elevation: &Elevation, op: Op) -> (r: Step)
    ensures
        match elevation.how {
            Elevate::Never => failure_of(r, *item) matches Some(e) && elevation_disabled(e),
            Elevate::WhenNeeded => match elevation.link {
                Link::Unopened => r is Connect,
                Link::Open => r == Step::Do(Action::Ask(op)),
                Link::Broken(e) => failure_of(r, *item) == Some(e),
            },
        },
{
    match elevation.client() {
        Ok(Channel::Connect) => Step::Connect,
        Ok(Channel::Ready) => Step::Do(Action::Ask(op)),
        Err(e) => Step::Settled(fail(item, e)),
    }
}

/// What comes next for one item, with both guards applied. `current` is what
/// its path looks like now, where there is anything at it.
pub fn reclaim_one(
    item: &PreviewItem,
    guard: &Guard,
    elevation: &Elevation,
    current: Option<Fingerprint>,
) -> (r: Step)
    ensures
        next_step(*item, *guard, *elevation, current, r),
{
    if item.method.acts_on_path() {
        let verdict = guard.verdict(item.path.as_str());
        if let Some(refusal) = verdict.refusal() {
            return skip(item, refusal.reason.as_str());
        }
        let now = match current {
            Some(f) => f,
            None => {
                return skip(item, "It is already gone.");
            },
        };
        let same = match item.fingerprint {
            Some(then_seen) => then_seen == now,
            None => false,
        };
        if !same {
            return skip(item, "It changed since the preview, so it was left alone.");
        }
    }
    match &item.method {
        ReclaimMethod::MoveToTrash { path } => Step::Do(Action::Trash { path: path.clone() }),
        ReclaimMethod::TrashEmpty { volume } => Step::Do(
            Action::EmptyTrash { volume: volume.clone() },
        ),
        ReclaimMethod::SystemFile { kind, path } => through_helper(
            item,
            elevation,
            Op::ReclaimFile { kind: *kind, path: path.clone() },
        ),
        ReclaimMethod::Packages { kind, names } => through_helper(
            item,
            elevation,
            Op::RemovePackages { kind: *kind, packages: copy_strings(names) },
        ),
        ReclaimMethod::PackageManager { manager } => through_helper(
            item,
            elevation,
            Op::PackageManagerClean { manager: *manager },
        ),
        ReclaimMethod::JournalVacuum { limit } => through_helper(
            item,
            elevation,
            Op::JournalVacuum { limit: *limit },
        ),
        ReclaimMethod::SnapRevision { package, revision } => through_helper(
            item,
            elevation,
            Op::RemoveSnapRevision { package: package.clone(), revision: revision.clone() },
        ),
        ReclaimMethod::FlatpakUnused => through_helper(
            item,
            elevation,
            Op::FlatpakUninstallUnused,
        ),
        ReclaimMethod::ContainerPrune { scope } => Step::Do(Action::Prune { scope: *scope }),
        ReclaimMethod::ContainerVolume { name } => Step::Do(
            Action::RemoveVolume { name: name.clone() },
        ),
        ReclaimMethod::Unlink { path } => {
            let mut remedy = "Method: Unlink { path: ".to_owned();
            let quoted = debug_path(path.as_str());
            remedy.append(quoted.as_str());
            remedy.append(" }");
            let error = AppError::new(
                ErrorCode::Unsupported,
                "That way of reclaiming space is not implemented yet.".to_owned(),
            ).with_remedy(remedy.as_str());
            Step::Settled(fail(item, error))
        },
    }
}

/// What came of doing something for one item.
#[derive(Debug)]
pub enum Performed {
    /// It is in the trash, with this size there.
    Trashed { bytes: u64 },
    /// It is gone, and this much came back.
    Reclaimed { bytes: u64 },
    /// The helper answered.
    Answered(OpResult),
    /// It could not be done.
    Failed(AppError),
}

/// Whether something can have come of carrying out a method: only a move to
/// the trash trashes, and only the helper answers.
pub open spec fn can_come_of(done: Performed, m: ReclaimMethod) -> bool {
    match done {
        Performed::Trashed { .. } => m is MoveToTrash,
        Performed::Reclaimed { .. } => m is TrashEmpty || m is ContainerPrune
            || m is ContainerVolume,
        Performed::Answered(_) => needs_helper(m),
        Performed::Failed(_) => !(m is Unlink),
    }
}

/// Whether `r` is the outcome of what was done for an item.
pub open spec fn comes_to(r: ItemOutcome, item: PreviewItem, done: Performed) -> bool {
    &&& about(r, item)
    &&& match done {
        Performed::Trashed { bytes: b } => r matches ItemOutcome::Trashed { bytes, .. } && bytes
            == b,
        Performed::Reclaimed { bytes: b } => r matches ItemOutcome::Reclaimed { bytes, .. }
            && bytes == b,
        Performed::Answered(OpResult::Reclaimed { bytes: b }) => r matches ItemOutcome::Reclaimed {
            bytes,
            ..
        } && bytes == b,
        Performed::Answered(OpResult::Other { description }) => r matches ItemOutcome::Failed {
            error,
            ..
        } && plain_error(
            error,
            ErrorCode::Internal,
            "The helper answered a reclaim with "@ + description@,
        ),
        Performed::Failed(e) => r matches ItemOutcome::Failed { error, .. } && error == e,
    }
}

/// Turns the helper's answer into an outcome.
pub fn privileged(item: &PreviewItem, answer: OpResult) -> (r: ItemOutcome)
    requires
        needs_helper(item.method),
    ensures
        comes_to(r, *item, Performed::Answered(answer)),
{
    match answer {
        OpResult::Reclaimed { bytes } => ItemOutcome::Reclaimed {
            id: item.id,
            path: item.path.clone(),
            bytes,
        },
        OpResult::Other { description } => {
            let mut message = "The helper answered a reclaim with ".to_owned();
            message.append(description.as_str());
            fail(item, AppError::internal(message.as_str()))
        },
    }
}

/// Turns what was done for an item into its outcome.
pub fn settle(item: &PreviewItem, done: Performed) -> (r: ItemOutcome)
    requires
        can_come_of(done, item.method),
    ensures
        comes_to(r, *item, done),
{
    match done {
        Performed::Trashed { bytes } => ItemOutcome::Trashed {
            id: item.id,
            path: item.path.clone(),
            bytes,
        },
        Performed::Reclaimed { bytes } => ItemOutcome::Reclaimed {
            id: item.id,
            path: item.path.clone(),
            bytes,
        },
        Performed::Answered(answer) => privileged(item, answer),
        Performed::Failed(error) => fail(item, error),
    }
}

// ---------------------------------------------------------------------------
// A whole selection
// ---------------------------------------------------------------------------

/// A selection that is being carried out, item by item.
#[derive(Debug)]
pub struct Execution {
    items: Vec<PreviewItem>,
    outcomes: Vec<ItemOutcome>,
    cancelled: bool,
}

/// What comes next in an execution.
#[derive(Debug, PartialEq, Eq)]
pub enum Next {
    /// Nothing is left to do.
    Finished,
    /// The item is settled, and the next one can be looked at.
    Settled,
    /// The privileged session has to be opened first.
    Connect,
    /// This has to be done, and what came of it recorded.
    Do(Action),
}

/// Whether `r` is what comes next in an execution, and `after` the execution
/// then. One that was stopped, or has nothing left, is finished; a request to
/// stop finishes it as it is. Otherwise the next item is looked at: it is
/// settled, or something has to be done for it first.
pub open spec fn stepped(
    before: Execution,
    cancelled: bool,
    current: Option<Fingerprint>,
    guard: Guard,
    elevation: Elevation,
    r: Next,
    after: Execution,
) -> bool {
    let n = before.so_far().len() as int;
    if before.stopped() || n == before.chosen().len() {
        r is Finished && after == before
    } else if cancelled {
        r is Finished && after.stopped() && after.so_far() == before.so_far()
    } else {
        let item = before.chosen()[n];
        &&& !after.stopped()
        &&& match r {
            Next::Finished => false,
            Next::Settled => after.so_far().len() == n + 1 && after.so_far().drop_last()
                == before.so_far() && next_step(
                item,
                guard,
                elevation,
                current,
                Step::Settled(after.so_far().last()),
            ),
            Next::Connect => after == before && next_step(
                item,
                guard,
                elevation,
                current,
                Step::Connect,
            ),
            Next::Do(a) => after == before && next_step(
                item,
                guard,
                elevation,
                current,
                Step::Do(a),
            ),
        }
    }
}

impl Execution {
    /// The items that were chosen, in the order of the selection.
    pub closed spec fn chosen(&self) -> Seq<PreviewItem> {
        self.items@
    }

    /// What has happened so far, item by item.
    pub closed spec fn so_far(&self) -> Seq<ItemOutcome> {
        self.outcomes@
    }

    /// Whether the user asked to stop.
    pub closed spec fn stopped(&self) -> bool {
        self.cancelled
    }

    /// The outcomes so far are those of the first items, in order, and an
    /// execution that was stopped left something undone.
    pub open spec fn wf(&self) -> bool {
        &&& self.so_far().len() <= self.chosen().len()
        &&& self.stopped() ==> self.so_far().len() < self.chosen().len()
        &&& forall|i: int|
            0 <= i < self.so_far().len() ==> about(#[trigger] self.so_far()[i], self.chosen()[i])
    }

    /// An execution in which nothing has happened yet.
    pub(crate) fn begin(items: Vec<PreviewItem>) -> (r: Self)
        ensures
            r.wf(),
            r.chosen() == items@,
            r.so_far().len() == 0,
            !r.stopped(),
    {
        Execution { items, outcomes: Vec::new(), cancelled: false }
    }

    /// The item that comes next, if one is left.
    pub fn current(&self) -> (r: Option<&PreviewItem>)
        ensures
            match r {
                Some(item) => self.so_far().len() < self.chosen().len() && *item
                    == self.chosen()[self.so_far().len() as int],
                None => self.so_far().len() >= self.chosen().len(),
            },
    {
        if self.outcomes.len() < self.items.len() {
            Some(&self.items[self.outcomes.len()])
        } else {
            None
        }
    }

    /// The path on whose filesystem the effect is measured: that of the first
    /// item.
    pub fn measured_path(&self) -> (r: Option<&str>)
        ensures
            match r {
                Some(p) => self.chosen().len() > 0 && p@ == self.chosen()[0].path@,
                None => self.chosen().len() == 0,
            },
    {
        if self.items.len() > 0 {
            Some(self.items[0].path.as_str())
        } else {
            None
        }
    }

    /// How many items are done, of how many.
    pub fn progress(&self) -> (r: (usize, usize))
        ensures
            r.0 == self.so_far().len(),
            r.1 == self.chosen().len(),
    {
        (self.outcomes.len(), self.items.len())
    }

    /// Decides about the item that comes next. `cancelled` says whether the
    /// user has asked to stop, `current` what the item's path looks like now.
    pub fn next(
        &mut self,
        cancelled: bool,
        current: Option<Fingerprint>,
        guard: &Guard,
        elevation: &Elevation,
    ) -> (r: Next)
        requires
            old(self).wf(),
        ensures
            final(self).wf(),
            final(self).chosen() == old(self).chosen(),
            stepped(*old(self), cancelled, current, *guard, *elevation, r, *final(self)),
    {
        if self.cancelled || self.outcomes.len() == self.items.len() {
            return Next::Finished;
        }
        if cancelled {
            self.cancelled = true;
            return Next::Finished;
        }
        let step = reclaim_one(&self.items[self.outcomes.len()], guard, elevation, current);
        match step {
            Step::Settled(outcome) => {
                self.outcomes.push(outcome);
                assert(self.so_far().drop_last() =~= old(self).so_far());
                Next::Settled
            },
            Step::Connect => Next::Connect,
            Step::Do(action) => Next::Do(action),
        }
    }

    /// Records what came of doing something for the item that comes next.
    pub fn record(&mut self, done: Performed)
        requires
            old(self).wf(),
            !old(self).stopped(),
            old(self).so_far().len() < old(self).chosen().len(),
            can_come_of(done, old(self).chosen()[old(self).so_far().len() as int].method),
        ensures
            final(self).wf(),
            final(self).chosen() == old(self).chosen(),
            !final(self).stopped(),
            final(self).so_far().len() == old(self).so_far().len() + 1,
            final(self).so_far().drop_last() == old(self).so_far(),
            comes_to(
                final(self).so_far().last(),
                old(self).chosen()[old(self).so_far().len() as int],
                done,
            ),
    {
        let outcome = settle(&self.items[self.outcomes.len()], done);
        self.outcomes.push(outcome);
        assert(self.so_far().drop_last() =~= old(self).so_far());
    }

    /// The report of an execution that has come to its end or was stopped,
    /// given how much the filesystem held before and after. It is cancelled
    /// exactly where something was left undone.
    pub fn finish(self, before: Option<u64>, after: Option<u64>) -> (r: Report)
        requires
            self.wf(),
            self.stopped() || self.so_far().len() == self.chosen().len(),
        ensures
            accounts_for(r, self.so_far(), given_back(before, after), self.stopped()),
            r.outcomes@.len() <= self.chosen().len(),
            r.cancelled == (r.outcomes@.len() < self.chosen().len()),
            forall|i: int|
                0 <= i < r.outcomes@.len() ==> about(#[trigger] r.outcomes@[i], self.chosen()[i]),
    {
        let measured = match (before, after) {
            (Some(b), Some(a)) => if b >= a {
                Some((b - a) as u64)
            } else {
                None
            },
            _ => None,
        };
        Report::new(self.outcomes, measured, self.cancelled)
    }
}

/// How much less a filesystem holds than before, where that is known and not
/// negative.
pub open spec fn given_back(before: Option<u64>, after: Option<u64>) -> Option<u64> {
    match (before, after) {
        (Some(b), Some(a)) if b >= a => Some((b - a) as u64),
        _ => None,
    }
}

/// The three counts of a report add up to the number of items.
pub proof fn law_every_outcome_is_counted_once(s: Seq<ItemOutcome>)
    ensures
        count_of(s, was_acted()) + count_of(s, was_skipped()) + count_of(s, was_failed())
            == s.len(),
    decreases s.len(),
{
    if s.len() > 0 {
        law_every_outcome_is_counted_once(s.drop_last());
    }
}

/// What is moved to the trash is not freed: a report of nothing but trashed,
/// skipped and failed items frees nothing.
pub proof fn law_trashing_frees_nothing(s: Seq<ItemOutcome>)
    requires
        forall|i: int| 0 <= i < s.len() ==> !((#[trigger] s[i]) is Reclaimed),
    ensures
        freed_total(s) == 0,
    decreases s.len(),
{
    if s.len() > 0 {
        assert forall|i: int| 0 <= i < s.drop_last().len() implies !(
        (#[trigger] s.drop_last()[i]) is Reclaimed) by {
            assert(s.drop_last()[i] == s[i]);
        }
        law_trashing_frees_nothing(s.drop_last());
    }
}

/// Whether a path that was seen at two moments is the same file with the same
/// size.
pub open spec fn same_file(then_seen: Option<Fingerprint>, now: Option<Fingerprint>) -> bool {
    match (then_seen, now) {
        (Some(a), Some(b)) => a.inode == b.inode && a.size == b.size,
        _ => false,
    }
}

/// Nothing is done to a path that the protection rules refuse, that is gone,
/// or that is another file, or has another size, than the preview saw.
pub proof fn law_only_what_was_previewed_is_acted_on(
    item: PreviewItem,
    guard: Guard,
    elevation: Elevation,
    current: Option<Fingerprint>,
    action: Action,
)
    requires
        next_step(item, guard, elevation, current, Step::Do(action)),
    ensures
        carries_out(action, item.method),
        on_path(item.method) ==> guard_objection(guard, item.path@) is None,
        on_path(item.method) ==> same_file(item.fingerprint, current),
{
}

/// A path whose inode or size is no longer what the preview saw is skipped,
/// and nothing is asked for on its account.
pub proof fn law_a_changed_path_is_skipped(
    item: PreviewItem,
    guard: Guard,
    elevation: Elevation,
    current: Option<Fingerprint>,
    step: Step,
)
    requires
        on_path(item.method),
        !same_file(item.fingerprint, current),
        next_step(item, guard, elevation, current, step),
    ensures
        skip_reason(item, guard, current) matches Some(why) && leaves_alone(step, item, why),
{
}

/// What is only moved to the trash never counts as freed, whatever came of
/// the attempt; and nothing else counts as trashed.
pub proof fn law_the_method_decides_what_counts(
    item: PreviewItem,
    done: Performed,
    outcome: ItemOutcome,
)
    requires
        can_come_of(done, item.method),
        comes_to(outcome, item, done),
    ensures
        item.method is MoveToTrash ==> freed_by(outcome) == 0,
        !(item.method is MoveToTrash) ==> trashed_by(outcome) == 0,
{
}

/// Where elevation is refused, no privileged operation is carried out and no
/// session is opened, whatever the item.
pub proof fn law_refused_elevation_reaches_nothing_privileged(
    item: PreviewItem,
    guard: Guard,
    elevation: Elevation,
    current: Option<Fingerprint>,
    step: Step,
)
    requires
        elevation.how == Elevate::Never,
        next_step(item, guard, elevation, current, step),
    ensures
        !(step is Connect),
        !(step matches Step::Do(Action::Ask(_))),
{
}

/// A logical entry is never skipped for what its path looks like: it reaches
/// its method.
pub proof fn law_a_logical_entry_reaches_its_method(
    item: PreviewItem,
    guard: Guard,
    current: Option<Fingerprint>,
)
    requires
        !on_path(item.method),
    ensures
        skip_reason(item, guard, current) is None,
{
}

/// Agreement does not depend on which figure was counted and which measured.
pub proof fn law_agreement_is_symmetric(a: nat, b: nat)
    ensures
        close_enough(a, b) == close_enough(b, a),
        close_enough(a, a),
{
}

/// Of figures up to a tebibyte the comparison is the exact one: they agree
/// where both are below a mebibyte, or where fifty times their difference is
/// at most the larger.
pub proof fn law_agreement_is_within_two_hundredths(counted: nat, measured: nat)
    requires
        counted <= 1099511627776,
        measured <= 1099511627776,
    ensures
        close_enough(counted, measured) == {
            ||| counted < 1048576 && measured < 1048576
            ||| counted >= measured && 50 * (counted - measured) <= counted
            ||| measured >= counted && 50 * (measured - counted) <= measured
        },
{
    let larger = if counted > measured {
        counted
    } else {
        measured
    };
    let gap = if counted > measured {
        (counted - measured) as nat
    } else {
        (measured - counted) as nat
    };
    if gap > 0 {
        law_a_quotient_is_rounded_once(gap, larger);
        law_two_hundredths_are_exact(gap, larger);
    }
}

/// An item is reclaimed by the method it was previewed with, and by nothing
/// else: the action that is asked for names the same path, volume, packages,
/// manager, limit, revision or scope, to the letter.
pub proof fn law_the_action_is_the_confirmed_method(
    item: PreviewItem,
    guard: Guard,
    elevation: Elevation,
    current: Option<Fingerprint>,
    action: Action,
)
    requires
        next_step(item, guard, elevation, current, Step::Do(action)),
    ensures
        item.method matches ReclaimMethod::MoveToTrash { path } ==> action matches Action::Trash {
            path: p,
        } && p@ == path@,
        item.method matches ReclaimMethod::TrashEmpty { volume } ==> action
            matches Action::EmptyTrash { volume: v } && v@ == volume@,
        item.method matches ReclaimMethod::SystemFile { kind, path } ==> action
            matches Action::Ask(Op::ReclaimFile { kind: k, path: p }) && k == kind && p@ == path@,
        item.method matches ReclaimMethod::Packages { kind, names } ==> action
            matches Action::Ask(Op::RemovePackages { kind: k, packages }) && k == kind
            && packages@.len() == names@.len() && forall|i: int|
            0 <= i < names@.len() ==> (#[trigger] packages@[i])@ == names@[i]@,
        item.method matches ReclaimMethod::PackageManager { manager } ==> action
            matches Action::Ask(Op::PackageManagerClean { manager: m }) && m == manager,
        item.method matches ReclaimMethod::JournalVacuum { limit } ==> action
            matches Action::Ask(Op::JournalVacuum { limit: l }) && l == limit,
        item.method matches ReclaimMethod::SnapRevision { package, revision } ==> action
            matches Action::Ask(Op::RemoveSnapRevision { package: p, revision: v }) && p@
            == package@ && v@ == revision@,
        item.method is FlatpakUnused ==> action
            == Action::Ask(Op::FlatpakUninstallUnused),
        item.method matches ReclaimMethod::ContainerPrune { scope } ==> action
            matches Action::Prune { scope: s } && s == scope,
        item.method matches ReclaimMethod::ContainerVolume { name } ==> action
            matches Action::RemoveVolume { name: n } && n@ == name@,
        !(item.method is Unlink),
{
    if let ReclaimMethod::Packages { kind, names } = item.method {
        if let Action::Ask(Op::RemovePackages { kind: k, packages }) = action {
            assert(texts(packages@).len() == texts(names@).len());
            assert forall|i: int| 0 <= i < names@.len() implies (#[trigger] packages@[i])@
                == names@[i]@ by {
                assert(texts(packages@)[i] == texts(names@)[i]);
            }
        }
    }
}

/// Two items that lead to the same action were previewed with the same
/// method: no two methods are carried out alike, and no parameter of a method
/// is lost on the way.
pub proof fn law_no_two_methods_are_carried_out_alike(
    item: PreviewItem,
    other: PreviewItem,
    guard: Guard,
    elevation: Elevation,
    current: Option<Fingerprint>,
    later: Option<Fingerprint>,
    action: Action,
)
    requires
        next_step(item, guard, elevation, current, Step::Do(action)),
        next_step(other, guard, elevation, later, Step::Do(action)),
    ensures
        match (item.method, other.method) {
            (
                ReclaimMethod::Packages { kind, names },
                ReclaimMethod::Packages { kind: k, names: n },
            ) => k == kind && n@.len() == names@.len() && forall|i: int|
                0 <= i < names@.len() ==> (#[trigger] n@[i])@ == names@[i]@,
            (a, b) => a == b,
        },
{
    law_the_action_is_the_confirmed_method(item, guard, elevation, current, action);
    law_the_action_is_the_confirmed_method(other, guard, elevation, later, action);
    if let ReclaimMethod::Packages { names, .. } = item.method {
        if let ReclaimMethod::Packages { names: n, .. } = other.method {
            if let Action::Ask(Op::RemovePackages { packages, .. }) = action {
                assert forall|i: int| 0 <= i < names@.len() implies (#[trigger] n@[i])@
                    == names@[i]@ by {
                    assert(packages@[i]@ == names@[i]@);
                    assert(packages@[i]@ == n@[i]@);
                }
            }
        }
    }
}

/// What is skipped, and why. Only what is reclaimed at a path can be: where
/// the rules object, with their reason; where nothing is there any more; and
/// where it is not, in inode, size and blocks, what the preview saw. In every
/// other case it is not skipped, and what belongs to no path never is.
pub proof fn law_what_is_skipped_and_why(
    item: PreviewItem,
    guard: Guard,
    elevation: Elevation,
    current: Option<Fingerprint>,
    step: Step,
)
    requires
        next_step(item, guard, elevation, current, step),
    ensures
        ({
            let at_path = match item.method {
                ReclaimMethod::MoveToTrash { .. } => true,
                ReclaimMethod::TrashEmpty { .. } => true,
                ReclaimMethod::SystemFile { .. } => true,
                ReclaimMethod::Unlink { .. } => true,
                _ => false,
            };
            let refused = guard_objection(guard, item.path@);
            let unchanged = match (item.fingerprint, current) {
                (Some(a), Some(b)) => a.inode == b.inode && a.size == b.size && a.blocks
                    == b.blocks,
                _ => false,
            };
            match step {
                Step::Settled(ItemOutcome::Skipped { id, path, reason }) => {
                    &&& at_path
                    &&& id == item.id
                    &&& path@ == item.path@
                    &&& refused is Some || !unchanged
                    &&& refused matches Some(objection) ==> reason@ == objection.1
                    &&& refused is None && current is None ==> reason@ == "It is already gone."@
                    &&& refused is None && current is Some ==> reason@
                        == "It changed since the preview, so it was left alone."@
                },
                _ => !at_path || (refused is None && unchanged),
            }
        }),
{
}

/// When the privileged session is needed. What the helper does is asked of it
/// once the session is open, opens it where it is not, and fails with the
/// session's own error where it could not be opened; nothing else asks for
/// it.
pub proof fn law_what_needs_the_helper(
    item: PreviewItem,
    guard: Guard,
    elevation: Elevation,
    current: Option<Fingerprint>,
    step: Step,
)
    requires
        next_step(item, guard, elevation, current, step),
        !(step matches Step::Settled(ItemOutcome::Skipped { .. })),
    ensures
        ({
            let privileged = match item.method {
                ReclaimMethod::SystemFile { .. } => true,
                ReclaimMethod::Packages { .. } => true,
                ReclaimMethod::PackageManager { .. } => true,
                ReclaimMethod::JournalVacuum { .. } => true,
                ReclaimMethod::SnapRevision { .. } => true,
                ReclaimMethod::FlatpakUnused => true,
                _ => false,
            };
            if privileged {
                match (elevation.how, elevation.link) {
                    (Elevate::Never, _) => step matches Step::Settled(
                        ItemOutcome::Failed { error, .. },
                    ) && error.code == ErrorCode::HelperUnavailable,
                    (Elevate::WhenNeeded, Link::Unopened) => step is Connect,
                    (Elevate::WhenNeeded, Link::Open) => step matches Step::Do(Action::Ask(_)),
                    (Elevate::WhenNeeded, Link::Broken(e)) => step matches Step::Settled(
                        ItemOutcome::Failed { error, .. },
                    ) && error == e,
                }
            } else if item.method is Unlink {
                step matches Step::Settled(ItemOutcome::Failed { error, .. }) && error.code
                    == ErrorCode::Unsupported
            } else {
                step is Do && !(step matches Step::Do(Action::Ask(_)))
            }
        }),
{
}

/// What came back is what is reported, under the item's own id and path: the
/// bytes that were moved to the trash as trashed, the bytes that came back as
/// freed, and a failure as that failure, with no bytes at all.
pub proof fn law_what_came_back_is_reported(
    item: PreviewItem,
    done: Performed,
    outcome: ItemOutcome,
)
    requires
        comes_to(outcome, item, done),
    ensures
        match outcome {
            ItemOutcome::Trashed { id, path, bytes } => id == item.id && path@ == item.path@ && (done
                matches Performed::Trashed { bytes: b } && b == bytes),
            ItemOutcome::Reclaimed { id, path, bytes } => id == item.id && path@ == item.path@ && {
                ||| done matches Performed::Reclaimed { bytes: b } && b == bytes
                ||| done matches Performed::Answered(OpResult::Reclaimed { bytes: b }) && b == bytes
            },
            ItemOutcome::Failed { id, path, error } => id == item.id && path@ == item.path@ && {
                ||| done matches Performed::Failed(e) && e == error
                ||| done matches Performed::Answered(OpResult::Other { .. }) && error.code
                    == ErrorCode::Internal
            },
            ItemOutcome::Skipped { .. } => false,
        },
        outcome matches ItemOutcome::Reclaimed { bytes, .. } ==> freed_by(outcome) == bytes
            && trashed_by(outcome) == 0,
        outcome matches ItemOutcome::Trashed { bytes, .. } ==> trashed_by(outcome) == bytes
            && freed_by(outcome) == 0,
        outcome is Failed ==> freed_by(outcome) == 0 && trashed_by(outcome) == 0,
{
}

/// A report grows by what each outcome adds, and by nothing else: what was
/// removed adds its bytes to what is freed and one to what was acted on, what
/// was trashed adds its bytes to what is trashed, and what was skipped or
/// failed adds one to its own count. A report of nothing is all zeroes, and
/// the filesystem's figure is passed on as it was measured.
pub proof fn law_a_report_grows_outcome_by_outcome(
    before: Report,
    after: Report,
    outcomes: Seq<ItemOutcome>,
    more: ItemOutcome,
    measured: Option<u64>,
    cancelled: bool,
)
    requires
        accounts_for(before, outcomes, measured, cancelled),
        accounts_for(after, outcomes.push(more), measured, cancelled),
    ensures
        outcomes.len() == 0 ==> before.freed == 0 && before.trashed == 0 && before.reclaimed_count
            == 0 && before.skipped_count == 0 && before.failed_count == 0,
        after.outcomes@ == before.outcomes@.push(more),
        after.measured_delta == measured,
        measured is None ==> after.measurement_agrees is None,
        measured matches Some(m) ==> after.measurement_agrees == Some(
            close_enough(after.freed as nat, m as nat),
        ),
        after.cancelled == cancelled,
        after.freed == {
            let sum = before.freed + (if let ItemOutcome::Reclaimed { bytes, .. } = more {
                bytes as int
            } else {
                0
            });
            if sum > u64::MAX {
                u64::MAX as int
            } else {
                sum
            }
        },
        after.trashed == {
            let sum = before.trashed + (if let ItemOutcome::Trashed { bytes, .. } = more {
                bytes as int
            } else {
                0
            });
            if sum > u64::MAX {
                u64::MAX as int
            } else {
                sum
            }
        },
        after.reclaimed_count == before.reclaimed_count + (if more is Reclaimed || more is Trashed {
            1int
        } else {
            0
        }),
        after.skipped_count == before.skipped_count + (if more is Skipped {
            1int
        } else {
            0
        }),
        after.failed_count == before.failed_count + (if more is Failed {
            1int
        } else {
            0
        }),
{
    assert(outcomes.push(more).drop_last() =~= outcomes);
}

/// What is measured is how much less the filesystem holds: nothing where that
/// is unknown on either side, or where it holds more.
pub proof fn law_the_measurement_is_the_decrease(before: Option<u64>, after: Option<u64>)
    ensures
        given_back(before, after) matches Some(d) ==> before is Some && after is Some && after->0
            + d == before->0,
        before is Some && after is Some && after->0 <= before->0 ==> given_back(before, after) is Some,
{
}

/// The sentence names what was freed and from how many items, and adds what
/// was skipped, what failed and that it was stopped exactly where that
/// happened.
pub proof fn law_the_summary_tells_what_happened(r: Report)
    ensures
        summary_text(Report { skipped_count: 0, failed_count: 0, cancelled: false, ..r })
            == "Freed "@ + size_text(r.freed as nat) + " from "@ + decimal(
            r.reclaimed_count as nat,
        ) + (if r.reclaimed_count == 1 {
            " item."@
        } else {
            " items."@
        }),
        r.skipped_count > 0 ==> summary_text(
            Report { failed_count: 0, cancelled: false, ..r },
        ) == summary_text(
            Report { skipped_count: 0, failed_count: 0, cancelled: false, ..r },
        ).drop_last() + ", "@ + decimal(r.skipped_count as nat) + " skipped."@,
        r.failed_count > 0 ==> summary_text(Report { cancelled: false, ..r }) == summary_text(
            Report { failed_count: 0, cancelled: false, ..r },
        ).drop_last() + ", "@ + decimal(r.failed_count as nat) + " failed."@,
        r.cancelled ==> summary_text(r) == summary_text(
            Report { cancelled: false, ..r },
        ).drop_last() + ", stopped early."@,
{
    reveal_strlit(".");
    reveal_strlit("");
    reveal_strlit("s");
    reveal_strlit(" item");
    reveal_strlit(" item.");
    reveal_strlit(" items.");
    reveal_strlit(", ");
    reveal_strlit(" skipped");
    reveal_strlit(" skipped.");
    reveal_strlit(" failed");
    reveal_strlit(" failed.");
    reveal_strlit("stopped early");
    reveal_strlit(", stopped early.");
    let none = Report { skipped_count: 0, failed_count: 0, cancelled: false, ..r };
    let skipped = Report { failed_count: 0, cancelled: false, ..r };
    let failed = Report { cancelled: false, ..r };
    let head = "Freed "@ + size_text(r.freed as nat) + " from "@ + decimal(
        r.reclaimed_count as nat,
    );
    assert(summary_text(none) =~= head + (if r.reclaimed_count == 1 {
        " item."@
    } else {
        " items."@
    }));
    if r.skipped_count > 0 {
        assert(summary_text(skipped) =~= summary_text(none).drop_last() + ", "@ + decimal(
            r.skipped_count as nat,
        ) + " skipped."@);
    }
    if r.failed_count > 0 {
        assert(summary_text(failed) =~= summary_text(skipped).drop_last() + ", "@ + decimal(
            r.failed_count as nat,
        ) + " failed."@);
    }
    if r.cancelled {
        assert(summary_text(r) =~= summary_text(failed).drop_last() + ", stopped early."@);
    }
}

/// What is said of a step is what it does: an item is only ever reclaimed by
/// the method, the scope, the name and the path that were confirmed, and where
/// it is reclaimed at a path the rules have no objection and nothing there has
/// changed.
pub proof fn law_reclaiming_does_what_was_confirmed(
    item: PreviewItem,
    guard: Guard,
    elevation: Elevation,
    current: Option<Fingerprint>,
    step: Step,
)
    requires
        call_ensures(reclaim_one, (&item, &guard, &elevation, current), step),
    ensures
        step matches Step::Do(Action::Prune { scope }) ==> item.method == (
        ReclaimMethod::ContainerPrune { scope }),
        step matches Step::Do(Action::RemoveVolume { name }) ==> item.method == (
        ReclaimMethod::ContainerVolume { name }),
        step matches Step::Do(Action::Trash { path }) ==> item.method == (
        ReclaimMethod::MoveToTrash { path }) && guard_objection(guard, item.path@) is None
            && current is Some && current == item.fingerprint,
        step matches Step::Do(Action::EmptyTrash { volume }) ==> item.method == (
        ReclaimMethod::TrashEmpty { volume }) && guard_objection(guard, item.path@) is None
            && current is Some && current == item.fingerprint,
        step matches Step::Do(Action::Ask(Op::ReclaimFile { kind, path })) ==> item.method == (
        ReclaimMethod::SystemFile { kind, path }) && guard_objection(guard, item.path@) is None
            && current is Some && current == item.fingerprint,
        step matches Step::Do(Action::Ask(Op::PackageManagerClean { manager })) ==> item.method == (
        ReclaimMethod::PackageManager { manager }),
        step matches Step::Do(Action::Ask(Op::JournalVacuum { limit })) ==> item.method == (
        ReclaimMethod::JournalVacuum { limit }),
        step matches Step::Do(Action::Ask(Op::RemoveSnapRevision { package, revision }))
            ==> item.method == (ReclaimMethod::SnapRevision { package, revision }),
        step matches Step::Do(Action::Ask(Op::FlatpakUninstallUnused)) ==> item.method
            is FlatpakUnused,
        step matches Step::Do(Action::Ask(Op::RemovePackages { kind, packages })) ==> (item.method
            matches ReclaimMethod::Packages { kind: k, names } && k == kind && names@.len()
            == packages@.len() && forall|i: int|
            0 <= i < names@.len() ==> (#[trigger] packages@[i])@ == names@[i]@),
        step matches Step::Do(Action::Ask(_)) ==> elevation.how == Elevate::WhenNeeded
            && elevation.link is Open,
        step is Connect ==> elevation.how == Elevate::WhenNeeded && elevation.link is Unopened,
        item.method is ContainerPrune ==> step == Step::Do(
            Action::Prune { scope: item.method->ContainerPrune_scope },
        ),
{
    if let Step::Do(action) = step {
        law_the_action_is_the_confirmed_method(item, guard, elevation, current, action);
        law_what_is_skipped_and_why(item, guard, elevation, current, step);
        law_what_needs_the_helper(item, guard, elevation, current, step);
    } else {
        law_what_is_skipped_and_why(item, guard, elevation, current, step);
        if !(step matches Step::Settled(ItemOutcome::Skipped { .. })) {
            law_what_needs_the_helper(item, guard, elevation, current, step);
        }
    }
}

/// What an outcome gave back is its own bytes, and only where something was
/// removed; what was trashed is not back.
pub proof fn law_an_outcome_counts_its_own_bytes(
    o: ItemOutcome,
    freed: u64,
    trashed: u64,
    acted: bool,
)
    requires
        call_ensures(ItemOutcome::bytes_freed, (&o,), freed),
        call_ensures(ItemOutcome::bytes_trashed, (&o,), trashed),
        call_ensures(ItemOutcome::acted, (&o,), acted),
    ensures
        match o {
            ItemOutcome::Reclaimed { bytes, .. } => freed == bytes && trashed == 0 && acted,
            ItemOutcome::Trashed { bytes, .. } => freed == 0 && trashed == bytes && acted,
            _ => freed == 0 && trashed == 0 && !acted,
        },
{
}

/// The session is opened where it is first needed, used where it is open, and
/// never opened again where that failed or where elevation is refused.
pub proof fn law_the_session_is_opened_once(
    e: Elevation,
    r: core::result::Result<Channel, AppError>,
)
    requires
        call_ensures(Elevation::client, (&e,), r),
    ensures
        e.how == Elevate::Never ==> (r matches Err(x) && x.code == ErrorCode::HelperUnavailable),
        e.how == Elevate::WhenNeeded ==> match e.link {
            Link::Unopened => r == Ok::<Channel, AppError>(Channel::Connect),
            Link::Open => r == Ok::<Channel, AppError>(Channel::Ready),
            Link::Broken(x) => r == Err::<Channel, AppError>(x),
        },
{
}

/// What was done becomes the item's outcome with its own id, path and bytes.
pub proof fn law_settling_reports_what_came_back(
    item: PreviewItem,
    done: Performed,
    outcome: ItemOutcome,
)
    requires
        call_ensures(settle, (&item, done), outcome),
    ensures
        done matches Performed::Trashed { bytes: b } ==> (outcome matches ItemOutcome::Trashed {
            id,
            path,
            bytes,
        } && id == item.id && path@ == item.path@ && bytes == b),
        done matches Performed::Reclaimed { bytes: b } ==> (outcome matches ItemOutcome::Reclaimed {
            id,
            path,
            bytes,
        } && id == item.id && path@ == item.path@ && bytes == b),
        done matches Performed::Answered(OpResult::Reclaimed { bytes: b }) ==> (outcome
            matches ItemOutcome::Reclaimed { id, path, bytes } && id == item.id && path@
            == item.path@ && bytes == b),
        done matches Performed::Answered(OpResult::Other { .. }) ==> outcome is Failed,
        done matches Performed::Failed(e) ==> (outcome matches ItemOutcome::Failed {
            id,
            path,
            error,
        } && id == item.id && path@ == item.path@ && error == e),
{
}

/// Up to a tebibyte the comparison of the count with the measurement is the
/// exact one.
pub proof fn law_agreeing_is_within_two_hundredths(counted: u64, measured: u64, r: bool)
    requires
        call_ensures(agrees, (counted, measured), r),
        counted <= 1099511627776,
        measured <= 1099511627776,
    ensures
        r == {
            ||| counted < 1048576 && measured < 1048576
            ||| counted >= measured && 50 * (counted - measured) <= counted
            ||| measured >= counted && 50 * (measured - counted) <= measured
        },
{
    law_agreement_is_within_two_hundredths(counted as nat, measured as nat);
}

/// What an execution says of itself: which item comes next, how many are done
/// of how many, and on which item's filesystem the effect is measured.
pub proof fn law_an_execution_goes_item_by_item(
    x: Execution,
    next: Option<&PreviewItem>,
    progress: (usize, usize),
    path: Option<&str>,
)
    requires
        call_ensures(Execution::current, (&x,), next),
        call_ensures(Execution::progress, (&x,), progress),
        call_ensures(Execution::measured_path, (&x,), path),
    ensures
        progress.0 == x.so_far().len(),
        progress.1 == x.chosen().len(),
        next matches Some(item) ==> x.so_far().len() < x.chosen().len() && *item
            == x.chosen()[x.so_far().len() as int],
        x.so_far().len() < x.chosen().len() ==> next is Some,
        x.chosen().len() > 0 ==> (path matches Some(p) && p@ == x.chosen()[0].path@),
        x.chosen().len() == 0 ==> path is None,
{
}

/// The report of an execution is of its own outcomes, all of them; it says
/// that it was stopped exactly where something is left undone, and holds
/// against it how much less the filesystem then held.
pub proof fn law_the_report_is_of_what_happened(
    x: Execution,
    before: Option<u64>,
    after: Option<u64>,
    r: Report,
)
    requires
        call_ensures(Execution::finish, (x, before, after), r),
    ensures
        r.outcomes@ == x.so_far(),
        r.cancelled == (x.so_far().len() < x.chosen().len()),
        before is Some && after is Some && after->0 <= before->0 ==> (r.measured_delta matches Some(
            d,
        ) && after->0 + d == before->0 && r.measurement_agrees == Some(
            close_enough(r.freed as nat, d as nat),
        )),
        before is None || after is None || after->0 > before->0 ==> r.measured_delta is None
            && r.measurement_agrees is None,
        freed_total(x.so_far()) <= u64::MAX ==> r.freed == freed_total(x.so_far()),
        trashed_total(x.so_far()) <= u64::MAX ==> r.trashed == trashed_total(x.so_far()),
        r.reclaimed_count + r.skipped_count + r.failed_count == x.so_far().len(),
{
    law_every_outcome_is_counted_once(x.so_far());
}

/// A report of some outcomes grows by what each of them adds.
pub proof fn law_a_report_is_made_of_its_outcomes(
    outcomes: Vec<ItemOutcome>,
    more: Vec<ItemOutcome>,
    last: ItemOutcome,
    measured: Option<u64>,
    cancelled: bool,
    r: Report,
    t: Report,
)
    requires
        more@ == outcomes@.push(last),
        call_ensures(Report::new, (outcomes, measured, cancelled), r),
        call_ensures(Report::new, (more, measured, cancelled), t),
    ensures
        t.freed >= r.freed,
        last matches ItemOutcome::Reclaimed { bytes, .. } ==> r.freed + bytes <= u64::MAX ==> t.freed
            == r.freed + bytes,
        !(last is Reclaimed) ==> t.freed == r.freed,
        last matches ItemOutcome::Trashed { bytes, .. } ==> r.trashed + bytes <= u64::MAX
            ==> t.trashed == r.trashed + bytes,
        !(last is Trashed) ==> t.trashed == r.trashed,
        t.failed_count == r.failed_count + (if last is Failed {
            1int
        } else {
            0
        }),
        t.skipped_count == r.skipped_count + (if last is Skipped {
            1int
        } else {
            0
        }),
        t.measured_delta == measured,
        t.cancelled == cancelled,
{
    law_a_report_grows_outcome_by_outcome(r, t, outcomes@, last, measured, cancelled);
}

/// After a request to stop nothing more is done: no item is touched, none is
/// settled, and the execution stays stopped.
pub proof fn law_nothing_happens_after_a_request_to_stop(
    before: Execution,
    cancelled: bool,
    current: Option<Fingerprint>,
    guard: Guard,
    elevation: Elevation,
    r: Next,
    after: Execution,
)
    requires
        stepped(before, cancelled, current, guard, elevation, r, after),
        cancelled || before.stopped(),
    ensures
        r is Finished,
        after.so_far() == before.so_far(),
        before.so_far().len() < before.chosen().len() ==> after.stopped(),
{
}

/// Items are taken one by one and in order: what has to be done is for the
/// first that is not settled yet, by the method that it was confirmed with,
/// and settling adds that item's own outcome and no other. As long as an item
/// is left and nobody asks to stop, there is something to do.
pub proof fn law_items_are_taken_one_by_one(
    before: Execution,
    current: Option<Fingerprint>,
    guard: Guard,
    elevation: Elevation,
    r: Next,
    after: Execution,
)
    requires
        stepped(before, false, current, guard, elevation, r, after),
        !before.stopped(),
        before.so_far().len() < before.chosen().len(),
    ensures
        ({
            let item = before.chosen()[before.so_far().len() as int];
            match r {
                Next::Finished => false,
                Next::Connect => after == before && elevation.link is Unopened,
                Next::Settled => {
                    &&& after.so_far().len() == before.so_far().len() + 1
                    &&& after.so_far().drop_last() == before.so_far()
                    &&& about(after.so_far().last(), item)
                    &&& after.so_far().last() is Skipped || after.so_far().last() is Failed
                },
                Next::Do(action) => {
                    &&& after == before
                    &&& action matches Action::Prune { scope } ==> item.method == (
                    ReclaimMethod::ContainerPrune { scope })
                    &&& action matches Action::Trash { path } ==> item.method == (
                    ReclaimMethod::MoveToTrash { path }) && current == item.fingerprint
                    &&& action matches Action::EmptyTrash { volume } ==> item.method == (
                    ReclaimMethod::TrashEmpty { volume }) && current == item.fingerprint
                    &&& action matches Action::RemoveVolume { name } ==> item.method == (
                    ReclaimMethod::ContainerVolume { name })
                },
            }
        }),
{
    let item = before.chosen()[before.so_far().len() as int];
    if let Next::Do(action) = r {
        law_the_action_is_the_confirmed_method(item, guard, elevation, current, action);
        law_what_is_skipped_and_why(item, guard, elevation, current, Step::Do(action));
    }
}

} // verus!
