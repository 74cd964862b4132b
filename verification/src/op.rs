//! Cancellation and progress for long operations.
use std::collections::HashMap;
use std::sync::atomic::AtomicBool;
use std::sync::Arc;
use vstd::prelude::*;
use crate::error::{is_cancelled_error, AppError, ErrorCode, Result};
use crate::text::{decimal, push_u64};

verus! {

broadcast use {vstd::std_specs::hash::group_hash_axioms, vstd::string::group_string_axioms};

/// Gives out numbers, each once and each larger than the last. One counter is
/// meant to serve a whole process, so that no two holders of a number meet.
#[derive(Debug)]
pub struct Counter {
    next: u64,
}

impl Counter {
    /// The number that is given out next.
    pub closed spec fn upcoming(&self) -> u64 {
        self.next
    }

    /// A counter that starts at one.
    pub fn new() -> (r: Self)
        ensures
            r.upcoming() == 1,
    {
        Counter { next: 1 }
    }

    /// Whether no number is left.
    pub fn is_exhausted(&self) -> (r: bool)
        ensures
            r == (self.upcoming() == u64::MAX),
    {
        self.next == u64::MAX
    }

    /// The next number.
    pub fn take(&mut self) -> (r: u64)
        requires
            old(self).upcoming() < u64::MAX,
        ensures
            r == old(self).upcoming(),
            final(self).upcoming() == old(self).upcoming() + 1,
    {
        let number: u64 = self.next;
        self.next = number + 1;
        number
    }
}

/// Identifies a running operation.
#[derive(Debug, Clone, Copy, PartialEq, Eq, Structural, Hash, PartialOrd, Ord)]
pub struct OperationId(pub u64);

impl OperationId {
    /// The next id of a counter. Ids rise and are never reused.
    pub fn next(counter: &mut Counter) -> (r: Self)
        requires
            old(counter).upcoming() < u64::MAX,
        ensures
            r.0 == old(counter).upcoming(),
            final(counter).upcoming() == old(counter).upcoming() + 1,
    {
        OperationId(counter.take())
    }

    /// How the id is written for a person.
    pub fn label(&self) -> (r: String)
        ensures
            r@ == "op"@ + decimal(self.0 as nat),
    {
        let mut out = "op".to_owned();
        push_u64(&mut out, self.0);
        out
    }
}

/// A cooperative cancellation flag, cheap to clone and to poll. Clones share
/// one flag.
#[derive(Debug)]
pub struct CancelToken {
    flag: Arc<AtomicBool>,
}

/// What a worker is told, given whether cancellation was requested.
pub fn check_flag(cancelled: bool) -> (r: Result<()>)
    ensures
        cancelled ==> (r matches Err(e) && is_cancelled_error(e)),
        !cancelled ==> r is Ok,
{
    if cancelled {
        Err(AppError::cancelled())
    } else {
        Ok(())
    }
}

impl CancelToken {
    /// A flag that is not set.
    pub fn new() -> Self {
        CancelToken { flag: Arc::new(AtomicBool::new(false)) }
    }

    /// Requests cancellation. Idempotent.
    pub fn cancel(&self) {
        self.flag.store(true, std::sync::atomic::Ordering::SeqCst);
    }

    /// Whether cancellation has been requested. Another thread may set the
    /// flag at any time, so nothing is promised of two calls.
    pub fn is_cancelled(&self) -> bool {
        self.flag.load(std::sync::atomic::Ordering::Relaxed)
    }

    /// The cancellation error where cancellation has been requested. Whether
    /// it has depends on other threads; no other error comes out.
    pub fn check(&self) -> (r: Result<()>)
        ensures
            r matches Err(e) ==> is_cancelled_error(e),
    {
        check_flag(self.is_cancelled())
    }
}

impl Default for CancelToken {
    fn default() -> Self {
        CancelToken::new()
    }
}

impl Clone for CancelToken {
    fn clone(&self) -> (r: Self)
        ensures
            r == *self,
    {
        CancelToken { flag: self.flag.clone() }
    }
}

/// A progress report. `total` is optional because a streaming scan does not
/// know its size up front.
#[derive(Debug, Clone, PartialEq, Eq)]
pub struct Progress {
    pub id: OperationId,
    /// Units completed.
    pub done: u64,
    /// Total units, when genuinely known.
    pub total: Option<u64>,
    /// What is happening right now, phrased for a user.
    pub message: Option<String>,
}

impl Progress {
    /// A report without a total and without a message.
    pub fn new(id: OperationId, done: u64) -> (r: Self)
        ensures
            r == (Progress { id, done, total: None, message: None }),
    {
        Progress { id, done, total: None, message: None }
    }

    /// The same report with a total.
    pub fn with_total(self, total: u64) -> (r: Self)
        ensures
            r == (Progress { total: Some(total), ..self }),
    {
        Progress { total: Some(total), ..self }
    }

    /// The same report with a message.
    pub fn with_message(self, message: String) -> (r: Self)
        ensures
            r == (Progress { message: Some(message), ..self }),
    {
        Progress { message: Some(message), ..self }
    }

    /// The completed fraction, as numerator and denominator, when a total is
    /// known. Never more than one, and never a division by zero.
    pub fn fraction(&self) -> (r: Option<(u64, u64)>)
        ensures
            match self.total {
                Some(total) if total > 0 => r == Some(
                    (if self.done < total { self.done } else { total }, total),
                ),
                _ => r is None,
            },
    {
        match self.total {
            Some(total) => if total == 0 {
                None
            } else if self.done < total {
                Some((self.done, total))
            } else {
                Some((total, total))
            },
            None => None,
        }
    }
}

/// How an operation ended.
#[derive(Debug, Clone, PartialEq, Eq)]
pub enum Completion {
    /// Ran to completion.
    Done { id: OperationId },
    /// Stopped on request. Not a fault.
    Cancelled { id: OperationId },
    /// Failed.
    Failed { id: OperationId, error: AppError },
}

/// The operation that a completion is about.
pub open spec fn completed_id(c: Completion) -> OperationId {
    match c {
        Completion::Done { id } => id,
        Completion::Cancelled { id } => id,
        Completion::Failed { id, .. } => id,
    }
}

impl Completion {
    /// Classifies a worker's result. Stopping on request is an outcome of its
    /// own, so it is never shown as an error.
    pub fn from_result(id: OperationId, result: Result<()>) -> (r: Self)
        ensures
            r == match result {
                Ok(_) => Completion::Done { id },
                Err(e) => if e.code == ErrorCode::Cancelled {
                    Completion::Cancelled { id }
                } else {
                    Completion::Failed { id, error: e }
                },
            },
            completed_id(r) == id,
    {
        match result {
            Ok(_) => Completion::Done { id },
            Err(e) => if !e.is_fault() {
                Completion::Cancelled { id }
            } else {
                Completion::Failed { id, error: e }
            },
        }
    }

    /// The operation that this is about.
    pub fn id(&self) -> (r: OperationId)
        ensures
            r == completed_id(*self),
    {
        match self {
            Completion::Done { id } => *id,
            Completion::Cancelled { id } => *id,
            Completion::Failed { id, .. } => *id,
        }
    }
}

/// Tracks operations in flight so they can be cancelled by id.
///
/// A token is removed when its operation finishes, so a completed id cannot
/// be cancelled and the map cannot grow without bound.
#[derive(Debug)]
pub struct Registry {
    live: HashMap<u64, CancelToken>,
}

impl Registry {
    /// The operations in flight, by id.
    pub closed spec fn live(&self) -> Map<u64, CancelToken> {
        self.live@
    }

    /// Whether every id in flight was given out by a counter before.
    pub open spec fn issued_by(&self, counter: Counter) -> bool {
        &&& self.live().dom().finite()
        &&& forall|id: u64| #[trigger] self.live().contains_key(id) ==> id < counter.upcoming()
    }

    /// A registry with nothing in flight.
    pub fn new() -> (r: Self)
        ensures
            r.live() == Map::<u64, CancelToken>::empty(),
            forall|counter: Counter| #[trigger] r.issued_by(counter),
    {
        Registry { live: HashMap::new() }
    }

    /// Registers a new operation under the next id of a counter, and hands
    /// back its id and token.
    pub fn start(&mut self, counter: &mut Counter) -> (r: (OperationId, CancelToken))
        requires
            old(self).issued_by(*old(counter)),
            old(counter).upcoming() < u64::MAX,
        ensures
            final(self).issued_by(*final(counter)),
            r.0.0 == old(counter).upcoming(),
            !old(self).live().contains_key(r.0.0),
            final(counter).upcoming() == old(counter).upcoming() + 1,
            final(self).live() == old(self).live().insert(r.0.0, r.1),
            forall|earlier: u64| #[trigger]
                old(self).live().contains_key(earlier) ==> earlier < r.0.0,
            final(self).live().dom().len() == old(self).live().dom().len() + 1,
    {
        let id = OperationId::next(counter);
        let token = CancelToken::new();
        self.live.insert(id.0, token.clone());
        (id, token)
    }

    /// The token of an operation that is still running.
    pub fn running(&self, id: OperationId) -> (r: Option<&CancelToken>)
        ensures
            match r {
                Some(token) => self.live().contains_key(id.0) && *token == self.live()[id.0],
                None => !self.live().contains_key(id.0),
            },
    {
        self.live.get(&id.0)
    }

    /// Requests cancellation. Says whether an operation with that id was
    /// still running. Where one was, its flag is set; what a flag holds is
    /// left unsaid, because other threads share it.
    pub fn cancel(&self, id: OperationId) -> (r: bool)
        ensures
            r == self.live().contains_key(id.0),
    {
        match self.running(id) {
            Some(token) => {
                token.cancel();
                true
            },
            None => false,
        }
    }

    /// Cancels everything in flight, and says how many operations were told.
    pub fn cancel_all(&self) -> (r: usize)
        ensures
            r == self.live().dom().len(),
    {
        let total: usize = self.live.len();
        let mut count: usize = 0;
        for token in it: self.live.values()
            invariant
                count == it.index(),
                total == self.live@.dom().len(),
                it.seq().len() == total,
        {
            token.cancel();
            count = count + 1;
        }
        count
    }

    /// Drops an operation's token. To be called when the worker exits,
    /// however it exits.
    pub fn finish(&mut self, id: OperationId)
        ensures
            final(self).live() == old(self).live().remove(id.0),
            !final(self).live().contains_key(id.0),
            forall|counter: Counter|
                old(self).issued_by(counter) ==> #[trigger] final(self).issued_by(counter),
    {
        self.live.remove(&id.0);
    }

    /// Number of operations in flight.
    pub fn live_count(&self) -> (r: usize)
        ensures
            r == self.live().dom().len(),
    {
        self.live.len()
    }
}

impl Default for Registry {
    fn default() -> (r: Self)
        ensures
            r.live() == Map::<u64, CancelToken>::empty(),
            forall|counter: Counter| #[trigger] r.issued_by(counter),
    {
        Registry::new()
    }
}

/// An operation that starts is the only one that comes, with its own token,
/// and leaves no trace when it finishes.
pub proof fn law_an_operation_comes_and_goes(
    before: Registry,
    started: Registry,
    ended: Registry,
    id: u64,
    token: CancelToken,
)
    requires
        before.live().dom().finite(),
        !before.live().contains_key(id),
        started.live() == before.live().insert(id, token),
        ended.live() == started.live().remove(id),
    ensures
        started.live().dom().len() == before.live().dom().len() + 1,
        started.live().contains_key(id) && started.live()[id] == token,
        forall|other: u64|
            other != id ==> #[trigger] started.live().contains_key(other)
                == before.live().contains_key(other),
        forall|other: u64|
            other != id && before.live().contains_key(other) ==> #[trigger] started.live()[other]
                == before.live()[other],
        !ended.live().contains_key(id),
        ended.live() == before.live(),
        ended.live().dom().len() == before.live().dom().len(),
{
    assert(ended.live() =~= before.live());
    assert(started.live().dom() =~= before.live().dom().insert(id));
}

/// Registries that share a counter never meet: the id that it gives out next
/// is in flight in none of them.
pub proof fn law_the_next_id_is_new_everywhere(registry: Registry, counter: Counter)
    requires
        registry.issued_by(counter),
    ensures
        !registry.live().contains_key(counter.upcoming()),
{
}

/// What one registry takes from a counter leaves every other one in order.
pub proof fn law_a_counter_can_be_shared(registry: Registry, earlier: Counter, later: Counter)
    requires
        registry.issued_by(earlier),
        earlier.upcoming() <= later.upcoming(),
    ensures
        registry.issued_by(later),
{
}

/// A worker is told to stop exactly where that was asked for, by an error that
/// is no fault; and what it then answers counts as stopped, never as failed.
pub proof fn law_stopping_is_no_failure(
    cancelled: bool,
    told: Result<()>,
    id: OperationId,
    result: Result<()>,
    end: Completion,
)
    requires
        call_ensures(check_flag, (cancelled,), told),
        call_ensures(Completion::from_result, (id, result), end),
    ensures
        cancelled == (told is Err),
        told matches Err(e) ==> e.code == ErrorCode::Cancelled,
        result is Ok ==> end == (Completion::Done { id }),
        result matches Err(e) ==> (e.code == ErrorCode::Cancelled ==> end == (
        Completion::Cancelled { id })) && (e.code != ErrorCode::Cancelled ==> end == (
        Completion::Failed { id, error: e })),
{
}

/// Progress is what is done of what there is to do, where that is known, and
/// never more than all of it.
pub proof fn law_progress_is_what_is_done(p: Progress, r: Option<(u64, u64)>)
    requires
        call_ensures(Progress::fraction, (&p,), r),
    ensures
        p.total is None ==> r is None,
        p.total matches Some(t) ==> (t == 0 ==> r is None) && (t > 0 ==> r is Some && (r->0).1 == t
            && (p.done <= t ==> (r->0).0 == p.done) && (p.done > t ==> (r->0).0 == t)),
{
}

/// An operation can be cancelled exactly as long as it is in flight; all of
/// them are told at once where that is asked, and each id is written with its
/// number.
pub proof fn law_only_running_operations_are_cancelled(
    reg: Registry,
    id: OperationId,
    told: bool,
    all: usize,
    live: usize,
    label: String,
)
    requires
        call_ensures(Registry::cancel, (&reg, id), told),
        call_ensures(Registry::cancel_all, (&reg,), all),
        call_ensures(Registry::live_count, (&reg,), live),
        call_ensures(OperationId::label, (&id,), label),
    ensures
        told == reg.live().contains_key(id.0),
        all == live,
        live == reg.live().dom().len(),
        label@ == "op"@ + decimal(id.0 as nat),
{
}

} // verus!
