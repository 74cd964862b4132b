//! Reclaiming space: preview, confirm, execute, report.
//!
//! Nothing is reclaimed that was not previewed. An execution takes a ticket
//! that only a preview mints, and the identifiers of items that this preview
//! showed. Immediately before an item is acted on, the protection rules are
//! asked again and its path is compared with what the preview saw.
use vstd::prelude::*;
use vstd::string::*;
use crate::error::{copy_option, is_cancelled_error, plain_error, AppError, ErrorCode, Result};

use crate::op::Counter;
use crate::order::{in_order, law_sorting_keeps_every_element, lemma_place_in_range, place, sort, Ordered, Ranked, TextMap};
use crate::paths::{base_dir, base_directory, components, home_dir, home_of, is_within, join, joined, path_within, Environment};
use crate::protect::{guard_objection, refusal_texts, Guard, Refusal, Verdict};
use crate::space::{on_path, promise, same_method, Advisory, Category as SpaceCategory, ReclaimMethod, Reclaimable, Safety};
use crate::text::{chars_of, decimal, opt_text, push_u64, same_str, texts};
use artifacts::{corroborate, vouched};
use execution::{Execution, Fingerprint};
use registry::{copy_advisories, Brief, Candidate};

pub mod artifacts;
pub mod caches;
pub mod containers;
pub mod defaults;
pub mod execution;
pub mod kernels;
pub mod logs;
pub mod packages;
pub mod registry;
pub mod snaps;

verus! {

broadcast use vstd::string::group_string_axioms;

/// Proof that a preview was computed and shown. Only a preview mints one.
#[derive(Debug, Clone, Copy, PartialEq, Eq, Structural)]
pub struct Ticket {
    number: u64,
}

impl Ticket {
    /// The number of the ticket.
    pub closed spec fn shown(&self) -> u64 {
        self.number
    }

    /// The number of the ticket, by which it crosses a process boundary.
    pub fn number(&self) -> (r: u64)
        ensures
            r == self.shown(),
    {
        self.number
    }
}

/// One thing the preview proposes to reclaim.
#[derive(Debug, PartialEq, Eq)]
pub struct PreviewItem {
    /// Stable across a preview, used to select a subset.
    pub id: u64,
    pub path: String,
    /// What the user sees.
    pub label: String,
    /// Bytes expected back: the on-disk figure, never the apparent size.
    pub bytes: u64,
    pub safety: Safety,
    pub method: ReclaimMethod,
    /// What this costs, when it costs something.
    pub cost: Option<String>,
    /// The identifier of the category that proposed it.
    pub category: String,
    /// How much of `bytes` will actually come back.
    pub reclaimable: Reclaimable,
    /// What the path looked like at preview time, where there was anything.
    pub fingerprint: Option<Fingerprint>,
}

/// Whether two items are the same.
pub open spec fn same_item(a: PreviewItem, b: PreviewItem) -> bool {
    &&& a.id == b.id
    &&& a.path == b.path
    &&& a.label == b.label
    &&& a.bytes == b.bytes
    &&& a.safety == b.safety
    &&& same_method(a.method, b.method)
    &&& a.cost == b.cost
    &&& a.category == b.category
    &&& a.reclaimable == b.reclaimable
    &&& a.fingerprint == b.fingerprint
}

/// Whether two lists of items are the same.
pub open spec fn same_items(a: Seq<PreviewItem>, b: Seq<PreviewItem>) -> bool {
    a.len() == b.len() && forall|i: int| 0 <= i < a.len() ==> #[trigger] same_item(a[i], b[i])
}

impl Clone for PreviewItem {
    fn clone(&self) -> (r: Self)
        ensures
            same_item(r, *self),
    {
        PreviewItem {
            id: self.id,
            path: self.path.clone(),
            label: self.label.clone(),
            bytes: self.bytes,
            safety: self.safety,
            method: self.method.clone(),
            cost: copy_option(&self.cost),
            category: self.category.clone(),
            reclaimable: self.reclaimable.clone(),
            fingerprint: self.fingerprint,
        }
    }
}

impl PreviewItem {
    /// Whether a "select all" may take this along.
    pub fn bulk_selectable(&self) -> (r: bool)
        ensures
            r == (self.safety == Safety::Safe || self.safety == Safety::Review),
    {
        self.safety.bulk_selectable()
    }
}

impl Ordered for PreviewItem {
    open spec fn precedes(b: Self, a: Self) -> bool {
        b.bytes > a.bytes
    }
}

impl Ranked for PreviewItem {
    fn comes_before(&self, other: &Self) -> bool {
        self.bytes > other.bytes
    }
}

/// What would happen, computed before anything does.
#[derive(Debug)]
pub struct Preview {
    pub ticket: Ticket,
    pub items: Vec<PreviewItem>,
    /// Everything offered, every stated size taken at face value.
    pub total_bytes: u64,
    /// The part of the total that may be promised.
    pub promisable_bytes: u64,
    /// What may be promised of the entries safe enough to pre-check.
    pub safe_bytes: u64,
    /// What may be promised of the entries that would only be moved to the
    /// trash, which has to be emptied before they come back.
    pub trashable_bytes: u64,
    /// What a category proposed and the rules refused.
    pub refused: Vec<Refusal>,
    /// Space that is only reported. Not part of any total.
    pub advisories: Vec<Advisory>,
    /// What each category involved does, by its label.
    pub explanations: TextMap<String>,
}

// ---------------------------------------------------------------------------
// Sums
// ---------------------------------------------------------------------------

/// The sum of a figure over some items.
pub open spec fn total(s: Seq<PreviewItem>, f: spec_fn(PreviewItem) -> nat) -> nat
    decreases s.len(),
{
    if s.len() == 0 {
        0
    } else {
        total(s.drop_last(), f) + f(s.last())
    }
}

/// The stated size of an item.
pub open spec fn stated() -> spec_fn(PreviewItem) -> nat {
    |i: PreviewItem| i.bytes as nat
}

/// What may be promised of an item.
pub open spec fn promised() -> spec_fn(PreviewItem) -> nat {
    |i: PreviewItem| promise(i.reclaimable, i.bytes) as nat
}

/// What may be promised of an item that is safe enough to pre-check.
pub open spec fn promised_if_safe() -> spec_fn(PreviewItem) -> nat {
    |i: PreviewItem|
        if i.safety == Safety::Safe {
            promise(i.reclaimable, i.bytes) as nat
        } else {
            0
        }
}

/// What may be promised of an item that is only moved to the trash.
pub open spec fn promised_if_trashed() -> spec_fn(PreviewItem) -> nat {
    |i: PreviewItem|
        if i.method is MoveToTrash {
            promise(i.reclaimable, i.bytes) as nat
        } else {
            0
        }
}

proof fn lemma_total_insert(
    s: Seq<PreviewItem>,
    at: int,
    x: PreviewItem,
    f: spec_fn(PreviewItem) -> nat,
)
    requires
        0 <= at <= s.len(),
    ensures
        total(s.insert(at, x), f) == total(s, f) + f(x),
    decreases s.len(),
{
    let t = s.insert(at, x);
    if at == s.len() {
        assert(t.drop_last() =~= s);
    } else {
        assert(t.last() == s.last());
        assert(t.drop_last() =~= s.drop_last().insert(at, x));
        lemma_total_insert(s.drop_last(), at, x, f);
    }
}

/// The order of the items does not change a sum over them.
pub proof fn lemma_total_in_order(s: Seq<PreviewItem>, f: spec_fn(PreviewItem) -> nat)
    ensures
        total(in_order(s), f) == total(s, f),
    decreases s.len(),
{
    if s.len() > 0 {
        let before = in_order(s.drop_last());
        lemma_total_in_order(s.drop_last(), f);
        lemma_place_in_range(before, s.last());
        lemma_total_insert(before, place(before, s.last()), s.last(), f);
    }
}

proof fn lemma_total_at_most(
    s: Seq<PreviewItem>,
    f: spec_fn(PreviewItem) -> nat,
    g: spec_fn(PreviewItem) -> nat,
)
    requires
        forall|i: PreviewItem| f(i) <= #[trigger] g(i),
    ensures
        total(s, f) <= total(s, g),
    decreases s.len(),
{
    if s.len() > 0 {
        lemma_total_at_most(s.drop_last(), f, g);
        assert(f(s.last()) <= g(s.last()));
    }
}

// ---------------------------------------------------------------------------
// What is offered and what is refused
// ---------------------------------------------------------------------------

/// A candidate, with what was seen of it when the preview was made.
#[derive(Debug)]
pub struct Offer {
    pub candidate: Candidate,
    /// Whether the user had asked to stop by then.
    pub cancelled: bool,
    /// What its path looked like, where there was anything.
    pub fingerprint: Option<Fingerprint>,
    /// How much would come back, as far as its filesystem tells.
    pub sharing: Reclaimable,
}

/// Why a candidate is turned away, if it is: the rule and its reason. The
/// path rules are asked only where the path is what would be acted on.
pub open spec fn turned_away(guard: Guard, c: Candidate) -> Option<(Seq<char>, Seq<char>)> {
    if on_path(c.method) && guard_objection(guard, c.path@) is Some {
        guard_objection(guard, c.path@)
    } else if c.safety == Safety::Never {
        Some(("rated_never"@, "This is not reclaimable."@))
    } else {
        None
    }
}

/// The item that an offer becomes.
pub open spec fn item_of(offer: Offer, id: u64) -> PreviewItem {
    let c = offer.candidate;
    PreviewItem {
        id,
        path: c.path,
        label: c.label,
        bytes: c.bytes,
        safety: c.safety,
        method: c.method,
        cost: c.cost,
        category: c.category,
        reclaimable: if c.reclaimable is Exact {
            offer.sharing
        } else {
            c.reclaimable
        },
        fingerprint: offer.fingerprint,
    }
}

/// The items that are offered, in the order of their identifiers.
pub open spec fn offered(guard: Guard, offers: Seq<Offer>) -> Seq<PreviewItem>
    decreases offers.len(),
{
    if offers.len() == 0 {
        Seq::empty()
    } else {
        let before = offered(guard, offers.drop_last());
        if turned_away(guard, offers.last().candidate) is None {
            before.push(item_of(offers.last(), before.len() as u64))
        } else {
            before
        }
    }
}

/// What is refused, in order: path, rule and reason.
pub open spec fn refused_of(guard: Guard, offers: Seq<Offer>) -> Seq<
    (Seq<char>, Seq<char>, Seq<char>),
>
    decreases offers.len(),
{
    if offers.len() == 0 {
        Seq::empty()
    } else if let Some((rule, reason)) = turned_away(guard, offers.last().candidate) {
        refused_of(guard, offers.drop_last()).push(
            (offers.last().candidate.path@, rule, reason),
        )
    } else {
        refused_of(guard, offers.drop_last())
    }
}

/// Whether the user asked to stop while the offers were looked at.
pub open spec fn interrupted(offers: Seq<Offer>) -> bool {
    exists|i: int| 0 <= i < offers.len() && (#[trigger] offers[i]).cancelled
}

/// Whether some item belongs to the category with this identifier.
pub open spec fn present(items: Seq<PreviewItem>, id: Seq<char>) -> bool {
    exists|i: int| 0 <= i < items.len() && (#[trigger] items[i]).category@ == id
}

/// The last of the categories with this label that are present; -1 where
/// there is none.
pub open spec fn last_present(briefs: Seq<Brief>, items: Seq<PreviewItem>, label: Seq<char>) -> int
    decreases briefs.len(),
{
    if briefs.len() == 0 {
        -1
    } else if briefs.last().label@ == label && present(items, briefs.last().id@) {
        briefs.len() - 1
    } else {
        last_present(briefs.drop_last(), items, label)
    }
}

/// Whether a map explains exactly the categories that are present, each under
/// its label.
pub open spec fn explains_present(
    m: TextMap<String>,
    briefs: Seq<Brief>,
    items: Seq<PreviewItem>,
) -> bool {
    &&& m.wf()
    &&& forall|label: Seq<char>| #[trigger] m.has(label) <==> last_present(briefs, items, label) >= 0
    &&& forall|label: Seq<char>| #[trigger]
        m.has(label) ==> m.value(label)@ == briefs[last_present(briefs, items, label)].explains@
}

/// Whether a preview shows exactly what is to be shown.
pub open spec fn preview_shows(
    p: Preview,
    guard: Guard,
    offers: Seq<Offer>,
    briefs: Seq<Brief>,
    advisories: Seq<Advisory>,
) -> bool {
    &&& p.items@ == in_order(offered(guard, offers))
    &&& refusal_texts(p.refused@) == refused_of(guard, offers)
    &&& p.total_bytes == total(p.items@, stated())
    &&& p.promisable_bytes == total(p.items@, promised())
    &&& p.safe_bytes == total(p.items@, promised_if_safe())
    &&& p.trashable_bytes == total(p.items@, promised_if_trashed())
    &&& p.advisories@ == advisories
    &&& explains_present(p.explanations, briefs, p.items@)
}

/// Whether two previews have the same ticket, items, figures, refusals and
/// advisories.
pub open spec fn same_preview(a: Preview, b: Preview) -> bool {
    &&& a.ticket == b.ticket
    &&& same_items(a.items@, b.items@)
    &&& a.total_bytes == b.total_bytes
    &&& a.promisable_bytes == b.promisable_bytes
    &&& a.safe_bytes == b.safe_bytes
    &&& a.trashable_bytes == b.trashable_bytes
    &&& a.refused@ == b.refused@
    &&& a.advisories@ == b.advisories@
}

proof fn lemma_offered_grows(guard: Guard, offers: Seq<Offer>, n: int)
    requires
        0 <= n <= offers.len(),
    ensures
        total(offered(guard, offers.take(n)), stated()) <= total(offered(guard, offers), stated()),
        offered(guard, offers.take(n)).len() <= n,
    decreases offers.len() - n,
{
    lemma_offered_len(guard, offers.take(n));
    if n == offers.len() {
        assert(offers.take(n) =~= offers);
    } else {
        lemma_offered_grows(guard, offers, n + 1);
        let more = offers.take(n + 1);
        assert(more.drop_last() =~= offers.take(n));
        let before = offered(guard, offers.take(n));
        assert(before.push(item_of(more.last(), before.len() as u64)).drop_last() =~= before);
    }
}

proof fn lemma_offered_len(guard: Guard, offers: Seq<Offer>)
    ensures
        offered(guard, offers).len() <= offers.len(),
    decreases offers.len(),
{
    if offers.len() > 0 {
        lemma_offered_len(guard, offers.drop_last());
    }
}

fn copy_items(v: &Vec<PreviewItem>) -> (r: Vec<PreviewItem>)
    ensures
        same_items(r@, v@),
{
    let mut out: Vec<PreviewItem> = Vec::new();
    let mut i: usize = 0;
    while i < v.len()
        invariant
            i <= v@.len(),
            out@.len() == i,
            forall|k: int| 0 <= k < i ==> #[trigger] same_item(out@[k], v@[k]),
        decreases v@.len() - i,
    {
        out.push(v[i].clone());
        i = i + 1;
    }
    out
}

fn copy_refusals(v: &Vec<Refusal>) -> (r: Vec<Refusal>)
    ensures
        r@ == v@,
{
    let mut out: Vec<Refusal> = Vec::new();
    let mut i: usize = 0;
    while i < v.len()
        invariant
            i <= v@.len(),
            out@ == v@.take(i as int),
        decreases v@.len() - i,
    {
        out.push(v[i].clone());
        i = i + 1;
    }
    assert(v@.take(i as int) =~= v@);
    out
}

/// Whether some item belongs to the category with this identifier.
fn is_present(items: &Vec<PreviewItem>, id: &str) -> (r: bool)
    ensures
        r == present(items@, id@),
{
    let mut i: usize = 0;
    while i < items.len()
        invariant
            i <= items@.len(),
            forall|k: int| 0 <= k < i ==> (#[trigger] items@[k]).category@ != id@,
        decreases items@.len() - i,
    {
        if same_str(items[i].category.as_str(), id) {
            return true;
        }
        i = i + 1;
    }
    false
}

/// One explanation for every category that is present, under its label.
fn explain(briefs: &Vec<Brief>, items: &Vec<PreviewItem>) -> (r: TextMap<String>)
    ensures
        explains_present(r, briefs@, items@),
{
    let mut out: TextMap<String> = TextMap::new();
    let mut i: usize = 0;
    assert(briefs@.take(0) =~= Seq::<Brief>::empty());
    while i < briefs.len()
        invariant
            i <= briefs@.len(),
            explains_present(out, briefs@.take(i as int), items@),
        decreases briefs@.len() - i,
    {
        let ghost now = briefs@.take(i as int);
        let ghost next = briefs@.take(i + 1);
        let ghost before = out;
        assert(next.drop_last() =~= now);
        let brief = briefs[i];
        assert(next.last() == brief);
        if is_present(items, brief.id) {
            out.insert(brief.label, brief.explains.to_owned());
        }
        proof {
            assert forall|label: Seq<char>| #[trigger] out.has(label) implies out.value(label)@
                == next[last_present(next, items@, label)].explains@ by {
                lemma_last_present(now, items@, label);
                if brief.label@ == label && present(items@, brief.id@) {
                    assert(last_present(next, items@, label) == i);
                    assert(next[i as int] == brief);
                } else {
                    let k = last_present(now, items@, label);
                    assert(last_present(next, items@, label) == k);
                    assert(before.has(label));
                    assert(out.value(label) == before.value(label));
                    assert(next[k] == now[k]);
                }
            }
        }
        i = i + 1;
    }
    assert(briefs@.take(i as int) =~= briefs@);
    out
}

proof fn lemma_last_present(briefs: Seq<Brief>, items: Seq<PreviewItem>, label: Seq<char>)
    ensures
        -1 <= last_present(briefs, items, label) < briefs.len(),
    decreases briefs.len(),
{
    if briefs.len() > 0 {
        lemma_last_present(briefs.drop_last(), items, label);
    }
}

impl Preview {
    /// Items a bulk selection may take along.
    pub fn bulk_selectable(&self) -> (r: Vec<&PreviewItem>)
        ensures
            r@.len() == selectable(self.items@).len(),
            forall|i: int| 0 <= i < r@.len() ==> *(#[trigger] r@[i]) == selectable(self.items@)[i],
    {
        let mut out: Vec<&PreviewItem> = Vec::new();
        let mut i: usize = 0;
        assert(self.items@.take(0) =~= Seq::<PreviewItem>::empty());
        while i < self.items.len()
            invariant
                i <= self.items@.len(),
                out@.len() == selectable(self.items@.take(i as int)).len(),
                forall|k: int|
                    0 <= k < out@.len() ==> *(#[trigger] out@[k]) == selectable(
                        self.items@.take(i as int),
                    )[k],
            decreases self.items@.len() - i,
        {
            assert(self.items@.take(i + 1).drop_last() =~= self.items@.take(i as int));
            if self.items[i].bulk_selectable() {
                out.push(&self.items[i]);
            }
            i = i + 1;
        }
        assert(self.items@.take(i as int) =~= self.items@);
        out
    }

    /// Whether there is nothing to do.
    pub fn is_empty(&self) -> (r: bool)
        ensures
            r == (self.items@.len() == 0),
    {
        self.items.len() == 0
    }

    /// Whether some entry's size is qualified, so that the total is an upper
    /// bound.
    pub fn total_is_upper_bound(&self) -> (r: bool)
        ensures
            r == (self.promisable_bytes < self.total_bytes),
    {
        self.promisable_bytes < self.total_bytes
    }

    /// Entries whose stated size cannot be taken at face value.
    pub fn qualified(&self) -> (r: Vec<&PreviewItem>)
        ensures
            r@.len() == inexact(self.items@).len(),
            forall|i: int| 0 <= i < r@.len() ==> *(#[trigger] r@[i]) == inexact(self.items@)[i],
    {
        let mut out: Vec<&PreviewItem> = Vec::new();
        let mut i: usize = 0;
        assert(self.items@.take(0) =~= Seq::<PreviewItem>::empty());
        while i < self.items.len()
            invariant
                i <= self.items@.len(),
                out@.len() == inexact(self.items@.take(i as int)).len(),
                forall|k: int|
                    0 <= k < out@.len() ==> *(#[trigger] out@[k]) == inexact(
                        self.items@.take(i as int),
                    )[k],
            decreases self.items@.len() - i,
        {
            assert(self.items@.take(i + 1).drop_last() =~= self.items@.take(i as int));
            if !self.items[i].reclaimable.is_exact() {
                out.push(&self.items[i]);
            }
            i = i + 1;
        }
        assert(self.items@.take(i as int) =~= self.items@);
        out
    }
}

/// The items that a bulk selection may take along, in order.
pub open spec fn selectable(items: Seq<PreviewItem>) -> Seq<PreviewItem>
    decreases items.len(),
{
    if items.len() == 0 {
        items
    } else if items.last().safety == Safety::Safe || items.last().safety == Safety::Review {
        selectable(items.drop_last()).push(items.last())
    } else {
        selectable(items.drop_last())
    }
}

/// The items whose size is qualified, in order.
pub open spec fn inexact(items: Seq<PreviewItem>) -> Seq<PreviewItem>
    decreases items.len(),
{
    if items.len() == 0 {
        items
    } else if !(items.last().reclaimable is Exact) {
        inexact(items.drop_last()).push(items.last())
    } else {
        inexact(items.drop_last())
    }
}

/// Holds the one outstanding preview, so that an execution can be held to it.
/// A second preview supersedes the first, whose ticket is then worthless, and
/// an execution uses the ticket up.
#[derive(Debug)]
pub struct Session {
    outstanding: Option<Preview>,
    spent: bool,
}

impl Session {
    /// The preview that is outstanding.
    pub closed spec fn held(&self) -> Option<Preview> {
        self.outstanding
    }

    /// Whether its ticket has been used.
    pub closed spec fn used(&self) -> bool {
        self.spent
    }

    /// Whether a ticket is good for an execution: it is that of the
    /// outstanding preview, and has not been used.
    pub open spec fn admits(&self, ticket: Ticket) -> bool {
        self.held() matches Some(p) && p.ticket == ticket && !self.used()
    }

    /// The headline figures of the last preview.
    pub open spec fn figures(&self) -> Option<(u64, u64)> {
        match self.held() {
            Some(p) => Some((p.total_bytes, p.promisable_bytes)),
            None => None,
        }
    }

    /// A session without a preview.
    pub fn new() -> (r: Self)
        ensures
            r.held() is None,
            r.figures() is None,
            forall|ticket: Ticket| !(#[trigger] r.admits(ticket)),
    {
        Session { outstanding: None, spent: false }
    }

    /// The last preview's headline figures: the total and what may be
    /// promised of it. Executing it does not change them.
    pub fn last_preview(&self) -> (r: Option<(u64, u64)>)
        ensures
            r == self.figures(),
    {
        match &self.outstanding {
            Some(p) => Some((p.total_bytes, p.promisable_bytes)),
            None => None,
        }
    }

    /// Computes what would happen, and holds it for execution under the next
    /// ticket of a counter.
    pub fn preview(
        &mut self,
        counter: &mut Counter,
        offers: Vec<Offer>,
        briefs: &Vec<Brief>,
        advisories: Vec<Advisory>,
        guard: &Guard,
    ) -> (r: Result<Preview>)
        requires
            old(counter).upcoming() < u64::MAX,
            total(offered(*guard, offers@), stated()) <= u64::MAX,
        ensures
            match r {
                Ok(p) => {
                    &&& !interrupted(offers@)
                    &&& preview_shows(p, *guard, offers@, briefs@, advisories@)
                    &&& p.ticket.shown() == old(counter).upcoming()
                    &&& final(self).held() matches Some(q)
                    &&& same_preview(q, p)
                    &&& explains_present(q.explanations, briefs@, p.items@)
                    &&& final(self).admits(p.ticket)
                    &&& forall|earlier: Ticket|
                        earlier.shown() < old(counter).upcoming() ==> !(#[trigger] final(self)
                            .admits(earlier))
                    &&& final(self).figures() == Some((p.total_bytes, p.promisable_bytes))
                    &&& final(counter).upcoming() == old(counter).upcoming() + 1
                },
                Err(e) => interrupted(offers@) && is_cancelled_error(e) && *final(self) == *old(
                    self,
                ) && *final(counter) == *old(counter),
            },
    {
        let ghost all = offers@;
        let mut items: Vec<PreviewItem> = Vec::new();
        let mut refused: Vec<Refusal> = Vec::new();
        let mut total_bytes: u64 = 0;
        let mut promisable_bytes: u64 = 0;
        let mut safe_bytes: u64 = 0;
        let mut trashable_bytes: u64 = 0;
        proof {
            assert(all.take(0) =~= Seq::<Offer>::empty());
            assert(refusal_texts(refused@) =~= refused_of(*guard, all.take(0)));
        }
        for offer in it: offers
            invariant
                it.seq() == all,
                *self == *old(self),
                *counter == *old(counter),
                old(counter).upcoming() < u64::MAX,
                total(offered(*guard, all), stated()) <= u64::MAX,
                forall|k: int| 0 <= k < it.index() ==> !(#[trigger] all[k]).cancelled,
                items@ == offered(*guard, all.take(it.index() as int)),
                items@.len() <= it.index(),
                refusal_texts(refused@) == refused_of(*guard, all.take(it.index() as int)),
                total_bytes == total(items@, stated()),
                promisable_bytes == total(items@, promised()),
                safe_bytes == total(items@, promised_if_safe()),
                trashable_bytes == total(items@, promised_if_trashed()),
        {
            let ghost n = it.index() as int;
            assert(offer == all[n]);
            let ghost next = all.take(n + 1);
            assert(next.drop_last() =~= all.take(n));
            assert(next.last() == offer);
            let ghost refused_before = refusal_texts(refused@);
            let ghost items_before = items@;
            if offer.cancelled {
                return Err(AppError::cancelled());
            }
            let candidate = offer.candidate;
            let mut admitted = true;
            if candidate.method.acts_on_path() {
                match guard.verdict(candidate.path.as_str()) {
                    Verdict::Protected(refusal) => {
                        refused.push(refusal);
                        admitted = false;
                        assert(refusal_texts(refused@) =~= refused_before.push(
                            (refusal.path@, refusal.rule@, refusal.reason@),
                        ));
                    },
                    Verdict::Allowed => {},
                }
            }
            if admitted && matches!(candidate.safety, Safety::Never) {
                let refusal = Refusal {
                    path: candidate.path.clone(),
                    rule: "rated_never".to_owned(),
                    reason: "This is not reclaimable.".to_owned(),
                };
                refused.push(refusal);
                admitted = false;
                assert(refusal_texts(refused@) =~= refused_before.push(
                    (refusal.path@, refusal.rule@, refusal.reason@),
                ));
            }
            assert(admitted == (turned_away(*guard, offer.candidate) is None));
            if admitted {
                let reclaimable = if candidate.reclaimable.is_exact() {
                    offer.sharing
                } else {
                    candidate.reclaimable
                };
                let item = PreviewItem {
                    id: items.len() as u64,
                    path: candidate.path,
                    label: candidate.label,
                    bytes: candidate.bytes,
                    safety: candidate.safety,
                    method: candidate.method,
                    cost: candidate.cost,
                    category: candidate.category,
                    reclaimable,
                    fingerprint: offer.fingerprint,
                };
                assert(item == item_of(offer, items_before.len() as u64));
                let promise_bytes: u64 = item.reclaimable.promisable(item.bytes);
                let safe = item.safety.pre_checkable();
                let trashed = matches!(item.method, ReclaimMethod::MoveToTrash { .. });
                proof {
                    lemma_offered_grows(*guard, all, n + 1);
                    assert(items_before.push(item).drop_last() =~= items_before);
                    lemma_total_at_most(items_before, promised(), stated());
                    lemma_total_at_most(items_before, promised_if_safe(), stated());
                    lemma_total_at_most(items_before, promised_if_trashed(), stated());
                }
                total_bytes = total_bytes + item.bytes;
                promisable_bytes = promisable_bytes + promise_bytes;
                if safe {
                    safe_bytes = safe_bytes + promise_bytes;
                }
                if trashed {
                    trashable_bytes = trashable_bytes + promise_bytes;
                }
                items.push(item);
            }
        }
        assert(all.take(all.len() as int) =~= all);
        let ghost unsorted = items@;
        let items = sort(items);
        proof {
            lemma_total_in_order(unsorted, stated());
            lemma_total_in_order(unsorted, promised());
            lemma_total_in_order(unsorted, promised_if_safe());
            lemma_total_in_order(unsorted, promised_if_trashed());
        }
        let explanations = explain(briefs, &items);
        let ticket = Ticket { number: counter.take() };
        let preview = Preview {
            ticket,
            items,
            total_bytes,
            promisable_bytes,
            safe_bytes,
            trashable_bytes,
            refused,
            advisories,
            explanations,
        };
        let held = Preview {
            ticket,
            items: copy_items(&preview.items),
            total_bytes,
            promisable_bytes,
            safe_bytes,
            trashable_bytes,
            refused: copy_refusals(&preview.refused),
            advisories: copy_advisories(&preview.advisories),
            explanations: explain(briefs, &preview.items),
        };
        self.outstanding = Some(held);
        self.spent = false;
        Ok(preview)
    }

    /// The ticket with a number that came over a process boundary, where it is
    /// good for an execution.
    pub fn recall(&self, number: u64) -> (r: Result<Ticket>)
        ensures
            match self.held() {
                None => r matches Err(e) && never_previewed(e),
                Some(p) => if p.ticket.shown() != number {
                    r matches Err(e) && out_of_date(e)
                } else if self.used() {
                    r matches Err(e) && already_used(e)
                } else {
                    r == Ok::<Ticket, AppError>(p.ticket)
                },
            },
    {
        match &self.outstanding {
            Some(p) => if p.ticket.number != number {
                Err(stale())
            } else if self.spent {
                Err(used_up())
            } else {
                Ok(p.ticket)
            },
            None => Err(unseen()),
        }
    }

    /// Takes up a selection of the outstanding preview's items for execution.
    ///
    /// `selection` names items of the preview that the ticket belongs to. A
    /// name that was not in that preview is an error, not a silent skip. A
    /// ticket is good for one execution.
    pub fn execute(&mut self, ticket: Ticket, selection: &[u64]) -> (r: Result<Execution>)
        ensures
            executed(*old(self), ticket, selection@, r, *final(self)),
            final(self).figures() == old(self).figures(),
    {
        let preview = match &self.outstanding {
            Some(p) => if p.ticket != ticket {
                return Err(stale());
            } else if self.spent {
                return Err(used_up());
            } else {
                p
            },
            None => {
                return Err(unseen());
            },
        };
        let ghost shown = preview.items@;
        let mut chosen: Vec<PreviewItem> = Vec::new();
        let mut i: usize = 0;
        proof {
            lemma_first_missing(shown, selection@);
        }
        while i < selection.len()
            invariant
                i <= selection@.len(),
                old(self).held() == Some(*preview),
                !old(self).used(),
                preview.ticket == ticket,
                shown == preview.items@,
                chosen@.len() == i,
                i <= first_missing(shown, selection@) <= selection@.len(),
                first_missing(shown, selection@) < selection@.len() ==> item_at(
                    shown,
                    selection@[first_missing(shown, selection@)],
                ) == shown.len(),
                forall|k: int|
                    0 <= k < first_missing(shown, selection@) ==> item_at(
                        shown,
                        #[trigger] selection@[k],
                    ) < shown.len(),
                forall|k: int|
                    0 <= k < i ==> same_item(
                        #[trigger] chosen@[k],
                        shown[item_at(shown, selection@[k])],
                    ),
            decreases selection@.len() - i,
        {
            let id: u64 = selection[i];
            match find_item(&preview.items, id) {
                Some(at) => {
                    chosen.push(preview.items[at].clone());
                },
                None => {
                    let mut message = "Item ".to_owned();
                    push_u64(&mut message, id);
                    message.append(" was not part of the preview that was shown.");
                    return Err(AppError::invalid_input(message.as_str()));
                },
            }
            i = i + 1;
        }
        self.spent = true;
        Ok(Execution::begin(chosen))
    }

    /// Discards the outstanding preview.
    pub fn clear(&mut self)
        ensures
            final(self).held() is None,
            final(self).figures() is None,
            forall|ticket: Ticket| !(#[trigger] final(self).admits(ticket)),
    {
        self.outstanding = None;
        self.spent = false;
    }
}

impl Default for Session {
    fn default() -> (r: Self)
        ensures
            r.held() is None,
            r.figures() is None,
            forall|ticket: Ticket| !(#[trigger] r.admits(ticket)),
    {
        Session::new()
    }
}

/// Whether `r` is what taking up a selection gives, and `after` the session
/// then: the ticket is used up where an execution begins, and nothing changes
/// where none does.
pub open spec fn executed(
    before: Session,
    ticket: Ticket,
    selection: Seq<u64>,
    r: Result<Execution>,
    after: Session,
) -> bool {
    &&& match r {
        Ok(_) => before.admits(ticket) && after.held() == before.held() && after.used(),
        Err(_) => after == before,
    }
    &&& match before.held() {
        None => r matches Err(e) && never_previewed(e),
        Some(p) => if p.ticket != ticket {
            r matches Err(e) && out_of_date(e)
        } else if before.used() {
            r matches Err(e) && already_used(e)
        } else if first_missing(p.items@, selection) < selection.len() {
            r matches Err(e) && plain_error(
                e,
                ErrorCode::InvalidInput,
                "Item "@ + decimal(selection[first_missing(p.items@, selection)] as nat)
                    + " was not part of the preview that was shown."@,
            )
        } else {
            r matches Ok(x) && x.wf() && !x.stopped() && x.so_far().len() == 0 && selects(
                x.chosen(),
                p.items@,
                selection,
            )
        },
    }
}

/// A ticket is good for one execution: once it has begun one, another attempt
/// is refused and changes nothing, whatever it selects.
pub proof fn law_a_ticket_is_good_once(
    before: Session,
    ticket: Ticket,
    first: Seq<u64>,
    begun: Result<Execution>,
    between: Session,
    second: Seq<u64>,
    again: Result<Execution>,
    after: Session,
)
    requires
        executed(before, ticket, first, begun, between),
        begun is Ok,
        executed(between, ticket, second, again, after),
    ensures
        again matches Err(e) && e.code == ErrorCode::Refused,
        after == between,
{
}

/// A ticket that is not that of the outstanding preview, or that has been
/// used, begins nothing.
pub proof fn law_only_an_admitted_ticket_executes(
    before: Session,
    ticket: Ticket,
    selection: Seq<u64>,
    r: Result<Execution>,
    after: Session,
)
    requires
        executed(before, ticket, selection, r, after),
        !before.admits(ticket),
    ensures
        r matches Err(e) && e.code == ErrorCode::Refused,
        after == before,
{
}

/// Whether an error says that nothing was previewed.
pub open spec fn never_previewed(e: AppError) -> bool {
    refused_with(
        e,
        "Nothing can be reclaimed without previewing it first."@,
        "Run a scan, review what it found, then confirm."@,
    )
}

/// Whether an error says that a newer preview took the place of another.
pub open spec fn out_of_date(e: AppError) -> bool {
    refused_with(
        e,
        "That preview is out of date because a newer scan replaced it."@,
        "Review the current preview and try again."@,
    )
}

/// Whether an error says that a ticket has been used.
pub open spec fn already_used(e: AppError) -> bool {
    refused_with(
        e,
        "That preview has already been carried out."@,
        "Run a scan, review what it found, then confirm."@,
    )
}

fn unseen() -> (r: AppError)
    ensures
        never_previewed(r),
{
    AppError::refused(
        "Nothing can be reclaimed without previewing it first.".to_owned(),
    ).with_remedy("Run a scan, review what it found, then confirm.")
}

fn stale() -> (r: AppError)
    ensures
        out_of_date(r),
{
    AppError::refused(
        "That preview is out of date because a newer scan replaced it.".to_owned(),
    ).with_remedy("Review the current preview and try again.")
}

fn used_up() -> (r: AppError)
    ensures
        already_used(r),
{
    AppError::refused("That preview has already been carried out.".to_owned()).with_remedy(
        "Run a scan, review what it found, then confirm.",
    )
}

/// Whether an error is a refusal with this message and this remedy.
pub open spec fn refused_with(e: AppError, message: Seq<char>, remedy: Seq<char>) -> bool {
    &&& e.code == ErrorCode::Refused
    &&& e.message@ == message
    &&& opt_text(e.remedy) == Some(remedy)
    &&& e.cause is None
    &&& e.path is None
}

/// Where the item with this identifier first stands; the number of items
/// where it does not.
pub open spec fn item_at(items: Seq<PreviewItem>, id: u64) -> int
    decreases items.len(),
{
    if items.len() == 0 || items[0].id == id {
        0
    } else {
        1 + item_at(items.skip(1), id)
    }
}

/// The first place in a selection that names no item; the length of the
/// selection where every one does.
pub open spec fn first_missing(items: Seq<PreviewItem>, selection: Seq<u64>) -> int
    decreases selection.len(),
{
    if selection.len() == 0 || item_at(items, selection[0]) == items.len() {
        0
    } else {
        1 + first_missing(items, selection.skip(1))
    }
}

/// Whether `chosen` is what a selection names, in the order of the selection.
pub open spec fn selects(
    chosen: Seq<PreviewItem>,
    items: Seq<PreviewItem>,
    selection: Seq<u64>,
) -> bool {
    &&& chosen.len() == selection.len()
    &&& forall|k: int|
        0 <= k < selection.len() ==> item_at(items, selection[k]) < items.len() && same_item(
            #[trigger] chosen[k],
            items[item_at(items, selection[k])],
        )
}

proof fn lemma_item_at(items: Seq<PreviewItem>, id: u64)
    ensures
        0 <= item_at(items, id) <= items.len(),
        item_at(items, id) < items.len() ==> items[item_at(items, id)].id == id,
        forall|k: int| 0 <= k < item_at(items, id) ==> (#[trigger] items[k]).id != id,
    decreases items.len(),
{
    if items.len() > 0 && items[0].id != id {
        lemma_item_at(items.skip(1), id);
        assert forall|k: int| 0 <= k < item_at(items, id) implies (#[trigger] items[k]).id
            != id by {
            if k > 0 {
                assert(items[k] == items.skip(1)[k - 1]);
            }
        }
    }
}

proof fn lemma_first_missing(items: Seq<PreviewItem>, selection: Seq<u64>)
    ensures
        0 <= first_missing(items, selection) <= selection.len(),
        first_missing(items, selection) < selection.len() ==> item_at(
            items,
            selection[first_missing(items, selection)],
        ) == items.len(),
        forall|k: int|
            0 <= k < first_missing(items, selection) ==> item_at(items, #[trigger] selection[k])
                < items.len(),
    decreases selection.len(),
{
    if selection.len() > 0 {
        lemma_item_at(items, selection[0]);
        if item_at(items, selection[0]) != items.len() {
            lemma_first_missing(items, selection.skip(1));
            assert forall|k: int| 0 <= k < first_missing(items, selection) implies item_at(
                items,
                #[trigger] selection[k],
            ) < items.len() by {
                if k > 0 {
                    assert(selection[k] == selection.skip(1)[k - 1]);
                }
            }
        }
    }
}

/// Where the item with this identifier first stands.
fn find_item(items: &Vec<PreviewItem>, id: u64) -> (r: Option<usize>)
    ensures
        match r {
            Some(i) => i == item_at(items@, id) && i < items@.len(),
            None => item_at(items@, id) == items@.len(),
        },
{
    proof {
        lemma_item_at(items@, id);
    }
    let mut i: usize = 0;
    while i < items.len()
        invariant
            i <= items@.len(),
            i <= item_at(items@, id) <= items@.len(),
            item_at(items@, id) < items@.len() ==> items@[item_at(items@, id)].id == id,
            forall|k: int| 0 <= k < item_at(items@, id) ==> (#[trigger] items@[k]).id != id,
        decreases items@.len() - i,
    {
        if items[i].id == id {
            return Some(i);
        }
        i = i + 1;
    }
    None
}

// ---------------------------------------------------------------------------
// Attribution
// ---------------------------------------------------------------------------

/// The package stores in a home directory that lie outside its cache.
pub open spec fn store_directories() -> Seq<Seq<char>> {
    seq![".npm"@, ".cargo"@, ".m2"@, ".gradle"@, "go/pkg/mod"@, ".local/share/pnpm"@]
}

/// Whether a path lies within something in the home directory.
pub open spec fn in_home(path: Seq<char>, home: Option<Seq<char>>, relative: Seq<char>) -> bool {
    home matches Some(h) && path_within(path, joined(h, relative))
}

/// Whether a path lies strictly below a directory.
pub open spec fn below(path: Seq<char>, root: Option<Seq<char>>) -> bool {
    root matches Some(r) && path_within(path, r) && components(path) != components(r)
}

/// The kind of space that a directory is, from its path and from whether a
/// build tool's marker was found in it.
pub open spec fn class_of(path: Seq<char>, corroborated: bool, env: Environment) -> SpaceCategory {
    let home = home_of(env);
    if corroborated {
        SpaceCategory::BuildArtifact
    } else if below(path, base_directory(opt_text(env.cache_home), home, ".cache"@)) {
        SpaceCategory::AppCache
    } else if in_home(path, home, ".local/share/Trash"@) {
        SpaceCategory::Trash
    } else if exists|i: int|
        0 <= i < store_directories().len() && in_home(
            path,
            home,
            #[trigger] store_directories()[i],
        ) {
        SpaceCategory::PackageCache
    } else if path_within(path, "/var/log/journal"@) {
        SpaceCategory::Journal
    } else if path_within(path, "/var/log"@) {
        SpaceCategory::Log
    } else if path_within(path, "/var/cache"@) {
        SpaceCategory::PackageCache
    } else if path_within(path, "/var/lib/docker"@) || path_within(path, "/var/lib/containers"@) {
        SpaceCategory::ContainerImage
    } else if path_within(path, "/var/lib/snapd"@) || path_within(path, "/var/lib/flatpak"@) {
        SpaceCategory::PackagePayload
    } else if home matches Some(h) && path_within(path, h) {
        SpaceCategory::UserFile
    } else {
        SpaceCategory::Unknown
    }
}

fn str_within(path: &[char], prefix: &str) -> (r: bool)
    ensures
        r == path_within(path@, prefix@),
{
    let chars = chars_of(prefix);
    is_within(path, chars.as_slice())
}

fn is_in_home(path: &[char], home: Option<&str>, relative: &str) -> (r: bool)
    ensures
        r == in_home(path@, crate::paths::opt_str(home), relative@),
{
    match home {
        Some(h) => {
            let dir = join(h, relative);
            str_within(path, dir.as_str())
        },
        None => false,
    }
}

/// Whether a path lies strictly below a directory.
fn is_below(path: &[char], root: &str) -> (r: bool)
    ensures
        r == below(path@, Some(root@)),
{
    let chars = chars_of(root);
    let inside = is_within(path, chars.as_slice());
    let back = is_within(chars.as_slice(), path);
    proof {
        let p = components(path@);
        let q = components(root@);
        if inside && back {
            assert(p.take(q.len() as int) =~= p);
        }
        if p == q {
            crate::paths::law_within_is_reflexive(root@);
            assert(q.take(p.len() as int) =~= q);
        }
    }
    inside && !back
}

/// Attributes a directory to a kind of space, given the files beside it and
/// inside it. A marker that only a build tool writes is the strongest sign.
/// What nothing recognises stays unknown, since a guess is worse than no
/// attribution.
pub fn classify(
    path: &str,
    beside: &Vec<String>,
    inside: &Vec<String>,
    env: &Environment,
) -> (r: SpaceCategory)
    ensures
        r == class_of(
            path@,
            vouched(path@, texts(beside@), texts(inside@)) is Some,
            *env,
        ),
{
    let corroborated = corroborate(path, beside, inside).is_some();
    if corroborated {
        return SpaceCategory::BuildArtifact;
    }
    let chars = chars_of(path);
    let slice = chars.as_slice();
    let home = home_dir(env);
    let cache = base_dir(
        match &env.cache_home {
            Some(v) => Some(v.as_str()),
            None => None,
        },
        home,
        ".cache",
    );
    if let Some(root) = &cache {
        if is_below(slice, root.as_str()) {
            return SpaceCategory::AppCache;
        }
    }
    if is_in_home(slice, home, ".local/share/Trash") {
        return SpaceCategory::Trash;
    }
    let stores = vec![".npm", ".cargo", ".m2", ".gradle", "go/pkg/mod", ".local/share/pnpm"];
    let mut i: usize = 0;
    while i < stores.len()
        invariant
            i <= stores@.len() == store_directories().len(),
            slice@ == path@,
            !corroborated,
            corroborated == (vouched(path@, texts(beside@), texts(inside@)) is Some),
            crate::paths::opt_str(home) == home_of(*env),
            !below(path@, base_directory(opt_text(env.cache_home), home_of(*env), ".cache"@)),
            !in_home(path@, home_of(*env), ".local/share/Trash"@),
            forall|k: int|
                0 <= k < stores@.len() ==> (#[trigger] stores@[k])@ == store_directories()[k],
            forall|k: int|
                0 <= k < i ==> !in_home(
                    path@,
                    home_of(*env),
                    #[trigger] store_directories()[k],
                ),
        decreases stores@.len() - i,
    {
        assert(stores@[i as int]@ == store_directories()[i as int]);
        if is_in_home(slice, home, stores[i]) {
            return SpaceCategory::PackageCache;
        }
        i = i + 1;
    }
    if str_within(slice, "/var/log/journal") {
        return SpaceCategory::Journal;
    }
    if str_within(slice, "/var/log") {
        return SpaceCategory::Log;
    }
    if str_within(slice, "/var/cache") {
        return SpaceCategory::PackageCache;
    }
    if str_within(slice, "/var/lib/docker") || str_within(slice, "/var/lib/containers") {
        return SpaceCategory::ContainerImage;
    }
    if str_within(slice, "/var/lib/snapd") || str_within(slice, "/var/lib/flatpak") {
        return SpaceCategory::PackagePayload;
    }
    if let Some(h) = home {
        if str_within(slice, h) {
            return SpaceCategory::UserFile;
        }
    }
    SpaceCategory::Unknown
}

// ---------------------------------------------------------------------------
// What every preview promises
// ---------------------------------------------------------------------------

proof fn lemma_offered_is_admitted(guard: Guard, offers: Seq<Offer>)
    ensures
        forall|i: int|
            0 <= i < offered(guard, offers).len() ==> {
                let item = #[trigger] offered(guard, offers)[i];
                &&& item.id == i as u64
                &&& item.safety != Safety::Never
                &&& on_path(item.method) ==> guard_objection(guard, item.path@) is None
            },
    decreases offers.len(),
{
    if offers.len() > 0 {
        lemma_offered_is_admitted(guard, offers.drop_last());
    }
}

proof fn lemma_in_order_elements(s: Seq<PreviewItem>)
    ensures
        in_order(s).len() == s.len(),
        forall|i: int| 0 <= i < s.len() ==> s.contains(#[trigger] in_order(s)[i]),
    decreases s.len(),
{
    if s.len() > 0 {
        let before = in_order(s.drop_last());
        lemma_in_order_elements(s.drop_last());
        lemma_place_in_range(before, s.last());
        let at = place(before, s.last());
        assert forall|i: int| 0 <= i < s.len() implies s.contains(#[trigger] in_order(s)[i]) by {
            if i == at {
                assert(s[s.len() - 1] == in_order(s)[i]);
            } else {
                let j = if i < at {
                    i
                } else {
                    i - 1
                };
                assert(in_order(s)[i] == before[j]);
                let k = choose|k: int|
                    0 <= k < s.drop_last().len() && s.drop_last()[k] == before[j];
                assert(s[k] == before[j]);
            }
        }
    }
}

/// Nothing protected, and nothing rated never to be reclaimed, is offered.
pub proof fn law_nothing_protected_is_offered(
    p: Preview,
    guard: Guard,
    offers: Seq<Offer>,
    briefs: Seq<Brief>,
    advisories: Seq<Advisory>,
    i: int,
)
    requires
        preview_shows(p, guard, offers, briefs, advisories),
        0 <= i < p.items@.len(),
    ensures
        p.items@[i].safety != Safety::Never,
        on_path(p.items@[i].method) ==> guard_objection(guard, p.items@[i].path@) is None,
{
    let s = offered(guard, offers);
    lemma_offered_is_admitted(guard, offers);
    lemma_in_order_elements(s);
    assert(s.contains(p.items@[i]));
}

/// The offers that are admitted, in order.
pub open spec fn admitted(guard: Guard, offers: Seq<Offer>) -> Seq<Offer>
    decreases offers.len(),
{
    if offers.len() == 0 {
        offers
    } else if turned_away(guard, offers.last().candidate) is None {
        admitted(guard, offers.drop_last()).push(offers.last())
    } else {
        admitted(guard, offers.drop_last())
    }
}

/// The offers that are turned away, in order.
pub open spec fn dismissed(guard: Guard, offers: Seq<Offer>) -> Seq<Offer>
    decreases offers.len(),
{
    if offers.len() == 0 {
        offers
    } else if turned_away(guard, offers.last().candidate) is None {
        dismissed(guard, offers.drop_last())
    } else {
        dismissed(guard, offers.drop_last()).push(offers.last())
    }
}

/// The items of some offers, numbered from zero.
pub open spec fn numbered(offers: Seq<Offer>) -> Seq<PreviewItem> {
    Seq::new(offers.len(), |i: int| item_of(offers[i], i as u64))
}

/// What is said of an offer that is turned away: path, rule and reason.
pub open spec fn dismissal(guard: Guard, offer: Offer) -> (Seq<char>, Seq<char>, Seq<char>) {
    let (rule, reason) = turned_away(guard, offer.candidate)->0;
    (offer.candidate.path@, rule, reason)
}

proof fn lemma_offered_is_numbered(guard: Guard, offers: Seq<Offer>)
    ensures
        offered(guard, offers) == numbered(admitted(guard, offers)),
        refused_of(guard, offers) == dismissed(guard, offers).map_values(
            |o: Offer| dismissal(guard, o),
        ),
        admitted(guard, offers).len() <= offers.len(),
    decreases offers.len(),
{
    let said = |o: Offer| dismissal(guard, o);
    if offers.len() > 0 {
        lemma_offered_is_numbered(guard, offers.drop_last());
        let rest = admitted(guard, offers.drop_last());
        if turned_away(guard, offers.last().candidate) is None {
            assert(numbered(rest.push(offers.last())) =~= numbered(rest).push(
                item_of(offers.last(), rest.len() as u64),
            ));
        } else {
            let out = dismissed(guard, offers.drop_last());
            assert(out.push(offers.last()).map_values(said) =~= out.map_values(said).push(
                said(offers.last()),
            ));
        }
    } else {
        assert(numbered(offers) =~= Seq::<PreviewItem>::empty());
        assert(offers.map_values(said) =~= Seq::<(Seq<char>, Seq<char>, Seq<char>)>::empty());
    }
}

/// Whether one item is listed before another: it is larger, or as large and
/// found earlier.
pub open spec fn listed_before(a: PreviewItem, b: PreviewItem) -> bool {
    a.bytes > b.bytes || a.bytes == b.bytes && a.id < b.id
}

proof fn lemma_ties_keep_their_order(s: Seq<PreviewItem>)
    requires
        forall|i: int, j: int| 0 <= i < j < s.len() ==> (#[trigger] s[i]).id < (#[trigger] s[j]).id,
    ensures
        forall|i: int, j: int|
            0 <= i < j < in_order(s).len() ==> listed_before(
                #[trigger] in_order(s)[i],
                #[trigger] in_order(s)[j],
            ),
    decreases s.len(),
{
    if s.len() > 0 {
        let rest = s.drop_last();
        let before = in_order(rest);
        let x = s.last();
        assert forall|i: int, j: int| 0 <= i < j < rest.len() implies (#[trigger] rest[i]).id < (
        #[trigger] rest[j]).id by {
            assert(rest[i] == s[i] && rest[j] == s[j]);
        }
        lemma_ties_keep_their_order(rest);
        lemma_place_in_range(before, x);
        lemma_in_order_elements(rest);
        let at = place(before, x);
        let after = before.insert(at, x);
        assert forall|k: int| 0 <= k < before.len() implies (#[trigger] before[k]).id < x.id by {
            assert(rest.contains(before[k]));
            let m = choose|m: int| 0 <= m < rest.len() && rest[m] == before[k];
            assert(s[m].id < s[s.len() - 1].id);
        }
        assert forall|k: int| 0 <= k < at implies (#[trigger] before[k]).bytes >= x.bytes by {
            if k < at - 1 {
                assert(listed_before(before[k], before[at - 1]));
            }
        }
        assert forall|i: int, j: int| 0 <= i < j < after.len() implies listed_before(
            #[trigger] after[i],
            #[trigger] after[j],
        ) by {
            let p = if i < at { i } else { i - 1 };
            let q = if j < at { j } else { j - 1 };
            if i != at {
                assert(after[i] == before[p]);
            }
            if j != at {
                assert(after[j] == before[q]);
            }
            if i == at {
                assert(PreviewItem::precedes(x, before[q]));
            }
        }
    }
}

/// A preview shows exactly the candidates that are admitted, each once, with
/// everything they said, numbered as they were found and listed largest first,
/// those of one size as they were found; and it refuses every other one, once,
/// with the rule that turned it away.
pub proof fn law_a_preview_shows_what_is_admitted(
    p: Preview,
    guard: Guard,
    offers: Seq<Offer>,
    briefs: Seq<Brief>,
    advisories: Seq<Advisory>,
)
    requires
        preview_shows(p, guard, offers, briefs, advisories),
        offers.len() <= u64::MAX,
    ensures
        p.items@.to_multiset() =~= numbered(admitted(guard, offers)).to_multiset(),
        p.items@.len() == admitted(guard, offers).len(),
        forall|i: int, j: int|
            0 <= i < j < p.items@.len() ==> listed_before(
                #[trigger] p.items@[i],
                #[trigger] p.items@[j],
            ),
        refusal_texts(p.refused@) == dismissed(guard, offers).map_values(
            |o: Offer| dismissal(guard, o),
        ),
{
    lemma_offered_is_numbered(guard, offers);
    let found = numbered(admitted(guard, offers));
    law_sorting_keeps_every_element(found);
    lemma_ties_keep_their_order(found);
}

/// A preview lists the largest item first.
pub proof fn law_largest_first(
    p: Preview,
    guard: Guard,
    offers: Seq<Offer>,
    briefs: Seq<Brief>,
    advisories: Seq<Advisory>,
    i: int,
    j: int,
)
    requires
        preview_shows(p, guard, offers, briefs, advisories),
        0 <= i < j < p.items@.len(),
    ensures
        p.items@[i].bytes >= p.items@[j].bytes,
{
    crate::order::law_sorted_is_ordered(offered(guard, offers));
    assert(!PreviewItem::precedes(p.items@[j], p.items@[i]));
}

/// What may be promised is at most the total; what is safe to pre-check and
/// what would only be trashed are each at most what may be promised.
pub proof fn law_promises_are_within_the_total(
    p: Preview,
    guard: Guard,
    offers: Seq<Offer>,
    briefs: Seq<Brief>,
    advisories: Seq<Advisory>,
)
    requires
        preview_shows(p, guard, offers, briefs, advisories),
    ensures
        p.promisable_bytes <= p.total_bytes,
        p.safe_bytes <= p.promisable_bytes,
        p.trashable_bytes <= p.promisable_bytes,
{
    lemma_total_at_most(p.items@, promised(), stated());
    lemma_total_at_most(p.items@, promised_if_safe(), promised());
    lemma_total_at_most(p.items@, promised_if_trashed(), promised());
}

/// Where every size can be taken at face value, all of the total is promised.
pub proof fn law_exact_sizes_are_promised_whole(items: Seq<PreviewItem>)
    requires
        forall|i: int| 0 <= i < items.len() ==> (#[trigger] items[i]).reclaimable is Exact,
    ensures
        total(items, promised()) == total(items, stated()),
    decreases items.len(),
{
    if items.len() > 0 {
        assert forall|i: int| 0 <= i < items.drop_last().len() implies (
        #[trigger] items.drop_last()[i]).reclaimable is Exact by {
            assert(items.drop_last()[i] == items[i]);
        }
        law_exact_sizes_are_promised_whole(items.drop_last());
    }
}

/// Every candidate is either offered or refused, once.
pub proof fn law_every_candidate_is_accounted_for(guard: Guard, offers: Seq<Offer>)
    ensures
        offered(guard, offers).len() + refused_of(guard, offers).len() == offers.len(),
    decreases offers.len(),
{
    if offers.len() > 0 {
        law_every_candidate_is_accounted_for(guard, offers.drop_last());
    }
}

/// Every item of a preview whose category is registered has an explanation
/// under that category's label.
pub proof fn law_every_item_is_explained(
    p: Preview,
    guard: Guard,
    offers: Seq<Offer>,
    briefs: Seq<Brief>,
    advisories: Seq<Advisory>,
    i: int,
    k: int,
)
    requires
        preview_shows(p, guard, offers, briefs, advisories),
        0 <= i < p.items@.len(),
        0 <= k < briefs.len(),
        p.items@[i].category@ == briefs[k].id@,
    ensures
        p.explanations.has(briefs[k].label@),
{
    lemma_present_is_found(briefs, p.items@, k);
}

proof fn lemma_present_is_found(briefs: Seq<Brief>, items: Seq<PreviewItem>, k: int)
    requires
        0 <= k < briefs.len(),
        present(items, briefs[k].id@),
    ensures
        last_present(briefs, items, briefs[k].label@) >= 0,
    decreases briefs.len(),
{
    if k < briefs.len() - 1 {
        assert(briefs.drop_last()[k] == briefs[k]);
        lemma_present_is_found(briefs.drop_last(), items, k);
    }
}

/// The figures of a preview are sums over its items: what is stated of each,
/// what may be promised of each, and of that what is safe, and what is only
/// moved to the trash.
pub proof fn law_the_figures_are_sums_over_the_items(
    p: Preview,
    guard: Guard,
    offers: Seq<Offer>,
    briefs: Seq<Brief>,
    advisories: Seq<Advisory>,
)
    requires
        preview_shows(p, guard, offers, briefs, advisories),
    ensures
        p.total_bytes == total(p.items@, |i: PreviewItem| i.bytes as nat),
        p.promisable_bytes == total(
            p.items@,
            |i: PreviewItem| promise(i.reclaimable, i.bytes) as nat,
        ),
        p.safe_bytes == total(
            p.items@,
            |i: PreviewItem|
                if i.safety == Safety::Safe {
                    promise(i.reclaimable, i.bytes) as nat
                } else {
                    0
                },
        ),
        p.trashable_bytes == total(
            p.items@,
            |i: PreviewItem|
                if i.method is MoveToTrash {
                    promise(i.reclaimable, i.bytes) as nat
                } else {
                    0
                },
        ),
        p.advisories@ == advisories,
{
    let a = |i: PreviewItem| i.bytes as nat;
    let b = |i: PreviewItem| promise(i.reclaimable, i.bytes) as nat;
    let c = |i: PreviewItem|
        if i.safety == Safety::Safe {
            promise(i.reclaimable, i.bytes) as nat
        } else {
            0
        };
    let d = |i: PreviewItem|
        if i.method is MoveToTrash {
            promise(i.reclaimable, i.bytes) as nat
        } else {
            0
        };
    lemma_same_total(p.items@, stated(), a);
    lemma_same_total(p.items@, promised(), b);
    lemma_same_total(p.items@, promised_if_safe(), c);
    lemma_same_total(p.items@, promised_if_trashed(), d);
}

proof fn lemma_same_total(
    s: Seq<PreviewItem>,
    f: spec_fn(PreviewItem) -> nat,
    g: spec_fn(PreviewItem) -> nat,
)
    requires
        forall|i: PreviewItem| #[trigger] f(i) == g(i),
    ensures
        total(s, f) == total(s, g),
    decreases s.len(),
{
    if s.len() > 0 {
        lemma_same_total(s.drop_last(), f, g);
        assert(f(s.last()) == g(s.last()));
    }
}

/// A sum over some items counts each of them once.
pub proof fn law_each_item_counts_once(
    s: Seq<PreviewItem>,
    i: PreviewItem,
    f: spec_fn(PreviewItem) -> nat,
)
    ensures
        total(s.push(i), f) == total(s, f) + f(i),
        total(Seq::<PreviewItem>::empty(), f) == 0,
{
    assert(s.push(i).drop_last() =~= s);
}

/// An item is what its category proposed, with what its path looked like. Only
/// what is promised of it may be less: where the category knows of no sharing,
/// what the filesystem says counts.
pub proof fn law_an_item_is_what_was_proposed(offer: Offer, id: u64)
    ensures
        item_of(offer, id).id == id,
        item_of(offer, id).path == offer.candidate.path,
        item_of(offer, id).label == offer.candidate.label,
        item_of(offer, id).bytes == offer.candidate.bytes,
        item_of(offer, id).safety == offer.candidate.safety,
        item_of(offer, id).method == offer.candidate.method,
        item_of(offer, id).cost == offer.candidate.cost,
        item_of(offer, id).category == offer.candidate.category,
        item_of(offer, id).fingerprint == offer.fingerprint,
        offer.candidate.reclaimable is Exact ==> item_of(offer, id).reclaimable == offer.sharing,
        offer.candidate.reclaimable is AtMost ==> item_of(offer, id).reclaimable
            == offer.candidate.reclaimable,
{
}

/// Who is turned away: what the rules object to at a path, with their
/// objection; and what is rated never to be touched. What is reclaimed by name
/// has no path for the rules to judge.
pub proof fn law_who_is_turned_away(guard: Guard, c: Candidate)
    ensures
        ({
            let at_path = match c.method {
                ReclaimMethod::MoveToTrash { .. } => true,
                ReclaimMethod::TrashEmpty { .. } => true,
                ReclaimMethod::SystemFile { .. } => true,
                ReclaimMethod::Unlink { .. } => true,
                _ => false,
            };
            match guard_objection(guard, c.path@) {
                Some(objection) if at_path => turned_away(guard, c) == Some(objection),
                _ => (turned_away(guard, c) is Some) == (c.safety == Safety::Never) && (
                turned_away(guard, c) matches Some(why) ==> why.0 == "rated_never"@),
            }
        }),
{
}

/// Each admitted offer becomes an item, each other one a refusal of its own
/// path, in the order in which they came.
pub proof fn law_each_offer_is_admitted_or_refused(guard: Guard, offers: Seq<Offer>, o: Offer)
    requires
        offers.len() < u64::MAX,
    ensures
        match turned_away(guard, o.candidate) {
            None => {
                &&& offered(guard, offers.push(o)).len() == offered(guard, offers).len() + 1
                &&& offered(guard, offers.push(o)).drop_last() == offered(guard, offers)
                &&& offered(guard, offers.push(o)).last().path == o.candidate.path
                &&& offered(guard, offers.push(o)).last().method == o.candidate.method
                &&& offered(guard, offers.push(o)).last().bytes == o.candidate.bytes
                &&& offered(guard, offers.push(o)).last().id == offered(guard, offers).len()
                &&& refused_of(guard, offers.push(o)) == refused_of(guard, offers)
            },
            Some(why) => {
                &&& offered(guard, offers.push(o)) == offered(guard, offers)
                &&& refused_of(guard, offers.push(o)) == refused_of(guard, offers).push(
                    (o.candidate.path@, why.0, why.1),
                )
            },
        },
{
    assert(offers.push(o).drop_last() =~= offers);
    lemma_offered_len(guard, offers);
    if turned_away(guard, o.candidate) is None {
        let before = offered(guard, offers);
        assert(before.push(item_of(o, before.len() as u64)).drop_last() =~= before);
    }
}

/// What is taken along without a decision of its own is safe, or has a stated
/// cost; nothing risky is.
pub proof fn law_only_safe_and_reviewed_items_are_taken_along(
    items: Seq<PreviewItem>,
    i: PreviewItem,
)
    ensures
        i.safety == Safety::Safe || i.safety == Safety::Review ==> selectable(items.push(i))
            == selectable(items).push(i),
        i.safety == Safety::Risky || i.safety == Safety::Never ==> selectable(items.push(i))
            == selectable(items),
        i.reclaimable is Exact ==> inexact(items.push(i)) == inexact(items),
        i.reclaimable is AtMost ==> inexact(items.push(i)) == inexact(items).push(i),
{
    assert(items.push(i).drop_last() =~= items);
}

/// Whether an item is, in everything that counts for reclaiming it, one that
/// was shown.
pub open spec fn was_shown(item: PreviewItem, shown: Seq<PreviewItem>) -> bool {
    exists|j: int|
        0 <= j < shown.len() && (#[trigger] shown[j]).id == item.id && shown[j].path == item.path
            && shown[j].bytes == item.bytes && shown[j].fingerprint == item.fingerprint
            && same_method(item.method, shown[j].method)
}

/// Exactly what was selected is executed, in the order of the selection, and
/// each item is the one that was shown under that id, with its path, its
/// method and what its path looked like.
pub proof fn law_exactly_what_was_selected_is_executed(
    before: Session,
    ticket: Ticket,
    selection: Seq<u64>,
    x: Execution,
    after: Session,
)
    requires
        executed(before, ticket, selection, Ok(x), after),
    ensures
        before.held() matches Some(p) && p.ticket == ticket && x.chosen().len() == selection.len()
            && (forall|k: int|
            0 <= k < selection.len() ==> (#[trigger] x.chosen()[k]).id == selection[k] && was_shown(
                x.chosen()[k],
                p.items@,
            )) && x.so_far().len() == 0,
{
    let p = before.held()->0;
    assert forall|k: int| 0 <= k < selection.len() implies (#[trigger] x.chosen()[k]).id
        == selection[k] && was_shown(x.chosen()[k], p.items@) by {
        lemma_item_at(p.items@, selection[k]);
        assert(same_item(x.chosen()[k], p.items@[item_at(p.items@, selection[k])]));
    }
}

/// A selection is refused exactly where it names something that was not
/// shown.
pub proof fn law_only_shown_items_can_be_selected(items: Seq<PreviewItem>, selection: Seq<u64>)
    ensures
        0 <= first_missing(items, selection) <= selection.len(),
        first_missing(items, selection) < selection.len() <==> exists|k: int|
            0 <= k < selection.len() && forall|j: int|
                0 <= j < items.len() ==> (#[trigger] items[j]).id != #[trigger] selection[k],
    decreases selection.len(),
{
    if selection.len() > 0 {
        lemma_item_at(items, selection[0]);
        law_only_shown_items_can_be_selected(items, selection.skip(1));
        let rest = selection.skip(1);
        if item_at(items, selection[0]) < items.len() {
            if first_missing(items, rest) < rest.len() {
                let k = choose|k: int|
                    0 <= k < rest.len() && forall|j: int|
                        0 <= j < items.len() ==> (#[trigger] items[j]).id != #[trigger] rest[k];
                assert(selection[k + 1] == rest[k]);
            }
            if exists|k: int|
                0 <= k < selection.len() && forall|j: int|
                    0 <= j < items.len() ==> (#[trigger] items[j]).id != #[trigger] selection[k] {
                let k = choose|k: int|
                    0 <= k < selection.len() && forall|j: int|
                        0 <= j < items.len() ==> (#[trigger] items[j]).id
                            != #[trigger] selection[k];
                if k == 0 {
                    assert(items[item_at(items, selection[0])].id == selection[0]);
                } else {
                    assert(rest[k - 1] == selection[k]);
                }
            }
        } else {
            assert(forall|j: int|
                0 <= j < items.len() ==> (#[trigger] items[j]).id != selection[0]);
        }
    }
}

/// What a directory counts as is decided by where it is, and every class is of
/// its own places only; what lies in none of them is unknown.
pub proof fn law_a_class_is_a_place(path: Seq<char>, env: Environment)
    ensures
        class_of(path, true, env) == SpaceCategory::BuildArtifact,
        class_of(path, false, env) != SpaceCategory::BuildArtifact,
        class_of(path, false, env) == SpaceCategory::Journal ==> path_within(
            path,
            "/var/log/journal"@,
        ),
        class_of(path, false, env) == SpaceCategory::Log ==> path_within(path, "/var/log"@)
            && !path_within(path, "/var/log/journal"@),
        class_of(path, false, env) == SpaceCategory::ContainerImage ==> path_within(
            path,
            "/var/lib/docker"@,
        ) || path_within(path, "/var/lib/containers"@),
        class_of(path, false, env) == SpaceCategory::PackagePayload ==> path_within(
            path,
            "/var/lib/snapd"@,
        ) || path_within(path, "/var/lib/flatpak"@),
        class_of(path, false, env) == SpaceCategory::Trash ==> (home_of(env) matches Some(h)
            && path_within(path, joined(h, ".local/share/Trash"@))),
        class_of(path, false, env) == SpaceCategory::UserFile ==> (home_of(env) matches Some(h)
            && path_within(path, h)),
        class_of(path, false, env) == SpaceCategory::PackageCache ==> path_within(
            path,
            "/var/cache"@,
        ) || (home_of(env) matches Some(h) && (path_within(path, joined(h, ".npm"@))
            || path_within(path, joined(h, ".cargo"@)) || path_within(path, joined(h, ".m2"@))
            || path_within(path, joined(h, ".gradle"@)) || path_within(path, joined(h, "go/pkg/mod"@))
            || path_within(path, joined(h, ".local/share/pnpm"@)))),
        class_of(path, false, env) == SpaceCategory::AppCache ==> (base_directory(
            opt_text(env.cache_home),
            home_of(env),
            ".cache"@,
        ) matches Some(c) && path_within(path, c) && components(path) != components(c)),
        class_of(path, false, env) == SpaceCategory::Unknown ==> !path_within(path, "/var/log"@)
            && !path_within(path, "/var/cache"@) && !path_within(path, "/var/lib/docker"@)
            && !path_within(path, "/var/lib/containers"@) && !path_within(path, "/var/lib/snapd"@)
            && !path_within(path, "/var/lib/flatpak"@) && (home_of(env) matches Some(h)
            ==> !path_within(path, h)),
{
    if class_of(path, false, env) == SpaceCategory::PackageCache && !path_within(
        path,
        "/var/cache"@,
    ) {
        let i = choose|i: int|
            0 <= i < store_directories().len() && in_home(
                path,
                home_of(env),
                #[trigger] store_directories()[i],
            );
        assert(0 <= i < 6);
    }
}

/// An explanation is that of a category with that label which has an item in
/// the preview.
pub proof fn law_explanations_are_the_categories_own(
    m: TextMap<String>,
    briefs: Seq<Brief>,
    items: Seq<PreviewItem>,
    label: Seq<char>,
)
    requires
        explains_present(m, briefs, items),
        m.has(label),
    ensures
        exists|k: int|
            0 <= k < briefs.len() && (#[trigger] briefs[k]).label@ == label && briefs[k].explains@
                == m.value(label)@ && exists|i: int|
                0 <= i < items.len() && (#[trigger] items[i]).category@ == briefs[k].id@,
{
    lemma_last_present_is(briefs, items, label);
    let k = last_present(briefs, items, label);
    assert(present(items, briefs[k].id@));
    assert(briefs[k].label@ == label);
}

proof fn lemma_last_present_is(briefs: Seq<Brief>, items: Seq<PreviewItem>, label: Seq<char>)
    ensures
        last_present(briefs, items, label) < briefs.len(),
        last_present(briefs, items, label) >= 0 ==> briefs[last_present(briefs, items, label)].label@
            == label && present(items, briefs[last_present(briefs, items, label)].id@),
    decreases briefs.len(),
{
    if briefs.len() > 0 {
        lemma_last_present_is(briefs.drop_last(), items, label);
    }
}

/// An item is taken along only where it is safe or has a stated cost, and a
/// total is an upper bound exactly where less of it may be promised.
pub proof fn law_what_a_preview_says_of_itself(
    p: Preview,
    item: PreviewItem,
    bulk: bool,
    bound: bool,
    empty: bool,
)
    requires
        call_ensures(PreviewItem::bulk_selectable, (&item,), bulk),
        call_ensures(Preview::total_is_upper_bound, (&p,), bound),
        call_ensures(Preview::is_empty, (&p,), empty),
    ensures
        bulk == (item.safety == Safety::Safe || item.safety == Safety::Review),
        bound == (p.promisable_bytes < p.total_bytes),
        empty == (p.items@.len() == 0),
{
}

/// A number is turned back into a ticket only by the session that gave it out,
/// for its last preview, and as long as that was not executed.
pub proof fn law_only_the_last_ticket_is_recalled(s: Session, number: u64, r: Result<Ticket>)
    requires
        call_ensures(Session::recall, (&s, number), r),
    ensures
        r matches Ok(t) ==> t.shown() == number && s.admits(t),
        r matches Err(e) ==> e.code == ErrorCode::Refused && forall|t: Ticket|
            t.shown() == number ==> !(#[trigger] s.admits(t)),
{
}

/// What is refused changes nothing: neither the session nor whether its ticket
/// is good, and the refusal says why. A ticket of no preview, of an older one,
/// or one that was used is refused; a selection of something that was not
/// shown is invalid.
pub proof fn law_a_refused_request_changes_nothing(
    before: Session,
    ticket: Ticket,
    selection: Seq<u64>,
    e: AppError,
    after: Session,
)
    requires
        executed(before, ticket, selection, Err(e), after),
    ensures
        after == before,
        !before.admits(ticket) ==> e.code == ErrorCode::Refused && e.remedy is Some,
        before.admits(ticket) ==> e.code == ErrorCode::InvalidInput,
{
}

/// An admitted ticket with a selection of shown items is always taken.
pub proof fn law_an_admitted_selection_is_taken(
    before: Session,
    ticket: Ticket,
    selection: Seq<u64>,
    r: Result<Execution>,
    after: Session,
)
    requires
        executed(before, ticket, selection, r, after),
        before.admits(ticket),
        forall|k: int|
            0 <= k < selection.len() ==> exists|j: int|
                0 <= j < (before.held()->0).items@.len() && (#[trigger] (
                before.held()->0).items@[j]).id == #[trigger] selection[k],
    ensures
        r is Ok,
        !after.admits(ticket),
{
    law_only_shown_items_can_be_selected((before.held()->0).items@, selection);
}

/// A preview is stopped exactly where the user had asked to stop before one of
/// its offers was looked at.
pub proof fn law_any_request_to_stop_counts(offers: Seq<Offer>, k: int)
    ensures
        0 <= k < offers.len() && offers[k].cancelled ==> interrupted(offers),
        interrupted(offers) ==> !(forall|i: int|
            0 <= i < offers.len() ==> !(#[trigger] offers[i]).cancelled),
{
}

/// What counts as the user's own file is in the home directory and in none of
/// the places there that have a class of their own.
pub proof fn law_only_the_rest_is_the_users_own(path: Seq<char>, env: Environment)
    requires
        class_of(path, false, env) == SpaceCategory::UserFile,
    ensures
        home_of(env) matches Some(h) && path_within(path, h) && !path_within(
            path,
            joined(h, ".local/share/Trash"@),
        ) && !path_within(path, joined(h, ".npm"@)) && !path_within(path, joined(h, ".cargo"@))
            && !path_within(path, joined(h, ".m2"@)) && !path_within(path, joined(h, ".gradle"@))
            && !path_within(path, joined(h, "go/pkg/mod"@)) && !path_within(
            path,
            joined(h, ".local/share/pnpm"@),
        ),
        !path_within(path, "/var/log"@) && !path_within(path, "/var/cache"@),
        base_directory(opt_text(env.cache_home), home_of(env), ".cache"@) matches Some(c) ==> !(
        path_within(path, c) && components(path) != components(c)),
{
    let home = home_of(env);
    let h = home->0;
    let d = store_directories();
    assert(!in_home(path, home, d[0]) && !in_home(path, home, d[1]) && !in_home(path, home, d[2])
        && !in_home(path, home, d[3]) && !in_home(path, home, d[4]) && !in_home(path, home, d[5]));
}

} // verus!
