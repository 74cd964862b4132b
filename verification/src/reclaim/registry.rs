//! The category registry: what each category proposes, gathered into one list.
use vstd::prelude::*;
use vstd::string::*;
use crate::error::{copy_option, is_cancelled_error, AppError, ErrorCode, Result};
use crate::op::check_flag;
use crate::order::{in_order, law_sorted_is_ordered, law_sorting_keeps_every_element, lemma_in_order_map, sort, Ordered, Ranked};
use crate::space::{same_method, Advisory, Category as SpaceCategory, Manager, PruneScope, ReclaimKind, ReclaimMethod, Reclaimable, RemovableKind, Safety, VacuumLimit};
use crate::text::{decimal, opt_text, push_u64, texts};

verus! {

broadcast use vstd::string::group_string_axioms;

/// Something a category proposes reclaiming. A proposal, not a decision: the
/// protection rules and the preview both get a say.
#[derive(Debug, PartialEq, Eq)]
pub struct Candidate {
    pub path: String,
    /// What the user sees. Names the thing, not the path.
    pub label: String,
    /// On-disk bytes, never the apparent size.
    pub bytes: u64,
    pub safety: Safety,
    pub method: ReclaimMethod,
    /// What reclaiming costs. Required where the rating is `Review`.
    pub cost: Option<String>,
    /// The identifier of the category that proposed this.
    pub category: String,
    /// How much of `bytes` will come back, where the category knows.
    pub reclaimable: Reclaimable,
}

/// Whether two candidates are the same.
pub open spec fn same_candidate(a: Candidate, b: Candidate) -> bool {
    &&& a.path == b.path
    &&& a.label == b.label
    &&& a.bytes == b.bytes
    &&& a.safety == b.safety
    &&& same_method(a.method, b.method)
    &&& a.cost == b.cost
    &&& a.category == b.category
    &&& a.reclaimable == b.reclaimable
}

impl Clone for Candidate {
    fn clone(&self) -> (r: Self)
        ensures
            same_candidate(r, *self),
    {
        Candidate {
            path: self.path.clone(),
            label: self.label.clone(),
            bytes: self.bytes,
            safety: self.safety,
            method: self.method.clone(),
            cost: copy_option(&self.cost),
            category: self.category.clone(),
            reclaimable: self.reclaimable.clone(),
        }
    }
}

/// A method with its texts.
pub enum MethodText {
    MoveToTrash(Seq<char>),
    TrashEmpty(Seq<char>),
    SystemFile(ReclaimKind, Seq<char>),
    Packages(RemovableKind, Seq<Seq<char>>),
    PackageManager(Manager),
    JournalVacuum(VacuumLimit),
    SnapRevision(Seq<char>, Seq<char>),
    FlatpakUnused,
    ContainerPrune(PruneScope),
    ContainerVolume(Seq<char>),
    Unlink(Seq<char>),
}

/// What a method says.
pub open spec fn method_text(m: ReclaimMethod) -> MethodText {
    match m {
        ReclaimMethod::MoveToTrash { path } => MethodText::MoveToTrash(path@),
        ReclaimMethod::TrashEmpty { volume } => MethodText::TrashEmpty(volume@),
        ReclaimMethod::SystemFile { kind, path } => MethodText::SystemFile(kind, path@),
        ReclaimMethod::Packages { kind, names } => MethodText::Packages(kind, texts(names@)),
        ReclaimMethod::PackageManager { manager } => MethodText::PackageManager(manager),
        ReclaimMethod::JournalVacuum { limit } => MethodText::JournalVacuum(limit),
        ReclaimMethod::SnapRevision { package, revision } => MethodText::SnapRevision(
            package@,
            revision@,
        ),
        ReclaimMethod::FlatpakUnused => MethodText::FlatpakUnused,
        ReclaimMethod::ContainerPrune { scope } => MethodText::ContainerPrune(scope),
        ReclaimMethod::ContainerVolume { name } => MethodText::ContainerVolume(name@),
        ReclaimMethod::Unlink { path } => MethodText::Unlink(path@),
    }
}

/// How much will come back, with its text.
pub enum PromiseText {
    Exact,
    AtMost(Option<u64>, Seq<char>),
}

/// What is said of how much will come back.
pub open spec fn promise_text(r: Reclaimable) -> PromiseText {
    match r {
        Reclaimable::Exact => PromiseText::Exact,
        Reclaimable::AtMost { exclusive, reason } => PromiseText::AtMost(exclusive, reason@),
    }
}

/// A candidate with its texts.
pub struct CandidateText {
    pub path: Seq<char>,
    pub label: Seq<char>,
    pub bytes: u64,
    pub safety: Safety,
    pub method: MethodText,
    pub cost: Option<Seq<char>>,
    pub category: Seq<char>,
    pub reclaimable: PromiseText,
}

/// What a candidate says.
pub open spec fn candidate_text(c: Candidate) -> CandidateText {
    CandidateText {
        path: c.path@,
        label: c.label@,
        bytes: c.bytes,
        safety: c.safety,
        method: method_text(c.method),
        cost: opt_text(c.cost),
        category: c.category@,
        reclaimable: promise_text(c.reclaimable),
    }
}

/// What some candidates say.
pub open spec fn candidate_texts(v: Seq<Candidate>) -> Seq<CandidateText> {
    v.map_values(|c: Candidate| candidate_text(c))
}

/// Whether `r` holds these candidates.
pub open spec fn offers(r: Result<Vec<Candidate>>, wanted: Seq<CandidateText>) -> bool {
    r matches Ok(v) && candidate_texts(v@) == wanted
}

/// Whether `r` is the answer of something that was stopped.
pub open spec fn stopped(r: Result<Vec<Candidate>>) -> bool {
    r matches Err(e) && is_cancelled_error(e)
}

impl Ordered for Candidate {
    open spec fn precedes(b: Self, a: Self) -> bool {
        b.bytes > a.bytes
    }
}

impl Ranked for Candidate {
    fn comes_before(&self, other: &Self) -> bool {
        self.bytes > other.bytes
    }
}

impl Ordered for CandidateText {
    open spec fn precedes(b: Self, a: Self) -> bool {
        b.bytes > a.bytes
    }
}

/// Candidates with the largest first, those of one size in the order in which
/// they were found.
pub fn largest_first(found: Vec<Candidate>) -> (r: Vec<Candidate>)
    ensures
        candidate_texts(r@) == in_order(candidate_texts(found@)),
{
    proof {
        lemma_in_order_map(found@, |c: Candidate| candidate_text(c));
    }
    sort(found)
}

/// Candidates that are listed largest first are all there, and none is larger
/// than one before it.
pub proof fn law_largest_first(found: Seq<CandidateText>)
    ensures
        in_order(found).to_multiset() =~= found.to_multiset(),
        forall|i: int, j: int|
            0 <= i < j < in_order(found).len() ==> (#[trigger] in_order(found)[i]).bytes >= (
            #[trigger] in_order(found)[j]).bytes,
{
    law_sorting_keeps_every_element(found);
    law_sorted_is_ordered(found);
    let sorted = in_order(found);
    assert forall|i: int, j: int| 0 <= i < j < sorted.len() implies (#[trigger] sorted[i]).bytes
        >= (#[trigger] sorted[j]).bytes by {
        assert(!CandidateText::precedes(sorted[j], sorted[i]));
    }
}

/// One kind of reclaimable space, with what was seen of it on this machine.
pub trait Category {
    /// The identifier as text.
    spec fn ident(&self) -> Seq<char>;

    /// The label as text.
    spec fn title(&self) -> Seq<char>;

    /// The explanation as text.
    spec fn meaning(&self) -> Seq<char>;

    /// What kind of space this is.
    spec fn kind(&self) -> SpaceCategory;

    /// Whether this machine has what the category needs.
    spec fn usable(&self) -> bool;

    /// Whether `r` is what the category answers when it is asked.
    spec fn proposes(&self, cancelled: bool, r: Result<Vec<Candidate>>) -> bool;

    /// Whether `r` is what the category can see but will not act on.
    spec fn advises(&self, r: Seq<Advisory>) -> bool;

    /// Stable identifier, used in reports and settings.
    fn id(&self) -> (r: &'static str)
        ensures
            r@ == self.ident(),
    ;

    /// What the user sees.
    fn label(&self) -> (r: &'static str)
        ensures
            r@ == self.title(),
    ;

    /// What the category holds and what reclaiming it means.
    fn explains(&self) -> (r: &'static str)
        ensures
            r@ == self.meaning(),
    ;

    /// Which kind of space these belong to.
    fn space_category(&self) -> (r: SpaceCategory)
        ensures
            r == self.kind(),
    ;

    /// Whether this category can run on this machine.
    fn available(&self) -> (r: bool)
        ensures
            r == self.usable(),
    ;

    /// Space this category can see but will not act on itself.
    fn advisories(&self) -> (r: Vec<Advisory>)
        ensures
            self.advises(r@),
    ;

    /// What could be reclaimed. `cancelled` says whether the user has asked
    /// to stop.
    fn candidates(&self, cancelled: bool) -> (r: Result<Vec<Candidate>>)
        ensures
            self.proposes(cancelled, r),
    ;
}

/// What came of asking one category.
#[derive(Debug)]
pub enum Answer {
    /// The user had asked to stop before it was asked.
    Stopped,
    /// It cannot run on this machine.
    Unavailable,
    /// It failed.
    Failed(AppError),
    /// It proposed these.
    Found(Vec<Candidate>),
}

/// One registered category and its answer.
#[derive(Debug)]
pub struct Entry {
    pub id: &'static str,
    pub label: &'static str,
    pub explains: &'static str,
    pub answer: Answer,
    pub advisories: Vec<Advisory>,
}

/// Whether an entry is what came of asking a category: it is not asked where
/// the user has asked to stop, or where it cannot run.
pub open spec fn answers<C: Category>(e: Entry, category: C, cancelled: bool) -> bool {
    &&& e.id@ == category.ident()
    &&& e.label@ == category.title()
    &&& e.explains@ == category.meaning()
    &&& match e.answer {
        Answer::Stopped => cancelled,
        Answer::Unavailable => !cancelled && !category.usable(),
        Answer::Failed(error) => !cancelled && category.usable() && category.proposes(
            false,
            Err(error),
        ),
        Answer::Found(v) => !cancelled && category.usable() && category.proposes(false, Ok(v)),
    }
    &&& if category.usable() {
        category.advises(e.advisories@)
    } else {
        e.advisories@.len() == 0
    }
}

impl Entry {
    /// A category that was asked for its candidates, or that could not be.
    pub fn of<C: Category>(category: &C, cancelled: bool) -> (r: Self)
        ensures
            answers(r, *category, cancelled),
    {
        let available = category.available();
        let advisories = if available {
            category.advisories()
        } else {
            Vec::new()
        };
        let answer = if cancelled {
            Answer::Stopped
        } else if !available {
            Answer::Unavailable
        } else {
            match category.candidates(false) {
                Ok(found) => Answer::Found(found),
                Err(e) => Answer::Failed(e),
            }
        };
        Entry {
            id: category.id(),
            label: category.label(),
            explains: category.explains(),
            answer,
            advisories,
        }
    }
}

/// Whether an answer ends the collection: the user asked to stop.
pub open spec fn halts(a: Answer) -> bool {
    match a {
        Answer::Stopped => true,
        Answer::Failed(e) => e.code == ErrorCode::Cancelled,
        _ => false,
    }
}

/// Where the collection ends early; the number of entries where it does not.
pub open spec fn first_halt(entries: Seq<Entry>) -> int
    decreases entries.len(),
{
    if entries.len() == 0 || halts(entries[0].answer) {
        0
    } else {
        1 + first_halt(entries.skip(1))
    }
}

/// Everything that was found, category after category. A category that could
/// not run, or that failed, adds nothing.
pub open spec fn found(entries: Seq<Entry>) -> Seq<Candidate>
    decreases entries.len(),
{
    if entries.len() == 0 {
        Seq::empty()
    } else {
        found(entries.drop_last()) + match entries.last().answer {
            Answer::Found(v) => v@,
            _ => Seq::empty(),
        }
    }
}

/// Every category's advisories, in order.
pub open spec fn advised(entries: Seq<Entry>) -> Seq<Advisory>
    decreases entries.len(),
{
    if entries.len() == 0 {
        Seq::empty()
    } else {
        advised(entries.drop_last()) + entries.last().advisories@
    }
}

proof fn lemma_first_halt(entries: Seq<Entry>)
    ensures
        0 <= first_halt(entries) <= entries.len(),
        first_halt(entries) < entries.len() ==> halts(entries[first_halt(entries)].answer),
        forall|k: int| 0 <= k < first_halt(entries) ==> !halts((#[trigger] entries[k]).answer),
    decreases entries.len(),
{
    if entries.len() > 0 && !halts(entries[0].answer) {
        lemma_first_halt(entries.skip(1));
        assert forall|k: int| 0 <= k < first_halt(entries) implies !halts(
            (#[trigger] entries[k]).answer,
        ) by {
            if k > 0 {
                assert(entries[k] == entries.skip(1)[k - 1]);
            }
        }
    }
}

/// Every registered category.
#[derive(Debug)]
pub struct Registry {
    pub entries: Vec<Entry>,
}

impl Registry {
    /// A registry with no category.
    pub fn new() -> (r: Self)
        ensures
            r.entries@.len() == 0,
    {
        Registry { entries: Vec::new() }
    }

    /// Registers a category, behind those that are there.
    pub fn register(&mut self, entry: Entry)
        ensures
            final(self).entries@ == old(self).entries@.push(entry),
    {
        self.entries.push(entry);
    }

    /// The identifiers, in order.
    pub fn ids(&self) -> (r: Vec<&'static str>)
        ensures
            r@.len() == self.entries@.len(),
            forall|i: int| 0 <= i < r@.len() ==> (#[trigger] r@[i])@ == self.entries@[i].id@,
    {
        let mut out: Vec<&'static str> = Vec::new();
        let mut i: usize = 0;
        while i < self.entries.len()
            invariant
                i <= self.entries@.len(),
                out@.len() == i,
                forall|k: int| 0 <= k < i ==> (#[trigger] out@[k])@ == self.entries@[k].id@,
            decreases self.entries@.len() - i,
        {
            out.push(self.entries[i].id);
            i = i + 1;
        }
        out
    }

    /// Number of categories.
    pub fn len(&self) -> (r: usize)
        ensures
            r == self.entries@.len(),
    {
        self.entries.len()
    }

    /// Whether there is no category.
    pub fn is_empty(&self) -> (r: bool)
        ensures
            r == (self.entries@.len() == 0),
    {
        self.entries.len() == 0
    }

    /// The candidates of every available category. One that fails is passed
    /// over, so that it does not deny the user the others; only a request to
    /// stop ends the collection.
    pub fn collect(self) -> (r: Result<Vec<Candidate>>)
        ensures
            match r {
                Ok(v) => first_halt(self.entries@) == self.entries@.len() && v@ == found(
                    self.entries@,
                ),
                Err(e) => first_halt(self.entries@) < self.entries@.len()
                    && match self.entries@[first_halt(self.entries@)].answer {
                    Answer::Stopped => is_cancelled_error(e),
                    Answer::Failed(x) => e == x,
                    _ => false,
                },
            },
    {
        let ghost all = self.entries@;
        let mut out: Vec<Candidate> = Vec::new();
        proof {
            lemma_first_halt(all);
            assert(all.take(0) =~= Seq::<Entry>::empty());
        }
        for entry in it: self.entries
            invariant
                it.seq() == all,
                all == self.entries@,
                it.index() <= first_halt(all) <= all.len(),
                first_halt(all) < all.len() ==> halts(all[first_halt(all)].answer),
                forall|k: int| 0 <= k < first_halt(all) ==> !halts((#[trigger] all[k]).answer),
                out@ == found(all.take(it.index() as int)),
        {
            let ghost n = it.index() as int;
            assert(entry == all[n]);
            assert(all.take(n + 1).drop_last() =~= all.take(n));
            assert(all.take(n + 1).last() == entry);
            match entry.answer {
                Answer::Stopped => {
                    return Err(AppError::cancelled());
                },
                Answer::Unavailable => {},
                Answer::Failed(e) => {
                    if !e.is_fault() {
                        return Err(e);
                    }
                },
                Answer::Found(found) => {
                    let mut more = found;
                    out.append(&mut more);
                },
            }
        }
        assert(all.take(all.len() as int) =~= all);
        Ok(out)
    }

    /// Every category's advisories.
    pub fn collect_advisories(&self) -> (r: Vec<Advisory>)
        ensures
            r@ == advised(self.entries@),
    {
        let ghost all = self.entries@;
        let mut out: Vec<Advisory> = Vec::new();
        let mut i: usize = 0;
        assert(all.take(0) =~= Seq::<Entry>::empty());
        while i < self.entries.len()
            invariant
                i <= all.len(),
                all == self.entries@,
                out@ == advised(all.take(i as int)),
            decreases all.len() - i,
        {
            assert(all.take(i + 1).drop_last() =~= all.take(i as int));
            let mut copies = copy_advisories(&self.entries[i].advisories);
            out.append(&mut copies);
            i = i + 1;
        }
        assert(all.take(i as int) =~= all);
        out
    }

    /// What the registered categories say of themselves.
    pub fn briefs(&self) -> (r: Vec<Brief>)
        ensures
            r@.len() == self.entries@.len(),
            forall|i: int|
                0 <= i < r@.len() ==> (#[trigger] r@[i]) == brief_of(self.entries@[i]),
    {
        let mut out: Vec<Brief> = Vec::new();
        let mut i: usize = 0;
        while i < self.entries.len()
            invariant
                i <= self.entries@.len(),
                out@.len() == i,
                forall|k: int| 0 <= k < i ==> (#[trigger] out@[k]) == brief_of(self.entries@[k]),
            decreases self.entries@.len() - i,
        {
            out.push(
                Brief {
                    id: self.entries[i].id,
                    label: self.entries[i].label,
                    explains: self.entries[i].explains,
                },
            );
            i = i + 1;
        }
        out
    }
}

impl Default for Registry {
    fn default() -> (r: Self)
        ensures
            r.entries@.len() == 0,
    {
        Registry::new()
    }
}

/// What a category says of itself.
#[derive(Debug, Clone, Copy)]
pub struct Brief {
    pub id: &'static str,
    pub label: &'static str,
    pub explains: &'static str,
}

/// What a registered category says of itself.
pub open spec fn brief_of(e: Entry) -> Brief {
    Brief { id: e.id, label: e.label, explains: e.explains }
}

/// The same advisories again.
pub fn copy_advisories(v: &Vec<Advisory>) -> (r: Vec<Advisory>)
    ensures
        r@ == v@,
{
    let mut out: Vec<Advisory> = Vec::new();
    let mut i: usize = 0;
    while i < v.len()
        invariant
            i <= v@.len(),
            out@ == v@.take(i as int),
        decreases v@.len() - i,
    {
        out.push(v[i].clone());
        i = i + 1;
    }
    assert(v@.take(i as int) =~= v@);
    out
}

/// What a trash directory holds.
#[derive(Debug, Clone, PartialEq, Eq)]
pub struct TrashContents {
    pub root: String,
    /// Number of items in it.
    pub items: usize,
    /// What they take on disk.
    pub bytes: u64,
}

/// Trash, as a reclaimable category.
#[derive(Debug)]
pub struct TrashCategory {
    contents: Result<Option<TrashContents>>,
}

/// The ending of a counted noun.
pub open spec fn plural(count: nat) -> Seq<char> {
    if count == 1 {
        ""@
    } else {
        "s"@
    }
}

/// The ending of a counted noun.
pub fn plural_ending(count: usize) -> (r: &'static str)
    ensures
        r@ == plural(count as nat),
{
    if count == 1 {
        ""
    } else {
        "s"
    }
}

impl TrashCategory {
    /// What the category has seen, or why the trash could not be found.
    pub closed spec fn seen(&self) -> Result<Option<TrashContents>> {
        self.contents
    }

    /// A category that has seen no trash.
    pub fn new() -> (r: Self)
        ensures
            r.seen() == Ok::<Option<TrashContents>, AppError>(None),
    {
        TrashCategory { contents: Ok(None) }
    }

    /// A category over a trash directory with these contents.
    pub fn at(contents: TrashContents) -> (r: Self)
        ensures
            r.seen() == Ok::<Option<TrashContents>, AppError>(Some(contents)),
    {
        TrashCategory { contents: Ok(Some(contents)) }
    }

    /// A category whose trash directory could not be found.
    pub fn unresolved(error: AppError) -> (r: Self)
        ensures
            r.seen() == Err::<Option<TrashContents>, AppError>(error),
    {
        TrashCategory { contents: Err(error) }
    }
}

impl Default for TrashCategory {
    fn default() -> (r: Self)
        ensures
            r.seen() == Ok::<Option<TrashContents>, AppError>(None),
    {
        TrashCategory::new()
    }
}

/// The proposal to empty a trash directory.
pub open spec fn emptying(t: TrashContents) -> CandidateText {
    CandidateText {
        path: t.root@,
        label: "Trash ("@ + decimal(t.items as nat) + " item"@ + plural(t.items as nat) + ")"@,
        bytes: t.bytes,
        safety: Safety::Review,
        method: MethodText::TrashEmpty(t.root@),
        cost: Some(
            "Permanently deletes "@ + decimal(t.items as nat) + " item"@ + plural(t.items as nat)
                + " you moved to the trash. They cannot be restored afterwards."@,
        ),
        category: "trash"@,
        reclaimable: PromiseText::Exact,
    }
}

impl Category for TrashCategory {
    open spec fn ident(&self) -> Seq<char> {
        "trash"@
    }

    open spec fn title(&self) -> Seq<char> {
        "Trash"@
    }

    open spec fn meaning(&self) -> Seq<char> {
        "Files you moved to the trash. Emptying it removes them for good."@
    }

    open spec fn kind(&self) -> SpaceCategory {
        SpaceCategory::Trash
    }

    open spec fn usable(&self) -> bool {
        true
    }

    /// One candidate for the whole trash, where there is anything in it.
    open spec fn proposes(&self, cancelled: bool, r: Result<Vec<Candidate>>) -> bool {
        if cancelled {
            stopped(r)
        } else {
            match self.seen() {
                Ok(Some(t)) if t.items > 0 => offers(r, seq![emptying(t)]),
                Ok(_) => offers(r, Seq::empty()),
                Err(error) => r == Err::<Vec<Candidate>, AppError>(error),
            }
        }
    }

    open spec fn advises(&self, r: Seq<Advisory>) -> bool {
        r.len() == 0
    }

    fn id(&self) -> &'static str {
        "trash"
    }

    fn label(&self) -> &'static str {
        "Trash"
    }

    fn explains(&self) -> &'static str {
        "Files you moved to the trash. Emptying it removes them for good."
    }

    fn space_category(&self) -> SpaceCategory {
        SpaceCategory::Trash
    }

    fn available(&self) -> bool {
        true
    }

    fn advisories(&self) -> Vec<Advisory> {
        Vec::new()
    }

    fn candidates(&self, cancelled: bool) -> Result<Vec<Candidate>> {
        if let Err(e) = check_flag(cancelled) {
            return Err(e);
        }
        let mut out: Vec<Candidate> = Vec::new();
        let contents = match &self.contents {
            Ok(c) => c,
            Err(e) => {
                return Err(e.clone());
            },
        };
        if let Some(t) = contents {
            if t.items > 0 {
                let mut label = "Trash (".to_owned();
                push_u64(&mut label, t.items as u64);
                label.append(" item");
                label.append(plural_ending(t.items));
                label.append(")");
                let mut cost = "Permanently deletes ".to_owned();
                push_u64(&mut cost, t.items as u64);
                cost.append(" item");
                cost.append(plural_ending(t.items));
                cost.append(" you moved to the trash. They cannot be restored afterwards.");
                out.push(
                    Candidate {
                        path: t.root.clone(),
                        label,
                        bytes: t.bytes,
                        safety: Safety::Review,
                        method: ReclaimMethod::TrashEmpty { volume: t.root.clone() },
                        cost: Some(cost),
                        category: "trash".to_owned(),
                        reclaimable: Reclaimable::Exact,
                    },
                );
                assert(candidate_texts(out@) =~= seq![emptying(*t)]);
                return Ok(out);
            }
        }
        assert(candidate_texts(out@) =~= Seq::<CandidateText>::empty());
        Ok(out)
    }
}

/// A category that fails does not deny the user the others: what it would
/// have added is missing, and nothing else.
pub proof fn law_a_failure_denies_nothing_else(before: Seq<Entry>, broken: Entry, after: Seq<Entry>)
    requires
        !(broken.answer is Found),
    ensures
        found(before + seq![broken] + after) == found(before + after),
    decreases after.len(),
{
    let with = before + seq![broken] + after;
    let without = before + after;
    if after.len() == 0 {
        assert(with.drop_last() =~= before);
        assert(without =~= before);
        assert(found(with) =~= found(before));
    } else {
        law_a_failure_denies_nothing_else(before, broken, after.drop_last());
        assert(with.drop_last() =~= before + seq![broken] + after.drop_last());
        assert(without.drop_last() =~= before + after.drop_last());
    }
}

/// The view of a candidate keeps every field of it, the parameters of its
/// method and of its promise with them.
pub proof fn law_a_candidate_is_what_its_view_says(c: Candidate)
    ensures
        candidate_text(c).path == c.path@,
        candidate_text(c).label == c.label@,
        candidate_text(c).bytes == c.bytes,
        candidate_text(c).safety == c.safety,
        candidate_text(c).category == c.category@,
        c.cost is None ==> candidate_text(c).cost is None,
        c.cost matches Some(t) ==> candidate_text(c).cost == Some(t@),
        match (c.method, candidate_text(c).method) {
            (ReclaimMethod::MoveToTrash { path }, MethodText::MoveToTrash(p)) => p == path@,
            (ReclaimMethod::TrashEmpty { volume }, MethodText::TrashEmpty(v)) => v == volume@,
            (ReclaimMethod::SystemFile { kind, path }, MethodText::SystemFile(k, p)) => k == kind
                && p == path@,
            (ReclaimMethod::Packages { kind, names }, MethodText::Packages(k, n)) => k == kind
                && n.len() == names@.len() && forall|i: int|
                0 <= i < names@.len() ==> #[trigger] n[i] == names@[i]@,
            (ReclaimMethod::PackageManager { manager }, MethodText::PackageManager(m)) => m
                == manager,
            (ReclaimMethod::JournalVacuum { limit }, MethodText::JournalVacuum(l)) => l == limit,
            (ReclaimMethod::SnapRevision { package, revision }, MethodText::SnapRevision(p, v)) => p
                == package@ && v == revision@,
            (ReclaimMethod::FlatpakUnused, MethodText::FlatpakUnused) => true,
            (ReclaimMethod::ContainerPrune { scope }, MethodText::ContainerPrune(s)) => s == scope,
            (ReclaimMethod::ContainerVolume { name }, MethodText::ContainerVolume(n)) => n == name@,
            (ReclaimMethod::Unlink { path }, MethodText::Unlink(p)) => p == path@,
            _ => false,
        },
        match (c.reclaimable, candidate_text(c).reclaimable) {
            (Reclaimable::Exact, PromiseText::Exact) => true,
            (Reclaimable::AtMost { exclusive, reason }, PromiseText::AtMost(e, r)) => e
                == exclusive && r == reason@,
            _ => false,
        },
{
}

/// What a category offers is what it was found to offer, candidate by
/// candidate.
pub proof fn law_what_is_offered_is_returned(v: Vec<Candidate>, wanted: Seq<CandidateText>)
    requires
        offers(Ok(v), wanted),
    ensures
        v@.len() == wanted.len(),
        forall|i: int| 0 <= i < v@.len() ==> candidate_text(#[trigger] v@[i]) == wanted[i],
{
    assert(candidate_texts(v@).len() == v@.len());
    assert forall|i: int| 0 <= i < v@.len() implies candidate_text(#[trigger] v@[i])
        == wanted[i] by {
        assert(candidate_texts(v@)[i] == candidate_text(v@[i]));
    }
}

/// The trash is offered as one decision: all of it, where it holds anything,
/// by emptying that very trash, for what it takes on disk, and never as safe.
pub proof fn law_the_trash_is_emptied_whole(c: TrashCategory, t: TrashContents, v: Vec<Candidate>)
    requires
        c.seen() == Ok::<Option<TrashContents>, AppError>(Some(t)),
        c.proposes(false, Ok(v)),
    ensures
        t.items == 0 ==> v@.len() == 0,
        t.items > 0 ==> {
            &&& v@.len() == 1
            &&& v@[0].path@ == t.root@
            &&& v@[0].bytes == t.bytes
            &&& v@[0].safety == Safety::Review
            &&& v@[0].cost is Some
            &&& v@[0].reclaimable is Exact
            &&& v@[0].method matches ReclaimMethod::TrashEmpty { volume }
            &&& volume@ == t.root@
        },
{
    if t.items > 0 {
        law_what_is_offered_is_returned(v, seq![emptying(t)]);
        law_a_candidate_is_what_its_view_says(v@[0]);
    } else {
        law_what_is_offered_is_returned(v, Seq::empty());
    }
}

/// A scan ends early exactly where one of the categories was stopped, or
/// answered that it was cancelled; any other failure is passed over.
pub proof fn law_only_cancellation_ends_a_scan(entries: Seq<Entry>)
    ensures
        0 <= first_halt(entries) <= entries.len(),
        first_halt(entries) < entries.len() <==> exists|k: int|
            0 <= k < entries.len() && match (#[trigger] entries[k]).answer {
                Answer::Stopped => true,
                Answer::Failed(e) => e.code == ErrorCode::Cancelled,
                _ => false,
            },
    decreases entries.len(),
{
    if entries.len() > 0 {
        law_only_cancellation_ends_a_scan(entries.skip(1));
        if exists|k: int|
            0 <= k < entries.len() && match (#[trigger] entries[k]).answer {
                Answer::Stopped => true,
                Answer::Failed(e) => e.code == ErrorCode::Cancelled,
                _ => false,
            } {
            let k = choose|k: int|
                0 <= k < entries.len() && match (#[trigger] entries[k]).answer {
                    Answer::Stopped => true,
                    Answer::Failed(e) => e.code == ErrorCode::Cancelled,
                    _ => false,
                };
            if k > 0 {
                assert(entries.skip(1)[k - 1] == entries[k]);
            }
        }
        if first_halt(entries) < entries.len() {
            if halts(entries[0].answer) {
                assert(entries[0] == entries[0]);
            } else {
                let k = choose|k: int|
                    0 <= k < entries.skip(1).len() && match (#[trigger] entries.skip(1)[k]).answer {
                        Answer::Stopped => true,
                        Answer::Failed(e) => e.code == ErrorCode::Cancelled,
                        _ => false,
                    };
                assert(entries.skip(1)[k] == entries[k + 1]);
            }
        }
    }
}

/// Whatever a category found is in what a scan collects, behind what was
/// found before it; and a category adds its advisories in the same way.
pub proof fn law_every_finding_is_collected(entries: Seq<Entry>, e: Entry)
    ensures
        e.answer matches Answer::Found(v) ==> found(entries.push(e)) == found(entries) + v@,
        !(e.answer is Found) ==> found(entries.push(e)) == found(entries),
        advised(entries.push(e)) == advised(entries) + e.advisories@,
        found(Seq::<Entry>::empty()).len() == 0,
        advised(Seq::<Entry>::empty()).len() == 0,
{
    assert(entries.push(e).drop_last() =~= entries);
    assert(found(entries) + Seq::<Candidate>::empty() =~= found(entries));
}

/// A category is asked exactly where nobody asked to stop and it can run;
/// what it then answers is what it proposes.
pub proof fn law_an_entry_is_its_category<C: Category>(e: Entry, category: C, cancelled: bool)
    requires
        answers(e, category, cancelled),
    ensures
        cancelled == (e.answer is Stopped),
        !cancelled ==> (category.usable() != (e.answer is Unavailable)),
        e.answer matches Answer::Found(v) ==> category.proposes(false, Ok(v)),
        e.answer matches Answer::Failed(error) ==> category.proposes(false, Err(error)),
        category.usable() ==> category.advises(e.advisories@),
        !category.usable() ==> e.advisories@.len() == 0,
        e.id@ == category.ident(),
        e.label@ == category.title(),
        e.explains@ == category.meaning(),
{
}

} // verus!
