//! Rotated logs, and the system journal.
//!
//! A log that is being written is never offered: only one whose name says
//! that it was rotated, and that nothing holds open. The journal is cut back
//! by its own tool.
use vstd::prelude::*;
use vstd::string::*;
use crate::caps::{Capabilities, Capability};
use crate::decimal::all_digits;
use crate::double::capped;
use crate::error::{AppError, Result};
use crate::op::check_flag;
use crate::order::in_order;
use crate::pkg::{block_bytes, capped_add};
use crate::space::{Advisory, Category as SpaceCategory, ReclaimKind, ReclaimMethod, Reclaimable, Safety, VacuumLimit};
use crate::text::{chars_of, decimal, ends, ends_with, is_digits, is_listed, push_u64, rparted, rsplit_once, texts};
use super::registry::{candidate_text, candidate_texts, law_a_candidate_is_what_its_view_says, law_what_is_offered_is_returned, largest_first, offers, stopped, Candidate, CandidateText, Category, MethodText, PromiseText};

verus! {

broadcast use vstd::string::group_string_axioms;

/// Where logs are kept.
pub const LOG_ROOT: &'static str = "/var/log";

/// Whether a name is that of a rotated log: it ends as a compressed or an old
/// one does, or in a number.
pub open spec fn rotated(name: Seq<char>) -> bool {
    ||| ends(name, ".gz"@)
    ||| ends(name, ".xz"@)
    ||| ends(name, ".bz2"@)
    ||| ends(name, ".zst"@)
    ||| ends(name, ".old"@)
    ||| numbered(name)
}

/// Whether a name ends in a dot and a number.
pub open spec fn numbered(name: Seq<char>) -> bool {
    match rparted(name, '.') {
        Some((stem, digits)) => stem.len() > 0 && is_digits(digits),
        None => false,
    }
}

/// Whether a name is that of a rotated log rather than a live one.
pub fn is_rotated(name: &str) -> (r: bool)
    ensures
        r == rotated(name@),
{
    let chars = chars_of(name);
    let s = chars.as_slice();
    if ends_with(s, ".gz") || ends_with(s, ".xz") || ends_with(s, ".bz2") || ends_with(s, ".zst")
        || ends_with(s, ".old") {
        return true;
    }
    match rsplit_once(s, '.') {
        Some((stem, digits)) => stem.len() > 0 && all_digits(digits),
        None => false,
    }
}

/// One entry of the directory of logs.
#[derive(Debug, Clone)]
pub struct LogEntry {
    pub path: String,
    pub name: String,
    /// Whether it is a regular file, and neither a directory nor a link.
    pub file: bool,
    /// The blocks of 512 bytes that it takes.
    pub blocks: u64,
}

/// What was seen of the directory of logs.
#[derive(Debug, Clone)]
pub struct LogListing {
    /// Whether it is a directory.
    pub directory: bool,
    /// What is in it, where it could be read.
    pub entries: Option<Vec<LogEntry>>,
    /// Paths that some process holds open, as far as that can be seen.
    pub open: Vec<String>,
}

/// The offer to remove a rotated log.
pub open spec fn log_offer(e: LogEntry) -> CandidateText {
    CandidateText {
        path: e.path@,
        label: e.name@ + " (rotated log)"@,
        bytes: capped((e.blocks * 512) as nat),
        safety: Safety::Safe,
        method: MethodText::SystemFile(ReclaimKind::RotatedLog, e.path@),
        cost: None,
        category: "rotated_logs"@,
        reclaimable: PromiseText::Exact,
    }
}

/// Whether a log may be offered: it is a file, it was rotated, and nothing is
/// known to hold it open.
pub open spec fn may_remove(e: LogEntry, open: Seq<Seq<char>>) -> bool {
    e.file && rotated(e.name@) && !open.contains(e.path@)
}

/// What is offered of some logs, in order.
pub open spec fn log_offers(all: Seq<LogEntry>, open: Seq<Seq<char>>) -> Seq<CandidateText>
    decreases all.len(),
{
    if all.len() == 0 {
        Seq::empty()
    } else if may_remove(all.last(), open) {
        log_offers(all.drop_last(), open).push(log_offer(all.last()))
    } else {
        log_offers(all.drop_last(), open)
    }
}

fn offer_log(e: &LogEntry) -> (r: Candidate)
    ensures
        candidate_text(r) == log_offer(*e),
{
    let mut label = e.name.as_str().to_owned();
    label.append(" (rotated log)");
    Candidate {
        path: e.path.clone(),
        label,
        bytes: block_bytes(e.blocks),
        safety: Safety::Safe,
        method: ReclaimMethod::SystemFile { kind: ReclaimKind::RotatedLog, path: e.path.clone() },
        cost: None,
        category: "rotated_logs".to_owned(),
        reclaimable: Reclaimable::Exact,
    }
}

/// What the category of logs holds.
pub const LOGS_MEANING: &'static str =
    "Log files already rotated and compressed by logrotate — the numbered ones, not the file being written now. You lose the ability to look back at what happened on those days.";

/// Rotated logs, with what was seen of them.
#[derive(Debug, Clone)]
pub struct LogCategory {
    root: Option<LogListing>,
}

impl LogCategory {
    /// What was seen of the directory of logs.
    pub closed spec fn listing(&self) -> Option<LogListing> {
        self.root
    }

    /// A category that has seen no logs.
    pub fn new() -> (r: Self)
        ensures
            r.listing() is None,
    {
        LogCategory { root: None }
    }

    /// A category over what was seen of a directory of logs.
    pub fn at(root: LogListing) -> (r: Self)
        ensures
            r.listing() == Some(root),
    {
        LogCategory { root: Some(root) }
    }
}

impl Default for LogCategory {
    fn default() -> (r: Self)
        ensures
            r.listing() is None,
    {
        LogCategory::new()
    }
}

impl Category for LogCategory {
    open spec fn ident(&self) -> Seq<char> {
        "rotated_logs"@
    }

    open spec fn title(&self) -> Seq<char> {
        "Rotated logs"@
    }

    open spec fn meaning(&self) -> Seq<char> {
        LOGS_MEANING@
    }

    open spec fn kind(&self) -> SpaceCategory {
        SpaceCategory::Log
    }

    open spec fn usable(&self) -> bool {
        match self.listing() {
            Some(l) => l.directory,
            None => false,
        }
    }

    /// A request to stop is honoured before each entry.
    open spec fn proposes(&self, cancelled: bool, r: Result<Vec<Candidate>>) -> bool {
        match self.listing() {
            Some(LogListing { entries: Some(all), open, .. }) => if cancelled && all@.len() > 0 {
                stopped(r)
            } else {
                offers(r, in_order(log_offers(all@, texts(open@))))
            },
            _ => offers(r, Seq::empty()),
        }
    }

    open spec fn advises(&self, r: Seq<Advisory>) -> bool {
        r.len() == 0
    }

    fn id(&self) -> &'static str {
        "rotated_logs"
    }

    fn label(&self) -> &'static str {
        "Rotated logs"
    }

    fn explains(&self) -> &'static str {
        LOGS_MEANING
    }

    fn space_category(&self) -> SpaceCategory {
        SpaceCategory::Log
    }

    fn available(&self) -> bool {
        match &self.root {
            Some(l) => l.directory,
            None => false,
        }
    }

    fn advisories(&self) -> Vec<Advisory> {
        Vec::new()
    }

    fn candidates(&self, cancelled: bool) -> Result<Vec<Candidate>> {
        let mut out: Vec<Candidate> = Vec::new();
        assert(candidate_texts(out@) =~= Seq::<CandidateText>::empty());
        let (entries, open) = match &self.root {
            Some(LogListing { entries: Some(all), open, .. }) => (all, open),
            _ => {
                return Ok(out);
            },
        };
        let mut i: usize = 0;
        assert(entries@.take(0) =~= Seq::<LogEntry>::empty());
        while i < entries.len()
            invariant
                i <= entries@.len(),
                i > 0 ==> !cancelled,
                self.root matches Some(l) && l.entries == Some(*entries) && l.open == *open,
                candidate_texts(out@) == log_offers(entries@.take(i as int), texts(open@)),
            decreases entries@.len() - i,
        {
            if let Err(e) = check_flag(cancelled) {
                return Err(e);
            }
            assert(entries@.take(i + 1).drop_last() =~= entries@.take(i as int));
            let e = &entries[i];
            if e.file && is_rotated(e.name.as_str()) && !is_listed(e.path.as_str(), open) {
                let ghost before = candidate_texts(out@);
                let c = offer_log(e);
                out.push(c);
                assert(candidate_texts(out@) =~= before.push(candidate_text(c)));
            }
            i = i + 1;
        }
        assert(entries@.take(i as int) =~= entries@);
        Ok(largest_first(out))
    }
}

/// A log that is being written is never offered, nor is one that something
/// holds open: whatever is offered is a rotated file that nothing is known to
/// hold open.
pub proof fn law_live_logs_are_never_offered(all: Seq<LogEntry>, open: Seq<Seq<char>>, i: int)
    requires
        0 <= i < log_offers(all, open).len(),
    ensures
        exists|k: int|
            0 <= k < all.len() && may_remove(#[trigger] all[k], open) && log_offers(all, open)[i]
                == log_offer(all[k]),
    decreases all.len(),
{
    if i < log_offers(all.drop_last(), open).len() {
        law_live_logs_are_never_offered(all.drop_last(), open, i);
        let k = choose|k: int|
            0 <= k < all.drop_last().len() && may_remove(#[trigger] all.drop_last()[k], open)
                && log_offers(all.drop_last(), open)[i] == log_offer(all.drop_last()[k]);
        assert(all[k] == all.drop_last()[k]);
        assert(log_offers(all, open)[i] == log_offers(all.drop_last(), open)[i]);
    } else {
        assert(all[all.len() - 1] == all.last());
    }
}

// ---------------------------------------------------------------------------
// The journal
// ---------------------------------------------------------------------------

/// What was seen of a directory of the journal.
#[derive(Debug, Clone)]
pub struct JournalDir {
    pub path: String,
    /// Whether it is a directory.
    pub directory: bool,
    /// What it takes on disk.
    pub bytes: u64,
}

/// Where the journal is kept.
pub fn journal_dirs() -> (r: Vec<&'static str>)
    ensures
        r@.len() == 2,
        r@[0]@ == "/var/log/journal"@,
        r@[1]@ == "/run/log/journal"@,
{
    vec!["/var/log/journal", "/run/log/journal"]
}

/// What some directories take together.
pub open spec fn journal_total(dirs: Seq<JournalDir>) -> nat
    decreases dirs.len(),
{
    if dirs.len() == 0 {
        0
    } else {
        journal_total(dirs.drop_last()) + dirs.last().bytes as nat
    }
}

/// The bytes that a cut leaves behind. What an age leaves cannot be told from
/// a size.
pub open spec fn target_of(keep: VacuumLimit) -> u64 {
    match keep {
        VacuumLimit::Size { mebibytes } => capped((mebibytes * 1048576) as nat),
        VacuumLimit::Age { .. } => 0,
    }
}

/// What a cut to a size discards.
pub open spec fn size_cost(mebibytes: u64) -> Seq<char> {
    "Keeps the most recent "@ + decimal(mebibytes as nat)
        + " MiB of logs and discards the rest. Older entries cannot be recovered, so past problems become harder to diagnose."@
}

/// What a cut to an age discards.
pub open spec fn age_cost(days: u64) -> Seq<char> {
    "Discards journal entries older than "@ + decimal(days as nat)
        + " days. They cannot be recovered."@
}

/// Why a cut to an age promises no size.
pub const AGE_REASON: &'static str =
    "How much an age limit frees cannot be predicted from the size of the journal alone.";

/// The offer to cut the journal back. A cut to an age promises nothing.
pub open spec fn journal_offer(path: Seq<char>, keep: VacuumLimit, bytes: u64) -> CandidateText {
    CandidateText {
        path,
        label: match keep {
            VacuumLimit::Size { mebibytes } => "System journal, trimmed to "@ + decimal(
                mebibytes as nat,
            ) + " MiB"@,
            VacuumLimit::Age { days } => "System journal, trimmed to "@ + decimal(days as nat)
                + " days"@,
        },
        bytes,
        safety: Safety::Review,
        method: MethodText::JournalVacuum(keep),
        cost: Some(
            match keep {
                VacuumLimit::Size { mebibytes } => size_cost(mebibytes),
                VacuumLimit::Age { days } => age_cost(days),
            },
        ),
        category: "journal"@,
        reclaimable: match keep {
            VacuumLimit::Size { .. } => PromiseText::Exact,
            VacuumLimit::Age { .. } => PromiseText::AtMost(None, AGE_REASON@),
        },
    }
}

/// The path of the first directory, or nothing.
pub open spec fn first_path(dirs: Seq<JournalDir>) -> Seq<char> {
    if dirs.len() > 0 {
        dirs[0].path@
    } else {
        Seq::empty()
    }
}

/// What is offered of the journal: a cut, where it exceeds what is kept.
pub open spec fn journal_offers(dirs: Seq<JournalDir>, keep: VacuumLimit) -> Seq<CandidateText> {
    let current = capped(journal_total(dirs));
    if current > target_of(keep) {
        seq![journal_offer(first_path(dirs), keep, (current - target_of(keep)) as u64)]
    } else {
        Seq::empty()
    }
}

/// What the category of the journal holds.
pub const JOURNAL_MEANING: &'static str =
    "Older systemd journal entries, vacuumed down to a limit you choose. The journal keeps recording; what goes is history. If you are investigating something that happened last week, do this afterwards.";

/// The system journal, with what was seen of it.
#[derive(Debug, Clone)]
pub struct JournalCategory {
    keep: VacuumLimit,
    dirs: Vec<JournalDir>,
    tool: bool,
}

impl JournalCategory {
    /// How much journal is kept.
    pub closed spec fn limit(&self) -> VacuumLimit {
        self.keep
    }

    /// What was seen of its directories.
    pub closed spec fn seen(&self) -> Seq<JournalDir> {
        self.dirs@
    }

    /// Whether the tool that manages it is there.
    pub closed spec fn manageable(&self) -> bool {
        self.tool
    }

    /// How much journal is kept where nothing else is said: a useful amount
    /// of recent history.
    pub fn default_limit() -> (r: VacuumLimit)
        ensures
            r == (VacuumLimit::Size { mebibytes: 200 }),
    {
        VacuumLimit::Size { mebibytes: 200 }
    }

    /// A category that has seen no journal.
    pub fn new() -> (r: Self)
        ensures
            r.limit() == (VacuumLimit::Size { mebibytes: 200 }),
            r.seen() == Seq::<JournalDir>::empty(),
            !r.manageable(),
    {
        JournalCategory { keep: JournalCategory::default_limit(), dirs: Vec::new(), tool: false }
    }

    /// A category over some directories, with a limit.
    pub fn with(keep: VacuumLimit, dirs: Vec<JournalDir>, caps: &Capabilities) -> (r: Self)
        ensures
            r.limit() == keep,
            r.seen() == dirs@,
            r.manageable() == caps.found@.contains(Capability::Journalctl),
    {
        JournalCategory { keep, dirs, tool: caps.has(Capability::Journalctl) }
    }

    /// What the journal takes on disk, as far as 64 bits hold it.
    pub fn size(&self) -> (r: u64)
        ensures
            r == capped(journal_total(self.seen())),
    {
        let mut sum: u64 = 0;
        let mut i: usize = 0;
        assert(self.dirs@.take(0) =~= Seq::<JournalDir>::empty());
        while i < self.dirs.len()
            invariant
                i <= self.dirs@.len(),
                sum == capped(journal_total(self.dirs@.take(i as int))),
            decreases self.dirs@.len() - i,
        {
            assert(self.dirs@.take(i + 1).drop_last() =~= self.dirs@.take(i as int));
            sum = capped_add(sum, self.dirs[i].bytes);
            i = i + 1;
        }
        assert(self.dirs@.take(i as int) =~= self.dirs@);
        sum
    }

    fn target_bytes(&self) -> (r: u64)
        ensures
            r == target_of(self.limit()),
    {
        match self.keep {
            VacuumLimit::Size { mebibytes } => if mebibytes > u64::MAX / 1048576 {
                u64::MAX
            } else {
                mebibytes * 1048576
            },
            VacuumLimit::Age { .. } => 0,
        }
    }
}

impl Default for JournalCategory {
    fn default() -> (r: Self)
        ensures
            r.limit() == (VacuumLimit::Size { mebibytes: 200 }),
            r.seen() == Seq::<JournalDir>::empty(),
            !r.manageable(),
    {
        JournalCategory::new()
    }
}

/// Whether one of these is a directory.
pub open spec fn any_directory(dirs: Seq<JournalDir>) -> bool {
    exists|i: int| 0 <= i < dirs.len() && (#[trigger] dirs[i]).directory
}

fn has_directory(dirs: &Vec<JournalDir>) -> (r: bool)
    ensures
        r == any_directory(dirs@),
{
    let mut i: usize = 0;
    while i < dirs.len()
        invariant
            i <= dirs@.len(),
            forall|k: int| 0 <= k < i ==> !(#[trigger] dirs@[k]).directory,
        decreases dirs@.len() - i,
    {
        if dirs[i].directory {
            return true;
        }
        i = i + 1;
    }
    false
}

impl Category for JournalCategory {
    open spec fn ident(&self) -> Seq<char> {
        "journal"@
    }

    open spec fn title(&self) -> Seq<char> {
        "System journal"@
    }

    open spec fn meaning(&self) -> Seq<char> {
        JOURNAL_MEANING@
    }

    open spec fn kind(&self) -> SpaceCategory {
        SpaceCategory::Journal
    }

    /// The journal and the tool that manages it both have to be there.
    open spec fn usable(&self) -> bool {
        self.manageable() && any_directory(self.seen())
    }

    open spec fn proposes(&self, cancelled: bool, r: Result<Vec<Candidate>>) -> bool {
        if cancelled {
            stopped(r)
        } else {
            offers(r, journal_offers(self.seen(), self.limit()))
        }
    }

    open spec fn advises(&self, r: Seq<Advisory>) -> bool {
        r.len() == 0
    }

    fn id(&self) -> &'static str {
        "journal"
    }

    fn label(&self) -> &'static str {
        "System journal"
    }

    fn explains(&self) -> &'static str {
        JOURNAL_MEANING
    }

    fn space_category(&self) -> SpaceCategory {
        SpaceCategory::Journal
    }

    fn available(&self) -> bool {
        self.tool && has_directory(&self.dirs)
    }

    fn advisories(&self) -> Vec<Advisory> {
        Vec::new()
    }

    fn candidates(&self, cancelled: bool) -> Result<Vec<Candidate>> {
        if let Err(e) = check_flag(cancelled) {
            return Err(e);
        }
        let mut out: Vec<Candidate> = Vec::new();
        let current: u64 = self.size();
        let target: u64 = self.target_bytes();
        if current <= target {
            assert(candidate_texts(out@) =~= Seq::<CandidateText>::empty());
            return Ok(out);
        }
        let mut label = "System journal, trimmed to ".to_owned();
        let mut cost = String::new();
        let reclaimable = match self.keep {
            VacuumLimit::Size { mebibytes } => {
                push_u64(&mut label, mebibytes);
                label.append(" MiB");
                cost.append("Keeps the most recent ");
                push_u64(&mut cost, mebibytes);
                cost.append(
                    " MiB of logs and discards the rest. Older entries cannot be recovered, so past problems become harder to diagnose.",
                );
                assert(cost@ =~= size_cost(mebibytes));
                Reclaimable::Exact
            },
            VacuumLimit::Age { days } => {
                push_u64(&mut label, days);
                label.append(" days");
                cost.append("Discards journal entries older than ");
                push_u64(&mut cost, days);
                cost.append(" days. They cannot be recovered.");
                assert(cost@ =~= age_cost(days));
                Reclaimable::AtMost { exclusive: None, reason: AGE_REASON.to_owned() }
            },
        };
        let path = if self.dirs.len() > 0 {
            self.dirs[0].path.clone()
        } else {
            String::new()
        };
        out.push(
            Candidate {
                path,
                label,
                bytes: current - target,
                safety: Safety::Review,
                method: ReclaimMethod::JournalVacuum { limit: self.keep },
                cost: Some(cost),
                category: "journal".to_owned(),
                reclaimable,
            },
        );
        assert(candidate_texts(out@) =~= journal_offers(self.dirs@, self.keep));
        Ok(out)
    }
}

/// The journal is offered only where it exceeds what is kept, and then what
/// exceeds it is offered.
pub proof fn law_the_journal_is_cut_to_its_limit(dirs: Seq<JournalDir>, mebibytes: u64)
    ensures
        journal_offers(dirs, VacuumLimit::Size { mebibytes }).len() > 0 <==> capped(
            journal_total(dirs),
        ) > mebibytes * 1048576,
        journal_offers(dirs, VacuumLimit::Size { mebibytes }).len() > 0 ==> journal_offers(
            dirs,
            VacuumLimit::Size { mebibytes },
        )[0].bytes == capped(journal_total(dirs)) - mebibytes * 1048576,
{
}

/// What logrotate left behind is known by its name: it is compressed, or old,
/// or has a number at its end. The log that is being written is not.
pub proof fn law_rotated_logs_are_known_by_name(stem: Seq<char>, n: nat)
    ensures
        rotated(stem + ".gz"@),
        rotated(stem + ".xz"@),
        rotated(stem + ".bz2"@),
        rotated(stem + ".zst"@),
        rotated(stem + ".old"@),
        stem.len() > 0 ==> rotated(stem.push('.') + decimal(n)),
        !rotated(stem + ".log"@),
        !stem.contains('.') ==> !rotated(stem),
{
    lemma_suffix(stem, ".gz"@);
    lemma_suffix(stem, ".xz"@);
    lemma_suffix(stem, ".bz2"@);
    lemma_suffix(stem, ".zst"@);
    lemma_suffix(stem, ".old"@);
    reveal_strlit(".gz");
    reveal_strlit(".xz");
    reveal_strlit(".bz2");
    reveal_strlit(".zst");
    reveal_strlit(".old");
    reveal_strlit(".log");
    let name = stem.push('.') + decimal(n);
    crate::text::law_decimal_reads_back(n);
    crate::text::lemma_last_at(name, '.');
    let at = crate::text::last_at(name, '.');
    assert(name[stem.len() as int] == '.');
    assert(at == stem.len()) by {
        if at > stem.len() {
            assert(name[at] == decimal(n)[at - stem.len() - 1]);
            assert(crate::text::is_digit(decimal(n)[at - stem.len() - 1]));
        }
    }
    assert(name.take(at) =~= stem);
    assert(name.skip(at + 1) =~= decimal(n));
    let live = stem + ".log"@;
    assert(live.last() == 'g');
    lemma_not_rotated(live);
    if !stem.contains('.') {
        lemma_no_dot(stem);
    }
}

proof fn lemma_suffix(stem: Seq<char>, suffix: Seq<char>)
    ensures
        ends(stem + suffix, suffix),
{
    let all = stem + suffix;
    assert(all.skip(all.len() - suffix.len()) =~= suffix);
}

proof fn lemma_ends_last(name: Seq<char>, suffix: Seq<char>)
    requires
        ends(name, suffix),
        suffix.len() > 0,
    ensures
        name.last() == suffix.last(),
        name.contains(suffix[0]),
{
    let tail = name.skip(name.len() - suffix.len());
    assert(tail.last() == suffix.last());
    assert(tail[0] == suffix[0]);
    assert(name[name.len() - suffix.len()] == suffix[0]);
}

proof fn lemma_not_rotated(name: Seq<char>)
    requires
        name.len() > 0,
        name.last() == 'g',
    ensures
        !rotated(name),
{
    reveal_strlit(".gz");
    reveal_strlit(".xz");
    reveal_strlit(".bz2");
    reveal_strlit(".zst");
    reveal_strlit(".old");
    assert(".gz"@.last() == 'z' && ".xz"@.last() == 'z' && ".bz2"@.last() == '2' && ".zst"@.last()
        == 't' && ".old"@.last() == 'd');
    if ends(name, ".gz"@) {
        lemma_ends_last(name, ".gz"@);
    }
    if ends(name, ".xz"@) {
        lemma_ends_last(name, ".xz"@);
    }
    if ends(name, ".bz2"@) {
        lemma_ends_last(name, ".bz2"@);
    }
    if ends(name, ".zst"@) {
        lemma_ends_last(name, ".zst"@);
    }
    if ends(name, ".old"@) {
        lemma_ends_last(name, ".old"@);
    }
    if numbered(name) {
        let digits = (rparted(name, '.')->0).1;
        crate::text::lemma_last_at(name, '.');
        assert(digits.last() == name.last());
        assert(crate::text::is_digit(digits[digits.len() - 1]));
    }
}

proof fn lemma_no_dot(name: Seq<char>)
    requires
        !name.contains('.'),
    ensures
        !rotated(name),
{
    reveal_strlit(".gz");
    reveal_strlit(".xz");
    reveal_strlit(".bz2");
    reveal_strlit(".zst");
    reveal_strlit(".old");
    assert(".gz"@[0] == '.' && ".xz"@[0] == '.' && ".bz2"@[0] == '.' && ".zst"@[0] == '.'
        && ".old"@[0] == '.');
    if ends(name, ".gz"@) {
        lemma_ends_last(name, ".gz"@);
    }
    if ends(name, ".xz"@) {
        lemma_ends_last(name, ".xz"@);
    }
    if ends(name, ".bz2"@) {
        lemma_ends_last(name, ".bz2"@);
    }
    if ends(name, ".zst"@) {
        lemma_ends_last(name, ".zst"@);
    }
    if ends(name, ".old"@) {
        lemma_ends_last(name, ".old"@);
    }
    crate::text::lemma_last_at(name, '.');
    if rparted(name, '.') is Some {
        let at = crate::text::last_at(name, '.');
        assert(name[at] == '.');
        assert(name.contains(name[at]));
    }
}

/// A rotated log that is a file, and that nothing holds open, is offered for
/// the blocks that it takes, and is removed by its own path; nothing else is.
pub proof fn law_which_logs_are_offered(all: Seq<LogEntry>, open: Seq<Seq<char>>, e: LogEntry)
    ensures
        e.file && rotated(e.name@) && !open.contains(e.path@) ==> {
            &&& log_offers(all.push(e), open).len() == log_offers(all, open).len() + 1
            &&& log_offers(all.push(e), open).drop_last() == log_offers(all, open)
            &&& log_offers(all.push(e), open).last().path == e.path@
            &&& log_offers(all.push(e), open).last().method == MethodText::SystemFile(
                ReclaimKind::RotatedLog,
                e.path@,
            )
            &&& e.blocks * 512 <= u64::MAX ==> log_offers(all.push(e), open).last().bytes == e.blocks
                * 512
            &&& log_offers(all.push(e), open).last().reclaimable is Exact
        },
        !e.file || !rotated(e.name@) || open.contains(e.path@) ==> log_offers(all.push(e), open)
            == log_offers(all, open),
        log_offers(Seq::<LogEntry>::empty(), open).len() == 0,
{
    assert(all.push(e).drop_last() =~= all);
    assert(log_offers(all, open).push(log_offer(e)).drop_last() =~= log_offers(all, open));
}

/// The journal is cut by its own limit, whatever that is: the offer is to cut
/// to the limit that was chosen, for what is above it. A cut to an age
/// promises nothing, and never goes unreviewed.
pub proof fn law_the_journal_is_cut_as_chosen(dirs: Seq<JournalDir>, keep: VacuumLimit)
    ensures
        journal_offers(dirs, keep).len() <= 1,
        journal_offers(dirs, keep).len() == 1 ==> {
            let c = journal_offers(dirs, keep)[0];
            &&& c.method == MethodText::JournalVacuum(keep)
            &&& c.safety == Safety::Review
            &&& c.cost is Some
            &&& dirs.len() > 0 ==> c.path == dirs[0].path@
            &&& keep is Size ==> c.reclaimable is Exact
            &&& keep is Age ==> c.reclaimable matches PromiseText::AtMost(None, _)
        },
        keep is Age && journal_total(dirs) > 0 && journal_total(dirs) <= u64::MAX
            ==> journal_offers(dirs, keep).len() == 1 && journal_offers(dirs, keep)[0].bytes
            == journal_total(dirs),
{
}

/// The journal takes what its directories take together.
pub proof fn law_every_journal_directory_counts(dirs: Seq<JournalDir>, d: JournalDir)
    ensures
        journal_total(dirs.push(d)) == journal_total(dirs) + d.bytes,
        journal_total(Seq::<JournalDir>::empty()) == 0,
{
    assert(dirs.push(d).drop_last() =~= dirs);
}

/// The journal is cut to two hundred mebibytes unless another limit is chosen,
/// and takes what its two directories take.
pub proof fn law_the_usual_limit_of_the_journal(
    limit: VacuumLimit,
    dirs: Vec<&'static str>,
    c: JournalCategory,
    size: u64,
)
    requires
        call_ensures(JournalCategory::default_limit, (), limit),
        call_ensures(journal_dirs, (), dirs),
        call_ensures(JournalCategory::size, (&c,), size),
    ensures
        limit == (VacuumLimit::Size { mebibytes: 200 }),
        dirs@.len() == 2,
        dirs@[0]@ == "/var/log/journal"@,
        dirs@[1]@ == "/run/log/journal"@,
        journal_total(c.seen()) <= u64::MAX ==> size == journal_total(c.seen()),
{
}

/// Whether a log may be removed: a file that logrotate left behind and that
/// nothing holds open.
pub open spec fn is_removable_log(
    all: Seq<LogEntry>,
    open: Seq<Seq<char>>,
    path: Seq<char>,
    bytes: u64,
) -> bool {
    exists|k: int|
        0 <= k < all.len() && (#[trigger] all[k]).path@ == path && all[k].file && rotated(
            all[k].name@,
        ) && !open.contains(path) && (all[k].blocks * 512 <= u64::MAX ==> bytes == all[k].blocks
            * 512)
}

/// What is offered of the logs is rotated ones that nothing holds open, each
/// by its own path and for the blocks that it takes.
pub proof fn law_only_rotated_logs_are_named(
    c: LogCategory,
    l: LogListing,
    r: Result<Vec<Candidate>>,
    v: Vec<Candidate>,
    i: int,
)
    requires
        call_ensures(<LogCategory as Category>::candidates, (&c, false), r),
        r == Ok::<Vec<Candidate>, AppError>(v),
        c.listing() == Some(l),
        l.entries is Some,
        0 <= i < v@.len(),
    ensures
        v@[i].method matches ReclaimMethod::SystemFile { kind, path } && path@ == v@[i].path@
            && is_removable_log((l.entries->0)@, texts(l.open@), path@, v@[i].bytes),
{
    let all = (l.entries->0)@;
    let open = texts(l.open@);
    let found = log_offers(all, open);
    law_what_is_offered_is_returned(v, in_order(found));
    law_a_candidate_is_what_its_view_says(v@[i]);
    crate::order::law_sorting_keeps_every_element(found);
    found.to_multiset_ensures();
    in_order(found).to_multiset_ensures();
    let x = in_order(found)[i];
    assert(in_order(found).contains(x));
    assert(in_order(found).to_multiset().count(x) == found.to_multiset().count(x));
    let j = choose|j: int| 0 <= j < found.len() && found[j] == x;
    law_live_logs_are_never_offered(all, open, j);
    let k = choose|k: int|
        0 <= k < all.len() && may_remove(#[trigger] all[k], open) && found[j] == log_offer(all[k]);
    assert(all[k].path@ == v@[i].path@);
}

/// What is offered of the journal is to cut it to the limit that was chosen.
pub proof fn law_only_the_chosen_limit_is_offered(
    c: JournalCategory,
    r: Result<Vec<Candidate>>,
    v: Vec<Candidate>,
    i: int,
)
    requires
        call_ensures(<JournalCategory as Category>::candidates, (&c, false), r),
        r == Ok::<Vec<Candidate>, AppError>(v),
        0 <= i < v@.len(),
    ensures
        v@.len() == 1,
        v@[i].method == (ReclaimMethod::JournalVacuum { limit: c.limit() }),
        v@[i].safety == Safety::Review,
        c.limit() matches VacuumLimit::Size { mebibytes } ==> mebibytes * 1048576 <= u64::MAX
            && journal_total(c.seen()) <= u64::MAX ==> v@[i].bytes + mebibytes * 1048576
            == journal_total(c.seen()),
{
    law_what_is_offered_is_returned(v, journal_offers(c.seen(), c.limit()));
    law_a_candidate_is_what_its_view_says(v@[i]);
    law_the_journal_is_cut_as_chosen(c.seen(), c.limit());
}

} // verus!
