//! The process table, from `/proc`.
use std::collections::HashMap;
use vstd::prelude::*;
use vstd::slice::slice_subrange;
use vstd::string::*;
use crate::double::Seconds;
use crate::order::{in_order, sort, Ordered, Ranked};
use crate::percent::{exceeds, is_above, percent, percent_of, value_of, Single};
use crate::text::{chars_of, decimal, find_text, is_digit, is_text, join_with, joined_with, last_at, lines, lossy_text, natural_up_to, nonempty, number_or_zero, opt_text, parse_u32, parse_u64, pieces, push_u64, rfind_char, split_lines, split_on, split_words, string_of, text_at, trim, trimmed, utf8_lossy, views, words};

verus! {

broadcast use {vstd::std_specs::hash::group_hash_axioms, vstd::string::group_string_axioms};

/// How often the process table refreshes while its view is open, in
/// nanoseconds.
pub const TABLE_INTERVAL: u128 = 2000000000;

/// What a process is doing, as the kernel's single letter.
#[derive(Debug, Clone, Copy, PartialEq, Eq, Structural)]
pub enum ProcessState {
    Running,
    Sleeping,
    /// Uninterruptible sleep: usually waiting on a disk, and not killable.
    DiskSleep,
    Stopped,
    /// Exited, and waiting for a parent that has not noticed.
    Zombie,
    Idle,
    Other,
}

/// What the kernel's letter means.
pub open spec fn state_of(letter: Seq<char>) -> ProcessState {
    if letter == "R"@ {
        ProcessState::Running
    } else if letter == "S"@ {
        ProcessState::Sleeping
    } else if letter == "D"@ {
        ProcessState::DiskSleep
    } else if letter == "T"@ || letter == "t"@ {
        ProcessState::Stopped
    } else if letter == "Z"@ {
        ProcessState::Zombie
    } else if letter == "I"@ {
        ProcessState::Idle
    } else {
        ProcessState::Other
    }
}

impl ProcessState {
    /// What the kernel's letter means.
    pub fn parse(letter: &str) -> (r: Self)
        ensures
            r == state_of(letter@),
    {
        let chars = chars_of(letter);
        let s = chars.as_slice();
        if is_text(s, "R") {
            ProcessState::Running
        } else if is_text(s, "S") {
            ProcessState::Sleeping
        } else if is_text(s, "D") {
            ProcessState::DiskSleep
        } else if is_text(s, "T") || is_text(s, "t") {
            ProcessState::Stopped
        } else if is_text(s, "Z") {
            ProcessState::Zombie
        } else if is_text(s, "I") {
            ProcessState::Idle
        } else {
            ProcessState::Other
        }
    }

    /// Whether the process can be signalled usefully. A zombie has already
    /// exited.
    pub fn is_signalable(self) -> (r: bool)
        ensures
            r == (self != ProcessState::Zombie),
    {
        !matches!(self, ProcessState::Zombie)
    }
}

/// One process, as the table shows it.
#[derive(Debug, Clone, PartialEq, Eq)]
pub struct Process {
    pub pid: u32,
    pub ppid: u32,
    /// The executable's own name.
    pub name: String,
    /// The full command line, or the name in brackets for a kernel thread.
    pub command: String,
    pub state: ProcessState,
    pub uid: u32,
    /// The user's name, or the uid as text where it has none.
    pub user: String,
    /// Percentage of one core since the last sample: a process that keeps
    /// four cores busy shows four hundred.
    pub cpu_percent: Single,
    /// Physical memory actually held.
    pub memory_bytes: u64,
    pub threads: u32,
    /// When it started, in clock ticks since boot. With the pid this tells a
    /// process from a later one with the same pid.
    pub started_ticks: u64,
}

/// What a `/proc/<pid>/stat` line yields.
#[derive(Debug, Clone, PartialEq, Eq)]
pub struct Stat {
    pub pid: u32,
    pub comm: String,
    pub state: ProcessState,
    pub ppid: u32,
    pub utime: u64,
    pub stime: u64,
    pub threads: u32,
    pub started_ticks: u64,
    /// Resident pages.
    pub rss_pages: u64,
}

/// A `stat` line with its texts.
pub struct StatText {
    pub pid: u32,
    pub comm: Seq<char>,
    pub state: ProcessState,
    pub ppid: u32,
    pub utime: u64,
    pub stime: u64,
    pub threads: u32,
    pub started_ticks: u64,
    pub rss_pages: u64,
}

/// What a parsed line says.
pub open spec fn stat_text(s: Stat) -> StatText {
    StatText {
        pid: s.pid,
        comm: s.comm@,
        state: s.state,
        ppid: s.ppid,
        utime: s.utime,
        stime: s.stime,
        threads: s.threads,
        started_ticks: s.started_ticks,
        rss_pages: s.rss_pages,
    }
}

/// A numbered field of a line, from the words behind the bracketed name. The
/// third field is the first of them.
pub open spec fn field(rest: Seq<Seq<char>>, n: int) -> u64 {
    if n - 3 < rest.len() {
        number_or_zero(rest[n - 3])
    } else {
        0
    }
}

/// A field as a number of 32 bits, or what stands for one that is too large.
pub open spec fn small(n: u64, otherwise: u32) -> u32 {
    if n <= u32::MAX {
        n as u32
    } else {
        otherwise
    }
}

/// What a `stat` line says. The name is in brackets and may itself hold
/// spaces and brackets, so it reaches to the last closing bracket.
pub open spec fn stat_of(line: Seq<char>) -> Option<StatText> {
    let open = text_at(line, " ("@);
    let close = last_at(line, ')');
    if open < 0 || close < open + 2 {
        None
    } else {
        let rest = words(line.skip(close + 1));
        match natural_up_to(trimmed(line.take(open)), u32::MAX as nat) {
            None => None,
            Some(pid) => if rest.len() == 0 {
                None
            } else {
                Some(
                    StatText {
                        pid: pid as u32,
                        comm: line.subrange(open + 2, close),
                        state: state_of(rest[0]),
                        ppid: small(field(rest, 4), 0),
                        utime: field(rest, 14),
                        stime: field(rest, 15),
                        threads: small(field(rest, 20), 1),
                        started_ticks: field(rest, 22),
                        rss_pages: field(rest, 24),
                    },
                )
            },
        }
    }
}

fn field_at(rest: &Vec<&[char]>, n: usize) -> (r: u64)
    requires
        3 <= n < 100,
    ensures
        r == field(views(rest@), n as int),
{
    if n - 3 < rest.len() {
        assert(views(rest@)[n - 3] == rest@[n - 3]@);
        match parse_u64(rest[n - 3]) {
            Some(v) => v,
            None => 0,
        }
    } else {
        0
    }
}

fn as_small(n: u64, otherwise: u32) -> (r: u32)
    ensures
        r == small(n, otherwise),
{
    if n <= u32::MAX as u64 {
        n as u32
    } else {
        otherwise
    }
}

/// Parses one `/proc/<pid>/stat` line.
pub fn parse_stat(line: &str) -> (r: Option<Stat>)
    ensures
        match r {
            Some(s) => stat_of(line@) == Some(stat_text(s)),
            None => stat_of(line@) is None,
        },
{
    proof {
        reveal_strlit(" (");
    }
    let chars = chars_of(line);
    let slice = chars.as_slice();
    let open: usize = match find_text(slice, " (") {
        Some(i) => i,
        None => {
            return None;
        },
    };
    let close: usize = match rfind_char(slice, ')') {
        Some(i) => i,
        None => {
            return None;
        },
    };
    if close < open + 2 {
        return None;
    }
    let end: usize = slice.len();
    let front = slice_subrange(slice, 0, open);
    assert(front@ =~= line@.take(open as int));
    let pid: u32 = match parse_u32(trim(front)) {
        Some(p) => p,
        None => {
            return None;
        },
    };
    let comm = string_of(slice_subrange(slice, open + 2, close));
    let tail = slice_subrange(slice, close + 1, end);
    assert(tail@ =~= line@.skip(close + 1));
    let rest = split_words(tail);
    assert(views(rest@).len() == rest@.len());
    if rest.len() == 0 {
        return None;
    }
    assert(views(rest@)[0] == rest@[0]@);
    let letter = string_of(rest[0]);
    Some(
        Stat {
            pid,
            comm,
            state: ProcessState::parse(letter.as_str()),
            ppid: as_small(field_at(&rest, 4), 0),
            utime: field_at(&rest, 14),
            stime: field_at(&rest, 15),
            threads: as_small(field_at(&rest, 20), 1),
            started_ticks: field_at(&rest, 22),
            rss_pages: field_at(&rest, 24),
        },
    )
}

/// Just the state from a `stat` line.
pub fn state_from_stat(line: &str) -> (r: Option<ProcessState>)
    ensures
        r == match stat_of(line@) {
            Some(s) => Some(s.state),
            None => None,
        },
{
    match parse_stat(line) {
        Some(s) => Some(s.state),
        None => None,
    }
}

// ---------------------------------------------------------------------------
// Users
// ---------------------------------------------------------------------------

/// The uid and the name that a line of `/etc/passwd` gives.
pub open spec fn passwd_line(line: Seq<char>) -> Option<(u32, Seq<char>)> {
    let f = pieces(line, ':');
    if f.len() < 3 {
        None
    } else {
        match natural_up_to(f[2], u32::MAX as nat) {
            Some(uid) => Some((uid as u32, f[0])),
            None => None,
        }
    }
}

/// The name that the last line with this uid gives it.
pub open spec fn name_in(all: Seq<Seq<char>>, uid: u32) -> Option<Seq<char>>
    decreases all.len(),
{
    if all.len() == 0 {
        None
    } else {
        match passwd_line(all.last()) {
            Some((u, name)) if u == uid => Some(name),
            _ => name_in(all.drop_last(), uid),
        }
    }
}

/// The name that a map gives a uid.
pub open spec fn name_of(users: Map<u32, String>, uid: u32) -> Option<Seq<char>> {
    if users.contains_key(uid) {
        Some(users[uid]@)
    } else {
        None
    }
}

/// Parses `/etc/passwd` into names by uid.
pub fn parse_passwd(text: &str) -> (r: HashMap<u32, String>)
    ensures
        forall|uid: u32| #[trigger] name_of(r@, uid) == name_in(lines(text@), uid),
{
    let chars = chars_of(text);
    let rows = split_lines(chars.as_slice());
    let ghost all = lines(text@);
    let mut out: HashMap<u32, String> = HashMap::new();
    let mut i: usize = 0;
    assert(all.take(0) =~= Seq::<Seq<char>>::empty());
    while i < rows.len()
        invariant
            i <= rows@.len(),
            views(rows@) == all,
            forall|uid: u32| #[trigger]
                name_of(out@, uid) == name_in(all.take(i as int), uid),
        decreases rows@.len() - i,
    {
        let ghost before = out@;
        assert(all.take(i + 1).drop_last() =~= all.take(i as int));
        assert(all.take(i + 1).last() == rows@[i as int]@);
        let fields = split_on(rows[i], ':');
        assert(views(fields@).len() == fields@.len());
        if fields.len() >= 3 {
            assert(views(fields@)[0] == fields@[0]@ && views(fields@)[2] == fields@[2]@);
            if let Some(uid) = parse_u32(fields[2]) {
                let name = string_of(fields[0]);
                out.insert(uid, name);
                assert(out@ == before.insert(uid, name));
            }
        }
        assert forall|uid: u32| #[trigger] name_of(out@, uid) == name_in(
            all.take(i + 1),
            uid,
        ) by {
            assert(name_of(before, uid) == name_in(all.take(i as int), uid));
        }
        i = i + 1;
    }
    assert(all.take(i as int) =~= all);
    out
}

/// A uid's name, or the number itself where it has none.
pub open spec fn user_text(uid: u32, name: Option<Seq<char>>) -> Seq<char> {
    match name {
        Some(n) => n,
        None => decimal(uid as nat),
    }
}

/// A uid's name, or the number itself where it has none.
pub fn resolve_user(uid: u32, users: &HashMap<u32, String>) -> (r: String)
    ensures
        r@ == user_text(uid, name_of(users@, uid)),
{
    match users.get(&uid) {
        Some(name) => name.as_str().to_owned(),
        None => {
            let mut out = String::new();
            push_u64(&mut out, uid as u64);
            out
        },
    }
}

// ---------------------------------------------------------------------------
// Command lines
// ---------------------------------------------------------------------------

/// The command line in a text in which NUL characters end the arguments:
/// those that are not empty, with spaces between them.
pub open spec fn command_in(text: Seq<char>) -> Option<Seq<char>> {
    let joined = joined_with(nonempty(pieces(text, '\0')), " "@);
    if joined.len() > 0 {
        Some(joined)
    } else {
        None
    }
}

/// The command line in a text in which NUL characters end the arguments.
pub fn parse_command(text: &str) -> (r: Option<String>)
    ensures
        opt_text(r) == command_in(text@),
{
    let chars = chars_of(text);
    let parts = split_on(chars.as_slice(), '\0');
    let ghost all = views(parts@);
    let mut kept: Vec<&[char]> = Vec::new();
    let mut i: usize = 0;
    assert(views(kept@) =~= nonempty(all.take(0)));
    while i < parts.len()
        invariant
            i <= parts@.len(),
            all == views(parts@),
            views(kept@) == nonempty(all.take(i as int)),
        decreases parts@.len() - i,
    {
        assert(all.take(i + 1).drop_last() =~= all.take(i as int));
        let part = parts[i];
        assert(all.take(i + 1).last() == part@);
        if part.len() > 0 {
            let ghost before = views(kept@);
            kept.push(part);
            assert(views(kept@) =~= before.push(part@));
        }
        i = i + 1;
    }
    assert(all.take(i as int) =~= all);
    let joined = join_with(&kept, " ");
    if joined.as_str().is_empty() {
        None
    } else {
        Some(joined)
    }
}

/// The command line that raw bytes hold. There is none for a kernel thread,
/// whose bytes are none.
pub open spec fn command_of(raw: Option<Seq<u8>>) -> Option<Seq<char>> {
    match raw {
        Some(bytes) => if bytes.len() == 0 {
            None
        } else {
            command_in(lossy_text(bytes))
        },
        None => None,
    }
}

/// The bytes that may have been read.
pub open spec fn opt_bytes(raw: Option<Vec<u8>>) -> Option<Seq<u8>> {
    match raw {
        Some(b) => Some(b@),
        None => None,
    }
}

/// The command line that raw bytes hold.
pub fn read_cmdline(raw: &Option<Vec<u8>>) -> (r: Option<String>)
    ensures
        opt_text(r) == command_of(opt_bytes(*raw)),
{
    match raw {
        Some(bytes) => {
            if bytes.len() == 0 {
                return None;
            }
            let text = utf8_lossy(bytes);
            parse_command(text.as_str())
        },
        None => None,
    }
}

// ---------------------------------------------------------------------------
// Sampling
// ---------------------------------------------------------------------------

/// What `/proc` says of one entry, as far as it could be read.
#[derive(Debug, Clone, PartialEq, Eq)]
pub struct ProcEntry {
    /// The name of the entry. Processes have numbers.
    pub name: String,
    pub stat: Option<String>,
    /// Who owns the entry.
    pub uid: Option<u32>,
    pub cmdline: Option<Vec<u8>>,
}

/// A process with its texts.
pub struct ProcessText {
    pub stat: StatText,
    pub command: Seq<char>,
    pub uid: u32,
    pub user: Seq<char>,
    pub cpu_percent: (nat, int),
}

/// A process's memory in bytes, as far as 64 bits hold it.
pub open spec fn memory_of(pages: u64) -> u64 {
    crate::double::capped((pages * 4096) as nat)
}

/// Whether a process says what is to be shown of it.
pub open spec fn shows(p: Process, t: ProcessText) -> bool {
    &&& p.pid == t.stat.pid
    &&& p.ppid == t.stat.ppid
    &&& p.name@ == t.stat.comm
    &&& p.command@ == t.command
    &&& p.state == t.stat.state
    &&& p.uid == t.uid
    &&& p.user@ == t.user
    &&& value_of(p.cpu_percent) == t.cpu_percent
    &&& p.memory_bytes == memory_of(t.stat.rss_pages)
    &&& p.threads == t.stat.threads
    &&& p.started_ticks == t.stat.started_ticks
}

/// What tells one process from every other: its pid, and when it started.
pub open spec fn identity(pid: u32, started_ticks: u64) -> u128 {
    (pid * 0x10000000000000000 + started_ticks) as u128
}

/// Whether a name is made of digits alone.
pub open spec fn is_numeric(name: Seq<char>) -> bool {
    forall|i: int| 0 <= i < name.len() ==> is_digit(#[trigger] name[i])
}

/// The process that an entry is, if it is one that could be read.
pub open spec fn entry_stat(e: ProcEntry) -> Option<StatText> {
    if is_numeric(e.name@) {
        match e.stat {
            Some(line) => stat_of(line@),
            None => None,
        }
    } else {
        None
    }
}

/// The processor time of a process, in ticks since it started.
pub open spec fn ticks_of(s: StatText) -> nat {
    (s.utime + s.stime) as nat
}

/// The processor time of a process since before: nothing where there is no
/// before, or where the counter went back.
pub open spec fn ticks_since(s: StatText, before: Map<u128, u128>) -> nat {
    let key = identity(s.pid, s.started_ticks);
    if before.contains_key(key) && ticks_of(s) >= before[key] {
        (ticks_of(s) - before[key]) as nat
    } else {
        0
    }
}

/// What is to be shown of an entry that is a process.
pub open spec fn shown(
    e: ProcEntry,
    s: StatText,
    before: Map<u128, u128>,
    users: Map<u32, String>,
    elapsed: Seconds,
) -> ProcessText {
    let uid = match e.uid {
        Some(u) => u,
        None => 0,
    };
    ProcessText {
        stat: s,
        command: match command_of(opt_bytes(e.cmdline)) {
            Some(c) => c,
            None => "["@ + s.comm + "]"@,
        },
        uid,
        user: user_text(uid, name_of(users, uid)),
        cpu_percent: percent_of(ticks_since(s, before), elapsed),
    }
}

/// What is to be shown of some entries, in order.
pub open spec fn table(
    entries: Seq<ProcEntry>,
    before: Map<u128, u128>,
    users: Map<u32, String>,
    elapsed: Seconds,
) -> Seq<ProcessText>
    decreases entries.len(),
{
    if entries.len() == 0 {
        Seq::empty()
    } else {
        let rest = table(entries.drop_last(), before, users, elapsed);
        match entry_stat(entries.last()) {
            Some(s) => rest.push(shown(entries.last(), s, before, users, elapsed)),
            None => rest,
        }
    }
}

/// The processor times of some entries, by process.
pub open spec fn times_of(entries: Seq<ProcEntry>) -> Map<u128, u128>
    decreases entries.len(),
{
    if entries.len() == 0 {
        Map::empty()
    } else {
        let rest = times_of(entries.drop_last());
        match entry_stat(entries.last()) {
            Some(s) => rest.insert(identity(s.pid, s.started_ticks), ticks_of(s) as u128),
            None => rest,
        }
    }
}

impl Ordered for ProcessText {
    open spec fn precedes(b: Self, a: Self) -> bool {
        exceeds(b.cpu_percent, a.cpu_percent) || (!exceeds(a.cpu_percent, b.cpu_percent)
            && memory_of(b.stat.rss_pages) > memory_of(a.stat.rss_pages))
    }
}

impl Ordered for Process {
    open spec fn precedes(b: Self, a: Self) -> bool {
        exceeds(value_of(b.cpu_percent), value_of(a.cpu_percent)) || (!exceeds(
            value_of(a.cpu_percent),
            value_of(b.cpu_percent),
        ) && b.memory_bytes > a.memory_bytes)
    }
}

impl Ranked for Process {
    fn comes_before(&self, other: &Self) -> bool {
        is_above(self.cpu_percent, other.cpu_percent) || (!is_above(
            other.cpu_percent,
            self.cpu_percent,
        ) && self.memory_bytes > other.memory_bytes)
    }
}

/// Whether a list of processes shows what is to be shown, one by one.
pub open spec fn all_show(v: Seq<Process>, t: Seq<ProcessText>) -> bool {
    v.len() == t.len() && forall|i: int| 0 <= i < v.len() ==> #[trigger] shows(v[i], t[i])
}

proof fn lemma_sorted_show(v: Seq<Process>, t: Seq<ProcessText>)
    requires
        all_show(v, t),
    ensures
        all_show(in_order(v), in_order(t)),
    decreases v.len(),
{
    if v.len() > 0 {
        assert forall|i: int| 0 <= i < v.drop_last().len() implies #[trigger] shows(
            v.drop_last()[i],
            t.drop_last()[i],
        ) by {
            assert(shows(v[i], t[i]));
        }
        lemma_sorted_show(v.drop_last(), t.drop_last());
        let a = in_order(v.drop_last());
        let b = in_order(t.drop_last());
        assert(shows(v[v.len() - 1], t[t.len() - 1]));
        lemma_place_show(a, v.last(), b, t.last());
        let at = crate::order::place(a, v.last());
        assert forall|i: int| 0 <= i < in_order(v).len() implies #[trigger] shows(
            in_order(v)[i],
            in_order(t)[i],
        ) by {
            if i < at {
                assert(shows(a[i], b[i]));
            } else if i > at {
                assert(shows(a[i - 1], b[i - 1]));
            }
        }
    }
}

proof fn lemma_place_show(a: Seq<Process>, x: Process, b: Seq<ProcessText>, y: ProcessText)
    requires
        all_show(a, b),
        shows(x, y),
    ensures
        crate::order::place(a, x) == crate::order::place(b, y),
        0 <= crate::order::place(a, x) <= a.len(),
    decreases a.len(),
{
    if a.len() > 0 {
        assert(shows(a[a.len() - 1], b[b.len() - 1]));
        assert forall|i: int| 0 <= i < a.drop_last().len() implies #[trigger] shows(
            a.drop_last()[i],
            b.drop_last()[i],
        ) by {
            assert(shows(a[i], b[i]));
        }
        lemma_place_show(a.drop_last(), x, b.drop_last(), y);
    }
}

fn numeric(name: &str) -> (r: bool)
    ensures
        r == is_numeric(name@),
{
    let chars = chars_of(name);
    let mut i: usize = 0;
    while i < chars.len()
        invariant
            i <= chars@.len(),
            chars@ == name@,
            forall|k: int| 0 <= k < i ==> is_digit(#[trigger] name@[k]),
        decreases chars@.len() - i,
    {
        if chars[i] < '0' || chars[i] > '9' {
            assert(!is_digit(name@[i as int]));
            return false;
        }
        i = i + 1;
    }
    true
}

fn key_of(pid: u32, started_ticks: u64) -> (r: u128)
    ensures
        r == identity(pid, started_ticks),
{
    pid as u128 * 0x10000000000000000 + started_ticks as u128
}

/// Reads the process table. The single owner of per-process delta state.
#[derive(Debug)]
pub struct ProcessSampler {
    /// Keyed by pid and start time together, so that a reused pid starts
    /// afresh.
    previous: HashMap<u128, u128>,
    users: HashMap<u32, String>,
}

impl ProcessSampler {
    /// Processor times at the last sample, by process.
    pub closed spec fn last(&self) -> Map<u128, u128> {
        self.previous@
    }

    /// Names of users, by uid.
    pub closed spec fn names(&self) -> Map<u32, String> {
        self.users@
    }

    /// A sampler that has sampled nothing, given `/etc/passwd` as far as it
    /// could be read.
    pub fn new(passwd: Option<&str>) -> (r: Self)
        ensures
            r.last() == Map::<u128, u128>::empty(),
            forall|uid: u32| #[trigger]
                name_of(r.names(), uid) == match passwd {
                    Some(t) => name_in(lines(t@), uid),
                    None => None,
                },
    {
        let users = match passwd {
            Some(t) => parse_passwd(t),
            None => HashMap::new(),
        };
        ProcessSampler { previous: HashMap::new(), users }
    }

    /// What is to be shown of one entry that is a process.
    fn show(&self, e: &ProcEntry, stat: Stat, elapsed: Seconds) -> (r: Process)
        ensures
            shows(r, shown(*e, stat_text(stat), self.last(), self.names(), elapsed)),
    {
        let ticks: u128 = stat.utime as u128 + stat.stime as u128;
        let cpu_ticks: u128 = match self.previous.get(&key_of(stat.pid, stat.started_ticks)) {
            Some(before) => if ticks >= *before {
                ticks - *before
            } else {
                0
            },
            None => 0,
        };
        let uid: u32 = match e.uid {
            Some(u) => u,
            None => 0,
        };
        let command = match read_cmdline(&e.cmdline) {
            Some(c) => c,
            None => {
                let mut out = "[".to_owned();
                out.append(stat.comm.as_str());
                out.append("]");
                out
            },
        };
        let bytes: u128 = stat.rss_pages as u128 * 4096;
        let memory_bytes: u64 = if bytes > u64::MAX as u128 {
            u64::MAX
        } else {
            bytes as u64
        };
        Process {
            pid: stat.pid,
            ppid: stat.ppid,
            name: stat.comm,
            command,
            state: stat.state,
            uid,
            user: resolve_user(uid, &self.users),
            cpu_percent: percent(cpu_ticks, elapsed),
            memory_bytes,
            threads: stat.threads,
            started_ticks: stat.started_ticks,
        }
    }

    /// Every process, busiest first, with its share of a processor over the
    /// time since the last sample. Entries that are no processes, and
    /// processes that vanished before they could be read, are passed over.
    /// Where there is no list of entries at all, there is nothing to show and
    /// the last sample stands.
    pub fn sample(&mut self, listed: Option<&Vec<ProcEntry>>, elapsed: Seconds) -> (r: Vec<Process>)
        ensures
            match listed {
                Some(entries) => {
                    &&& all_show(
                        r@,
                        in_order(table(entries@, old(self).last(), old(self).names(), elapsed)),
                    )
                    &&& final(self).last() == times_of(entries@)
                    &&& final(self).names() == old(self).names()
                },
                None => r@.len() == 0 && *final(self) == *old(self),
            },
    {
        let entries = match listed {
            Some(entries) => entries,
            None => {
                return Vec::new();
            },
        };
        let ghost all = entries@;
        let mut current: HashMap<u128, u128> = HashMap::new();
        let mut processes: Vec<Process> = Vec::new();
        let mut i: usize = 0;
        assert(all.take(0) =~= Seq::<ProcEntry>::empty());
        while i < entries.len()
            invariant
                i <= all.len(),
                all == entries@,
                *self == *old(self),
                current@ == times_of(all.take(i as int)),
                all_show(processes@, table(all.take(i as int), self.last(), self.names(), elapsed)),
            decreases all.len() - i,
        {
            let ghost next = all.take(i + 1);
            assert(next.drop_last() =~= all.take(i as int));
            let entry = &entries[i];
            assert(next.last() == *entry);
            let parsed = if numeric(entry.name.as_str()) {
                match &entry.stat {
                    Some(line) => parse_stat(line.as_str()),
                    None => None,
                }
            } else {
                None
            };
            if let Some(stat) = parsed {
                let ghost before = processes@;
                let ghost text = stat_text(stat);
                let ticks: u128 = stat.utime as u128 + stat.stime as u128;
                current.insert(key_of(stat.pid, stat.started_ticks), ticks);
                let process = self.show(entry, stat, elapsed);
                processes.push(process);
                proof {
                    let rest = table(all.take(i as int), self.last(), self.names(), elapsed);
                    let wanted = rest.push(shown(*entry, text, self.last(), self.names(), elapsed));
                    assert(table(next, self.last(), self.names(), elapsed) == wanted);
                    assert forall|k: int| 0 <= k < processes@.len() implies #[trigger] shows(
                        processes@[k],
                        wanted[k],
                    ) by {
                        if k < before.len() {
                            assert(shows(before[k], rest[k]));
                        }
                    }
                }
            }
            i = i + 1;
        }
        assert(all.take(i as int) =~= all);
        self.previous = current;
        proof {
            lemma_sorted_show(processes@, table(all, old(self).last(), old(self).names(), elapsed));
        }
        sort(processes)
    }

    /// Whether there is an earlier sample to compare with.
    pub fn has_history(&self) -> (r: bool)
        ensures
            r == (self.last().dom().len() > 0),
    {
        self.previous.len() > 0
    }
}

impl Default for ProcessSampler {
    /// A sampler that has sampled nothing and knows no user by name.
    fn default() -> (r: Self)
        ensures
            r.last() == Map::<u128, u128>::empty(),
            forall|uid: u32| #[trigger] name_of(r.names(), uid) is None,
    {
        ProcessSampler::new(None)
    }
}

/// Two processes are told apart by pid and start together: the same pid with
/// another start is another process.
pub proof fn law_identity_tells_processes_apart(pid: u32, started: u64, other: u32, later: u64)
    requires
        identity(pid, started) == identity(other, later),
    ensures
        pid == other && started == later,
{
}

/// A process without an earlier sample shows no use at all, whatever it used
/// before it was seen, and whatever an earlier process with its pid used.
pub proof fn law_a_new_process_starts_from_nothing(
    e: ProcEntry,
    s: StatText,
    before: Map<u128, u128>,
    users: Map<u32, String>,
    elapsed: Seconds,
)
    requires
        !before.contains_key(identity(s.pid, s.started_ticks)),
    ensures
        shown(e, s, before, users, elapsed).cpu_percent == (0nat, 0int),
{
}

/// The table is ordered by the share of a processor, and by memory where that
/// is the same.
pub proof fn law_busiest_first(rows: Seq<ProcessText>, i: int, j: int)
    requires
        0 <= i < j < in_order(rows).len(),
    ensures
        !exceeds(in_order(rows)[j].cpu_percent, in_order(rows)[i].cpu_percent),
        in_order(rows)[i].cpu_percent == in_order(rows)[j].cpu_percent ==> memory_of(
            in_order(rows)[i].stat.rss_pages,
        ) >= memory_of(in_order(rows)[j].stat.rss_pages),
{
    crate::order::law_sorted_is_ordered(rows);
    assert(!ProcessText::precedes(in_order(rows)[j], in_order(rows)[i]));
}

proof fn lemma_last_time(entries: Seq<ProcEntry>, k: int, s: StatText)
    requires
        0 <= k < entries.len(),
        entry_stat(entries[k]) == Some(s),
        forall|j: int|
            k < j < entries.len() ==> (entry_stat(#[trigger] entries[j]) matches Some(t)
                ==> identity(t.pid, t.started_ticks) != identity(s.pid, s.started_ticks)),
    ensures
        times_of(entries).contains_key(identity(s.pid, s.started_ticks)),
        times_of(entries)[identity(s.pid, s.started_ticks)] == ticks_of(s) as u128,
    decreases entries.len(),
{
    if k < entries.len() - 1 {
        let rest = entries.drop_last();
        assert(rest[k] == entries[k]);
        assert forall|j: int| k < j < rest.len() implies (entry_stat(#[trigger] rest[j])
            matches Some(t) ==> identity(t.pid, t.started_ticks) != identity(
            s.pid,
            s.started_ticks,
        )) by {
            assert(rest[j] == entries[j]);
        }
        lemma_last_time(rest, k, s);
        assert(entries[entries.len() - 1] == entries.last());
    }
}

/// Time in the kernel counts like time in the program: a process that was in
/// the last sample with so much of each, and has more now, shows the
/// percentage of what both rose by together.
pub proof fn law_user_and_system_time_both_count(
    then_seen: Seq<ProcEntry>,
    k: int,
    earlier: StatText,
    e: ProcEntry,
    now: StatText,
    users: Map<u32, String>,
    elapsed: Seconds,
)
    requires
        0 <= k < then_seen.len(),
        entry_stat(then_seen[k]) == Some(earlier),
        forall|j: int|
            k < j < then_seen.len() ==> (entry_stat(#[trigger] then_seen[j]) matches Some(t)
                ==> identity(t.pid, t.started_ticks) != identity(
                earlier.pid,
                earlier.started_ticks,
            )),
        now.pid == earlier.pid,
        now.started_ticks == earlier.started_ticks,
        now.utime >= earlier.utime,
        now.stime >= earlier.stime,
    ensures
        shown(e, now, times_of(then_seen), users, elapsed).cpu_percent == percent_of(
            ((now.utime - earlier.utime) + (now.stime - earlier.stime)) as nat,
            elapsed,
        ),
{
    lemma_last_time(then_seen, k, earlier);
}

/// A tick more of either kind is a tick more of what is counted, and a
/// counter that went back counts nothing.
pub proof fn law_each_kind_of_time_counts_alike(s: StatText, d: u64)
    ensures
        s.utime + d <= u64::MAX ==> ticks_of(StatText { utime: (s.utime + d) as u64, ..s })
            == ticks_of(s) + d,
        s.stime + d <= u64::MAX ==> ticks_of(StatText { stime: (s.stime + d) as u64, ..s })
            == ticks_of(s) + d,
        s.utime == 0 && s.stime == 0 ==> ticks_of(s) == 0,
{
}

/// What a row shows of its process: its own pid, parent, name, state, threads
/// and start, the pages that it holds in bytes, whoever owns its entry, and
/// its command line, or its name in brackets where it has none.
pub proof fn law_a_row_shows_its_own_process(
    p: Process,
    e: ProcEntry,
    s: StatText,
    before: Map<u128, u128>,
    users: Map<u32, String>,
    elapsed: Seconds,
)
    requires
        shows(p, shown(e, s, before, users, elapsed)),
    ensures
        p.pid == s.pid,
        p.ppid == s.ppid,
        p.name@ == s.comm,
        p.state == s.state,
        p.threads == s.threads,
        p.started_ticks == s.started_ticks,
        s.rss_pages * 4096 <= u64::MAX ==> p.memory_bytes == s.rss_pages * 4096,
        s.rss_pages * 4096 > u64::MAX ==> p.memory_bytes == u64::MAX,
        e.uid matches Some(u) ==> p.uid == u,
        e.uid is None ==> p.uid == 0,
        users.contains_key(p.uid) ==> p.user@ == users[p.uid]@,
        !users.contains_key(p.uid) ==> p.user@ == decimal(p.uid as nat),
        e.cmdline is None ==> p.command@ == "["@ + s.comm + "]"@,
        !before.contains_key(identity(s.pid, s.started_ticks)) ==> p.cpu_percent.mantissa == 0,
{
}

/// Every entry that is a process which could be read has its row, and no
/// entry has two.
pub proof fn law_every_process_has_its_row(
    entries: Seq<ProcEntry>,
    e: ProcEntry,
    before: Map<u128, u128>,
    users: Map<u32, String>,
    elapsed: Seconds,
)
    ensures
        entry_stat(e) matches Some(s) ==> table(entries.push(e), before, users, elapsed) == table(
            entries,
            before,
            users,
            elapsed,
        ).push(shown(e, s, before, users, elapsed)),
        entry_stat(e) is None ==> table(entries.push(e), before, users, elapsed) == table(
            entries,
            before,
            users,
            elapsed,
        ),
        table(Seq::<ProcEntry>::empty(), before, users, elapsed).len() == 0,
        in_order(table(entries, before, users, elapsed)).to_multiset() =~= table(
            entries,
            before,
            users,
            elapsed,
        ).to_multiset(),
        e.stat is None ==> entry_stat(e) is None,
        forall|i: int|
            0 <= i < e.name@.len() && !('0' <= #[trigger] e.name@[i] <= '9') ==> entry_stat(e)
                is None,
{
    assert(entries.push(e).drop_last() =~= entries);
    crate::order::law_sorting_keeps_every_element(table(entries, before, users, elapsed));
}

/// The fields of a stat line stand where the kernel puts them, counted from
/// the last closing bracket: a name may hold spaces and brackets of its own.
pub proof fn law_stat_fields_stand_behind_the_name(line: Seq<char>, s: StatText)
    requires
        stat_of(line) == Some(s),
        words(line.skip(last_at(line, ')') + 1)).len() >= 22,
    ensures
        ({
            let rest = words(line.skip(last_at(line, ')') + 1));
            &&& s.utime == number_or_zero(rest[11])
            &&& s.stime == number_or_zero(rest[12])
            &&& s.started_ticks == number_or_zero(rest[19])
            &&& s.rss_pages == number_or_zero(rest[21])
            &&& number_or_zero(rest[1]) <= u32::MAX ==> s.ppid == number_or_zero(rest[1])
            &&& number_or_zero(rest[17]) <= u32::MAX ==> s.threads == number_or_zero(rest[17])
            &&& natural_up_to(trimmed(line.take(text_at(line, " ("@))), u32::MAX as nat) == Some(
                s.pid as nat,
            )
            &&& line.take(text_at(line, " ("@)) + " ("@ + s.comm =~= line.take(last_at(line, ')'))
        }),
{
    reveal_strlit(" (");
    let open = text_at(line, " ("@);
    let close = last_at(line, ')');
    crate::text::lemma_text_at(line, " ("@);
    crate::text::lemma_last_at(line, ')');
    assert(line.subrange(open, open + 2) =~= " ("@);
    let left = line.take(open) + " ("@ + s.comm;
    let right = line.take(close);
    assert forall|i: int| 0 <= i < left.len() implies left[i] == right[i] by {
        if open <= i < open + 2 {
            assert(line.subrange(open, open + 2)[i - open] == line[i]);
        }
    }
}

/// A process's letter is its state, and only a zombie cannot be signalled.
pub proof fn law_a_letter_is_a_state(letter: Seq<char>)
    ensures
        (state_of(letter) is Running) == (letter == "R"@),
        (state_of(letter) is Sleeping) == (letter == "S"@),
        (state_of(letter) is DiskSleep) == (letter == "D"@),
        (state_of(letter) is Stopped) == (letter == "T"@ || letter == "t"@),
        (state_of(letter) is Zombie) == (letter == "Z"@),
        (state_of(letter) is Idle) == (letter == "I"@),
{
    reveal_strlit("R");
    reveal_strlit("S");
    reveal_strlit("D");
    reveal_strlit("T");
    reveal_strlit("t");
    reveal_strlit("Z");
    reveal_strlit("I");
    assert("R"@[0] == 'R' && "S"@[0] == 'S' && "D"@[0] == 'D' && "T"@[0] == 'T' && "t"@[0] == 't'
        && "Z"@[0] == 'Z' && "I"@[0] == 'I');
}

/// A user is named by the line of the password file whose third field is the
/// uid: by its first field, and the last such line counts.
pub proof fn law_users_are_named_by_the_password_file(
    all: Seq<Seq<char>>,
    line: Seq<char>,
    uid: u32,
)
    ensures
        pieces(line, ':').len() >= 3 && natural_up_to(pieces(line, ':')[2], u32::MAX as nat)
            == Some(uid as nat) ==> name_in(all.push(line), uid) == Some(pieces(line, ':')[0]),
        pieces(line, ':').len() < 3 || natural_up_to(pieces(line, ':')[2], u32::MAX as nat) != Some(
            uid as nat,
        ) ==> name_in(all.push(line), uid) == name_in(all, uid),
{
    assert(all.push(line).drop_last() =~= all);
}

/// Every process but a zombie can be signalled, and a user is shown by name,
/// or by number where there is none.
pub proof fn law_only_a_zombie_cannot_be_signalled(
    s: ProcessState,
    signalable: bool,
    uid: u32,
    users: HashMap<u32, String>,
    user: String,
)
    requires
        call_ensures(ProcessState::is_signalable, (s,), signalable),
        call_ensures(resolve_user, (uid, &users), user),
    ensures
        signalable == (s != ProcessState::Zombie),
        users@.contains_key(uid) ==> user@ == users@[uid]@,
        !users@.contains_key(uid) ==> user@ == decimal(uid as nat),
{
}

} // verus!
