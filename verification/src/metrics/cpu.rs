//! CPU: cumulative jiffies from `/proc/stat`, turned into utilisation.
use vstd::prelude::*;
use crate::order::{in_order, sort, Ordered, Ranked};
use crate::text::{after_prefix, chars_of, lines, natural_up_to, number, number_or_zero, parse_u64, parse_usize, split_lines, split_words, strip_prefix, trim, trimmed, views, words};
use super::{share, share_of, Share};

verus! {

broadcast use vstd::string::group_string_axioms;

/// Cumulative jiffies for one CPU, counted from boot, in the kernel's order.
#[derive(Debug, Clone, Copy, PartialEq, Eq, Structural)]
pub struct CpuTimes {
    pub user: u64,
    pub nice: u64,
    pub system: u64,
    pub idle: u64,
    pub iowait: u64,
    pub irq: u64,
    pub softirq: u64,
    pub steal: u64,
}

/// Every jiffy accounted for, busy or not.
pub open spec fn all_jiffies(t: CpuTimes) -> nat {
    (t.user + t.nice + t.system + t.idle + t.iowait + t.irq + t.softirq + t.steal) as nat
}

/// Jiffies spent doing something. Waiting for a disk is not that.
pub open spec fn busy_jiffies(t: CpuTimes) -> nat {
    (t.user + t.nice + t.system + t.irq + t.softirq + t.steal) as nat
}

/// Utilisation between two readings: the busy part of the jiffies between
/// them. Nothing where the counters did not advance or went backwards.
pub open spec fn utilisation(now: CpuTimes, before: CpuTimes) -> Option<Share> {
    if all_jiffies(now) < all_jiffies(before) || busy_jiffies(now) < busy_jiffies(before) {
        None
    } else {
        share_of(
            (busy_jiffies(now) - busy_jiffies(before)) as nat,
            (all_jiffies(now) - all_jiffies(before)) as nat,
        )
    }
}

impl Default for CpuTimes {
    fn default() -> (r: Self)
        ensures
            all_jiffies(r) == 0,
    {
        CpuTimes {
            user: 0,
            nice: 0,
            system: 0,
            idle: 0,
            iowait: 0,
            irq: 0,
            softirq: 0,
            steal: 0,
        }
    }
}

impl CpuTimes {
    /// Every jiffy accounted for, busy or not.
    pub fn total(&self) -> (r: u128)
        ensures
            r == all_jiffies(*self),
    {
        self.user as u128 + self.nice as u128 + self.system as u128 + self.idle as u128
            + self.iowait as u128 + self.irq as u128 + self.softirq as u128 + self.steal as u128
    }

    /// Jiffies spent doing something.
    pub fn busy(&self) -> (r: u128)
        ensures
            r == busy_jiffies(*self),
    {
        self.user as u128 + self.nice as u128 + self.system as u128 + self.irq as u128
            + self.softirq as u128 + self.steal as u128
    }

    /// Utilisation since an earlier reading.
    pub fn utilisation_since(&self, previous: &Self) -> (r: Option<Share>)
        ensures
            r == utilisation(*self, *previous),
    {
        let total: u128 = self.total();
        let total_before: u128 = previous.total();
        let busy: u128 = self.busy();
        let busy_before: u128 = previous.busy();
        if total < total_before || busy < busy_before {
            return None;
        }
        share(busy - busy_before, total - total_before)
    }
}

/// What one tick gives.
#[derive(Debug, Clone, PartialEq, Eq)]
pub struct CpuReading {
    /// Overall utilisation.
    pub total: Share,
    /// Per core, in the kernel's order.
    pub per_core: Vec<Share>,
    /// Current frequency of the first core, in kHz, where it is reported.
    pub frequency_khz: Option<u64>,
}

/// One field of a line, as a number; zero where it is missing or is none.
pub open spec fn jiffies_at(fields: Seq<Seq<char>>, i: int) -> u64 {
    if i < fields.len() {
        number_or_zero(fields[i])
    } else {
        0
    }
}

/// The jiffies that the fields behind a line's name give.
pub open spec fn times_of(fields: Seq<Seq<char>>) -> CpuTimes {
    CpuTimes {
        user: jiffies_at(fields, 0),
        nice: jiffies_at(fields, 1),
        system: jiffies_at(fields, 2),
        idle: jiffies_at(fields, 3),
        iowait: jiffies_at(fields, 4),
        irq: jiffies_at(fields, 5),
        softirq: jiffies_at(fields, 6),
        steal: jiffies_at(fields, 7),
    }
}

/// What follows `cpu` in the name of a line, and the line's jiffies.
pub open spec fn cpu_line(line: Seq<char>) -> Option<(Seq<char>, CpuTimes)> {
    let w = words(line);
    if w.len() == 0 {
        None
    } else {
        match after_prefix(w[0], "cpu"@) {
            Some(rest) => Some((rest, times_of(w.skip(1)))),
            None => None,
        }
    }
}

/// The line for all cores together: the last one, should there be several.
pub open spec fn aggregate_of(all: Seq<Seq<char>>) -> Option<CpuTimes>
    decreases all.len(),
{
    if all.len() == 0 {
        None
    } else {
        match cpu_line(all.last()) {
            Some((rest, times)) if rest.len() == 0 => Some(times),
            _ => aggregate_of(all.drop_last()),
        }
    }
}

/// A core and its jiffies.
#[derive(Debug, Clone, Copy)]
pub struct Core {
    pub index: usize,
    pub times: CpuTimes,
}

impl Ordered for Core {
    open spec fn precedes(b: Self, a: Self) -> bool {
        b.index < a.index
    }
}

impl Ranked for Core {
    fn comes_before(&self, other: &Self) -> bool {
        self.index < other.index
    }
}

/// The lines for single cores, in the order of the file.
pub open spec fn cores_of(all: Seq<Seq<char>>) -> Seq<Core>
    decreases all.len(),
{
    if all.len() == 0 {
        Seq::empty()
    } else {
        let before = cores_of(all.drop_last());
        match cpu_line(all.last()) {
            Some((rest, times)) if rest.len() > 0 => match natural_up_to(rest, usize::MAX as nat) {
                Some(n) => before.push(Core { index: n as usize, times }),
                None => before,
            },
            _ => before,
        }
    }
}

/// The jiffies of some cores.
pub open spec fn core_times(cores: Seq<Core>) -> Seq<CpuTimes> {
    cores.map_values(|c: Core| c.times)
}

fn field_at(fields: &Vec<&[char]>, i: usize) -> (r: u64)
    requires
        i < 100,
        fields@.len() >= 1,
    ensures
        r == jiffies_at(views(fields@).skip(1), i as int),
{
    if i + 1 < fields.len() {
        assert(views(fields@).skip(1)[i as int] == fields@[i + 1]@);
        match parse_u64(fields[i + 1]) {
            Some(n) => n,
            None => 0,
        }
    } else {
        0
    }
}

/// The jiffies of one line, from its words, the first of which is its name.
fn parse_times(fields: &Vec<&[char]>) -> (r: CpuTimes)
    requires
        fields@.len() >= 1,
    ensures
        r == times_of(views(fields@).skip(1)),
{
    CpuTimes {
        user: field_at(fields, 0),
        nice: field_at(fields, 1),
        system: field_at(fields, 2),
        idle: field_at(fields, 3),
        iowait: field_at(fields, 4),
        irq: field_at(fields, 5),
        softirq: field_at(fields, 6),
        steal: field_at(fields, 7),
    }
}

/// Parses `/proc/stat` into the line for all cores and the lines for single
/// ones. Lines are selected by name, never by position, and cores are put in
/// the order of the kernel's own index.
pub fn parse_stat(text: &str) -> (r: (Option<CpuTimes>, Vec<CpuTimes>))
    ensures
        r.0 == aggregate_of(lines(text@)),
        r.1@ == core_times(in_order(cores_of(lines(text@)))),
{
    let chars = chars_of(text);
    let rows = split_lines(chars.as_slice());
    let ghost all = lines(text@);
    let mut aggregate: Option<CpuTimes> = None;
    let mut cores: Vec<Core> = Vec::new();
    let mut i: usize = 0;
    assert(all.take(0) =~= Seq::<Seq<char>>::empty());
    while i < rows.len()
        invariant
            i <= rows@.len(),
            views(rows@) == all,
            aggregate == aggregate_of(all.take(i as int)),
            cores@ == cores_of(all.take(i as int)),
        decreases rows@.len() - i,
    {
        assert(all.take(i + 1).drop_last() =~= all.take(i as int));
        assert(all.take(i + 1).last() == rows@[i as int]@);
        let fields = split_words(rows[i]);
        assert(views(fields@).len() == fields@.len());
        if fields.len() > 0 {
            assert(views(fields@)[0] == fields@[0]@);
            if let Some(rest) = strip_prefix(fields[0], "cpu") {
                let times = parse_times(&fields);
                if rest.len() == 0 {
                    aggregate = Some(times);
                } else if let Some(index) = parse_usize(rest) {
                    cores.push(Core { index, times });
                }
            }
        }
        i = i + 1;
    }
    assert(all.take(i as int) =~= all);
    let sorted = sort(cores);
    let mut out: Vec<CpuTimes> = Vec::new();
    let mut j: usize = 0;
    while j < sorted.len()
        invariant
            j <= sorted@.len(),
            out@ == core_times(sorted@).take(j as int),
        decreases sorted@.len() - j,
    {
        out.push(sorted[j].times);
        j = j + 1;
    }
    assert(core_times(sorted@).take(j as int) =~= core_times(sorted@));
    (aggregate, out)
}

/// Each core's utilisation since before; none at all where the number of
/// cores changed, since they could not be told apart.
pub open spec fn per_core_of(now: Seq<CpuTimes>, before: Seq<CpuTimes>) -> Seq<Share> {
    if now.len() == before.len() {
        Seq::new(
            now.len(),
            |i: int|
                match utilisation(now[i], before[i]) {
                    Some(s) => s,
                    None => Share { part: 0, whole: 1 },
                },
        )
    } else {
        Seq::empty()
    }
}

/// Whether a sampler that takes a reading from this text goes from `before` to
/// `after` and gives `r`.
pub open spec fn cpu_step(
    before: CpuSampler,
    text: Seq<char>,
    frequency_khz: Option<u64>,
    after: CpuSampler,
    r: Option<CpuReading>,
) -> bool {
    let cores = core_times(in_order(cores_of(lines(text))));
    match aggregate_of(lines(text)) {
        None => r is None && after == before,
        Some(now) => {
            let total = match before.last_total() {
                Some(earlier) => utilisation(now, earlier),
                None => None,
            };
            &&& after.last_total() == Some(now)
            &&& after.last_cores() == cores
            &&& match total {
                Some(share) => r matches Some(reading) && reading.total == share
                    && reading.per_core@ == per_core_of(cores, before.last_cores())
                    && reading.frequency_khz == frequency_khz,
                None => r is None,
            }
        },
    }
}

/// Turns cumulative counters into utilisation. The single owner of CPU delta
/// state.
#[derive(Debug)]
pub struct CpuSampler {
    previous_total: Option<CpuTimes>,
    previous_cores: Vec<CpuTimes>,
}

impl CpuSampler {
    /// The last reading of all cores together.
    pub closed spec fn last_total(&self) -> Option<CpuTimes> {
        self.previous_total
    }

    /// The last reading of each core.
    pub closed spec fn last_cores(&self) -> Seq<CpuTimes> {
        self.previous_cores@
    }

    /// A sampler that has read nothing.
    pub fn new() -> (r: Self)
        ensures
            r.last_total() is None,
            r.last_cores().len() == 0,
    {
        CpuSampler { previous_total: None, previous_cores: Vec::new() }
    }

    /// Takes a reading from what `/proc/stat` holds. There is none until
    /// there is an earlier one to compare with.
    pub fn sample_from(&mut self, text: &str, frequency_khz: Option<u64>) -> (r: Option<CpuReading>)
        ensures
            cpu_step(*old(self), text@, frequency_khz, *final(self), r),
    {
        let (found, cores) = parse_stat(text);
        let aggregate = match found {
            Some(a) => a,
            None => {
                return None;
            },
        };
        let total = match &self.previous_total {
            Some(before) => aggregate.utilisation_since(before),
            None => None,
        };
        let mut per_core: Vec<Share> = Vec::new();
        let ghost wanted = per_core_of(cores@, self.previous_cores@);
        if self.previous_cores.len() == cores.len() {
            let mut i: usize = 0;
            while i < cores.len()
                invariant
                    i <= cores@.len() == self.previous_cores@.len(),
                    wanted == per_core_of(cores@, self.previous_cores@),
                    per_core@ == wanted.take(i as int),
                decreases cores@.len() - i,
            {
                let share = match cores[i].utilisation_since(&self.previous_cores[i]) {
                    Some(s) => s,
                    None => Share { part: 0, whole: 1 },
                };
                per_core.push(share);
                i = i + 1;
            }
            assert(wanted.take(i as int) =~= wanted);
        }
        self.previous_total = Some(aggregate);
        self.previous_cores = cores;
        match total {
            Some(total) => Some(CpuReading { total, per_core, frequency_khz }),
            None => None,
        }
    }
}

impl Default for CpuSampler {
    fn default() -> (r: Self)
        ensures
            r.last_total() is None,
            r.last_cores().len() == 0,
    {
        CpuSampler::new()
    }
}

/// Current frequency in kHz, from the file that reports it, where there is
/// one.
pub fn current_frequency_khz(text: Option<&str>) -> (r: Option<u64>)
    ensures
        r == match text {
            Some(t) => number(trimmed(t@)),
            None => None,
        },
{
    match text {
        Some(t) => {
            let chars = chars_of(t);
            parse_u64(trim(chars.as_slice()))
        },
        None => None,
    }
}

/// Waiting for a disk is not work: it counts towards the whole and not
/// towards the busy part.
pub proof fn law_waiting_is_idle(t: CpuTimes, more: u64)
    requires
        t.iowait + more <= u64::MAX,
    ensures
        busy_jiffies(CpuTimes { iowait: (t.iowait + more) as u64, ..t }) == busy_jiffies(t),
        all_jiffies(CpuTimes { iowait: (t.iowait + more) as u64, ..t }) == all_jiffies(t) + more,
{
}

/// Utilisation never leaves the range from nothing to everything, and no
/// interval is none.
pub proof fn law_utilisation_is_a_fraction(now: CpuTimes, before: CpuTimes)
    ensures
        utilisation(now, before) matches Some(s) ==> s.wf(),
        utilisation(now, now) is None,
{
}

/// Every jiffy is either busy, idle or spent waiting, and each field counts
/// once: a jiffy more of user, nice, system, irq, softirq or steal is one more
/// busy jiffy, and a jiffy more of idle or iowait is not.
pub proof fn law_every_jiffy_counts_once(t: CpuTimes, d: u64)
    ensures
        busy_jiffies(t) + t.idle + t.iowait == all_jiffies(t),
        t.user + d <= u64::MAX ==> busy_jiffies(CpuTimes { user: (t.user + d) as u64, ..t })
            == busy_jiffies(t) + d,
        t.nice + d <= u64::MAX ==> busy_jiffies(CpuTimes { nice: (t.nice + d) as u64, ..t })
            == busy_jiffies(t) + d,
        t.system + d <= u64::MAX ==> busy_jiffies(CpuTimes { system: (t.system + d) as u64, ..t })
            == busy_jiffies(t) + d,
        t.irq + d <= u64::MAX ==> busy_jiffies(CpuTimes { irq: (t.irq + d) as u64, ..t })
            == busy_jiffies(t) + d,
        t.softirq + d <= u64::MAX ==> busy_jiffies(
            CpuTimes { softirq: (t.softirq + d) as u64, ..t },
        ) == busy_jiffies(t) + d,
        t.steal + d <= u64::MAX ==> busy_jiffies(CpuTimes { steal: (t.steal + d) as u64, ..t })
            == busy_jiffies(t) + d,
        t.idle + d <= u64::MAX ==> busy_jiffies(CpuTimes { idle: (t.idle + d) as u64, ..t })
            == busy_jiffies(t),
        t.user == 0 && t.nice == 0 && t.system == 0 && t.irq == 0 && t.softirq == 0 && t.steal == 0
            ==> busy_jiffies(t) == 0,
{
}

/// Utilisation is what was busy of what went by: with counters that only rose
/// it is the sum of what user, nice, system, irq, softirq and steal rose by,
/// out of what all eight rose by. Where nothing went by there is none.
pub proof fn law_utilisation_is_the_busy_part(now: CpuTimes, before: CpuTimes)
    requires
        now.user >= before.user,
        now.nice >= before.nice,
        now.system >= before.system,
        now.idle >= before.idle,
        now.iowait >= before.iowait,
        now.irq >= before.irq,
        now.softirq >= before.softirq,
        now.steal >= before.steal,
    ensures
        ({
            let busy = (now.user - before.user) + (now.nice - before.nice) + (now.system
                - before.system) + (now.irq - before.irq) + (now.softirq - before.softirq) + (
            now.steal - before.steal);
            let quiet = (now.idle - before.idle) + (now.iowait - before.iowait);
            match utilisation(now, before) {
                Some(s) => s.part == busy && s.whole == busy + quiet && busy + quiet > 0,
                None => busy + quiet == 0,
            }
        }),
{
}

/// A sample's total is the utilisation between the aggregate line before and
/// the one now, and a core's is that between its own two lines; the sampler
/// keeps the lines it has just read, and there is no reading without an
/// earlier one.
pub proof fn law_a_sample_compares_with_the_last(
    before: CpuSampler,
    text: Seq<char>,
    frequency_khz: Option<u64>,
    after: CpuSampler,
    r: Option<CpuReading>,
)
    requires
        cpu_step(before, text, frequency_khz, after, r),
    ensures
        before.last_total() is None ==> r is None,
        r matches Some(reading) ==> {
            &&& before.last_total() matches Some(b)
            &&& after.last_total() matches Some(n)
            &&& utilisation(n, b) == Some(reading.total)
            &&& reading.frequency_khz == frequency_khz
            &&& after.last_cores().len() != before.last_cores().len()
                ==> reading.per_core@.len() == 0
            &&& after.last_cores().len() == before.last_cores().len() ==> reading.per_core@.len()
                == after.last_cores().len()
            &&& after.last_cores().len() == before.last_cores().len() ==> forall|i: int|
                0 <= i < reading.per_core@.len() ==> match utilisation(
                    after.last_cores()[i],
                    before.last_cores()[i],
                ) {
                    Some(s) => #[trigger] reading.per_core@[i] == s,
                    None => reading.per_core@[i].part == 0,
                }
        },
{
}

/// The counters stand in the kernel's order behind the name: user, nice,
/// system, idle, iowait, irq, softirq, steal.
pub proof fn law_counters_stand_in_the_kernels_order(line: Seq<char>, name: Seq<char>, t: CpuTimes)
    requires
        cpu_line(line) == Some((name, t)),
        words(line).len() >= 9,
    ensures
        words(line)[0] == "cpu"@ + name,
        t.user == number_or_zero(words(line)[1]),
        t.nice == number_or_zero(words(line)[2]),
        t.system == number_or_zero(words(line)[3]),
        t.idle == number_or_zero(words(line)[4]),
        t.iowait == number_or_zero(words(line)[5]),
        t.irq == number_or_zero(words(line)[6]),
        t.softirq == number_or_zero(words(line)[7]),
        t.steal == number_or_zero(words(line)[8]),
{
    let w = words(line);
    assert(w[0] =~= "cpu"@ + name);
    assert(w.skip(1)[0] == w[1] && w.skip(1)[1] == w[2] && w.skip(1)[2] == w[3] && w.skip(1)[3]
        == w[4] && w.skip(1)[4] == w[5] && w.skip(1)[5] == w[6] && w.skip(1)[6] == w[7] && w.skip(
        1,
    )[7] == w[8]);
}

/// The line named `cpu` alone is the machine's; a line with a number behind
/// that is the core of that number. Every other line is neither.
pub proof fn law_lines_are_told_apart_by_name(all: Seq<Seq<char>>, line: Seq<char>)
    ensures
        match cpu_line(line) {
            Some((name, t)) => if name.len() == 0 {
                aggregate_of(all.push(line)) == Some(t) && cores_of(all.push(line)) == cores_of(all)
            } else {
                &&& aggregate_of(all.push(line)) == aggregate_of(all)
                &&& natural_up_to(name, usize::MAX as nat) matches Some(n) ==> cores_of(
                    all.push(line),
                ) == cores_of(all).push(Core { index: n as usize, times: t })
            },
            None => aggregate_of(all.push(line)) == aggregate_of(all) && cores_of(all.push(line))
                == cores_of(all),
        },
{
    assert(all.push(line).drop_last() =~= all);
}

/// Cores are listed by their numbers, whatever order the kernel lists them in,
/// and the totals of a line are those of its fields.
pub proof fn law_cores_are_listed_by_number(
    cores: Seq<Core>,
    i: int,
    j: int,
    t: CpuTimes,
    all: u128,
    busy: u128,
)
    requires
        0 <= i < j < in_order(cores).len(),
        call_ensures(CpuTimes::total, (&t,), all),
        call_ensures(CpuTimes::busy, (&t,), busy),
    ensures
        in_order(cores)[i].index <= in_order(cores)[j].index,
        core_times(cores).len() == cores.len(),
        forall|k: int|
            0 <= k < cores.len() ==> #[trigger] core_times(cores)[k] == cores[k].times,
        all == t.user + t.nice + t.system + t.idle + t.iowait + t.irq + t.softirq + t.steal,
        busy + t.idle + t.iowait == all,
{
    crate::order::law_sorted_is_ordered(cores);
    assert(!Core::precedes(in_order(cores)[j], in_order(cores)[i]));
}

} // verus!
