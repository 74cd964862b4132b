//! Disk throughput, from the counters in `/sys/block`.
use vstd::prelude::*;
use crate::order::{holds_last, lemma_holds_insert, lemma_holds_nothing, lemma_holds_skip, TextMap};
use crate::text::{begins, chars_of, number, number_or_zero, parse_u64, split_words, starts_with, trim, trimmed, views, words};
use crate::double::{capped, per_second, rate, Seconds};
use crate::exact::{is_whole, law_rates_are_exact};

verus! {

broadcast use vstd::string::group_string_axioms;

/// Cumulative counters for one block device, in sectors of 512 bytes.
#[derive(Debug, Clone, Copy, PartialEq, Eq, Structural)]
pub struct DiskCounters {
    pub sectors_read: u64,
    pub sectors_written: u64,
}

impl Default for DiskCounters {
    fn default() -> (r: Self)
        ensures
            r == (DiskCounters { sectors_read: 0, sectors_written: 0 }),
    {
        DiskCounters { sectors_read: 0, sectors_written: 0 }
    }
}

impl DiskCounters {
    /// Bytes read since boot.
    pub fn bytes_read(&self) -> (r: u128)
        ensures
            r == self.sectors_read * 512,
    {
        self.sectors_read as u128 * 512
    }

    /// Bytes written since boot.
    pub fn bytes_written(&self) -> (r: u128)
        ensures
            r == self.sectors_written * 512,
    {
        self.sectors_written as u128 * 512
    }
}

/// Throughput over the last interval, in bytes per second.
#[derive(Debug, Clone, Copy, PartialEq, Eq, Structural)]
pub struct DiskTotals {
    pub read_per_second: u64,
    pub written_per_second: u64,
}

impl Default for DiskTotals {
    fn default() -> (r: Self)
        ensures
            r == (DiskTotals { read_per_second: 0, written_per_second: 0 }),
    {
        DiskTotals { read_per_second: 0, written_per_second: 0 }
    }
}

/// What one tick gives.
#[derive(Debug, Clone, PartialEq, Eq)]
pub struct DiskReading {
    /// Summed across every real device.
    pub totals: DiskTotals,
    /// Per device, by the kernel's names, in their order.
    pub per_device: Vec<(String, DiskTotals)>,
}

impl Default for DiskReading {
    fn default() -> (r: Self)
        ensures
            r.totals == (DiskTotals { read_per_second: 0, written_per_second: 0 }),
            r.per_device@.len() == 0,
    {
        DiskReading {
            totals: DiskTotals { read_per_second: 0, written_per_second: 0 },
            per_device: Vec::new(),
        }
    }
}

/// Whether a block device counts as storage: it has a size, and it is neither
/// a loop device nor a ramdisk, whose drivers reserve those names.
pub open spec fn counts_as_storage(name: Seq<char>, size_sectors: u64) -> bool {
    size_sectors != 0 && !begins(name, "loop"@) && !begins(name, "ram"@)
}

/// Whether a block device is worth counting.
pub fn is_real_storage(name: &str, size_sectors: u64) -> (r: bool)
    ensures
        r == counts_as_storage(name@, size_sectors),
{
    if size_sectors == 0 {
        return false;
    }
    let chars = chars_of(name);
    !starts_with(chars.as_slice(), "loop") && !starts_with(chars.as_slice(), "ram")
}

/// The counters in a device's `stat` line: the third and the seventh of at
/// least seven fields.
pub open spec fn device_counters(text: Seq<char>) -> Option<DiskCounters> {
    let w = words(text);
    if w.len() < 7 {
        None
    } else {
        match (number(w[2]), number(w[6])) {
            (Some(read), Some(written)) => Some(
                DiskCounters { sectors_read: read, sectors_written: written },
            ),
            _ => None,
        }
    }
}

/// Parses one device's `stat` line.
pub fn parse_device_stat(text: &str) -> (r: Option<DiskCounters>)
    ensures
        r == device_counters(text@),
{
    let chars = chars_of(text);
    let fields = split_words(chars.as_slice());
    assert(views(fields@).len() == fields@.len());
    if fields.len() < 7 {
        return None;
    }
    assert(views(fields@)[2] == fields@[2]@ && views(fields@)[6] == fields@[6]@);
    match (parse_u64(fields[2]), parse_u64(fields[6])) {
        (Some(sectors_read), Some(sectors_written)) => Some(
            DiskCounters { sectors_read, sectors_written },
        ),
        _ => None,
    }
}

/// What `/sys/block` says of one device: its name, and its `size` and `stat`
/// files as far as they could be read.
#[derive(Debug, Clone, PartialEq, Eq)]
pub struct DeviceFiles {
    pub name: String,
    pub size: Option<String>,
    pub stat: Option<String>,
}

/// The counters of one device, where it counts as storage and reports any.
pub open spec fn counted(d: DeviceFiles) -> Option<(Seq<char>, DiskCounters)> {
    let size = match d.size {
        Some(s) => number_or_zero(trimmed(s@)),
        None => 0,
    };
    if !counts_as_storage(d.name@, size) {
        None
    } else {
        match d.stat {
            Some(s) => match device_counters(s@) {
                Some(c) => Some((d.name@, c)),
                None => None,
            },
            None => None,
        }
    }
}

/// The counters of every device, device by device.
pub open spec fn all_counted(devices: Seq<DeviceFiles>) -> Seq<Option<(Seq<char>, DiskCounters)>> {
    devices.map_values(|d: DeviceFiles| counted(d))
}

fn read_device(d: &DeviceFiles) -> (r: Option<DiskCounters>)
    ensures
        match r {
            Some(c) => counted(*d) == Some((d.name@, c)),
            None => counted(*d) is None,
        },
{
    let size: u64 = match &d.size {
        Some(s) => {
            let chars = chars_of(s.as_str());
            match parse_u64(trim(chars.as_slice())) {
                Some(n) => n,
                None => 0,
            }
        },
        None => 0,
    };
    if !is_real_storage(d.name.as_str(), size) {
        return None;
    }
    match &d.stat {
        Some(s) => parse_device_stat(s.as_str()),
        None => None,
    }
}

/// Every real device's counters, by name.
pub fn read_counters(devices: &Vec<DeviceFiles>) -> (r: TextMap<DiskCounters>)
    ensures
        holds_last(r, all_counted(devices@)),
{
    let ghost all = all_counted(devices@);
    let mut out: TextMap<DiskCounters> = TextMap::new();
    let mut i: usize = 0;
    proof {
        lemma_holds_nothing(out, all.take(0));
    }
    while i < devices.len()
        invariant
            i <= devices@.len(),
            all == all_counted(devices@),
            holds_last(out, all.take(i as int)),
        decreases devices@.len() - i,
    {
        let ghost before = out;
        let ghost next = all.take(i + 1);
        assert(next.drop_last() =~= all.take(i as int));
        assert(next.last() == counted(devices@[i as int]));
        match read_device(&devices[i]) {
            Some(counters) => {
                out.insert(devices[i].name.as_str(), counters);
                proof {
                    lemma_holds_insert(before, out, next, devices@[i as int].name@, counters);
                }
            },
            None => {
                proof {
                    lemma_holds_skip(out, next);
                }
            },
        }
        i = i + 1;
    }
    assert(all.take(i as int) =~= all);
    out
}

/// A device's throughput since before. Nothing where a counter went back,
/// which means that the device was removed and added again.
pub open spec fn device_rate(now: DiskCounters, before: DiskCounters, seconds: Seconds) -> Option<
    DiskTotals,
> {
    if now.sectors_read < before.sectors_read || now.sectors_written < before.sectors_written {
        None
    } else {
        Some(
            DiskTotals {
                read_per_second: per_second(
                    capped(((now.sectors_read - before.sectors_read) * 512) as nat) as nat,
                    seconds,
                ),
                written_per_second: per_second(
                    capped(((now.sectors_written - before.sectors_written) * 512) as nat) as nat,
                    seconds,
                ),
            },
        )
    }
}

/// The throughput of every device that was there before, in the order of the
/// names.
pub open spec fn device_rates(
    now: Seq<(Seq<char>, DiskCounters)>,
    before: TextMap<DiskCounters>,
    seconds: Seconds,
) -> Seq<(Seq<char>, DiskTotals)>
    decreases now.len(),
{
    if now.len() == 0 {
        Seq::empty()
    } else {
        let rest = device_rates(now.drop_last(), before, seconds);
        let (name, counters) = now.last();
        if before.has(name) {
            match device_rate(counters, before.value(name), seconds) {
                Some(rate) => rest.push((name, rate)),
                None => rest,
            }
        } else {
            rest
        }
    }
}

/// The sum of some rates: read and written.
pub open spec fn rate_sums(rates: Seq<(Seq<char>, DiskTotals)>) -> (nat, nat)
    decreases rates.len(),
{
    if rates.len() == 0 {
        (0, 0)
    } else {
        let (read, written) = rate_sums(rates.drop_last());
        (
            read + rates.last().1.read_per_second as nat,
            written + rates.last().1.written_per_second as nat,
        )
    }
}

/// The names and rates of a list of devices.
pub open spec fn rate_texts(v: Seq<(String, DiskTotals)>) -> Seq<(Seq<char>, DiskTotals)> {
    Seq::new(v.len(), |i: int| (v[i].0@, v[i].1))
}

/// Whether a sampler that takes a reading of these devices goes from `before`
/// to `after` and gives `r`.
pub open spec fn disk_step(
    before: DiskSampler,
    devices: Seq<DeviceFiles>,
    seconds: Seconds,
    after: DiskSampler,
    r: Option<DiskReading>,
) -> bool {
    &&& holds_last(after.last(), all_counted(devices))
    &&& match r {
        None => before.last().pairs().len() == 0,
        Some(reading) => {
            let rates = device_rates(after.last().pairs(), before.last(), seconds);
            &&& before.last().pairs().len() > 0
            &&& rate_texts(reading.per_device@) == rates
            &&& reading.totals.read_per_second == capped(rate_sums(rates).0)
            &&& reading.totals.written_per_second == capped(rate_sums(rates).1)
        },
    }
}

/// Turns cumulative counters into throughput. The single owner of disk delta
/// state.
#[derive(Debug)]
pub struct DiskSampler {
    previous: TextMap<DiskCounters>,
}

fn bytes_between(now: u64, before: u64) -> (r: u64)
    requires
        before <= now,
    ensures
        r == capped(((now - before) * 512) as nat),
{
    let bytes: u128 = (now - before) as u128 * 512;
    if bytes > u64::MAX as u128 {
        u64::MAX
    } else {
        bytes as u64
    }
}

fn rate_between(now: &DiskCounters, before: &DiskCounters, seconds: Seconds) -> (r: Option<DiskTotals>)
    ensures
        r == device_rate(*now, *before, seconds),
{
    if now.sectors_read < before.sectors_read || now.sectors_written < before.sectors_written {
        return None;
    }
    Some(
        DiskTotals {
            read_per_second: rate(bytes_between(now.sectors_read, before.sectors_read), seconds),
            written_per_second: rate(
                bytes_between(now.sectors_written, before.sectors_written),
                seconds,
            ),
        },
    )
}

fn capped_sum(a: u64, b: u64) -> (r: u64)
    ensures
        r == capped((a + b) as nat),
{
    if a > u64::MAX - b {
        u64::MAX
    } else {
        a + b
    }
}

impl DiskSampler {
    /// The counters at the last tick.
    pub closed spec fn last(&self) -> TextMap<DiskCounters> {
        self.previous
    }

    /// Whether the counters are in order.
    pub open spec fn wf(&self) -> bool {
        self.last().wf()
    }

    /// A sampler that has read nothing.
    pub fn new() -> (r: Self)
        ensures
            r.wf(),
            r.last().pairs().len() == 0,
    {
        DiskSampler { previous: TextMap::new() }
    }

    /// Takes a reading of every device, `seconds` after the last one. There is
    /// none until there are earlier counters to subtract.
    pub fn sample(&mut self, devices: &Vec<DeviceFiles>, seconds: Seconds) -> (r: Option<DiskReading>)
        requires
            old(self).wf(),
        ensures
            final(self).wf(),
            disk_step(*old(self), devices@, seconds, *final(self), r),
    {
        let now = read_counters(devices);
        let first = self.previous.is_empty();
        let ghost before = self.previous;
        let ghost all = now.pairs();
        let mut per_device: Vec<(String, DiskTotals)> = Vec::new();
        let mut totals = DiskTotals { read_per_second: 0, written_per_second: 0 };
        let mut i: usize = 0;
        assert(all.take(0) =~= Seq::<(Seq<char>, DiskCounters)>::empty());
        assert(rate_texts(per_device@) =~= Seq::<(Seq<char>, DiskTotals)>::empty());
        while i < now.len()
            invariant
                i <= all.len(),
                all == now.pairs(),
                self.previous == before,
                before.wf(),
                rate_texts(per_device@) == device_rates(all.take(i as int), before, seconds),
                totals.read_per_second == capped(rate_sums(rate_texts(per_device@)).0),
                totals.written_per_second == capped(rate_sums(rate_texts(per_device@)).1),
            decreases all.len() - i,
        {
            assert(all.take(i + 1).drop_last() =~= all.take(i as int));
            let (name, counters) = now.entry(i);
            assert(all.take(i + 1).last() == (name@, *counters));
            if let Some(earlier) = self.previous.get(name) {
                if let Some(rate) = rate_between(counters, earlier, seconds) {
                    let ghost rates = rate_texts(per_device@);
                    totals = DiskTotals {
                        read_per_second: capped_sum(totals.read_per_second, rate.read_per_second),
                        written_per_second: capped_sum(
                            totals.written_per_second,
                            rate.written_per_second,
                        ),
                    };
                    per_device.push((name.to_owned(), rate));
                    assert(rate_texts(per_device@) =~= rates.push((name@, rate)));
                    assert(rates.push((name@, rate)).drop_last() =~= rates);
                }
            }
            i = i + 1;
        }
        assert(all.take(i as int) =~= all);
        self.previous = now;
        if first {
            return None;
        }
        Some(DiskReading { totals, per_device })
    }
}

impl Default for DiskSampler {
    fn default() -> (r: Self)
        ensures
            r.wf(),
            r.last().pairs().len() == 0,
    {
        DiskSampler::new()
    }
}

/// A device that was not there before adds nothing: its counters since boot
/// are not throughput.
pub proof fn law_a_new_device_adds_nothing(
    now: Seq<(Seq<char>, DiskCounters)>,
    before: TextMap<DiskCounters>,
    seconds: Seconds,
    name: Seq<char>,
    counters: DiskCounters,
)
    requires
        !before.has(name),
    ensures
        device_rates(now.push((name, counters)), before, seconds) == device_rates(
            now,
            before,
            seconds,
        ),
{
    assert(now.push((name, counters)).drop_last() =~= now);
}

/// A loop device never counts, whatever its size and its counters.
pub proof fn law_loops_never_count(d: DeviceFiles)
    requires
        begins(d.name@, "loop"@),
    ensures
        counted(d) is None,
{
}

/// Over a whole number of seconds a device's rates are the exact quotients,
/// rounded down, of the bytes of the sectors that it moved, as long as
/// floating point holds those exactly.
pub proof fn law_device_rates_are_exact(
    now: DiskCounters,
    before: DiskCounters,
    seconds: Seconds,
    s: nat,
)
    requires
        is_whole(seconds, s),
        s > 0,
        0 <= (now.sectors_read - before.sectors_read) * 512 < 9007199254740992,
        0 <= (now.sectors_written - before.sectors_written) * 512 < 9007199254740992,
    ensures
        device_rate(now, before, seconds) matches Some(r) && r.read_per_second == ((now.sectors_read
            - before.sectors_read) * 512) / s as int && r.written_per_second == ((
        now.sectors_written - before.sectors_written) * 512) / s as int,
{
    law_rates_are_exact(((now.sectors_read - before.sectors_read) * 512) as nat, seconds, s);
    law_rates_are_exact(((now.sectors_written - before.sectors_written) * 512) as nat, seconds, s);
}

/// What counts as storage: everything that has a size and is neither a loop
/// nor a memory disk, mapped and compressed devices too.
pub proof fn law_what_counts_as_storage(d: DeviceFiles)
    ensures
        begins(d.name@, "ram"@) ==> counted(d) is None,
        d.size is None ==> counted(d) is None,
        d.size matches Some(s) ==> number_or_zero(trimmed(s@)) == 0 ==> counted(d) is None,
        d.stat is None ==> counted(d) is None,
        d.size matches Some(s) ==> d.stat matches Some(t) ==> !begins(d.name@, "loop"@) && !begins(
            d.name@,
            "ram"@,
        ) && number_or_zero(trimmed(s@)) > 0 ==> match device_counters(t@) {
            Some(c) => counted(d) == Some((d.name@, c)),
            None => counted(d) is None,
        },
{
}

/// What was read is the third figure of a device's line and what was written
/// the seventh, in sectors.
pub proof fn law_sectors_stand_third_and_seventh(text: Seq<char>)
    ensures
        device_counters(text) matches Some(c) ==> words(text).len() >= 7 && number(words(text)[2])
            == Some(c.sectors_read) && number(words(text)[6]) == Some(c.sectors_written),
        words(text).len() >= 7 && number(words(text)[2]) is Some && number(words(text)[6]) is Some
            ==> device_counters(text) is Some,
{
}

/// A device that was there before, and whose counters did not go back, adds
/// its own rates to the totals, reads to reads and writes to writes; one whose
/// counters went back adds nothing.
pub proof fn law_each_device_adds_its_own_rates(
    now: Seq<(Seq<char>, DiskCounters)>,
    before: TextMap<DiskCounters>,
    seconds: Seconds,
    name: Seq<char>,
    c: DiskCounters,
)
    requires
        before.has(name),
    ensures
        ({
            let b = before.value(name);
            let rates = device_rates(now, before, seconds);
            let all = device_rates(now.push((name, c)), before, seconds);
            if c.sectors_read >= b.sectors_read && c.sectors_written >= b.sectors_written {
                &&& all.len() == rates.len() + 1
                &&& all.drop_last() == rates
                &&& all.last().0 == name
                &&& rate_sums(all).0 == rate_sums(rates).0 + all.last().1.read_per_second
                &&& rate_sums(all).1 == rate_sums(rates).1 + all.last().1.written_per_second
                &&& c.sectors_read == b.sectors_read ==> all.last().1.read_per_second == 0
                &&& c.sectors_written == b.sectors_written ==> all.last().1.written_per_second == 0
            } else {
                all == rates
            }
        }),
        rate_sums(Seq::<(Seq<char>, DiskTotals)>::empty()) == (0nat, 0nat),
{
    let b = before.value(name);
    let rates = device_rates(now, before, seconds);
    assert(now.push((name, c)).drop_last() =~= now);
    if c.sectors_read >= b.sectors_read && c.sectors_written >= b.sectors_written {
        let r = device_rate(c, b, seconds)->0;
        assert(rates.push((name, r)).drop_last() =~= rates);
    }
}

/// A reading lists the rates of its devices, and its totals are their sums,
/// as far as 64 bits hold them; the sampler keeps the counters it has read.
pub proof fn law_totals_are_the_sums_of_the_devices(
    before: DiskSampler,
    devices: Seq<DeviceFiles>,
    seconds: Seconds,
    after: DiskSampler,
    reading: DiskReading,
)
    requires
        disk_step(before, devices, seconds, after, Some(reading)),
    ensures
        ({
            let rates = device_rates(after.last().pairs(), before.last(), seconds);
            &&& reading.per_device@.len() == rates.len()
            &&& forall|i: int|
                0 <= i < rates.len() ==> (#[trigger] reading.per_device@[i]).0@ == rates[i].0
                    && reading.per_device@[i].1 == rates[i].1
            &&& rate_sums(rates).0 <= u64::MAX ==> reading.totals.read_per_second == rate_sums(
                rates,
            ).0
            &&& rate_sums(rates).1 <= u64::MAX ==> reading.totals.written_per_second == rate_sums(
                rates,
            ).1
        }),
        holds_last(after.last(), all_counted(devices)),
{
    let rates = device_rates(after.last().pairs(), before.last(), seconds);
    assert(rate_texts(reading.per_device@).len() == reading.per_device@.len());
    assert forall|i: int| 0 <= i < rates.len() implies (#[trigger] reading.per_device@[i]).0@
        == rates[i].0 && reading.per_device@[i].1 == rates[i].1 by {
        assert(rate_texts(reading.per_device@)[i] == rates[i]);
    }
}

/// A sector is 512 bytes, read or written.
pub proof fn law_a_sector_is_512_bytes(c: DiskCounters, read: u128, written: u128)
    requires
        call_ensures(DiskCounters::bytes_read, (&c,), read),
        call_ensures(DiskCounters::bytes_written, (&c,), written),
    ensures
        read == c.sectors_read * 512,
        written == c.sectors_written * 512,
{
}

} // verus!
