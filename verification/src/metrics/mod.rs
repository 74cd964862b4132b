//! What the machine is doing, sampled once a tick.
use std::collections::VecDeque;
use vstd::prelude::*;
use crate::decimal::{figure_in, parse_scaled};
use crate::double::Seconds;

use crate::paths::opt_str;
use crate::text::{chars_of, natural_up_to, opt_text, parse_u32, parted, split_once, split_words, string_of, views, words};
use cpu::{cpu_step, CpuReading, CpuSampler};
use disk::{disk_step, DeviceFiles, DiskReading, DiskSampler};
use memory::{memory_read, MemoryReading};
use net::{net_step, InterfaceFiles, NetReading, NetSampler};

pub mod alerts;
pub mod cpu;
pub mod disk;
pub mod memory;
pub mod net;
pub mod power;
pub mod sensors;

verus! {

/// A fraction between nothing and everything.
#[derive(Debug, Clone, Copy, PartialEq, Eq, Structural)]
pub struct Share {
    pub part: u128,
    pub whole: u128,
}

impl Share {
    /// Whether this is a fraction between nothing and everything.
    pub open spec fn wf(&self) -> bool {
        self.part <= self.whole && self.whole > 0
    }
}

/// The fraction that `part` is of `whole`, at most everything; nothing where
/// there is no whole to be a fraction of.
pub open spec fn share_of(part: nat, whole: nat) -> Option<Share> {
    if whole == 0 {
        None
    } else {
        Some(
            Share {
                part: (if part < whole {
                    part
                } else {
                    whole
                }) as u128,
                whole: whole as u128,
            },
        )
    }
}

/// The fraction that `part` is of `whole`, at most everything.
pub fn share(part: u128, whole: u128) -> (r: Option<Share>)
    ensures
        r == share_of(part as nat, whole as nat),
        r matches Some(s) ==> s.wf(),
{
    if whole == 0 {
        None
    } else if part < whole {
        Some(Share { part, whole })
    } else {
        Some(Share { part: whole, whole })
    }
}

/// How many samples the history holds. One a second, so a minute.
pub const HISTORY: usize = 60;

/// The interval between samples, in nanoseconds.
pub const TICK: u128 = 1000000000;

// ---------------------------------------------------------------------------
// The history
// ---------------------------------------------------------------------------

/// A history of fixed capacity that drops its oldest entry rather than grow.
#[derive(Debug)]
pub struct Ring<T> {
    items: VecDeque<T>,
    capacity: usize,
}

/// What a history holds after one sample more.
pub open spec fn pushed<T>(held: Seq<T>, capacity: nat, item: T) -> Seq<T> {
    if held.len() == capacity {
        held.skip(1).push(item)
    } else {
        held.push(item)
    }
}

impl<T> Ring<T> {
    /// Everything held, oldest first.
    pub closed spec fn held(&self) -> Seq<T> {
        self.items@
    }

    /// How much can be held.
    pub closed spec fn room(&self) -> nat {
        self.capacity as nat
    }

    /// Never more is held than there is room for, and there is room for
    /// something.
    pub open spec fn wf(&self) -> bool {
        self.held().len() <= self.room() && self.room() >= 1
    }

    /// A history that holds nothing. One without room holds one sample all
    /// the same, so that there is always a latest.
    pub fn new(capacity: usize) -> (r: Self)
        ensures
            r.wf(),
            r.held().len() == 0,
            r.room() == if capacity == 0 {
                1
            } else {
                capacity as nat
            },
    {
        Ring {
            items: VecDeque::new(),
            capacity: if capacity == 0 {
                1
            } else {
                capacity
            },
        }
    }

    /// Adds a sample, dropping the oldest where there is no room.
    pub fn push(&mut self, item: T)
        requires
            old(self).wf(),
        ensures
            final(self).wf(),
            final(self).room() == old(self).room(),
            final(self).held() == pushed(old(self).held(), old(self).room(), item),
    {
        if self.items.len() == self.capacity {
            let _ = self.items.pop_front();
            assert(self.items@ =~= old(self).items@.skip(1));
        }
        self.items.push_back(item);
    }

    /// The newest sample.
    pub fn latest(&self) -> (r: Option<&T>)
        ensures
            match r {
                Some(t) => self.held().len() > 0 && *t == self.held().last(),
                None => self.held().len() == 0,
            },
    {
        let n: usize = self.items.len();
        if n == 0 {
            None
        } else {
            Some(&self.items[n - 1])
        }
    }

    /// Number of samples held.
    pub fn len(&self) -> (r: usize)
        ensures
            r == self.held().len(),
    {
        self.items.len()
    }

    /// Whether nothing is held.
    pub fn is_empty(&self) -> (r: bool)
        ensures
            r == (self.held().len() == 0),
    {
        self.items.len() == 0
    }

    /// Forgets everything.
    pub fn clear(&mut self)
        requires
            old(self).wf(),
        ensures
            final(self).wf(),
            final(self).held().len() == 0,
            final(self).room() == old(self).room(),
    {
        self.items.clear();
    }
}

impl<T: Clone> Ring<T> {
    /// Everything held, oldest first.
    pub fn samples(&self) -> (r: Vec<T>)
        ensures
            r@.len() == self.held().len(),
            forall|i: int| 0 <= i < r@.len() ==> cloned(self.held()[i], #[trigger] r@[i]),
    {
        let mut out: Vec<T> = Vec::new();
        let mut i: usize = 0;
        while i < self.items.len()
            invariant
                i <= self.items@.len(),
                out@.len() == i,
                forall|k: int| 0 <= k < i ==> cloned(self.items@[k], #[trigger] out@[k]),
            decreases self.items@.len() - i,
        {
            out.push(self.items[i].clone());
            i = i + 1;
        }
        out
    }
}

/// What a history holds after some samples more, one after the other.
pub open spec fn pushed_all<T>(held: Seq<T>, capacity: nat, items: Seq<T>) -> Seq<T>
    decreases items.len(),
{
    if items.len() == 0 {
        held
    } else {
        pushed(pushed_all(held, capacity, items.drop_last()), capacity, items.last())
    }
}

/// The last of a sequence, as many as there is room for.
pub open spec fn newest<T>(s: Seq<T>, capacity: nat) -> Seq<T> {
    if s.len() <= capacity {
        s
    } else {
        s.skip(s.len() - capacity)
    }
}

/// Whatever is pushed, a history holds the newest samples, in order, and
/// never more than it has room for.
pub proof fn law_the_newest_are_held<T>(capacity: nat, items: Seq<T>)
    requires
        capacity >= 1,
    ensures
        pushed_all(Seq::empty(), capacity, items) == newest(items, capacity),
        pushed_all(Seq::empty(), capacity, items).len() <= capacity,
    decreases items.len(),
{
    if items.len() > 0 {
        law_the_newest_are_held(capacity, items.drop_last());
        let before = newest(items.drop_last(), capacity);
        assert(pushed(before, capacity, items.last()) =~= newest(items, capacity));
    } else {
        assert(newest(items, capacity) =~= Seq::<T>::empty());
    }
}

// ---------------------------------------------------------------------------
// Load
// ---------------------------------------------------------------------------

/// Load averages, as `/proc/loadavg` writes them, and the tasks behind them.
#[derive(Debug, Clone, PartialEq, Eq)]
pub struct LoadReading {
    pub one: String,
    pub five: String,
    pub fifteen: String,
    /// Tasks currently runnable.
    pub running: u32,
    /// Tasks in total.
    pub total: u32,
}

impl Default for LoadReading {
    fn default() -> (r: Self)
        ensures
            r.one@ == "0"@,
            r.five@ == "0"@,
            r.fifteen@ == "0"@,
            r.running == 0,
            r.total == 0,
    {
        LoadReading {
            one: "0".to_owned(),
            five: "0".to_owned(),
            fifteen: "0".to_owned(),
            running: 0,
            total: 0,
        }
    }
}

/// A count of tasks; zero where it is none of 32 bits.
pub open spec fn tasks(s: Seq<char>) -> u32 {
    match natural_up_to(s, u32::MAX as nat) {
        Some(n) => n as u32,
        None => 0,
    }
}

/// The two counts of a field like `2/3144`; zero and zero where it is not
/// one.
pub open spec fn entities(w: Seq<Seq<char>>) -> (u32, u32) {
    if w.len() > 3 {
        match parted(w[3], '/') {
            Some((r, t)) => (tasks(r), tasks(t)),
            None => (0, 0),
        }
    } else {
        (0, 0)
    }
}

/// Whether `r` is what `/proc/loadavg` says: its first three fields, where
/// they are numbers, and the two counts of the fourth.
pub open spec fn load_read(text: Seq<char>, r: Option<LoadReading>) -> bool {
    let w = words(text);
    if w.len() >= 3 && figure_in(w[0]) is Some && figure_in(w[1]) is Some && figure_in(
        w[2],
    ) is Some {
        r matches Some(load) && load.one@ == w[0] && load.five@ == w[1] && load.fifteen@ == w[2]
            && (load.running, load.total) == entities(w)
    } else {
        r is None
    }
}

fn is_number(s: &[char]) -> (r: bool)
    ensures
        r == (figure_in(s@) is Some),
{
    parse_scaled(s, 1).is_some()
}

fn count_tasks(s: &[char]) -> (r: u32)
    ensures
        r == tasks(s@),
{
    match parse_u32(s) {
        Some(n) => n,
        None => 0,
    }
}

/// Parses `/proc/loadavg`, which looks like `2.10 1.26 0.96 2/3144 1953697`.
pub fn parse_loadavg(text: &str) -> (r: Option<LoadReading>)
    ensures
        load_read(text@, r),
{
    let chars = chars_of(text);
    let fields = split_words(chars.as_slice());
    let ghost w = words(text@);
    assert(views(fields@) == w);
    assert(fields@.len() == w.len());
    if fields.len() < 3 {
        return None;
    }
    assert(w[0] == fields@[0]@ && w[1] == fields@[1]@ && w[2] == fields@[2]@);
    if !is_number(fields[0]) || !is_number(fields[1]) || !is_number(fields[2]) {
        return None;
    }
    let mut running: u32 = 0;
    let mut total: u32 = 0;
    if fields.len() > 3 {
        assert(w[3] == fields@[3]@);
        if let Some((r, t)) = split_once(fields[3], '/') {
            running = count_tasks(r);
            total = count_tasks(t);
        }
    }
    Some(
        LoadReading {
            one: string_of(fields[0]),
            five: string_of(fields[1]),
            fifteen: string_of(fields[2]),
            running,
            total,
        },
    )
}

// ---------------------------------------------------------------------------
// The pipeline
// ---------------------------------------------------------------------------

/// One tick: every metric family, sampled at the same moment.
#[derive(Debug, Clone, PartialEq, Eq)]
pub struct Reading {
    /// Seconds since the Unix epoch.
    pub at: i64,
    pub cpu: CpuReading,
    pub memory: MemoryReading,
    pub load: LoadReading,
    pub disk: DiskReading,
    pub network: NetReading,
}

/// What the kernel's files hold at one tick, as far as they could be read.
#[derive(Debug, Clone)]
pub struct Observed {
    /// Seconds since the Unix epoch.
    pub at: i64,
    /// The interval that the tick covers; see [`Pipeline::interval`].
    pub seconds: Seconds,
    pub stat: Option<String>,
    pub frequency: Option<String>,
    pub meminfo: Option<String>,
    pub loadavg: Option<String>,
    pub devices: Vec<DeviceFiles>,
    pub interfaces: Vec<InterfaceFiles>,
    pub inet6: Option<String>,
}

/// Owns every sampler, ticks them together, and keeps the history. Resuming
/// after a pause starts from nothing, since what was measured before describes
/// another time.
#[derive(Debug)]
pub struct Pipeline {
    cpu: CpuSampler,
    disk: DiskSampler,
    net: NetSampler,
    history: Ring<Reading>,
    subscribers: usize,
}

/// Whether a CPU sampler takes its reading where there is a file to take it
/// from.
pub open spec fn cpu_part(
    before: CpuSampler,
    seen: Observed,
    after: CpuSampler,
    r: Option<CpuReading>,
) -> bool {
    match seen.stat {
        Some(text) => cpu_step(
            before,
            text@,
            match seen.frequency {
                Some(f) => crate::text::number(crate::text::trimmed(f@)),
                None => None,
            },
            after,
            r,
        ),
        None => r is None && after == before,
    }
}

/// Whether a reading is put together from what the samplers gave.
pub open spec fn put_together(
    reading: Reading,
    seen: Observed,
    c: CpuReading,
    m: MemoryReading,
    d: Option<DiskReading>,
    n: Option<NetReading>,
) -> bool {
    &&& reading.at == seen.at
    &&& reading.cpu == c
    &&& reading.memory == m
    &&& match seen.loadavg {
        Some(text) => load_read(text@, Some(reading.load)) || (load_read(text@, None)
            && no_load(reading.load)),
        None => no_load(reading.load),
    }
    &&& match d {
        Some(d) => reading.disk == d,
        None => no_disk(reading.disk),
    }
    &&& match n {
        Some(n) => reading.network == n,
        None => no_net(reading.network),
    }
}

/// The load that stands for none.
pub open spec fn no_load(l: LoadReading) -> bool {
    l.one@ == "0"@ && l.five@ == "0"@ && l.fifteen@ == "0"@ && l.running == 0 && l.total == 0
}

/// The throughput that stands for none.
pub open spec fn no_disk(d: DiskReading) -> bool {
    d.totals.read_per_second == 0 && d.totals.written_per_second == 0 && d.per_device@.len() == 0
}

/// The traffic that stands for none.
pub open spec fn no_net(n: NetReading) -> bool {
    n.received_per_second == 0 && n.sent_per_second == 0 && n.interfaces@.len() == 0
}

/// Whether a tick goes from `before` to `after`, given what each sampler
/// gave. Without a CPU figure or a memory figure there is no reading, and the
/// other samplers are not asked.
pub open spec fn ticked(
    before: Pipeline,
    seen: Observed,
    after: Pipeline,
    r: bool,
    c: Option<CpuReading>,
    m: Option<MemoryReading>,
    d: Option<DiskReading>,
    n: Option<NetReading>,
) -> bool {
    &&& cpu_part(before.cpu_state(), seen, after.cpu_state(), c)
    &&& memory_read(opt_text(seen.meminfo), m)
    &&& after.listeners() == before.listeners()
    &&& match (c, m) {
        (Some(c), Some(m)) => {
            &&& r
            &&& disk_step(before.disk_state(), seen.devices@, seen.seconds, after.disk_state(), d)
            &&& net_step(
                before.net_state(),
                seen.interfaces@,
                opt_text(seen.inet6),
                seen.seconds,
                after.net_state(),
                n,
            )
            &&& after.window().len() > 0
            &&& put_together(after.window().last(), seen, c, m, d, n)
            &&& after.window() == pushed(before.window(), HISTORY as nat, after.window().last())
        },
        _ => {
            &&& !r
            &&& after.disk_state() == before.disk_state()
            &&& after.net_state() == before.net_state()
            &&& after.window() == before.window()
        },
    }
}

fn as_str_opt<'a>(s: &'a Option<String>) -> (r: Option<&'a str>)
    ensures
        opt_str(r) == opt_text(*s),
{
    match s {
        Some(t) => Some(t.as_str()),
        None => None,
    }
}

impl Pipeline {
    /// Where the CPU sampler stands.
    pub closed spec fn cpu_state(&self) -> CpuSampler {
        self.cpu
    }

    /// Where the disk sampler stands.
    pub closed spec fn disk_state(&self) -> DiskSampler {
        self.disk
    }

    /// Where the network sampler stands.
    pub closed spec fn net_state(&self) -> NetSampler {
        self.net
    }

    /// The readings held, oldest first.
    pub closed spec fn window(&self) -> Seq<Reading> {
        self.history.held()
    }

    /// How many views are watching.
    pub closed spec fn listeners(&self) -> nat {
        self.subscribers as nat
    }

    /// Whether everything the pipeline owns is in order.
    pub closed spec fn wf(&self) -> bool {
        self.disk.wf() && self.net.wf() && self.history.wf() && self.history.room() == HISTORY
    }

    /// Whether nothing has been measured.
    pub open spec fn is_fresh(&self) -> bool {
        &&& self.cpu_state().last_total() is None
        &&& self.cpu_state().last_cores().len() == 0
        &&& self.disk_state().last().pairs().len() == 0
        &&& self.net_state().last().pairs().len() == 0
        &&& self.window().len() == 0
    }

    /// A pipeline that nothing watches and that has measured nothing.
    pub fn new() -> (r: Self)
        ensures
            r.wf(),
            r.is_fresh(),
            r.listeners() == 0,
    {
        Pipeline {
            cpu: CpuSampler::new(),
            disk: DiskSampler::new(),
            net: NetSampler::new(),
            history: Ring::new(HISTORY),
            subscribers: 0,
        }
    }

    /// Forgets everything measured.
    fn reset(&mut self)
        requires
            old(self).wf(),
        ensures
            final(self).wf(),
            final(self).is_fresh(),
            final(self).listeners() == old(self).listeners(),
    {
        self.cpu = CpuSampler::new();
        self.disk = DiskSampler::new();
        self.net = NetSampler::new();
        self.history.clear();
    }

    /// One view more. The first one starts from nothing; a later one joins
    /// the window that exists.
    pub fn subscribe(&mut self)
        requires
            old(self).wf(),
            old(self).listeners() < usize::MAX,
        ensures
            final(self).wf(),
            final(self).listeners() == old(self).listeners() + 1,
            old(self).listeners() == 0 ==> final(self).is_fresh(),
            old(self).listeners() > 0 ==> final(self).window() == old(self).window()
                && final(self).cpu_state() == old(self).cpu_state() && final(self).disk_state()
                == old(self).disk_state() && final(self).net_state() == old(self).net_state(),
    {
        if self.subscribers == 0 {
            self.reset();
        }
        self.subscribers = self.subscribers + 1;
    }

    /// One view less.
    pub fn unsubscribe(&mut self)
        requires
            old(self).wf(),
        ensures
            final(self).wf(),
            final(self).listeners() == if old(self).listeners() == 0 {
                0
            } else {
                (old(self).listeners() - 1) as nat
            },
            final(self).window() == old(self).window(),
            final(self).cpu_state() == old(self).cpu_state(),
            final(self).disk_state() == old(self).disk_state(),
            final(self).net_state() == old(self).net_state(),
    {
        if self.subscribers > 0 {
            self.subscribers = self.subscribers - 1;
        }
    }

    /// Whether anything is watching.
    pub fn is_sampling(&self) -> (r: bool)
        ensures
            r == (self.listeners() > 0),
    {
        self.subscribers > 0
    }

    /// Everything held.
    pub fn history(&self) -> (r: &Ring<Reading>)
        ensures
            r.held() == self.window(),
    {
        &self.history
    }

    /// The most recent reading, if there is one.
    pub fn latest(&self) -> (r: Option<&Reading>)
        ensures
            match r {
                Some(t) => self.window().len() > 0 && *t == self.window().last(),
                None => self.window().len() == 0,
            },
    {
        self.history.latest()
    }

    /// The interval that a tick covers, in nanoseconds: one second for the
    /// first, then what has passed since the last, and at least a tenth of a
    /// second.
    pub fn interval(since_last: Option<u128>) -> (r: u128)
        ensures
            r == match since_last {
                None => TICK,
                Some(n) => if n < 100000000 {
                    100000000
                } else {
                    n
                },
            },
    {
        match since_last {
            None => TICK,
            Some(n) => if n < 100000000 {
                100000000
            } else {
                n
            },
        }
    }

    /// One sample of every family, added to the history. Says whether there
    /// was one: each sampler needs an earlier tick to compare with.
    pub fn tick(&mut self, seen: &Observed) -> (r: bool)
        requires
            old(self).wf(),
        ensures
            final(self).wf(),
            exists|
                c: Option<CpuReading>,
                m: Option<MemoryReading>,
                d: Option<DiskReading>,
                n: Option<NetReading>,
            | #[trigger]
                ticked(*old(self), *seen, *final(self), r, c, m, d, n),
    {
        let frequency = cpu::current_frequency_khz(as_str_opt(&seen.frequency));
        let c = match &seen.stat {
            Some(text) => self.cpu.sample_from(text.as_str(), frequency),
            None => None,
        };
        let m = memory::sample(as_str_opt(&seen.meminfo));
        let ghost (gc, gm) = (c, m);
        if c.is_none() || m.is_none() {
            assert(ticked(*old(self), *seen, *self, false, gc, gm, None, None));
            return false;
        }
        let load = match &seen.loadavg {
            Some(text) => match parse_loadavg(text.as_str()) {
                Some(l) => l,
                None => LoadReading::default(),
            },
            None => LoadReading::default(),
        };
        let d = self.disk.sample(&seen.devices, seen.seconds);
        let n = self.net.sample(&seen.interfaces, as_str_opt(&seen.inet6), seen.seconds);
        let ghost (gd, gn) = (d, n);
        if let (Some(cpu), Some(memory)) = (c, m) {
            let reading = Reading {
                at: seen.at,
                cpu,
                memory,
                load,
                disk: match d {
                    Some(d) => d,
                    None => DiskReading::default(),
                },
                network: match n {
                    Some(n) => n,
                    None => NetReading::default(),
                },
            };
            self.history.push(reading);
            assert(self.window().last() == reading);
            assert(ticked(*old(self), *seen, *self, true, gc, gm, gd, gn));
        }
        true
    }
}

impl Default for Pipeline {
    fn default() -> (r: Self)
        ensures
            r.wf(),
            r.is_fresh(),
            r.listeners() == 0,
    {
        Pipeline::new()
    }
}

/// The first tick gives no reading: one reading of a cumulative counter is
/// not a rate.
pub proof fn law_the_first_tick_gives_nothing(
    before: Pipeline,
    seen: Observed,
    after: Pipeline,
    r: bool,
    c: Option<CpuReading>,
    m: Option<MemoryReading>,
    d: Option<DiskReading>,
    n: Option<NetReading>,
)
    requires
        before.is_fresh(),
        ticked(before, seen, after, r, c, m, d, n),
    ensures
        !r,
        after.window().len() == 0,
{
}

/// The history never exceeds its window.
pub proof fn law_the_window_is_bounded(
    before: Pipeline,
    seen: Observed,
    after: Pipeline,
    r: bool,
    c: Option<CpuReading>,
    m: Option<MemoryReading>,
    d: Option<DiskReading>,
    n: Option<NetReading>,
)
    requires
        before.window().len() <= HISTORY,
        ticked(before, seen, after, r, c, m, d, n),
    ensures
        after.window().len() <= HISTORY,
{
}

/// A share is the part of the whole, and never more than all of it.
pub proof fn law_a_share_is_the_part_of_the_whole(part: nat, whole: nat)
    requires
        part <= u128::MAX,
        whole <= u128::MAX,
    ensures
        share_of(part, whole) is None <==> whole == 0,
        share_of(part, whole) matches Some(s) ==> s.whole == whole && s.part <= s.whole && (part
            <= whole ==> s.part == part) && (part > whole ==> s.part == whole),
{
}

/// The load over one, five and fifteen minutes stands in that order, and
/// behind it the tasks that run and the tasks that there are.
pub proof fn law_loads_stand_in_order(text: Seq<char>, load: LoadReading)
    requires
        load_read(text, Some(load)),
    ensures
        words(text).len() >= 3,
        load.one@ == words(text)[0],
        load.five@ == words(text)[1],
        load.fifteen@ == words(text)[2],
        words(text).len() > 3 ==> match parted(words(text)[3], '/') {
            Some((running, total)) => (natural_up_to(running, u32::MAX as nat) matches Some(n)
                ==> load.running == n) && (natural_up_to(total, u32::MAX as nat) matches Some(n)
                ==> load.total == n),
            None => load.running == 0 && load.total == 0,
        },
        words(text).len() == 3 ==> load.running == 0 && load.total == 0,
{
}

/// A tick that gives a reading gives the one of this tick: its moment, the
/// processor's and the memory's figures, and what the disks and the network
/// did since the last. It goes behind the earlier ones, of which sixty are
/// kept and the oldest goes first.
pub proof fn law_a_tick_adds_its_own_reading(
    before: Pipeline,
    seen: Observed,
    after: Pipeline,
    r: bool,
    c: Option<CpuReading>,
    m: Option<MemoryReading>,
    d: Option<DiskReading>,
    n: Option<NetReading>,
)
    requires
        ticked(before, seen, after, r, c, m, d, n),
    ensures
        r == (c is Some && m is Some),
        !r ==> after.window() == before.window() && after.disk_state() == before.disk_state()
            && after.net_state() == before.net_state(),
        r ==> {
            let reading = after.window().last();
            &&& after.window().len() > 0
            &&& reading.at == seen.at
            &&& c == Some(reading.cpu)
            &&& m == Some(reading.memory)
            &&& d matches Some(x) ==> reading.disk == x
            &&& d is None ==> reading.disk.totals.read_per_second == 0
                && reading.disk.totals.written_per_second == 0
                && reading.disk.per_device@.len() == 0
            &&& n matches Some(x) ==> reading.network == x
            &&& n is None ==> reading.network.received_per_second == 0
                && reading.network.sent_per_second == 0 && reading.network.interfaces@.len() == 0
            &&& before.window().len() < 60 ==> after.window() == before.window().push(reading)
            &&& before.window().len() == 60 ==> after.window() == before.window().skip(1).push(
                reading,
            )
        },
{
}

/// A tick covers the time since the last one, at least a tenth of a second,
/// and a second where there was none.
pub proof fn law_what_a_tick_covers(since_last: Option<u128>, r: u128)
    requires
        call_ensures(Pipeline::interval, (since_last,), r),
    ensures
        since_last is None ==> r == 1000 * 1000 * 1000,
        since_last matches Some(n) ==> (n >= 100 * 1000 * 1000 ==> r == n) && (n < 100 * 1000 * 1000
            ==> r == 100 * 1000 * 1000),
{
}

} // verus!
