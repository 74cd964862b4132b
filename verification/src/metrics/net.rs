//! Network throughput and link state, from `/sys/class/net`.
use vstd::prelude::*;
use vstd::slice::slice_subrange;
use vstd::string::*;

use crate::order::{holds_last, in_order, last_value, lemma_holds_insert, lemma_holds_nothing, lemma_holds_skip, lemma_in_order_map, sort, Ordered, Ranked, TextMap};
use crate::text::{chars_of, is_text, lines, natural_up_to, number, opt_text, parse_u32, parse_u64, same_str, split_lines, split_words, string_of, texts, trim, trimmed, views, words};
use crate::double::{capped, per_second, rate, Seconds};
use crate::exact::{is_whole, law_rates_are_exact};

verus! {

broadcast use vstd::string::group_string_axioms;

/// Cumulative byte counters for one interface.
#[derive(Debug, Clone, Copy, PartialEq, Eq, Structural)]
pub struct NetCounters {
    pub rx_bytes: u64,
    pub tx_bytes: u64,
}

impl Default for NetCounters {
    fn default() -> (r: Self)
        ensures
            r == (NetCounters { rx_bytes: 0, tx_bytes: 0 }),
    {
        NetCounters { rx_bytes: 0, tx_bytes: 0 }
    }
}

/// One interface's throughput and link state over the last interval.
#[derive(Debug, Clone, PartialEq, Eq)]
pub struct InterfaceReading {
    pub name: String,
    pub received_per_second: u64,
    pub sent_per_second: u64,
    /// Backed by hardware. Only these are summed into the totals.
    pub physical: bool,
    /// `up`, `down` or `unknown`: the kernel's own word.
    pub operstate: String,
    /// Whether a cable or an association is present.
    pub carrier: bool,
    /// Link speed in megabits, where the driver reports one.
    pub speed_mbps: Option<u32>,
    pub mac: Option<String>,
    pub mtu: Option<u32>,
    /// IPv6 addresses.
    pub ipv6: Vec<String>,
}

/// An interface reading with its texts.
pub struct InterfaceText {
    pub name: Seq<char>,
    pub received_per_second: u64,
    pub sent_per_second: u64,
    pub link: LinkText,
}

/// Link details with their texts.
pub struct LinkText {
    pub physical: bool,
    pub operstate: Seq<char>,
    pub carrier: bool,
    pub speed_mbps: Option<u32>,
    pub mac: Option<Seq<char>>,
    pub mtu: Option<u32>,
    pub ipv6: Seq<Seq<char>>,
}

/// What an interface reading says.
pub open spec fn interface_text(i: InterfaceReading) -> InterfaceText {
    InterfaceText {
        name: i.name@,
        received_per_second: i.received_per_second,
        sent_per_second: i.sent_per_second,
        link: LinkText {
            physical: i.physical,
            operstate: i.operstate@,
            carrier: i.carrier,
            speed_mbps: i.speed_mbps,
            mac: opt_text(i.mac),
            mtu: i.mtu,
            ipv6: texts(i.ipv6@),
        },
    }
}

/// What an interface carries both ways, as far as 64 bits hold it.
pub open spec fn carried(received: u64, sent: u64) -> u64 {
    capped((received + sent) as nat)
}

fn carried_by(i: &InterfaceReading) -> (r: u64)
    ensures
        r == carried(i.received_per_second, i.sent_per_second),
{
    if i.received_per_second > u64::MAX - i.sent_per_second {
        u64::MAX
    } else {
        i.received_per_second + i.sent_per_second
    }
}

impl Ordered for InterfaceText {
    open spec fn precedes(b: Self, a: Self) -> bool {
        carried(b.received_per_second, b.sent_per_second) > carried(
            a.received_per_second,
            a.sent_per_second,
        )
    }
}

impl Ordered for InterfaceReading {
    open spec fn precedes(b: Self, a: Self) -> bool {
        InterfaceText::precedes(interface_text(b), interface_text(a))
    }
}

impl Ranked for InterfaceReading {
    fn comes_before(&self, other: &Self) -> bool {
        carried_by(self) > carried_by(other)
    }
}

/// Whether an interface is carrying traffic: it has a link and is not down.
pub open spec fn active(i: InterfaceReading) -> bool {
    i.carrier && i.operstate@ != "down"@
}

impl InterfaceReading {
    /// Whether this interface is carrying traffic.
    pub fn is_active(&self) -> (r: bool)
        ensures
            r == active(*self),
    {
        self.carrier && !same_str(self.operstate.as_str(), "down")
    }
}

/// What one tick gives.
#[derive(Debug, Clone, PartialEq, Eq)]
pub struct NetReading {
    /// Summed across physical interfaces only, so each byte counts once.
    pub received_per_second: u64,
    pub sent_per_second: u64,
    /// Every interface, physical or not, busiest first.
    pub interfaces: Vec<InterfaceReading>,
}

impl Default for NetReading {
    fn default() -> (r: Self)
        ensures
            r.received_per_second == 0,
            r.sent_per_second == 0,
            r.interfaces@.len() == 0,
    {
        NetReading { received_per_second: 0, sent_per_second: 0, interfaces: Vec::new() }
    }
}

/// Whether an interface can be featured: hardware with a link.
pub open spec fn can_feature(i: InterfaceReading) -> bool {
    i.physical && active(i)
}

/// Which interface is featured: of those that can be, the busiest, and of
/// equals the last; -1 where none can be.
pub open spec fn featured_at(s: Seq<InterfaceReading>) -> int
    decreases s.len(),
{
    if s.len() == 0 {
        -1
    } else {
        let before = featured_at(s.drop_last());
        if can_feature(s.last()) && (before < 0 || carried(
            s.last().received_per_second,
            s.last().sent_per_second,
        ) >= carried(s[before].received_per_second, s[before].sent_per_second)) {
            s.len() - 1
        } else {
            before
        }
    }
}

impl NetReading {
    /// The interface worth featuring, chosen from this reading alone.
    pub fn featured(&self) -> (r: Option<&InterfaceReading>)
        ensures
            match r {
                Some(i) => featured_at(self.interfaces@) >= 0 && *i == self.interfaces@[featured_at(
                    self.interfaces@,
                )],
                None => featured_at(self.interfaces@) < 0,
            },
    {
        let ghost all = self.interfaces@;
        let mut best: Option<usize> = None;
        let mut i: usize = 0;
        assert(all.take(0) =~= Seq::<InterfaceReading>::empty());
        while i < self.interfaces.len()
            invariant
                i <= all.len(),
                all == self.interfaces@,
                match best {
                    Some(b) => b < i && featured_at(all.take(i as int)) == b,
                    None => featured_at(all.take(i as int)) < 0,
                },
            decreases all.len() - i,
        {
            let ghost next = all.take(i + 1);
            assert(next.drop_last() =~= all.take(i as int));
            let interface = &self.interfaces[i];
            if interface.physical && interface.is_active() {
                match best {
                    Some(b) => {
                        assert(next.drop_last()[b as int] == all[b as int]);
                        if carried_by(interface) >= carried_by(&self.interfaces[b]) {
                            best = Some(i);
                        }
                    },
                    None => {
                        best = Some(i);
                    },
                }
            }
            i = i + 1;
        }
        assert(all.take(i as int) =~= all);
        match best {
            Some(b) => Some(&self.interfaces[b]),
            None => None,
        }
    }
}

// ---------------------------------------------------------------------------
// Addresses
// ---------------------------------------------------------------------------

/// Whether a character is a hexadecimal digit.
pub open spec fn is_hex(c: char) -> bool {
    ('0' <= c <= '9') || ('a' <= c <= 'f') || ('A' <= c <= 'F')
}

/// Whether a text is a whole IPv6 address in hexadecimal.
pub open spec fn is_hex_address(s: Seq<char>) -> bool {
    s.len() == 32 && forall|i: int| 0 <= i < s.len() ==> is_hex(#[trigger] s[i])
}

/// The first `n` groups of four digits, with a colon between them.
pub open spec fn groups(hex: Seq<char>, n: nat) -> Seq<char>
    decreases n,
{
    if n == 0 {
        Seq::empty()
    } else if n == 1 {
        hex.subrange(0, 4)
    } else {
        groups(hex, (n - 1) as nat).push(':') + hex.subrange(4 * (n - 1), 4 * (n as int))
    }
}

/// The interface and the address that one line gives.
pub open spec fn address_line(line: Seq<char>) -> Option<(Seq<char>, Seq<char>)> {
    let w = words(line);
    if w.len() < 6 || !is_hex_address(w[0]) {
        None
    } else {
        Some((w[5], groups(w[0], 8)))
    }
}

/// The addresses of one interface, in the order of the lines.
pub open spec fn addresses_in(all: Seq<Seq<char>>, name: Seq<char>) -> Seq<Seq<char>>
    decreases all.len(),
{
    if all.len() == 0 {
        Seq::empty()
    } else {
        let before = addresses_in(all.drop_last(), name);
        match address_line(all.last()) {
            Some((n, address)) if n == name => before.push(address),
            _ => before,
        }
    }
}

/// The addresses of one interface, where the file could be read.
pub open spec fn addresses_of(file: Option<Seq<char>>, name: Seq<char>) -> Seq<Seq<char>> {
    match file {
        Some(t) => addresses_in(lines(t), name),
        None => Seq::empty(),
    }
}

fn hex_address(hex: &[char]) -> (r: bool)
    ensures
        r == is_hex_address(hex@),
{
    if hex.len() != 32 {
        return false;
    }
    let mut i: usize = 0;
    while i < hex.len()
        invariant
            i <= hex@.len() == 32,
            forall|k: int| 0 <= k < i ==> is_hex(#[trigger] hex@[k]),
        decreases hex@.len() - i,
    {
        let c = hex[i];
        let ok = ('0' <= c && c <= '9') || ('a' <= c && c <= 'f') || ('A' <= c && c <= 'F');
        if !ok {
            assert(!is_hex(hex@[i as int]));
            return false;
        }
        i = i + 1;
    }
    true
}

/// An address, written as the eight groups it is spelled in.
fn spell_address(hex: &[char]) -> (r: String)
    requires
        hex@.len() == 32,
    ensures
        r@ == groups(hex@, 8),
{
    let first = string_of(slice_subrange(hex, 0, 4));
    let mut out = first;
    let mut n: usize = 1;
    while n < 8
        invariant
            1 <= n <= 8,
            hex@.len() == 32,
            out@ == groups(hex@, n as nat),
        decreases 8 - n,
    {
        out.push(':');
        let group = string_of(slice_subrange(hex, 4 * n, 4 * n + 4));
        out.append(group.as_str());
        n = n + 1;
    }
    out
}

/// The addresses of one interface, from `/proc/net/if_inet6` as far as it
/// could be read.
pub fn ipv6_addresses(file: Option<&str>, name: &str) -> (r: Vec<String>)
    ensures
        texts(r@) == addresses_of(crate::paths::opt_str(file), name@),
{
    let mut out: Vec<String> = Vec::new();
    assert(texts(out@) =~= Seq::<Seq<char>>::empty());
    let text = match file {
        Some(t) => t,
        None => {
            return out;
        },
    };
    let chars = chars_of(text);
    let rows = split_lines(chars.as_slice());
    let ghost all = lines(text@);
    let mut i: usize = 0;
    assert(all.take(0) =~= Seq::<Seq<char>>::empty());
    while i < rows.len()
        invariant
            i <= rows@.len(),
            views(rows@) == all,
            texts(out@) == addresses_in(all.take(i as int), name@),
        decreases rows@.len() - i,
    {
        assert(all.take(i + 1).drop_last() =~= all.take(i as int));
        assert(all.take(i + 1).last() == rows@[i as int]@);
        let fields = split_words(rows[i]);
        assert(views(fields@).len() == fields@.len());
        if fields.len() >= 6 {
            assert(views(fields@)[0] == fields@[0]@ && views(fields@)[5] == fields@[5]@);
            if hex_address(fields[0]) && is_text(fields[5], name) {
                let ghost before = texts(out@);
                let address = spell_address(fields[0]);
                out.push(address);
                assert(texts(out@) =~= before.push(address@));
            }
        }
        i = i + 1;
    }
    assert(all.take(i as int) =~= all);
    out
}

// ---------------------------------------------------------------------------
// Links
// ---------------------------------------------------------------------------

/// What `/sys/class/net` says of one interface, as far as its files could be
/// read.
#[derive(Debug, Clone, PartialEq, Eq)]
pub struct InterfaceFiles {
    pub name: String,
    /// `type`: the kind of hardware address.
    pub kind: Option<String>,
    pub rx_bytes: Option<String>,
    pub tx_bytes: Option<String>,
    /// Whether `device` exists.
    pub device: bool,
    pub operstate: Option<String>,
    pub carrier: Option<String>,
    pub speed: Option<String>,
    pub address: Option<String>,
    pub mtu: Option<String>,
}

/// Whether an interface is backed by hardware: the kernel links it to a
/// device.
pub fn is_physical(files: &InterfaceFiles) -> (r: bool)
    ensures
        r == files.device,
{
    files.device
}

/// Whether a file says that an interface is loopback, by the kernel's number
/// for that kind.
pub open spec fn loopback(kind: Option<String>) -> bool {
    kind matches Some(t) && natural_up_to(trimmed(t@), u32::MAX as nat) == Some(772nat)
}

/// Whether an interface is loopback, by its kind rather than by its name.
pub fn is_loopback(files: &InterfaceFiles) -> (r: bool)
    ensures
        r == loopback(files.kind),
{
    match &files.kind {
        Some(t) => {
            let chars = chars_of(t.as_str());
            match parse_u32(trim(chars.as_slice())) {
                Some(n) => n == 772,
                None => false,
            }
        },
        None => false,
    }
}

/// What a file holds without the white space around it, where that is
/// anything.
pub open spec fn filled(file: Option<String>) -> Option<Seq<char>> {
    match file {
        Some(t) if trimmed(t@).len() > 0 => Some(trimmed(t@)),
        _ => None,
    }
}

/// What a file holds without the white space around it.
pub(crate) fn fill(file: &Option<String>) -> (r: Option<String>)
    ensures
        opt_text(r) == filled(*file),
{
    match file {
        Some(t) => {
            let chars = chars_of(t.as_str());
            let value = trim(chars.as_slice());
            if value.len() > 0 {
                Some(string_of(value))
            } else {
                None
            }
        },
        None => None,
    }
}

/// The number that a file holds, where it holds one of 32 bits.
pub open spec fn small_number(file: Option<String>) -> Option<u32> {
    match filled(file) {
        Some(t) => match natural_up_to(t, u32::MAX as nat) {
            Some(n) => Some(n as u32),
            None => None,
        },
        None => None,
    }
}

fn read_small(file: &Option<String>) -> (r: Option<u32>)
    ensures
        r == small_number(*file),
{
    match fill(file) {
        Some(t) => {
            let chars = chars_of(t.as_str());
            parse_u32(chars.as_slice())
        },
        None => None,
    }
}

/// The number that a file holds.
pub open spec fn counter(file: Option<String>) -> Option<u64> {
    match file {
        Some(t) => number(trimmed(t@)),
        None => None,
    }
}

fn read_counter(file: &Option<String>) -> (r: Option<u64>)
    ensures
        r == counter(*file),
{
    match file {
        Some(t) => {
            let chars = chars_of(t.as_str());
            parse_u64(trim(chars.as_slice()))
        },
        None => None,
    }
}

/// The counters of one interface, where it is not loopback and reports both.
pub open spec fn counters_of(f: InterfaceFiles) -> Option<(Seq<char>, NetCounters)> {
    if loopback(f.kind) {
        None
    } else {
        match (counter(f.rx_bytes), counter(f.tx_bytes)) {
            (Some(rx_bytes), Some(tx_bytes)) => Some((f.name@, NetCounters { rx_bytes, tx_bytes })),
            _ => None,
        }
    }
}

/// The link details of one interface.
pub open spec fn link_of(f: InterfaceFiles, inet6: Option<Seq<char>>) -> LinkText {
    LinkText {
        physical: f.device,
        operstate: match filled(f.operstate) {
            Some(t) => t,
            None => "unknown"@,
        },
        carrier: filled(f.carrier) == Some("1"@),
        speed_mbps: small_number(f.speed),
        mac: filled(f.address),
        mtu: small_number(f.mtu),
        ipv6: addresses_of(inet6, f.name@),
    }
}

/// The last of some interfaces with this name that report counters; -1 where
/// there is none.
pub open spec fn last_named(all: Seq<InterfaceFiles>, name: Seq<char>) -> int
    decreases all.len(),
{
    if all.len() == 0 {
        -1
    } else if all.last().name@ == name && counters_of(all.last()) is Some {
        all.len() - 1
    } else {
        last_named(all.drop_last(), name)
    }
}

/// The counters of every interface, interface by interface.
pub open spec fn all_counters(all: Seq<InterfaceFiles>) -> Seq<Option<(Seq<char>, NetCounters)>> {
    all.map_values(|f: InterfaceFiles| counters_of(f))
}

fn read_interface(f: &InterfaceFiles) -> (r: Option<NetCounters>)
    ensures
        match r {
            Some(c) => counters_of(*f) == Some((f.name@, c)),
            None => counters_of(*f) is None,
        },
{
    if is_loopback(f) {
        return None;
    }
    match (read_counter(&f.rx_bytes), read_counter(&f.tx_bytes)) {
        (Some(rx_bytes), Some(tx_bytes)) => Some(NetCounters { rx_bytes, tx_bytes }),
        _ => None,
    }
}

/// The counters of every interface but loopback, by name.
pub fn read_counters(all: &Vec<InterfaceFiles>) -> (r: TextMap<NetCounters>)
    ensures
        holds_last(r, all_counters(all@)),
{
    let ghost wanted = all_counters(all@);
    let mut out: TextMap<NetCounters> = TextMap::new();
    let mut i: usize = 0;
    proof {
        lemma_holds_nothing(out, wanted.take(0));
    }
    while i < all.len()
        invariant
            i <= all@.len(),
            wanted == all_counters(all@),
            holds_last(out, wanted.take(i as int)),
        decreases all@.len() - i,
    {
        let ghost before = out;
        let ghost next = wanted.take(i + 1);
        assert(next.drop_last() =~= wanted.take(i as int));
        assert(next.last() == counters_of(all@[i as int]));
        match read_interface(&all[i]) {
            Some(counters) => {
                out.insert(all[i].name.as_str(), counters);
                proof {
                    lemma_holds_insert(before, out, next, all@[i as int].name@, counters);
                }
            },
            None => {
                proof {
                    lemma_holds_skip(out, next);
                }
            },
        }
        i = i + 1;
    }
    assert(wanted.take(i as int) =~= wanted);
    out
}

proof fn lemma_last_named(all: Seq<InterfaceFiles>, name: Seq<char>)
    ensures
        -1 <= last_named(all, name) < all.len(),
        last_named(all, name) < 0 <==> last_value(all_counters(all), name) is None,
    decreases all.len(),
{
    if all.len() > 0 {
        lemma_last_named(all.drop_last(), name);
        assert(all_counters(all).drop_last() =~= all_counters(all.drop_last()));
        assert(all_counters(all).last() == counters_of(all.last()));
    }
}

/// Where the last interface with this name that reports counters is.
fn find_named(all: &Vec<InterfaceFiles>, name: &str) -> (r: usize)
    requires
        last_named(all@, name@) >= 0,
    ensures
        r == last_named(all@, name@),
        r < all@.len(),
{
    let mut n: usize = all.len();
    proof {
        lemma_last_named(all@, name@);
        assert(all@.take(n as int) =~= all@);
    }
    while n > 0
        invariant
            n <= all@.len(),
            last_named(all@.take(n as int), name@) == last_named(all@, name@),
            last_named(all@, name@) >= 0,
        decreases n,
    {
        let ghost now = all@.take(n as int);
        assert(now.drop_last() =~= all@.take(n - 1));
        assert(now.last() == all@[n - 1]);
        if same_str(all[n - 1].name.as_str(), name) && read_interface(&all[n - 1]).is_some() {
            return n - 1;
        }
        n = n - 1;
    }
    assert(all@.take(0) =~= Seq::<InterfaceFiles>::empty());
    0
}

// ---------------------------------------------------------------------------
// Sampling
// ---------------------------------------------------------------------------

/// One interface's reading since before. Nothing where a counter went back,
/// which means that the interface went down and up.
pub open spec fn interface_rate(
    name: Seq<char>,
    now: NetCounters,
    before: NetCounters,
    seconds: Seconds,
    link: LinkText,
) -> Option<InterfaceText> {
    if now.rx_bytes < before.rx_bytes || now.tx_bytes < before.tx_bytes {
        None
    } else {
        Some(
            InterfaceText {
                name,
                received_per_second: per_second((now.rx_bytes - before.rx_bytes) as nat, seconds),
                sent_per_second: per_second((now.tx_bytes - before.tx_bytes) as nat, seconds),
                link,
            },
        )
    }
}

/// The readings of every interface that was there before, in the order of
/// the names.
pub open spec fn interface_rates(
    now: Seq<(Seq<char>, NetCounters)>,
    before: TextMap<NetCounters>,
    seconds: Seconds,
    files: Seq<InterfaceFiles>,
    inet6: Option<Seq<char>>,
) -> Seq<InterfaceText>
    decreases now.len(),
{
    if now.len() == 0 {
        Seq::empty()
    } else {
        let rest = interface_rates(now.drop_last(), before, seconds, files, inet6);
        let (name, counters) = now.last();
        if before.has(name) {
            match interface_rate(
                name,
                counters,
                before.value(name),
                seconds,
                link_of(files[last_named(files, name)], inet6),
            ) {
                Some(reading) => rest.push(reading),
                None => rest,
            }
        } else {
            rest
        }
    }
}

/// What the physical ones of some interfaces carry: received and sent.
pub open spec fn physical_sums(s: Seq<InterfaceText>) -> (nat, nat)
    decreases s.len(),
{
    if s.len() == 0 {
        (0, 0)
    } else {
        let (received, sent) = physical_sums(s.drop_last());
        if s.last().link.physical {
            (
                received + s.last().received_per_second as nat,
                sent + s.last().sent_per_second as nat,
            )
        } else {
            (received, sent)
        }
    }
}

/// What a list of readings says.
pub open spec fn interface_texts(v: Seq<InterfaceReading>) -> Seq<InterfaceText> {
    v.map_values(|i: InterfaceReading| interface_text(i))
}

fn capped_sum(a: u64, b: u64) -> (r: u64)
    ensures
        r == capped((a + b) as nat),
{
    if a > u64::MAX - b {
        u64::MAX
    } else {
        a + b
    }
}

/// Whether a sampler that takes a reading of these interfaces goes from
/// `before` to `after` and gives `r`.
pub open spec fn net_step(
    before: NetSampler,
    files: Seq<InterfaceFiles>,
    inet6: Option<Seq<char>>,
    seconds: Seconds,
    after: NetSampler,
    r: Option<NetReading>,
) -> bool {
    &&& holds_last(after.last(), all_counters(files))
    &&& match r {
        None => before.last().pairs().len() == 0,
        Some(reading) => {
            let all = interface_rates(
                after.last().pairs(),
                before.last(),
                seconds,
                files,
                inet6,
            );
            &&& before.last().pairs().len() > 0
            &&& interface_texts(reading.interfaces@) == in_order(all)
            &&& reading.received_per_second == capped(physical_sums(all).0)
            &&& reading.sent_per_second == capped(physical_sums(all).1)
        },
    }
}

/// Turns cumulative counters into throughput. The single owner of network
/// delta state.
#[derive(Debug)]
pub struct NetSampler {
    previous: TextMap<NetCounters>,
}

impl NetSampler {
    /// The counters at the last tick.
    pub closed spec fn last(&self) -> TextMap<NetCounters> {
        self.previous
    }

    /// Whether the counters are in order.
    pub open spec fn wf(&self) -> bool {
        self.last().wf()
    }

    /// A sampler that has read nothing.
    pub fn new() -> (r: Self)
        ensures
            r.wf(),
            r.last().pairs().len() == 0,
    {
        NetSampler { previous: TextMap::new() }
    }

    /// One interface's reading since before.
    fn reading(
        name: &str,
        now: &NetCounters,
        before: &NetCounters,
        seconds: Seconds,
        files: &InterfaceFiles,
        inet6: Option<&str>,
    ) -> (r: Option<InterfaceReading>)
        requires
            files.name@ == name@,
        ensures
            match r {
                Some(i) => Some(interface_text(i)) == interface_rate(
                    name@,
                    *now,
                    *before,
                    seconds,
                    link_of(*files, crate::paths::opt_str(inet6)),
                ),
                None => interface_rate(
                    name@,
                    *now,
                    *before,
                    seconds,
                    link_of(*files, crate::paths::opt_str(inet6)),
                ) is None,
            },
    {
        if now.rx_bytes < before.rx_bytes || now.tx_bytes < before.tx_bytes {
            return None;
        }
        let operstate = match fill(&files.operstate) {
            Some(t) => t,
            None => "unknown".to_owned(),
        };
        let carrier = match fill(&files.carrier) {
            Some(t) => same_str(t.as_str(), "1"),
            None => false,
        };
        Some(
            InterfaceReading {
                name: name.to_owned(),
                received_per_second: rate(now.rx_bytes - before.rx_bytes, seconds),
                sent_per_second: rate(now.tx_bytes - before.tx_bytes, seconds),
                physical: is_physical(files),
                operstate,
                carrier,
                speed_mbps: read_small(&files.speed),
                mac: fill(&files.address),
                mtu: read_small(&files.mtu),
                ipv6: ipv6_addresses(inet6, name),
            },
        )
    }

    /// Takes a reading of every interface, `seconds` after the last one. There
    /// is none until there are earlier counters to subtract.
    pub fn sample(
        &mut self,
        files: &Vec<InterfaceFiles>,
        inet6: Option<&str>,
        seconds: Seconds,
    ) -> (r: Option<NetReading>)
        requires
            old(self).wf(),
        ensures
            final(self).wf(),
            net_step(
                *old(self),
                files@,
                crate::paths::opt_str(inet6),
                seconds,
                *final(self),
                r,
            ),
    {
        let now = read_counters(files);
        let first = self.previous.is_empty();
        let ghost before = self.previous;
        let ghost all = now.pairs();
        let ghost six = crate::paths::opt_str(inet6);
        let mut interfaces: Vec<InterfaceReading> = Vec::new();
        let mut received: u64 = 0;
        let mut sent: u64 = 0;
        let mut i: usize = 0;
        assert(all.take(0) =~= Seq::<(Seq<char>, NetCounters)>::empty());
        assert(interface_texts(interfaces@) =~= Seq::<InterfaceText>::empty());
        while i < now.len()
            invariant
                i <= all.len(),
                all == now.pairs(),
                holds_last(now, all_counters(files@)),
                self.previous == before,
                before.wf(),
                six == crate::paths::opt_str(inet6),
                interface_texts(interfaces@) == interface_rates(
                    all.take(i as int),
                    before,
                    seconds,
                    files@,
                    six,
                ),
                received == capped(physical_sums(interface_texts(interfaces@)).0),
                sent == capped(physical_sums(interface_texts(interfaces@)).1),
            decreases all.len() - i,
        {
            assert(all.take(i + 1).drop_last() =~= all.take(i as int));
            let (name, counters) = now.entry(i);
            assert(all.take(i + 1).last() == (name@, *counters));
            if let Some(earlier) = self.previous.get(name) {
                proof {
                    assert(now.has(name@)) by {
                        assert(now.pairs()[i as int].0 == name@);
                    }
                    lemma_last_named(files@, name@);
                }
                let at: usize = find_named(files, name);
                proof {
                    lemma_named(files@, name@);
                }
                match NetSampler::reading(name, counters, earlier, seconds, &files[at], inet6) {
                    Some(reading) => {
                        let ghost texts_before = interface_texts(interfaces@);
                        if reading.physical {
                            received = capped_sum(received, reading.received_per_second);
                            sent = capped_sum(sent, reading.sent_per_second);
                        }
                        interfaces.push(reading);
                        assert(interface_texts(interfaces@) =~= texts_before.push(
                            interface_text(reading),
                        ));
                        assert(texts_before.push(interface_text(reading)).drop_last()
                            =~= texts_before);
                    },
                    None => {},
                }
            }
            i = i + 1;
        }
        assert(all.take(i as int) =~= all);
        self.previous = now;
        if first {
            return None;
        }
        proof {
            lemma_in_order_map(interfaces@, |i: InterfaceReading| interface_text(i));
        }
        let interfaces = sort(interfaces);
        Some(NetReading { received_per_second: received, sent_per_second: sent, interfaces })
    }
}

impl Default for NetSampler {
    fn default() -> (r: Self)
        ensures
            r.wf(),
            r.last().pairs().len() == 0,
    {
        NetSampler::new()
    }
}

proof fn lemma_named(all: Seq<InterfaceFiles>, name: Seq<char>)
    ensures
        last_named(all, name) >= 0 ==> all[last_named(all, name)].name@ == name,
        last_named(all, name) < all.len(),
    decreases all.len(),
{
    if all.len() > 0 {
        lemma_named(all.drop_last(), name);
    }
}

/// Over a whole number of seconds an interface's rates are the exact
/// quotients, rounded down, of what its counters moved by, as long as
/// floating point holds that exactly.
pub proof fn law_interface_rates_are_exact(
    name: Seq<char>,
    now: NetCounters,
    before: NetCounters,
    seconds: Seconds,
    s: nat,
    link: LinkText,
)
    requires
        is_whole(seconds, s),
        s > 0,
        0 <= now.rx_bytes - before.rx_bytes < 9007199254740992,
        0 <= now.tx_bytes - before.tx_bytes < 9007199254740992,
    ensures
        interface_rate(name, now, before, seconds, link) matches Some(r) && r.name == name && r.link
            == link && r.received_per_second == (now.rx_bytes - before.rx_bytes) / s as int
            && r.sent_per_second == (now.tx_bytes - before.tx_bytes) / s as int,
{
    law_rates_are_exact((now.rx_bytes - before.rx_bytes) as nat, seconds, s);
    law_rates_are_exact((now.tx_bytes - before.tx_bytes) as nat, seconds, s);
}

/// What crosses only virtual interfaces adds nothing to the totals, so each
/// byte counts once.
pub proof fn law_virtual_interfaces_add_nothing(s: Seq<InterfaceText>, i: InterfaceText)
    requires
        !i.link.physical,
    ensures
        physical_sums(s.push(i)) == physical_sums(s),
{
    assert(s.push(i).drop_last() =~= s);
}

/// Loopback never reaches the counters, whatever it is called.
pub proof fn law_loopback_is_left_out(f: InterfaceFiles)
    requires
        loopback(f.kind),
    ensures
        counters_of(f) is None,
{
}

/// The featured interface is hardware with a link, and no such interface is
/// busier.
pub proof fn law_featured_is_the_busiest_hardware(s: Seq<InterfaceReading>)
    ensures
        -1 <= featured_at(s) < s.len(),
        featured_at(s) >= 0 ==> can_feature(s[featured_at(s)]),
        forall|k: int|
            0 <= k < s.len() && can_feature(#[trigger] s[k]) ==> featured_at(s) >= 0 && carried(
                s[k].received_per_second,
                s[k].sent_per_second,
            ) <= carried(
                s[featured_at(s)].received_per_second,
                s[featured_at(s)].sent_per_second,
            ),
    decreases s.len(),
{
    if s.len() > 0 {
        law_featured_is_the_busiest_hardware(s.drop_last());
        assert forall|k: int| 0 <= k < s.len() && can_feature(#[trigger] s[k]) implies featured_at(
            s,
        ) >= 0 && carried(s[k].received_per_second, s[k].sent_per_second) <= carried(
            s[featured_at(s)].received_per_second,
            s[featured_at(s)].sent_per_second,
        ) by {
            if k < s.len() - 1 {
                assert(s.drop_last()[k] == s[k]);
            }
        }
    }
}

/// What is counted of an interface: what it received from the file of
/// received bytes and what it sent from the other, under its own name. Only
/// an interface of the loopback kind, or one without both figures, is passed
/// over.
pub proof fn law_counters_come_from_their_own_files(f: InterfaceFiles)
    ensures
        counters_of(f) matches Some((name, c)) ==> name == f.name@ && (f.rx_bytes matches Some(t)
            && number(trimmed(t@)) == Some(c.rx_bytes)) && (f.tx_bytes matches Some(t) && number(
            trimmed(t@),
        ) == Some(c.tx_bytes)),
        counters_of(f) is None ==> (f.kind matches Some(t) && natural_up_to(
            trimmed(t@),
            u32::MAX as nat,
        ) == Some(772nat)) || !(f.rx_bytes matches Some(t) && number(trimmed(t@)) is Some) || !(
        f.tx_bytes matches Some(t) && number(trimmed(t@)) is Some),
        (f.kind matches Some(t) && natural_up_to(trimmed(t@), u32::MAX as nat) == Some(772nat))
            ==> counters_of(f) is None,
{
}

/// What is said of an interface's link: hardware where it has a device, a
/// carrier exactly where the kernel says `1`, and each other figure from its
/// own file.
pub proof fn law_a_link_is_read_from_its_own_files(f: InterfaceFiles, inet6: Option<Seq<char>>)
    ensures
        link_of(f, inet6).physical == f.device,
        link_of(f, inet6).carrier == (f.carrier matches Some(t) && trimmed(t@) == "1"@),
        f.operstate matches Some(t) ==> trimmed(t@).len() > 0 ==> link_of(f, inet6).operstate
            == trimmed(t@),
        f.operstate is None ==> link_of(f, inet6).operstate == "unknown"@,
        f.address matches Some(t) ==> trimmed(t@).len() > 0 ==> link_of(f, inet6).mac == Some(
            trimmed(t@),
        ),
        f.address is None ==> link_of(f, inet6).mac is None,
        f.speed is None ==> link_of(f, inet6).speed_mbps is None,
        f.speed matches Some(t) ==> trimmed(t@).len() > 0 ==> match natural_up_to(
            trimmed(t@),
            u32::MAX as nat,
        ) {
            Some(n) => link_of(f, inet6).speed_mbps == Some(n as u32),
            None => link_of(f, inet6).speed_mbps is None,
        },
        f.mtu is None ==> link_of(f, inet6).mtu is None,
        f.mtu matches Some(t) ==> trimmed(t@).len() > 0 ==> match natural_up_to(
            trimmed(t@),
            u32::MAX as nat,
        ) {
            Some(n) => link_of(f, inet6).mtu == Some(n as u32),
            None => link_of(f, inet6).mtu is None,
        },
        inet6 is None ==> link_of(f, inet6).ipv6.len() == 0,
{
    reveal_strlit("1");
    assert("1"@.len() == 1);
}

/// An address is listed under the interface that its line names last, and
/// spelled in groups of four digits.
pub proof fn law_addresses_belong_to_their_interface(
    all: Seq<Seq<char>>,
    line: Seq<char>,
    name: Seq<char>,
)
    ensures
        ({
            let w = words(line);
            let listed = w.len() >= 6 && w[5] == name && w[0].len() == 32 && forall|i: int|
                0 <= i < 32 ==> ('0' <= #[trigger] w[0][i] <= '9' || 'a' <= w[0][i] <= 'f' || 'A'
                    <= w[0][i] <= 'F');
            if listed {
                addresses_in(all.push(line), name) == addresses_in(all, name).push(
                    groups(w[0], 8),
                )
            } else {
                addresses_in(all.push(line), name) == addresses_in(all, name)
            }
        }),
        addresses_in(Seq::<Seq<char>>::empty(), name).len() == 0,
{
    assert(all.push(line).drop_last() =~= all);
    let w = words(line);
    if w.len() >= 6 && w[0].len() == 32 {
        if is_hex_address(w[0]) {
            assert forall|i: int| 0 <= i < 32 implies ('0' <= #[trigger] w[0][i] <= '9' || 'a'
                <= w[0][i] <= 'f' || 'A' <= w[0][i] <= 'F') by {
                assert(is_hex(w[0][i]));
            }
        } else {
            let i = choose|i: int| 0 <= i < w[0].len() && !is_hex(#[trigger] w[0][i]);
            assert(0 <= i < 32);
        }
    }
}

/// The spelling of an address keeps every digit in its place and puts a colon
/// behind every fourth but the last.
pub proof fn law_groups_keep_every_digit(hex: Seq<char>, n: nat)
    requires
        n >= 1,
        hex.len() >= 4 * n,
    ensures
        groups(hex, n).len() == 5 * n - 1,
        forall|i: int, j: int|
            0 <= i < n && 0 <= j < 4 ==> groups(hex, n)[#[trigger] (5 * i + j)] == hex[4 * i + j],
        forall|i: int| 0 <= i < n - 1 ==> groups(hex, n)[#[trigger] (5 * i + 4)] == ':',
    decreases n,
{
    if n > 1 {
        let m = (n - 1) as nat;
        law_groups_keep_every_digit(hex, m);
        let front = groups(hex, m);
        let all = groups(hex, n);
        let tail = hex.subrange(4 * m as int, 4 * n as int);
        assert(all == front.push(':') + tail);
        assert forall|i: int, j: int| 0 <= i < n && 0 <= j < 4 implies all[#[trigger] (5 * i + j)]
            == hex[4 * i + j] by {
            if i < m {
                assert(5 * i + j < front.len());
                assert(all[5 * i + j] == front[5 * i + j]);
            } else {
                assert(5 * i + j == front.len() + 1 + j);
                assert(all[5 * i + j] == tail[j]);
            }
        }
        assert forall|i: int| 0 <= i < n - 1 implies all[#[trigger] (5 * i + 4)] == ':' by {
            if i < m - 1 {
                assert(all[5 * i + 4] == front[5 * i + 4]);
            } else {
                assert(5 * i + 4 == front.len());
            }
        }
    } else {
        assert forall|i: int, j: int| 0 <= i < n && 0 <= j < 4 implies groups(hex, n)[#[trigger] (5
            * i + j)] == hex[4 * i + j] by {
            assert(i == 0);
        }
    }
}

/// An interface that was there before, and whose counters did not go back, has
/// its row with its own rates; hardware adds them to the totals, what it
/// received to what is received and what it sent to what is sent.
pub proof fn law_each_interface_adds_its_own_rates(
    now: Seq<(Seq<char>, NetCounters)>,
    before: TextMap<NetCounters>,
    seconds: Seconds,
    files: Seq<InterfaceFiles>,
    inet6: Option<Seq<char>>,
    name: Seq<char>,
    c: NetCounters,
)
    ensures
        ({
            let rows = interface_rates(now, before, seconds, files, inet6);
            let all = interface_rates(now.push((name, c)), before, seconds, files, inet6);
            if before.has(name) && c.rx_bytes >= before.value(name).rx_bytes && c.tx_bytes
                >= before.value(name).tx_bytes {
                &&& all.len() == rows.len() + 1
                &&& all.drop_last() == rows
                &&& all.last().name == name
                &&& all.last().link == link_of(files[last_named(files, name)], inet6)
                &&& c.rx_bytes == before.value(name).rx_bytes ==> all.last().received_per_second
                    == 0
                &&& c.tx_bytes == before.value(name).tx_bytes ==> all.last().sent_per_second == 0
                &&& all.last().link.physical ==> physical_sums(all).0 == physical_sums(rows).0
                    + all.last().received_per_second && physical_sums(all).1 == physical_sums(
                    rows,
                ).1 + all.last().sent_per_second
                &&& !all.last().link.physical ==> physical_sums(all) == physical_sums(rows)
            } else {
                all == rows
            }
        }),
        physical_sums(Seq::<InterfaceText>::empty()) == (0nat, 0nat),
{
    let rows = interface_rates(now, before, seconds, files, inet6);
    assert(now.push((name, c)).drop_last() =~= now);
    if before.has(name) && c.rx_bytes >= before.value(name).rx_bytes && c.tx_bytes >= before.value(
        name,
    ).tx_bytes {
        let r = interface_rate(
            name,
            c,
            before.value(name),
            seconds,
            link_of(files[last_named(files, name)], inet6),
        )->0;
        assert(rows.push(r).drop_last() =~= rows);
    }
}

/// A reading lists every row, the busiest first, and its totals are the sums
/// of the hardware's, as far as 64 bits hold them.
pub proof fn law_totals_are_the_sums_of_the_hardware(
    before: NetSampler,
    files: Seq<InterfaceFiles>,
    inet6: Option<Seq<char>>,
    seconds: Seconds,
    after: NetSampler,
    reading: NetReading,
)
    requires
        net_step(before, files, inet6, seconds, after, Some(reading)),
    ensures
        ({
            let all = interface_rates(after.last().pairs(), before.last(), seconds, files, inet6);
            &&& physical_sums(all).0 <= u64::MAX ==> reading.received_per_second == physical_sums(
                all,
            ).0
            &&& physical_sums(all).1 <= u64::MAX ==> reading.sent_per_second == physical_sums(all).1
            &&& interface_texts(reading.interfaces@).to_multiset() =~= all.to_multiset()
        }),
        forall|i: int, j: int|
            0 <= i < j < reading.interfaces@.len() && (#[trigger] reading.interfaces@[j]).received_per_second
                + reading.interfaces@[j].sent_per_second <= u64::MAX ==> (
            #[trigger] reading.interfaces@[i]).received_per_second
                + reading.interfaces@[i].sent_per_second
                >= reading.interfaces@[j].received_per_second
                + reading.interfaces@[j].sent_per_second,
        holds_last(after.last(), all_counters(files)),
{
    let all = interface_rates(after.last().pairs(), before.last(), seconds, files, inet6);
    crate::order::law_sorting_keeps_every_element(all);
    crate::order::law_sorted_is_ordered(all);
    let v = reading.interfaces@;
    assert(interface_texts(v).len() == v.len());
    assert forall|i: int, j: int|
        0 <= i < j < v.len() && (#[trigger] v[j]).received_per_second + v[j].sent_per_second
            <= u64::MAX implies (#[trigger] v[i]).received_per_second + v[i].sent_per_second
        >= v[j].received_per_second + v[j].sent_per_second by {
        assert(interface_texts(v)[i] == interface_text(v[i]));
        assert(interface_texts(v)[j] == interface_text(v[j]));
        assert(!InterfaceText::precedes(in_order(all)[j], in_order(all)[i]));
    }
}

/// The view of an interface keeps every field.
pub proof fn law_an_interface_is_what_its_view_says(i: InterfaceReading)
    ensures
        interface_text(i).name == i.name@,
        interface_text(i).received_per_second == i.received_per_second,
        interface_text(i).sent_per_second == i.sent_per_second,
        interface_text(i).link.physical == i.physical,
        interface_text(i).link.operstate == i.operstate@,
        interface_text(i).link.carrier == i.carrier,
        interface_text(i).link.speed_mbps == i.speed_mbps,
        interface_text(i).link.mtu == i.mtu,
        interface_text(i).link.ipv6.len() == i.ipv6@.len(),
        forall|k: int|
            0 <= k < i.ipv6@.len() ==> #[trigger] interface_text(i).link.ipv6[k] == i.ipv6@[k]@,
        i.mac is None ==> interface_text(i).link.mac is None,
        i.mac matches Some(m) ==> interface_text(i).link.mac == Some(m@),
{
}

/// An interface is in use exactly where it has a carrier and is not down; only
/// hardware in use is featured.
pub proof fn law_what_is_in_use(i: InterfaceReading)
    ensures
        active(i) == (i.carrier && i.operstate@ != "down"@),
        can_feature(i) == (i.physical && i.carrier && i.operstate@ != "down"@),
{
}

/// An interface's link is read from the files of the interface with its name,
/// the last that has both counters.
pub proof fn law_a_link_belongs_to_its_interface(all: Seq<InterfaceFiles>, name: Seq<char>)
    ensures
        -1 <= last_named(all, name) < all.len(),
        last_named(all, name) >= 0 ==> all[last_named(all, name)].name@ == name && counters_of(
            all[last_named(all, name)],
        ) is Some,
        last_named(all, name) < 0 ==> forall|k: int|
            0 <= k < all.len() && (#[trigger] all[k]).name@ == name ==> counters_of(all[k]) is None,
    decreases all.len(),
{
    if all.len() > 0 {
        let rest = all.drop_last();
        law_a_link_belongs_to_its_interface(rest, name);
        if last_named(all, name) < 0 {
            assert forall|k: int| 0 <= k < all.len() && (#[trigger] all[k]).name@
                == name implies counters_of(all[k]) is None by {
                if k < rest.len() {
                    assert(rest[k] == all[k]);
                }
            }
        }
    }
}

/// An interface is hardware exactly where it has a device, is loopback by its
/// kind alone, and is in use where it has a carrier and is not down.
pub proof fn law_what_an_interface_is(
    f: InterfaceFiles,
    physical: bool,
    loops: bool,
    i: InterfaceReading,
    used: bool,
)
    requires
        call_ensures(is_physical, (&f,), physical),
        call_ensures(is_loopback, (&f,), loops),
        call_ensures(InterfaceReading::is_active, (&i,), used),
    ensures
        physical == f.device,
        loops == (f.kind matches Some(t) && natural_up_to(trimmed(t@), u32::MAX as nat) == Some(
            772nat,
        )),
        used == (i.carrier && i.operstate@ != "down"@),
{
}

} // verus!
