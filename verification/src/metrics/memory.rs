//! Memory, as `/proc/meminfo` reports it and as `free` adds it up.
use vstd::prelude::*;
use crate::order::{holds_last, last_value, lemma_holds_insert, lemma_holds_nothing, lemma_holds_skip, TextMap};
use crate::text::{chars_of, is_text, lines, number, parse_u64, parted, split_lines, split_once, split_words, string_of, trim, trimmed, views, words};
use crate::double::capped;
use super::{share, share_of, Share};

verus! {

broadcast use vstd::string::group_string_axioms;

/// Memory as `free` would report it, in bytes.
#[derive(Debug, Clone, Copy, PartialEq, Eq, Structural)]
pub struct MemoryReading {
    pub total: u64,
    /// In use: total, less free, less what the caches would give back.
    pub used: u64,
    /// Genuinely unallocated.
    pub free: u64,
    /// What could be given to a new process without swapping.
    pub available: u64,
    /// Buffers, page cache and reclaimable slab together.
    pub buffers_cache: u64,
    /// Shared memory, which is counted inside the cache figure.
    pub shared: u64,
    pub swap_total: u64,
    pub swap_used: u64,
    pub swap_free: u64,
}

impl Default for MemoryReading {
    fn default() -> (r: Self)
        ensures
            r.total == 0,
            r.used == 0,
            r.free == 0,
            r.available == 0,
            r.buffers_cache == 0,
            r.shared == 0,
            r.swap_total == 0,
            r.swap_used == 0,
            r.swap_free == 0,
    {
        MemoryReading {
            total: 0,
            used: 0,
            free: 0,
            available: 0,
            buffers_cache: 0,
            shared: 0,
            swap_total: 0,
            swap_used: 0,
            swap_free: 0,
        }
    }
}

/// What is left of `a` without `b`; nothing where `b` is more.
pub open spec fn less(a: u64, b: u64) -> u64 {
    if a > b {
        (a - b) as u64
    } else {
        0
    }
}

impl MemoryReading {
    /// Fraction of memory in use, computed from what is available.
    pub fn pressure(&self) -> (r: Option<Share>)
        ensures
            r == share_of(less(self.total, self.available) as nat, self.total as nat),
    {
        let used: u64 = if self.total > self.available {
            self.total - self.available
        } else {
            0
        };
        share(used as u128, self.total as u128)
    }

    /// Fraction of swap in use; nothing where there is no swap.
    pub fn swap_pressure(&self) -> (r: Option<Share>)
        ensures
            r == share_of(self.swap_used as nat, self.swap_total as nat),
    {
        share(self.swap_used as u128, self.swap_total as u128)
    }
}

/// The name and the figure of one line. A figure in `kB` is given in bytes;
/// one without a unit is a count.
pub open spec fn field_of(line: Seq<char>) -> Option<(Seq<char>, u64)> {
    match parted(line, ':') {
        None => None,
        Some((name, rest)) => {
            let w = words(rest);
            if w.len() == 0 {
                None
            } else {
                match number(w[0]) {
                    None => None,
                    Some(value) => if w.len() > 1 && w[1] == "kB"@ {
                        if value * 1024 > u64::MAX {
                            None
                        } else {
                            Some((trimmed(name), (value * 1024) as u64))
                        }
                    } else {
                        Some((trimmed(name), value))
                    },
                }
            }
        },
    }
}

/// What every line gives, line by line.
pub open spec fn fields_of(text: Seq<char>) -> Seq<Option<(Seq<char>, u64)>> {
    lines(text).map_values(|l: Seq<char>| field_of(l))
}

/// The name and the figure of one line.
fn parse_field(line: &[char]) -> (r: Option<(String, u64)>)
    ensures
        match r {
            Some((name, value)) => field_of(line@) == Some((name@, value)),
            None => field_of(line@) is None,
        },
{
    let (name, rest) = match split_once(line, ':') {
        Some(p) => p,
        None => {
            return None;
        },
    };
    let fields = split_words(rest);
    assert(views(fields@).len() == fields@.len());
    if fields.len() == 0 {
        return None;
    }
    assert(views(fields@)[0] == fields@[0]@);
    let value: u64 = match parse_u64(fields[0]) {
        Some(v) => v,
        None => {
            return None;
        },
    };
    let bytes: u64 = if fields.len() > 1 && is_text(fields[1], "kB") {
        assert(views(fields@)[1] == fields@[1]@);
        if value > u64::MAX / 1024 {
            return None;
        }
        value * 1024
    } else {
        if fields.len() > 1 {
            assert(views(fields@)[1] == fields@[1]@);
        }
        value
    };
    Some((string_of(trim(name)), bytes))
}

/// Parses `/proc/meminfo` into a map from field name to bytes.
pub fn parse_meminfo(text: &str) -> (r: TextMap<u64>)
    ensures
        holds_last(r, fields_of(text@)),
{
    let chars = chars_of(text);
    let rows = split_lines(chars.as_slice());
    let ghost all = fields_of(text@);
    let mut out: TextMap<u64> = TextMap::new();
    let mut i: usize = 0;
    proof {
        lemma_holds_nothing(out, all.take(0));
    }
    while i < rows.len()
        invariant
            i <= rows@.len(),
            views(rows@) == lines(text@),
            all == fields_of(text@),
            all.len() == rows@.len(),
            holds_last(out, all.take(i as int)),
        decreases rows@.len() - i,
    {
        let ghost before = out;
        let ghost next = all.take(i + 1);
        assert(next.drop_last() =~= all.take(i as int));
        assert(next.last() == field_of(rows@[i as int]@)) by {
            assert(views(rows@)[i as int] == rows@[i as int]@);
        }
        match parse_field(rows[i]) {
            Some((name, value)) => {
                out.insert(name.as_str(), value);
                proof {
                    lemma_holds_insert(before, out, next, name@, value);
                }
            },
            None => {
                proof {
                    lemma_holds_skip(out, next);
                }
            },
        }
        i = i + 1;
    }
    assert(all.take(i as int) =~= all);
    out
}

/// The figure of a field; zero where it is missing.
pub open spec fn figure(fields: TextMap<u64>, name: Seq<char>) -> u64 {
    if fields.has(name) {
        fields.value(name)
    } else {
        0
    }
}

fn get(fields: &TextMap<u64>, name: &str) -> (r: u64)
    requires
        fields.wf(),
    ensures
        r == figure(*fields, name@),
{
    match fields.get(name) {
        Some(v) => *v,
        None => 0,
    }
}

/// The reading that the fields add up to, by the arithmetic of `free`.
pub open spec fn memory_of(fields: TextMap<u64>) -> MemoryReading {
    let total = figure(fields, "MemTotal"@);
    let free = figure(fields, "MemFree"@);
    let cache = capped(
        (figure(fields, "Buffers"@) + figure(fields, "Cached"@) + figure(
            fields,
            "SReclaimable"@,
        )) as nat,
    );
    let swap_total = figure(fields, "SwapTotal"@);
    let swap_free = figure(fields, "SwapFree"@);
    MemoryReading {
        total,
        used: less(less(total, free), cache),
        free,
        available: figure(fields, "MemAvailable"@),
        buffers_cache: cache,
        shared: figure(fields, "Shmem"@),
        swap_total,
        swap_used: less(swap_total, swap_free),
        swap_free,
    }
}

/// Builds a reading from the fields. The kernel reads the components at
/// slightly different moments, so a difference that would be negative is
/// nothing.
pub fn reading_from(fields: &TextMap<u64>) -> (r: MemoryReading)
    requires
        fields.wf(),
    ensures
        r == memory_of(*fields),
{
    let total: u64 = get(fields, "MemTotal");
    let free: u64 = get(fields, "MemFree");
    let sum: u128 = get(fields, "Buffers") as u128 + get(fields, "Cached") as u128 + get(
        fields,
        "SReclaimable",
    ) as u128;
    let cache: u64 = if sum > u64::MAX as u128 {
        u64::MAX
    } else {
        sum as u64
    };
    let swap_total: u64 = get(fields, "SwapTotal");
    let swap_free: u64 = get(fields, "SwapFree");
    let not_free: u64 = if total > free {
        total - free
    } else {
        0
    };
    MemoryReading {
        total,
        used: if not_free > cache {
            not_free - cache
        } else {
            0
        },
        free,
        available: get(fields, "MemAvailable"),
        buffers_cache: cache,
        shared: get(fields, "Shmem"),
        swap_total,
        swap_used: if swap_total > swap_free {
            swap_total - swap_free
        } else {
            0
        },
        swap_free,
    }
}

/// Whether `r` is what `/proc/meminfo` amounts to, where it could be read.
pub open spec fn memory_read(text: Option<Seq<char>>, r: Option<MemoryReading>) -> bool {
    match text {
        Some(t) => r is Some && exists|fields: TextMap<u64>|
            holds_last(fields, fields_of(t)) && r == Some(#[trigger] memory_of(fields)),
        None => r is None,
    }
}

/// The reading that `/proc/meminfo` amounts to, where it could be read.
pub fn sample(text: Option<&str>) -> (r: Option<MemoryReading>)
    ensures
        memory_read(crate::paths::opt_str(text), r),
{
    match text {
        Some(t) => {
            let fields = parse_meminfo(t);
            Some(reading_from(&fields))
        },
        None => None,
    }
}

/// Where the parts do not exceed the whole, the three columns of `free` add
/// up to the total, and those of swap to its total.
pub proof fn law_columns_add_up(fields: TextMap<u64>)
    requires
        memory_of(fields).free + memory_of(fields).buffers_cache <= memory_of(fields).total,
        memory_of(fields).swap_free <= memory_of(fields).swap_total,
    ensures
        memory_of(fields).used + memory_of(fields).free + memory_of(fields).buffers_cache
            == memory_of(fields).total,
        memory_of(fields).swap_used + memory_of(fields).swap_free == memory_of(fields).swap_total,
{
}

/// A field is found by its name alone: two files that give every name the
/// same last figure amount to the same reading.
pub proof fn law_order_of_fields_does_not_matter(
    a: TextMap<u64>,
    b: TextMap<u64>,
    first: Seq<char>,
    second: Seq<char>,
)
    requires
        holds_last(a, fields_of(first)),
        holds_last(b, fields_of(second)),
        forall|name: Seq<char>| #[trigger]
            last_value(fields_of(first), name) == last_value(fields_of(second), name),
    ensures
        memory_of(a) == memory_of(b),
{
    assert forall|name: Seq<char>| #[trigger] figure(a, name) == figure(b, name) by {
        assert(a.has(name) <==> last_value(fields_of(first), name) is Some);
        assert(b.has(name) <==> last_value(fields_of(second), name) is Some);
    }
}

/// What a field of the kernel's report says: nothing where it is missing.
pub open spec fn reported(text: Seq<char>, name: Seq<char>) -> int {
    match last_value(fields_of(text), name) {
        Some(v) => v as int,
        None => 0,
    }
}

/// Each figure comes from the kernel's field of that name. What the caches
/// hold is buffers, page cache and reclaimable slab together, and what is in
/// use is what is left of the total without what is free and without those.
pub proof fn law_each_figure_comes_from_its_own_field(text: Seq<char>, r: MemoryReading)
    requires
        memory_read(Some(text), Some(r)),
    ensures
        r.total == reported(text, "MemTotal"@),
        r.free == reported(text, "MemFree"@),
        r.available == reported(text, "MemAvailable"@),
        r.shared == reported(text, "Shmem"@),
        r.swap_total == reported(text, "SwapTotal"@),
        r.swap_free == reported(text, "SwapFree"@),
        ({
            let cache = reported(text, "Buffers"@) + reported(text, "Cached"@) + reported(
                text,
                "SReclaimable"@,
            );
            &&& cache <= u64::MAX ==> r.buffers_cache == cache
            &&& r.free + cache <= r.total ==> r.used + r.free + cache == r.total
            &&& r.free + cache > r.total ==> r.used == 0
            &&& r.swap_free <= r.swap_total ==> r.swap_used + r.swap_free == r.swap_total
            &&& r.swap_free > r.swap_total ==> r.swap_used == 0
        }),
{
    let fields = choose|fields: TextMap<u64>|
        holds_last(fields, fields_of(text)) && Some(r) == Some(#[trigger] memory_of(fields));
    assert(fields.has("MemTotal"@) <==> last_value(fields_of(text), "MemTotal"@) is Some);
    assert(fields.has("MemFree"@) <==> last_value(fields_of(text), "MemFree"@) is Some);
    assert(fields.has("MemAvailable"@) <==> last_value(fields_of(text), "MemAvailable"@) is Some);
    assert(fields.has("Shmem"@) <==> last_value(fields_of(text), "Shmem"@) is Some);
    assert(fields.has("SwapTotal"@) <==> last_value(fields_of(text), "SwapTotal"@) is Some);
    assert(fields.has("SwapFree"@) <==> last_value(fields_of(text), "SwapFree"@) is Some);
    assert(fields.has("Buffers"@) <==> last_value(fields_of(text), "Buffers"@) is Some);
    assert(fields.has("Cached"@) <==> last_value(fields_of(text), "Cached"@) is Some);
    assert(fields.has("SReclaimable"@) <==> last_value(fields_of(text), "SReclaimable"@) is Some);
}

/// A field's figure is in kibibytes where the kernel says so, and in bytes
/// where it says nothing.
pub proof fn law_kibibytes_become_bytes(line: Seq<char>, name: Seq<char>, value: u64)
    requires
        field_of(line) == Some((name, value)),
    ensures
        parted(line, ':') matches Some((front, rest)) && name == trimmed(front) && words(rest).len()
            > 0 && (number(words(rest)[0]) matches Some(n) && value == (if words(rest).len() > 1
            && words(rest)[1] == "kB"@ {
            n * 1024
        } else {
            n as int
        })),
{
}

/// What is left of one figure without another, and nothing where the other is
/// more.
pub proof fn law_nothing_is_less_than_nothing(a: u64, b: u64)
    ensures
        b <= a ==> less(a, b) + b == a,
        b > a ==> less(a, b) == 0,
{
}

/// Pressure is what is not available of the total, and swap pressure what is
/// in use of the swap; where there is none there is no pressure either.
pub proof fn law_pressure_is_what_is_not_available(
    m: MemoryReading,
    memory: Option<Share>,
    swap: Option<Share>,
)
    requires
        call_ensures(MemoryReading::pressure, (&m,), memory),
        call_ensures(MemoryReading::swap_pressure, (&m,), swap),
    ensures
        memory is None <==> m.total == 0,
        memory matches Some(s) ==> s.whole == m.total && (m.available <= m.total ==> s.part
            + m.available == m.total) && (m.available > m.total ==> s.part == 0),
        swap is None <==> m.swap_total == 0,
        swap matches Some(s) ==> s.whole == m.swap_total && (m.swap_used <= m.swap_total ==> s.part
            == m.swap_used),
{
}

} // verus!
