//! Mains and batteries, from `/sys/class/power_supply`.
use vstd::prelude::*;
use crate::double::{difference, divide, divided, from_millionths, gap, is_positive, millionths, multiply, nearest, ordinary, over, parts, product, quotient, subtract, times, whole, whole_product, whole_times, zero, Real};
use crate::order::{in_order, lemma_in_order_map, lemma_texts_rank, ranks_consistently, sort, str_less, text_less, Ordered, Ranked};
use crate::text::{chars_of, opt_text, parse_i64, same_str, signed_number, trim, trimmed};
use crate::exact::{law_a_percentage_is_the_exact_one_rounded_down, law_a_quotient_is_rounded_once, lemma_common_factor, lemma_nearest_scales, lemma_whole_numbers_are_kept, lemma_whole_part_survives};
use super::net::{fill, filled};

verus! {

broadcast use vstd::string::group_string_axioms;

/// What a battery is doing, as the kernel reports it.
#[derive(Debug, Clone, Copy, PartialEq, Eq, Structural)]
pub enum ChargeState {
    Charging,
    Discharging,
    Full,
    /// On mains, but deliberately not charging.
    NotCharging,
    Unknown,
}

/// What the kernel's word for a state means.
pub open spec fn charge_state(text: Seq<char>) -> ChargeState {
    let t = trimmed(text);
    if t == "Charging"@ {
        ChargeState::Charging
    } else if t == "Discharging"@ {
        ChargeState::Discharging
    } else if t == "Full"@ {
        ChargeState::Full
    } else if t == "Not charging"@ {
        ChargeState::NotCharging
    } else {
        ChargeState::Unknown
    }
}

impl ChargeState {
    /// What the kernel's word for a state means.
    pub fn parse(text: &str) -> (r: Self)
        ensures
            r == charge_state(text@),
    {
        let chars = chars_of(text);
        let t = crate::text::string_of(trim(chars.as_slice()));
        let word = t.as_str();
        if same_str(word, "Charging") {
            ChargeState::Charging
        } else if same_str(word, "Discharging") {
            ChargeState::Discharging
        } else if same_str(word, "Full") {
            ChargeState::Full
        } else if same_str(word, "Not charging") {
            ChargeState::NotCharging
        } else {
            ChargeState::Unknown
        }
    }
}

/// One battery.
#[derive(Debug, Clone, PartialEq, Eq)]
pub struct Battery {
    pub name: String,
    pub state: ChargeState,
    /// How full it is now, from 0 to 100.
    pub percent: u8,
    /// Capacity now against capacity when new, from 0 to 100.
    pub health_percent: Option<u8>,
    /// Current draw or charge rate in watts. Zero when idle.
    pub watts: Real,
    /// Seconds until full or empty, which only a rate can tell.
    pub seconds_remaining: Option<u64>,
    pub cycles: Option<u32>,
    pub technology: Option<String>,
}

/// A battery with its texts.
pub struct BatteryText {
    pub name: Seq<char>,
    pub state: ChargeState,
    pub percent: u8,
    pub health_percent: Option<u8>,
    pub watts: (bool, nat, int),
    pub seconds_remaining: Option<u64>,
    pub cycles: Option<u32>,
    pub technology: Option<Seq<char>>,
}

/// What a battery says.
pub open spec fn battery_text(b: Battery) -> BatteryText {
    BatteryText {
        name: b.name@,
        state: b.state,
        percent: b.percent,
        health_percent: b.health_percent,
        watts: parts(b.watts),
        seconds_remaining: b.seconds_remaining,
        cycles: b.cycles,
        technology: opt_text(b.technology),
    }
}

/// What a list of batteries says.
pub open spec fn battery_texts(v: Seq<Battery>) -> Seq<BatteryText> {
    v.map_values(|b: Battery| battery_text(b))
}

impl Ordered for BatteryText {
    open spec fn precedes(b: Self, a: Self) -> bool {
        text_less(b.name, a.name)
    }
}

impl Ordered for Battery {
    open spec fn precedes(b: Self, a: Self) -> bool {
        text_less(b.name@, a.name@)
    }
}

impl Ranked for Battery {
    fn comes_before(&self, other: &Self) -> bool {
        str_less(self.name.as_str(), other.name.as_str())
    }
}

/// Mains and batteries together.
#[derive(Debug, Clone, PartialEq, Eq)]
pub struct PowerReading {
    /// Whether a mains supply reports itself online. Nothing where there is
    /// no mains supply at all, which is not the same as being unplugged.
    pub on_mains: Option<bool>,
    /// Empty on a desktop.
    pub batteries: Vec<Battery>,
}

impl Default for PowerReading {
    fn default() -> (r: Self)
        ensures
            r.on_mains is None,
            r.batteries@.len() == 0,
    {
        PowerReading { on_mains: None, batteries: Vec::new() }
    }
}

impl PowerReading {
    /// Whether this machine has a battery at all.
    pub fn has_battery(&self) -> (r: bool)
        ensures
            r == (self.batteries@.len() > 0),
    {
        self.batteries.len() > 0
    }
}

/// What one power supply says, as far as its files could be read.
#[derive(Debug, Clone, PartialEq, Eq)]
pub struct SupplyFiles {
    pub name: String,
    /// `type`.
    pub kind: Option<String>,
    pub online: Option<String>,
    pub status: Option<String>,
    pub capacity: Option<String>,
    pub energy_now: Option<String>,
    pub energy_full: Option<String>,
    pub energy_full_design: Option<String>,
    pub power_now: Option<String>,
    pub voltage_now: Option<String>,
    pub charge_now: Option<String>,
    pub charge_full: Option<String>,
    pub charge_full_design: Option<String>,
    pub current_now: Option<String>,
    pub cycle_count: Option<String>,
    pub technology: Option<String>,
}

/// The number that a file holds.
pub open spec fn number_in(file: Option<String>) -> Option<i64> {
    match file {
        Some(t) => signed_number(trimmed(t@)),
        None => None,
    }
}

/// The number that a file holds.
pub(crate) fn read_number(file: &Option<String>) -> (r: Option<i64>)
    ensures
        r == number_in(*file),
{
    match file {
        Some(t) => {
            let chars = chars_of(t.as_str());
            parse_i64(trim(chars.as_slice()))
        },
        None => None,
    }
}

/// What is known of a battery's charge: watt-hours now, when full and when
/// new, and the rate in watts.
pub struct EnergyText {
    pub now: Option<(bool, nat, int)>,
    pub full: Option<(bool, nat, int)>,
    pub design: Option<(bool, nat, int)>,
    pub watts: (bool, nat, int),
}

/// The size of a number.
pub open spec fn size(x: (bool, nat, int)) -> (bool, nat, int) {
    (false, x.1, x.2)
}

/// A figure in millionths of its unit.
pub open spec fn direct(file: Option<String>) -> Option<(bool, nat, int)> {
    match number_in(file) {
        Some(v) => Some(millionths(v as int)),
        None => None,
    }
}

/// A figure in millionths that voltage turns into power.
pub open spec fn through_volts(file: Option<String>, volts: (bool, nat, int)) -> Option<
    (bool, nat, int),
> {
    match number_in(file) {
        Some(v) => Some(times(millionths(v as int), volts)),
        None => None,
    }
}

/// What is known of a battery's charge, from whichever form the firmware
/// uses: energy directly, or charge that voltage turns into energy.
pub open spec fn energy_of(f: SupplyFiles) -> EnergyText {
    if number_in(f.energy_now) is Some {
        EnergyText {
            now: direct(f.energy_now),
            full: direct(f.energy_full),
            design: direct(f.energy_full_design),
            watts: match direct(f.power_now) {
                Some(w) => size(w),
                None => zero(),
            },
        }
    } else {
        let volts = match direct(f.voltage_now) {
            Some(v) => v,
            None => zero(),
        };
        EnergyText {
            now: through_volts(f.charge_now, volts),
            full: through_volts(f.charge_full, volts),
            design: through_volts(f.charge_full_design, volts),
            watts: match through_volts(f.current_now, volts) {
                Some(w) => size(w),
                None => zero(),
            },
        }
    }
}

/// What is known of a battery's charge.
#[derive(Debug, Clone, Copy)]
pub struct Energy {
    pub now: Option<Real>,
    pub full: Option<Real>,
    pub design: Option<Real>,
    pub watts: Real,
}

/// The parts of a number that may be unknown.
pub open spec fn opt_parts(x: Option<Real>) -> Option<(bool, nat, int)> {
    match x {
        Some(r) => Some(parts(r)),
        None => None,
    }
}

/// What is known, in parts.
pub open spec fn energy_text(e: Energy) -> EnergyText {
    EnergyText {
        now: opt_parts(e.now),
        full: opt_parts(e.full),
        design: opt_parts(e.design),
        watts: parts(e.watts),
    }
}

/// Whether a number that may be unknown is one that the operations take.
pub open spec fn opt_ordinary(x: Option<Real>, low: int, high: int) -> bool {
    x matches Some(r) ==> ordinary(r, low, high)
}

/// Whether the figures can be taken from each other.
pub open spec fn comparable(e: Energy) -> bool {
    exists|low: int|
        -200 <= low <= 200 && #[trigger] opt_ordinary(e.now, low, low + 66) && opt_ordinary(
            e.full,
            low,
            low + 66,
        ) && opt_ordinary(e.design, low, low + 66) && ordinary(e.watts, low, low + 66)
}

fn read_direct(file: &Option<String>) -> (r: Option<Real>)
    ensures
        opt_parts(r) == direct(*file),
        opt_ordinary(r, -72, -9),
{
    match read_number(file) {
        Some(v) => Some(from_millionths(v)),
        None => None,
    }
}

fn read_through_volts(file: &Option<String>, volts: Real) -> (r: Option<Real>)
    requires
        ordinary(volts, -72, -9),
    ensures
        opt_parts(r) == through_volts(*file, parts(volts)),
        volts.mantissa == 0 ==> (r matches Some(x) ==> x.mantissa == 0),
        opt_ordinary(r, volts.exponent - 20, volts.exponent + 45),
{
    match read_number(file) {
        Some(v) => Some(multiply(from_millionths(v), volts)),
        None => None,
    }
}

fn unsigned(x: Option<Real>) -> (r: Real)
    ensures
        parts(r) == match opt_parts(x) {
            Some(w) => size(w),
            None => zero(),
        },
        x matches Some(w) ==> r.mantissa == w.mantissa && r.exponent == w.exponent,
        x is None ==> r.mantissa == 0 && r.exponent == 0,
{
    match x {
        Some(w) => Real { negative: false, mantissa: w.mantissa, exponent: w.exponent },
        None => Real { negative: false, mantissa: 0, exponent: 0 },
    }
}

/// What is known of a battery's charge.
pub fn energy_figures(f: &SupplyFiles) -> (r: Energy)
    ensures
        energy_text(r) == energy_of(*f),
        comparable(r),
{
    if let Some(now) = read_direct(&f.energy_now) {
        let r = Energy {
            now: Some(now),
            full: read_direct(&f.energy_full),
            design: read_direct(&f.energy_full_design),
            watts: unsigned(read_direct(&f.power_now)),
        };
        assert(opt_ordinary(r.now, -72, -72 + 66));
        return r;
    }
    let volts = match read_direct(&f.voltage_now) {
        Some(v) => v,
        None => Real { negative: false, mantissa: 0, exponent: 0 },
    };
    let r = Energy {
        now: read_through_volts(&f.charge_now, volts),
        full: read_through_volts(&f.charge_full, volts),
        design: read_through_volts(&f.charge_full_design, volts),
        watts: unsigned(read_through_volts(&f.current_now, volts)),
    };
    proof {
        let low: int = if volts.mantissa == 0 {
            0
        } else {
            volts.exponent - 20
        };
        assert(opt_ordinary(r.now, low, low + 66));
    }
    r
}

/// What part of a hundred one figure is of another.
pub open spec fn percent_of(x: (bool, nat, int), y: (bool, nat, int)) -> u8 {
    let p = whole_times(divided(x, y), 100);
    if p > 100 {
        100
    } else {
        p as u8
    }
}

/// How full a battery is: what the firmware says, or what the figures come
/// to.
pub open spec fn fullness(f: SupplyFiles) -> Option<u8> {
    let e = energy_of(f);
    match number_in(f.capacity) {
        Some(c) => Some(
            (if c < 0 {
                0
            } else if c > 100 {
                100
            } else {
                c
            }) as u8,
        ),
        None => match (e.now, e.full) {
            (Some(now), Some(full)) => if is_positive(full) {
                Some(percent_of(now, full))
            } else {
                None
            },
            _ => None,
        },
    }
}

/// What is left of a battery's capacity when new.
pub open spec fn health(e: EnergyText) -> Option<u8> {
    match (e.full, e.design) {
        (Some(full), Some(design)) => if is_positive(design) {
            Some(percent_of(full, design))
        } else {
            None
        },
        _ => None,
    }
}

/// The hours until a battery is full or empty, where a rate tells them.
pub open spec fn hours_left(state: ChargeState, e: EnergyText) -> Option<(bool, nat, int)> {
    if !is_positive(e.watts) {
        None
    } else {
        match state {
            ChargeState::Discharging => match e.now {
                Some(now) => Some(divided(now, e.watts)),
                None => None,
            },
            ChargeState::Charging => match (e.now, e.full) {
                (Some(now), Some(full)) => if gap(full, now) > 0 {
                    Some(divided(difference(full, now), e.watts))
                } else {
                    None
                },
                _ => None,
            },
            _ => None,
        }
    }
}

/// How many cycles a battery has gone through, where the firmware counts
/// them.
pub open spec fn cycles_of(f: SupplyFiles) -> Option<u32> {
    match number_in(f.cycle_count) {
        Some(c) if 0 < c <= u32::MAX => Some(c as u32),
        _ => None,
    }
}

/// The battery that one power supply is, if it is one.
pub open spec fn battery_of(f: SupplyFiles) -> Option<BatteryText> {
    let e = energy_of(f);
    let state = match filled(f.status) {
        Some(t) => charge_state(t),
        None => ChargeState::Unknown,
    };
    if filled(f.kind) != Some("Battery"@) {
        None
    } else {
        match fullness(f) {
            None => None,
            Some(percent) => Some(
                BatteryText {
                    name: f.name@,
                    state,
                    percent,
                    health_percent: health(e),
                    watts: e.watts,
                    seconds_remaining: match hours_left(state, e) {
                        Some(h) => Some(whole_times(h, 3600)),
                        None => None,
                    },
                    cycles: cycles_of(f),
                    technology: filled(f.technology),
                },
            ),
        }
    }
}

fn positive(x: &Real) -> (r: bool)
    ensures
        r == is_positive(parts(*x)),
{
    !x.negative && x.mantissa > 0
}

fn percentage(x: Real, y: Real, Ghost(low): Ghost<int>) -> (r: u8)
    requires
        is_positive(parts(y)),
        -200 <= low <= 200,
        ordinary(x, low, low + 66),
        ordinary(y, low, low + 66),
    ensures
        r == percent_of(parts(x), parts(y)),
{
    let p: u64 = whole_product(divide(x, y), 100);
    if p > 100 {
        100
    } else {
        p as u8
    }
}

/// Reads one power supply, if it is a battery.
pub fn battery_at(f: &SupplyFiles) -> (r: Option<Battery>)
    ensures
        match r {
            Some(b) => battery_of(*f) == Some(battery_text(b)),
            None => battery_of(*f) is None,
        },
{
    let is_battery = match fill(&f.kind) {
        Some(t) => same_str(t.as_str(), "Battery"),
        None => false,
    };
    if !is_battery {
        return None;
    }
    let state = match fill(&f.status) {
        Some(t) => ChargeState::parse(t.as_str()),
        None => ChargeState::Unknown,
    };
    let energy = energy_figures(f);
    let ghost low = choose|low: int|
        -200 <= low <= 200 && #[trigger] opt_ordinary(energy.now, low, low + 66) && opt_ordinary(
            energy.full,
            low,
            low + 66,
        ) && opt_ordinary(energy.design, low, low + 66) && ordinary(energy.watts, low, low + 66);
    let ghost e = energy_of(*f);
    assert(energy_text(energy) == e);
    let percent: u8 = match read_number(&f.capacity) {
        Some(c) => if c < 0 {
            0
        } else if c > 100 {
            100
        } else {
            c as u8
        },
        None => match (energy.now, energy.full) {
            (Some(now), Some(full)) => if positive(&full) {
                percentage(now, full, Ghost(low))
            } else {
                return None;
            },
            _ => {
                return None;
            },
        },
    };
    let health_percent = match (energy.full, energy.design) {
        (Some(full), Some(design)) => if positive(&design) {
            Some(percentage(full, design, Ghost(low)))
        } else {
            None
        },
        _ => None,
    };
    let watts = energy.watts;
    let hours: Option<Real> = if !positive(&watts) {
        None
    } else {
        match state {
            ChargeState::Discharging => match energy.now {
                Some(now) => Some(divide(now, watts)),
                None => None,
            },
            ChargeState::Charging => match (energy.now, energy.full) {
                (Some(now), Some(full)) => remaining(full, now, watts, Ghost(low)),
                _ => None,
            },
            _ => None,
        }
    };
    assert(opt_parts(hours) == hours_left(state, e));
    let seconds_remaining = match hours {
        Some(h) => Some(whole_product(h, 3600)),
        None => None,
    };
    let cycles = match read_number(&f.cycle_count) {
        Some(c) => if 0 < c && c <= u32::MAX as i64 {
            Some(c as u32)
        } else {
            None
        },
        None => None,
    };
    Some(
        Battery {
            name: f.name.as_str().to_owned(),
            state,
            percent,
            health_percent,
            watts,
            seconds_remaining,
            cycles,
            technology: fill(&f.technology),
        },
    )
}

/// The hours until a battery is full.
fn remaining(full: Real, now: Real, watts: Real, Ghost(low): Ghost<int>) -> (r: Option<Real>)
    requires
        is_positive(parts(watts)),
        -200 <= low <= 200,
        ordinary(full, low, low + 66),
        ordinary(now, low, low + 66),
        ordinary(watts, low, low + 66),
    ensures
        opt_parts(r) == if gap(parts(full), parts(now)) > 0 {
            Some(divided(difference(parts(full), parts(now)), parts(watts)))
        } else {
            None
        },
        r matches Some(h) ==> -30000 < h.exponent < 30000,
{
    match subtract(full, now) {
        Some(d) => Some(divide(d, watts)),
        None => None,
    }
}

/// What the mains supplies say together: online where any of them is.
pub open spec fn mains_with(before: Option<bool>, online: Option<i64>) -> Option<bool> {
    match online {
        Some(v) => if v == 1 || before == Some(true) {
            Some(true)
        } else {
            Some(false)
        },
        None => before,
    }
}

/// Whether mains is online, as far as the supplies say.
pub open spec fn mains_of(all: Seq<SupplyFiles>) -> Option<bool>
    decreases all.len(),
{
    if all.len() == 0 {
        None
    } else if filled(all.last().kind) == Some("Mains"@) {
        mains_with(mains_of(all.drop_last()), number_in(all.last().online))
    } else {
        mains_of(all.drop_last())
    }
}

/// The batteries among the supplies, in order.
pub open spec fn batteries_of(all: Seq<SupplyFiles>) -> Seq<BatteryText>
    decreases all.len(),
{
    if all.len() == 0 {
        Seq::empty()
    } else {
        match battery_of(all.last()) {
            Some(b) => batteries_of(all.drop_last()).push(b),
            None => batteries_of(all.drop_last()),
        }
    }
}

/// Reads every power supply: mains where any is online, and the batteries by
/// name.
pub fn read(supplies: &Vec<SupplyFiles>) -> (r: PowerReading)
    ensures
        r.on_mains == mains_of(supplies@),
        battery_texts(r.batteries@) == in_order(batteries_of(supplies@)),
{
    let mut on_mains: Option<bool> = None;
    let mut batteries: Vec<Battery> = Vec::new();
    let mut i: usize = 0;
    assert(supplies@.take(0) =~= Seq::<SupplyFiles>::empty());
    assert(battery_texts(batteries@) =~= Seq::<BatteryText>::empty());
    while i < supplies.len()
        invariant
            i <= supplies@.len(),
            on_mains == mains_of(supplies@.take(i as int)),
            battery_texts(batteries@) == batteries_of(supplies@.take(i as int)),
        decreases supplies@.len() - i,
    {
        assert(supplies@.take(i + 1).drop_last() =~= supplies@.take(i as int));
        let supply = &supplies[i];
        let kind = fill(&supply.kind);
        let mains = match &kind {
            Some(t) => same_str(t.as_str(), "Mains"),
            None => false,
        };
        if mains {
            on_mains = match read_number(&supply.online) {
                Some(v) => Some(v == 1 || on_mains == Some(true)),
                None => on_mains,
            };
        }
        if let Some(battery) = battery_at(supply) {
            let ghost before = battery_texts(batteries@);
            batteries.push(battery);
            assert(battery_texts(batteries@) =~= before.push(battery_text(battery)));
        }
        i = i + 1;
    }
    assert(supplies@.take(i as int) =~= supplies@);
    proof {
        lemma_in_order_map(batteries@, |b: Battery| battery_text(b));
    }
    PowerReading { on_mains, batteries: sort(batteries) }
}

/// An idle battery tells no time: without a rate there is none to tell.
pub proof fn law_no_rate_no_time(f: SupplyFiles)
    requires
        !is_positive(energy_of(f).watts),
        battery_of(f) is Some,
    ensures
        battery_of(f)->0.seconds_remaining is None,
{
}

/// Neither figure of a battery ever exceeds a hundred.
pub proof fn law_percentages_are_at_most_a_hundred(f: SupplyFiles)
    ensures
        battery_of(f) matches Some(b) ==> b.percent <= 100 && (b.health_percent matches Some(h)
            ==> h <= 100),
{
}

/// Any mains supply that is online counts, whatever the others say and in
/// whatever order they come.
pub proof fn law_any_online_supply_is_mains(all: Seq<SupplyFiles>, k: int)
    requires
        0 <= k < all.len(),
        filled(all[k].kind) == Some("Mains"@),
        number_in(all[k].online) == Some(1i64),
    ensures
        mains_of(all) == Some(true),
    decreases all.len(),
{
    if k < all.len() - 1 {
        assert(all.drop_last()[k] == all[k]);
        law_any_online_supply_is_mains(all.drop_last(), k);
    }
}

/// What the kernel says of a battery's charge is its state, and anything else
/// is unknown.
pub proof fn law_a_word_is_a_state(text: Seq<char>)
    ensures
        (charge_state(text) is Charging) == (trimmed(text) == "Charging"@),
        (charge_state(text) is Discharging) == (trimmed(text) == "Discharging"@),
        (charge_state(text) is Full) == (trimmed(text) == "Full"@),
        (charge_state(text) is NotCharging) == (trimmed(text) == "Not charging"@),
{
    reveal_strlit("Charging");
    reveal_strlit("Discharging");
    reveal_strlit("Full");
    reveal_strlit("Not charging");
    assert("Charging"@.len() == 8 && "Discharging"@.len() == 11 && "Full"@.len() == 4
        && "Not charging"@.len() == 12);
}

/// What is said of a battery: its own name, its state, the kernel's own figure
/// for how full it is where there is one, and only positive counts of cycles.
/// A supply of any other kind is no battery.
pub proof fn law_a_battery_is_read_from_its_own_files(f: SupplyFiles, b: BatteryText)
    requires
        battery_of(f) == Some(b),
    ensures
        f.kind matches Some(k) && trimmed(k@) == "Battery"@,
        b.name == f.name@,
        f.status is None ==> b.state is Unknown,
        f.status matches Some(t) ==> trimmed(t@).len() > 0 ==> b.state == charge_state(trimmed(t@)),
        number_in(f.capacity) matches Some(c) ==> (0 <= c <= 100 ==> b.percent == c) && (c > 100
            ==> b.percent == 100) && (c < 0 ==> b.percent == 0),
        number_in(f.cycle_count) matches Some(c) ==> (0 < c <= u32::MAX ==> b.cycles == Some(
            c as u32,
        )) && (c <= 0 ==> b.cycles is None),
        number_in(f.cycle_count) is None ==> b.cycles is None,
        f.technology is None ==> b.technology is None,
        f.technology matches Some(t) ==> trimmed(t@).len() > 0 ==> b.technology == Some(
            trimmed(t@),
        ),
{
}

/// A battery that reports its energy is read by that alone: what it says of
/// charge, current and voltage changes nothing. One that does not is read by
/// its charge, and then what it says of energy and power changes nothing.
pub proof fn law_energy_comes_before_charge(f: SupplyFiles, other: SupplyFiles)
    ensures
        number_in(f.energy_now) is Some ==> energy_of(
            SupplyFiles {
                charge_now: other.charge_now,
                charge_full: other.charge_full,
                charge_full_design: other.charge_full_design,
                current_now: other.current_now,
                voltage_now: other.voltage_now,
                ..f
            },
        ) == energy_of(f),
        number_in(f.energy_now) is None ==> energy_of(
            SupplyFiles {
                energy_full: other.energy_full,
                energy_full_design: other.energy_full_design,
                power_now: other.power_now,
                ..f
            },
        ) == energy_of(f),
{
}

/// Each figure of a battery's energy comes from its own file, in millionths:
/// what it holds now, what it holds when full, what it held when new, and what
/// it draws. Where it is given as charge, the voltage turns it into energy.
pub proof fn law_energy_comes_from_its_own_files(f: SupplyFiles)
    ensures
        number_in(f.energy_now) matches Some(v) ==> {
            &&& energy_of(f).now == Some(millionths(v as int))
            &&& energy_of(f).full is Some <==> number_in(f.energy_full) is Some
            &&& number_in(f.energy_full) matches Some(x) ==> energy_of(f).full == Some(
                millionths(x as int),
            )
            &&& energy_of(f).design is Some <==> number_in(f.energy_full_design) is Some
            &&& number_in(f.energy_full_design) matches Some(x) ==> energy_of(f).design == Some(
                millionths(x as int),
            )
            &&& number_in(f.power_now) matches Some(x) ==> energy_of(f).watts.1 == millionths(
                x as int,
            ).1 && energy_of(f).watts.2 == millionths(x as int).2 && !energy_of(f).watts.0
            &&& number_in(f.power_now) is None ==> energy_of(f).watts == zero()
        },
        number_in(f.energy_now) is None ==> (number_in(f.voltage_now) matches Some(u) ==> {
            &&& energy_of(f).now is Some <==> number_in(f.charge_now) is Some
            &&& number_in(f.charge_now) matches Some(x) ==> energy_of(f).now == Some(
                times(millionths(x as int), millionths(u as int)),
            )
            &&& number_in(f.charge_full) matches Some(x) ==> energy_of(f).full == Some(
                times(millionths(x as int), millionths(u as int)),
            )
            &&& number_in(f.charge_full_design) matches Some(x) ==> energy_of(f).design == Some(
                times(millionths(x as int), millionths(u as int)),
            )
            &&& number_in(f.current_now) matches Some(x) ==> energy_of(f).watts.1 == times(
                millionths(x as int),
                millionths(u as int),
            ).1 && !energy_of(f).watts.0
        }),
{
}

/// A share of one amount of itself is all of it, and of nothing is nothing: a
/// battery that holds what it holds when full is a hundred percent full, and
/// one that holds nothing is empty.
pub proof fn law_full_is_full_and_empty_is_empty(x: (bool, nat, int))
    requires
        is_positive(x),
    ensures
        percent_of(x, x) == 100,
        percent_of(zero(), x) == 0,
{
    let m = x.1;
    lemma_common_factor(1, 1, m);
    assert(1 * m == m);
    let k = lemma_whole_numbers_are_kept(1);
    lemma_nearest_scales(100, 1, k, 0);
    vstd::arithmetic::power2::lemma2_to64();
    let p = vstd::arithmetic::power2::pow2(k);
    assert(1 * vstd::arithmetic::power2::pow2(0) == 1);
    assert((1 * p) * 100 == 100 * p);
    lemma_whole_part_survives(100, 1);
}

/// How full a battery is, where the kernel does not say, is what it holds of
/// what it holds when full; how well it is, what it holds when full of what it
/// held when new.
pub proof fn law_fullness_and_health_are_shares(f: SupplyFiles, b: BatteryText)
    requires
        battery_of(f) == Some(b),
    ensures
        number_in(f.capacity) is None ==> (energy_of(f).now matches Some(now) && (energy_of(f).full
            matches Some(full) && is_positive(full) && b.percent == percent_of(now, full))),
        energy_of(f).full matches Some(full) ==> energy_of(f).design matches Some(design)
            ==> is_positive(design) ==> b.health_percent == Some(percent_of(full, design)),
        energy_of(f).full is None || energy_of(f).design is None ==> b.health_percent is None,
        b.watts == energy_of(f).watts,
{
}

/// How long a battery lasts: while it drains, what it holds over what it
/// draws; while it charges, what it lacks over that; and in no other state is
/// there a time at all.
pub proof fn law_how_long_a_battery_lasts(f: SupplyFiles, b: BatteryText)
    requires
        battery_of(f) == Some(b),
    ensures
        !(b.state is Charging) && !(b.state is Discharging) ==> b.seconds_remaining is None,
        b.state is Discharging && is_positive(energy_of(f).watts) ==> match energy_of(f).now {
            Some(now) => b.seconds_remaining == Some(
                whole_times(divided(now, energy_of(f).watts), 3600),
            ),
            None => b.seconds_remaining is None,
        },
        b.state is Charging && is_positive(energy_of(f).watts) ==> match (
            energy_of(f).now,
            energy_of(f).full,
        ) {
            (Some(now), Some(full)) => if gap(full, now) > 0 {
                b.seconds_remaining == Some(
                    whole_times(divided(difference(full, now), energy_of(f).watts), 3600),
                )
            } else {
                b.seconds_remaining is None
            },
            _ => b.seconds_remaining is None,
        },
{
}

/// Whether the machine is on mains: unknown where no mains supply says, yes
/// where one is online, and no where each that says is not.
pub proof fn law_mains_is_what_the_supplies_say(all: Seq<SupplyFiles>, f: SupplyFiles)
    ensures
        ({
            let mains = f.kind matches Some(k) && trimmed(k@) == "Mains"@;
            match number_in(f.online) {
                Some(v) => if mains {
                    mains_of(all.push(f)) == Some(v == 1 || mains_of(all) == Some(true))
                } else {
                    mains_of(all.push(f)) == mains_of(all)
                },
                None => mains_of(all.push(f)) == mains_of(all),
            }
        }),
        mains_of(Seq::<SupplyFiles>::empty()) is None,
        battery_of(f) matches Some(b) ==> batteries_of(all.push(f)) == batteries_of(all).push(b),
        battery_of(f) is None ==> batteries_of(all.push(f)) == batteries_of(all),
{
    assert(all.push(f).drop_last() =~= all);
    reveal_strlit("Mains");
    assert("Mains"@.len() == 5);
}

/// The view of a battery keeps every field.
pub proof fn law_a_battery_is_what_its_view_says(b: Battery)
    ensures
        battery_text(b).name == b.name@,
        battery_text(b).state == b.state,
        battery_text(b).percent == b.percent,
        battery_text(b).health_percent == b.health_percent,
        battery_text(b).watts.0 == b.watts.negative,
        battery_text(b).watts.1 == b.watts.mantissa,
        battery_text(b).watts.2 == b.watts.exponent,
        battery_text(b).seconds_remaining == b.seconds_remaining,
        battery_text(b).cycles == b.cycles,
        b.technology is None ==> battery_text(b).technology is None,
        b.technology matches Some(t) ==> battery_text(b).technology == Some(t@),
{
}

/// Batteries are listed by name.
pub proof fn law_batteries_are_listed_by_name(all: Seq<BatteryText>, i: int, j: int)
    requires
        0 <= i < j < in_order(all).len(),
    ensures
        !text_less(in_order(all)[j].name, in_order(all)[i].name),
{
    assert(ranks_consistently::<BatteryText>()) by {
        assert forall|a: BatteryText, b: BatteryText| #[trigger] BatteryText::precedes(
            a,
            b,
        ) implies !BatteryText::precedes(b, a) by {
            lemma_texts_rank(a.name, b.name, b.name);
        }
        assert forall|a: BatteryText, b: BatteryText, c: BatteryText| #[trigger]
            BatteryText::precedes(a, b) && !(#[trigger] BatteryText::precedes(
                c,
                b,
            )) implies BatteryText::precedes(a, c) by {
            lemma_texts_rank(a.name, b.name, c.name);
        }
    }
    crate::order::law_sorted_is_ordered(all);
    assert(!BatteryText::precedes(in_order(all)[j], in_order(all)[i]));
}

/// A machine has a battery exactly where one was read.
pub proof fn law_a_battery_is_there_where_one_was_read(p: PowerReading, r: bool)
    requires
        call_ensures(PowerReading::has_battery, (&p,), r),
    ensures
        r == (p.batteries@.len() > 0),
{
}

/// A file's figure is the number in it, with its sign, without the white space
/// around.
pub proof fn law_a_files_figure_is_its_number(file: Option<String>)
    ensures
        file is None ==> number_in(file) is None,
        file matches Some(t) ==> number_in(file) == signed_number(trimmed(t@)),
{
}

/// How full a battery is in percent is the exact share rounded down: never
/// above it, and never a whole percent below, for whole amounts up to a
/// tebibyte.
pub proof fn law_a_share_is_never_shown_too_high(a: nat, b: nat)
    requires
        0 < a <= b < 1099511627776,
    ensures
        ({
            let x = (false, nearest(a, 1).0, nearest(a, 1).1);
            let y = (false, nearest(b, 1).0, nearest(b, 1).1);
            percent_of(x, y) * b <= 100 * a && 100 * a <= (percent_of(x, y) + 1) * b
        }),
{
    let x = (false, nearest(a, 1).0, nearest(a, 1).1);
    let y = (false, nearest(b, 1).0, nearest(b, 1).1);
    law_a_quotient_is_rounded_once(a, b);
    law_a_percentage_is_the_exact_one_rounded_down(a, b);
    let i = lemma_whole_numbers_are_kept(a);
    lemma_nearest_scales(a, b, 0, 0);
    let r = whole(product(nearest(a, b), 100));
    assert(r <= 100) by (nonlinear_arith)
        requires
            r * b <= 100 * a,
            a <= b,
            b > 0,
    ;
    let q = quotient((x.1, x.2), (y.1, y.2));
    assert(q == nearest(a, b));
    if q.0 == 0 {
        lemma_share_is_positive(a, b);
    }
}

proof fn lemma_share_is_positive(a: nat, b: nat)
    requires
        a > 0,
        b > 0,
    ensures
        nearest(a, b).0 > 0,
{
    lemma_nearest_scales(a, b, 0, 0);
    let e = nearest(a, b).1;
    let (n, d) = over(a, b, e);
    vstd::arithmetic::power2::lemma_pow2_pos((if e >= 0 { e } else { -e }) as nat);
    assert(d > 0) by (nonlinear_arith)
        requires
            4503599627370496 * d <= n,
            n < 9007199254740992 * d,
            d >= 0,
    ;
    assert(n as int / d as int >= 1) by (nonlinear_arith)
        requires
            4503599627370496 * d <= n,
            d > 0,
    ;
}

} // verus!
