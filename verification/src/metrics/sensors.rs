//! Temperatures and fans, from `/sys/class/hwmon`.
use vstd::prelude::*;
use vstd::string::*;
use crate::order::{in_order, lemma_in_order_map, lemma_texts_rank, ranks_consistently, sort, str_less, text_less, Ordered, Ranked};
use crate::text::{after_prefix, before_suffix, chars_of, opt_text, parse_i64, same_str, signed_number, string_of, strip_prefix, strip_suffix, trim, trimmed};
use super::{share, share_of, Share};

verus! {

broadcast use vstd::string::group_string_axioms;

/// One temperature sensor, in thousandths of a degree.
#[derive(Debug, Clone, PartialEq, Eq)]
pub struct Temperature {
    /// The chip, such as `coretemp`.
    pub chip: String,
    /// The sensor's own label where it has one.
    pub label: String,
    pub millicelsius: i64,
    /// The hardware's own "getting warm" threshold, where it declares one.
    pub high_millicelsius: Option<i64>,
    /// The hardware's own critical threshold.
    pub critical_millicelsius: Option<i64>,
}

impl Temperature {
    /// How close this is to its critical threshold. Nothing where the
    /// hardware declares none.
    pub fn severity(&self) -> (r: Option<Share>)
        ensures
            r == match self.critical_millicelsius {
                Some(c) if c > 0 => share_of(
                    (if self.millicelsius < 0 {
                        0
                    } else {
                        self.millicelsius
                    }) as nat,
                    c as nat,
                ),
                _ => None,
            },
    {
        match self.critical_millicelsius {
            Some(c) => if c > 0 {
                share(
                    if self.millicelsius < 0 {
                        0
                    } else {
                        self.millicelsius as u128
                    },
                    c as u128,
                )
            } else {
                None
            },
            None => None,
        }
    }
}

/// One fan.
#[derive(Debug, Clone, PartialEq, Eq)]
pub struct Fan {
    pub chip: String,
    pub label: String,
    pub rpm: u32,
}

/// Everything the hardware reports about heat.
#[derive(Debug, Clone, PartialEq, Eq)]
pub struct SensorReading {
    /// The hottest first.
    pub temperatures: Vec<Temperature>,
    /// Empty on hardware that reports no fans.
    pub fans: Vec<Fan>,
}

impl Default for SensorReading {
    fn default() -> (r: Self)
        ensures
            r.temperatures@.len() == 0,
            r.fans@.len() == 0,
    {
        SensorReading { temperatures: Vec::new(), fans: Vec::new() }
    }
}

/// A temperature with its texts.
pub struct TemperatureText {
    pub chip: Seq<char>,
    pub label: Seq<char>,
    pub millicelsius: i64,
    pub high: Option<i64>,
    pub critical: Option<i64>,
}

/// A fan with its texts.
pub struct FanText {
    pub chip: Seq<char>,
    pub label: Seq<char>,
    pub rpm: u32,
}

/// What a temperature says.
pub open spec fn temperature_text(t: Temperature) -> TemperatureText {
    TemperatureText {
        chip: t.chip@,
        label: t.label@,
        millicelsius: t.millicelsius,
        high: t.high_millicelsius,
        critical: t.critical_millicelsius,
    }
}

/// What a fan says.
pub open spec fn fan_text(f: Fan) -> FanText {
    FanText { chip: f.chip@, label: f.label@, rpm: f.rpm }
}

/// What some temperatures say.
pub open spec fn temperature_texts(v: Seq<Temperature>) -> Seq<TemperatureText> {
    v.map_values(|t: Temperature| temperature_text(t))
}

/// What some fans say.
pub open spec fn fan_texts(v: Seq<Fan>) -> Seq<FanText> {
    v.map_values(|f: Fan| fan_text(f))
}

impl Ordered for TemperatureText {
    open spec fn precedes(b: Self, a: Self) -> bool {
        b.millicelsius > a.millicelsius
    }
}

impl Ordered for Temperature {
    open spec fn precedes(b: Self, a: Self) -> bool {
        b.millicelsius > a.millicelsius
    }
}

impl Ranked for Temperature {
    fn comes_before(&self, other: &Self) -> bool {
        self.millicelsius > other.millicelsius
    }
}

impl Ordered for FanText {
    open spec fn precedes(b: Self, a: Self) -> bool {
        text_less(b.chip, a.chip) || (b.chip == a.chip && text_less(b.label, a.label))
    }
}

impl Ordered for Fan {
    open spec fn precedes(b: Self, a: Self) -> bool {
        text_less(b.chip@, a.chip@) || (b.chip@ == a.chip@ && text_less(b.label@, a.label@))
    }
}

impl Ranked for Fan {
    fn comes_before(&self, other: &Self) -> bool {
        str_less(self.chip.as_str(), other.chip.as_str()) || (same_str(
            self.chip.as_str(),
            other.chip.as_str(),
        ) && str_less(self.label.as_str(), other.label.as_str()))
    }
}

/// Which sensor is the hottest, and of equals the last; -1 where there is
/// none.
pub open spec fn hottest_at(s: Seq<Temperature>) -> int
    decreases s.len(),
{
    if s.len() == 0 {
        -1
    } else {
        let before = hottest_at(s.drop_last());
        if before < 0 || s.last().millicelsius >= s[before].millicelsius {
            s.len() - 1
        } else {
            before
        }
    }
}

impl SensorReading {
    /// The hottest sensor.
    pub fn hottest(&self) -> (r: Option<&Temperature>)
        ensures
            match r {
                Some(t) => hottest_at(self.temperatures@) >= 0 && *t
                    == self.temperatures@[hottest_at(self.temperatures@)],
                None => hottest_at(self.temperatures@) < 0,
            },
    {
        let ghost all = self.temperatures@;
        let mut best: Option<usize> = None;
        let mut i: usize = 0;
        assert(all.take(0) =~= Seq::<Temperature>::empty());
        while i < self.temperatures.len()
            invariant
                i <= all.len(),
                all == self.temperatures@,
                match best {
                    Some(b) => b < i && hottest_at(all.take(i as int)) == b,
                    None => hottest_at(all.take(i as int)) < 0,
                },
            decreases all.len() - i,
        {
            assert(all.take(i + 1).drop_last() =~= all.take(i as int));
            match best {
                Some(b) => {
                    assert(all.take(i + 1)[b as int] == all[b as int]);
                    if self.temperatures[i].millicelsius >= self.temperatures[b].millicelsius {
                        best = Some(i);
                    }
                },
                None => {
                    best = Some(i);
                },
            }
            i = i + 1;
        }
        assert(all.take(i as int) =~= all);
        match best {
            Some(b) => Some(&self.temperatures[b]),
            None => None,
        }
    }
}

/// A file of a chip: its name, and what it holds where it could be read.
#[derive(Debug, Clone, PartialEq, Eq)]
pub struct SensorFile {
    pub name: String,
    pub text: Option<String>,
}

/// A chip: the name of its directory, and the files in it where it could be
/// listed.
#[derive(Debug, Clone, PartialEq, Eq)]
pub struct ChipFiles {
    pub directory: String,
    pub files: Option<Vec<SensorFile>>,
}

impl Ordered for SensorFile {
    open spec fn precedes(b: Self, a: Self) -> bool {
        text_less(b.name@, a.name@)
    }
}

impl Ranked for SensorFile {
    fn comes_before(&self, other: &Self) -> bool {
        str_less(self.name.as_str(), other.name.as_str())
    }
}

/// What the file with this name holds, where there is one that could be read.
pub open spec fn text_of(files: Seq<SensorFile>, name: Seq<char>) -> Option<Seq<char>>
    decreases files.len(),
{
    if files.len() == 0 {
        None
    } else if files[0].name@ == name {
        opt_text(files[0].text)
    } else {
        text_of(files.skip(1), name)
    }
}

/// What the file with this name holds without the white space around it,
/// where that is anything.
pub open spec fn label_of(files: Seq<SensorFile>, name: Seq<char>) -> Option<Seq<char>> {
    match text_of(files, name) {
        Some(t) if trimmed(t).len() > 0 => Some(trimmed(t)),
        _ => None,
    }
}

/// The number that the file with this name holds.
pub open spec fn value_of(files: Seq<SensorFile>, name: Seq<char>) -> Option<i64> {
    match text_of(files, name) {
        Some(t) => signed_number(trimmed(t)),
        None => None,
    }
}

/// What a file reads as: the sensor that it is the input of.
pub enum Sensed {
    Warmth(TemperatureText),
    Turning(FanText),
    Nothing,
}

/// A label, or what stands for one.
pub open spec fn or_else(label: Option<Seq<char>>, fallback: Seq<char>) -> Seq<char> {
    match label {
        Some(l) => l,
        None => fallback,
    }
}

/// What one file of a chip reads as.
pub open spec fn sensed(files: Seq<SensorFile>, chip: Seq<char>, name: Seq<char>) -> Sensed {
    match before_suffix(name, "_input"@) {
        None => Sensed::Nothing,
        Some(stem) => if after_prefix(stem, "temp"@) is Some {
            match value_of(files, name) {
                Some(v) => Sensed::Warmth(
                    TemperatureText {
                        chip,
                        label: or_else(label_of(files, stem + "_label"@), stem),
                        millicelsius: v,
                        high: value_of(files, stem + "_max"@),
                        critical: value_of(files, stem + "_crit"@),
                    },
                ),
                None => Sensed::Nothing,
            }
        } else if after_prefix(stem, "fan"@) is Some {
            match value_of(files, name) {
                Some(v) => if 0 <= v <= u32::MAX {
                    Sensed::Turning(
                        FanText {
                            chip,
                            label: or_else(label_of(files, stem + "_label"@), stem),
                            rpm: v as u32,
                        },
                    )
                } else {
                    Sensed::Nothing
                },
                None => Sensed::Nothing,
            }
        } else {
            Sensed::Nothing
        },
    }
}

/// The temperatures that some files of a chip read as, in order.
pub open spec fn warmths(part: Seq<SensorFile>, files: Seq<SensorFile>, chip: Seq<char>) -> Seq<
    TemperatureText,
>
    decreases part.len(),
{
    if part.len() == 0 {
        Seq::empty()
    } else {
        match sensed(files, chip, part.last().name@) {
            Sensed::Warmth(t) => warmths(part.drop_last(), files, chip).push(t),
            _ => warmths(part.drop_last(), files, chip),
        }
    }
}

/// The fans that some files of a chip read as, in order.
pub open spec fn turnings(part: Seq<SensorFile>, files: Seq<SensorFile>, chip: Seq<char>) -> Seq<
    FanText,
>
    decreases part.len(),
{
    if part.len() == 0 {
        Seq::empty()
    } else {
        match sensed(files, chip, part.last().name@) {
            Sensed::Turning(f) => turnings(part.drop_last(), files, chip).push(f),
            _ => turnings(part.drop_last(), files, chip),
        }
    }
}

/// What a chip is called: by its own name, or by its directory.
pub open spec fn chip_name(c: ChipFiles) -> Seq<char> {
    match c.files {
        Some(files) => or_else(label_of(in_order(files@), "name"@), c.directory@),
        None => c.directory@,
    }
}

/// The temperatures of some chips, chip by chip, file by file in the order of
/// the names.
pub open spec fn all_warmths(chips: Seq<ChipFiles>) -> Seq<TemperatureText>
    decreases chips.len(),
{
    if chips.len() == 0 {
        Seq::empty()
    } else {
        let c = chips.last();
        all_warmths(chips.drop_last()) + match c.files {
            Some(files) => warmths(in_order(files@), in_order(files@), chip_name(c)),
            None => Seq::empty(),
        }
    }
}

/// The fans of some chips, likewise.
pub open spec fn all_turnings(chips: Seq<ChipFiles>) -> Seq<FanText>
    decreases chips.len(),
{
    if chips.len() == 0 {
        Seq::empty()
    } else {
        let c = chips.last();
        all_turnings(chips.drop_last()) + match c.files {
            Some(files) => turnings(in_order(files@), in_order(files@), chip_name(c)),
            None => Seq::empty(),
        }
    }
}

fn find_text<'a>(files: &'a Vec<SensorFile>, name: &str) -> (r: Option<&'a str>)
    ensures
        crate::paths::opt_str(r) == text_of(files@, name@),
{
    let mut i: usize = 0;
    assert(files@.skip(0) =~= files@);
    while i < files.len()
        invariant
            i <= files@.len(),
            text_of(files@.skip(i as int), name@) == text_of(files@, name@),
        decreases files@.len() - i,
    {
        if same_str(files[i].name.as_str(), name) {
            return match &files[i].text {
                Some(t) => Some(t.as_str()),
                None => None,
            };
        }
        assert(files@.skip(i as int).skip(1) =~= files@.skip(i + 1));
        i = i + 1;
    }
    None
}

fn find_label(files: &Vec<SensorFile>, name: &str) -> (r: Option<String>)
    ensures
        opt_text(r) == label_of(files@, name@),
{
    match find_text(files, name) {
        Some(t) => {
            let chars = chars_of(t);
            let value = trim(chars.as_slice());
            if value.len() > 0 {
                Some(string_of(value))
            } else {
                None
            }
        },
        None => None,
    }
}

fn find_value(files: &Vec<SensorFile>, name: &str) -> (r: Option<i64>)
    ensures
        r == value_of(files@, name@),
{
    match find_text(files, name) {
        Some(t) => {
            let chars = chars_of(t);
            parse_i64(trim(chars.as_slice()))
        },
        None => None,
    }
}

fn with_suffix(stem: &str, suffix: &str) -> (r: String)
    ensures
        r@ == stem@ + suffix@,
{
    let mut out = stem.to_owned();
    out.append(suffix);
    out
}

fn label_or_stem(files: &Vec<SensorFile>, stem: &str) -> (r: String)
    ensures
        r@ == or_else(label_of(files@, stem@ + "_label"@), stem@),
{
    let name = with_suffix(stem, "_label");
    match find_label(files, name.as_str()) {
        Some(l) => l,
        None => stem.to_owned(),
    }
}

/// Reads one chip's files into the lists.
fn read_chip(
    files: &Vec<SensorFile>,
    chip: &str,
    temperatures: &mut Vec<Temperature>,
    fans: &mut Vec<Fan>,
)
    ensures
        temperature_texts(final(temperatures)@) == temperature_texts(old(temperatures)@) + warmths(
            files@,
            files@,
            chip@,
        ),
        fan_texts(final(fans)@) == fan_texts(old(fans)@) + turnings(files@, files@, chip@),
{
    let ghost all = files@;
    let ghost t0 = temperature_texts(temperatures@);
    let ghost f0 = fan_texts(fans@);
    let mut i: usize = 0;
    proof {
        assert(all.take(0) =~= Seq::<SensorFile>::empty());
        assert(t0 + warmths(all.take(0), all, chip@) =~= t0);
        assert(f0 + turnings(all.take(0), all, chip@) =~= f0);
    }
    while i < files.len()
        invariant
            i <= all.len(),
            all == files@,
            temperature_texts(temperatures@) == t0 + warmths(all.take(i as int), all, chip@),
            fan_texts(fans@) == f0 + turnings(all.take(i as int), all, chip@),
        decreases all.len() - i,
    {
        assert(all.take(i + 1).drop_last() =~= all.take(i as int));
        let name = files[i].name.as_str();
        assert(all.take(i + 1).last().name@ == name@);
        let chars = chars_of(name);
        if let Some(stem_chars) = strip_suffix(chars.as_slice(), "_input") {
            let stem = string_of(stem_chars);
            if strip_prefix(stem_chars, "temp").is_some() {
                if let Some(value) = find_value(files, name) {
                    let high_name = with_suffix(stem.as_str(), "_max");
                    let critical_name = with_suffix(stem.as_str(), "_crit");
                    let t = Temperature {
                        chip: chip.to_owned(),
                        label: label_or_stem(files, stem.as_str()),
                        millicelsius: value,
                        high_millicelsius: find_value(files, high_name.as_str()),
                        critical_millicelsius: find_value(files, critical_name.as_str()),
                    };
                    let ghost before = temperature_texts(temperatures@);
                    temperatures.push(t);
                    assert(temperature_texts(temperatures@) =~= before.push(temperature_text(t)));
                    assert(before.push(temperature_text(t)) =~= t0 + warmths(
                        all.take(i + 1),
                        all,
                        chip@,
                    ));
                }
            } else if strip_prefix(stem_chars, "fan").is_some() {
                if let Some(value) = find_value(files, name) {
                    if 0 <= value && value <= u32::MAX as i64 {
                        let f = Fan {
                            chip: chip.to_owned(),
                            label: label_or_stem(files, stem.as_str()),
                            rpm: value as u32,
                        };
                        let ghost before = fan_texts(fans@);
                        fans.push(f);
                        assert(fan_texts(fans@) =~= before.push(fan_text(f)));
                        assert(before.push(fan_text(f)) =~= f0 + turnings(
                            all.take(i + 1),
                            all,
                            chip@,
                        ));
                    }
                }
            }
        }
        i = i + 1;
    }
    assert(all.take(i as int) =~= all);
}

/// Reads every chip: temperatures the hottest first, fans by chip and label.
pub fn read(chips: Vec<ChipFiles>) -> (r: SensorReading)
    ensures
        temperature_texts(r.temperatures@) == in_order(all_warmths(chips@)),
        fan_texts(r.fans@) == in_order(all_turnings(chips@)),
{
    let ghost all = chips@;
    let mut temperatures: Vec<Temperature> = Vec::new();
    let mut fans: Vec<Fan> = Vec::new();
    proof {
        assert(all.take(0) =~= Seq::<ChipFiles>::empty());
        assert(temperature_texts(temperatures@) =~= all_warmths(all.take(0)));
        assert(fan_texts(fans@) =~= all_turnings(all.take(0)));
    }
    for chip in it: chips
        invariant
            it.seq() == all,
            temperature_texts(temperatures@) == all_warmths(all.take(it.index() as int)),
            fan_texts(fans@) == all_turnings(all.take(it.index() as int)),
    {
        let ghost n = it.index() as int;
        assert(all.take(n + 1).drop_last() =~= all.take(n));
        assert(all.take(n + 1).last() == chip);
        if let Some(unsorted) = chip.files {
            let files = sort(unsorted);
            let name = match find_label(&files, "name") {
                Some(l) => l,
                None => chip.directory,
            };
            read_chip(&files, name.as_str(), &mut temperatures, &mut fans);
        } else {
            assert(temperature_texts(temperatures@) =~= all_warmths(all.take(n + 1)));
            assert(fan_texts(fans@) =~= all_turnings(all.take(n + 1)));
        }
    }
    assert(all.take(all.len() as int) =~= all);
    proof {
        lemma_in_order_map(temperatures@, |t: Temperature| temperature_text(t));
        lemma_in_order_map(fans@, |f: Fan| fan_text(f));
    }
    SensorReading { temperatures: sort(temperatures), fans: sort(fans) }
}

/// No sensor is hotter than the hottest.
pub proof fn law_nothing_is_hotter(s: Seq<Temperature>)
    ensures
        -1 <= hottest_at(s) < s.len(),
        s.len() > 0 ==> hottest_at(s) >= 0,
        forall|k: int|
            0 <= k < s.len() ==> (#[trigger] s[k]).millicelsius <= s[hottest_at(s)].millicelsius,
    decreases s.len(),
{
    if s.len() > 0 {
        law_nothing_is_hotter(s.drop_last());
        assert forall|k: int| 0 <= k < s.len() implies (#[trigger] s[k]).millicelsius
            <= s[hottest_at(s)].millicelsius by {
            if k < s.len() - 1 {
                assert(s.drop_last()[k] == s[k]);
            }
        }
    }
}

/// The first of the listed temperatures is as hot as any.
pub proof fn law_temperatures_are_listed_hottest_first(
    temperatures: Seq<TemperatureText>,
    i: int,
    j: int,
)
    requires
        0 <= i < j < in_order(temperatures).len(),
    ensures
        in_order(temperatures)[i].millicelsius >= in_order(temperatures)[j].millicelsius,
{
    crate::order::law_sorted_is_ordered(temperatures);
    assert(!TemperatureText::precedes(in_order(temperatures)[j], in_order(temperatures)[i]));
}

/// A temperature is read from its own files: the value from the one that ends
/// in `_input`, the warning threshold from `_max`, the critical one from
/// `_crit`, and the name from `_label`, or from the files where that is
/// missing.
pub proof fn law_a_temperature_is_read_from_its_own_files(
    files: Seq<SensorFile>,
    chip: Seq<char>,
    rest: Seq<char>,
)
    ensures
        ({
            let stem = "temp"@ + rest;
            match value_of(files, stem + "_input"@) {
                Some(v) => sensed(files, chip, stem + "_input"@) matches Sensed::Warmth(t)
                    && t.chip == chip && t.millicelsius == v && t.high == value_of(
                    files,
                    stem + "_max"@,
                ) && t.critical == value_of(files, stem + "_crit"@) && (label_of(
                    files,
                    stem + "_label"@,
                ) matches Some(l) ==> t.label == l) && (label_of(files, stem + "_label"@) is None
                    ==> t.label == stem),
                None => sensed(files, chip, stem + "_input"@) is Nothing,
            }
        }),
{
    let stem = "temp"@ + rest;
    lemma_stem(stem);
    assert(stem.take("temp"@.len() as int) =~= "temp"@);
}

/// A fan is read from its own files in the same way, and only a speed that a
/// fan can have counts.
pub proof fn law_a_fan_is_read_from_its_own_files(
    files: Seq<SensorFile>,
    chip: Seq<char>,
    rest: Seq<char>,
)
    ensures
        ({
            let stem = "fan"@ + rest;
            match value_of(files, stem + "_input"@) {
                Some(v) => if 0 <= v <= u32::MAX {
                    sensed(files, chip, stem + "_input"@) matches Sensed::Turning(t) && t.chip
                        == chip && t.rpm == v && (label_of(files, stem + "_label"@) matches Some(l)
                        ==> t.label == l) && (label_of(files, stem + "_label"@) is None ==> t.label
                        == stem)
                } else {
                    sensed(files, chip, stem + "_input"@) is Nothing
                },
                None => sensed(files, chip, stem + "_input"@) is Nothing,
            }
        }),
{
    let stem = "fan"@ + rest;
    lemma_stem(stem);
    reveal_strlit("fan");
    reveal_strlit("temp");
    assert(stem.take("fan"@.len() as int) =~= "fan"@);
    assert(stem[0] == 'f');
    if stem.len() >= 4 {
        assert(stem.take(4)[0] == 'f');
        assert("temp"@[0] == 't');
    }
}

proof fn lemma_stem(stem: Seq<char>)
    ensures
        before_suffix(stem + "_input"@, "_input"@) == Some(stem),
{
    let name = stem + "_input"@;
    let n = "_input"@.len();
    assert(name.skip(name.len() - n) =~= "_input"@);
    assert(name.take(name.len() - n) =~= stem);
}

/// A file's text is that of the file with its name, the first where there are
/// two.
pub proof fn law_a_files_text_is_its_own(files: Seq<SensorFile>, f: SensorFile, name: Seq<char>)
    ensures
        f.name@ == name ==> text_of(seq![f] + files, name) == opt_text(f.text),
        f.name@ != name ==> text_of(seq![f] + files, name) == text_of(files, name),
        text_of(Seq::<SensorFile>::empty(), name) is None,
{
    let all = seq![f] + files;
    assert(all[0] == f);
    assert(all.skip(1) =~= files);
}

/// Every chip's temperatures and fans are in the reading, under the name that
/// the chip gives itself, or its directory's where it gives none.
pub proof fn law_every_chip_is_read(chips: Seq<ChipFiles>, c: ChipFiles)
    ensures
        c.files is None ==> all_warmths(chips.push(c)) == all_warmths(chips) && all_turnings(
            chips.push(c),
        ) == all_turnings(chips),
        c.files matches Some(files) ==> {
            let sorted = in_order(files@);
            let name = match label_of(sorted, "name"@) {
                Some(n) => n,
                None => c.directory@,
            };
            &&& all_warmths(chips.push(c)) == all_warmths(chips) + warmths(sorted, sorted, name)
            &&& all_turnings(chips.push(c)) == all_turnings(chips) + turnings(sorted, sorted, name)
        },
{
    assert(chips.push(c).drop_last() =~= chips);
    assert(all_warmths(chips) + Seq::<TemperatureText>::empty() =~= all_warmths(chips));
    assert(all_turnings(chips) + Seq::<FanText>::empty() =~= all_turnings(chips));
}

/// Each file of a chip that reads as a temperature or as a fan adds that one.
pub proof fn law_every_sensor_is_read(
    part: Seq<SensorFile>,
    files: Seq<SensorFile>,
    chip: Seq<char>,
    f: SensorFile,
)
    ensures
        match sensed(files, chip, f.name@) {
            Sensed::Warmth(t) => warmths(part.push(f), files, chip) == warmths(
                part,
                files,
                chip,
            ).push(t) && turnings(part.push(f), files, chip) == turnings(part, files, chip),
            Sensed::Turning(t) => turnings(part.push(f), files, chip) == turnings(
                part,
                files,
                chip,
            ).push(t) && warmths(part.push(f), files, chip) == warmths(part, files, chip),
            Sensed::Nothing => warmths(part.push(f), files, chip) == warmths(part, files, chip)
                && turnings(part.push(f), files, chip) == turnings(part, files, chip),
        },
{
    assert(part.push(f).drop_last() =~= part);
}

/// The views of a temperature and of a fan keep every field.
pub proof fn law_sensors_are_what_their_views_say(t: Temperature, f: Fan)
    ensures
        temperature_text(t).chip == t.chip@,
        temperature_text(t).label == t.label@,
        temperature_text(t).millicelsius == t.millicelsius,
        temperature_text(t).high == t.high_millicelsius,
        temperature_text(t).critical == t.critical_millicelsius,
        fan_text(f).chip == f.chip@,
        fan_text(f).label == f.label@,
        fan_text(f).rpm == f.rpm,
{
}

/// How severe a temperature is is how much it is of the critical one, where
/// the hardware declares one; at it or above it, all of it.
pub proof fn law_severity_is_of_the_critical_temperature(t: Temperature, r: Option<Share>)
    requires
        call_ensures(Temperature::severity, (&t,), r),
    ensures
        r is Some <==> (t.critical_millicelsius matches Some(c) && c > 0),
        r matches Some(s) ==> s.whole == t.critical_millicelsius->0 && (t.millicelsius < 0
            ==> s.part == 0) && (0 <= t.millicelsius <= t.critical_millicelsius->0 ==> s.part
            == t.millicelsius) && (t.millicelsius > t.critical_millicelsius->0 ==> s.part
            == s.whole),
{
}

/// Fans are listed by chip and then by label, and files are looked at by name.
pub proof fn law_fans_are_listed_by_chip_and_label(
    fans: Seq<FanText>,
    i: int,
    j: int,
    files: Seq<SensorFile>,
    k: int,
    l: int,
)
    requires
        0 <= i < j < in_order(fans).len(),
        0 <= k < l < in_order(files).len(),
    ensures
        !text_less(in_order(fans)[j].chip, in_order(fans)[i].chip),
        in_order(fans)[i].chip == in_order(fans)[j].chip ==> !text_less(
            in_order(fans)[j].label,
            in_order(fans)[i].label,
        ),
        !text_less(in_order(files)[l].name@, in_order(files)[k].name@),
{
    lemma_fans_rank();
    crate::order::law_sorted_is_ordered(fans);
    lemma_files_rank();
    crate::order::law_sorted_is_ordered(files);
    assert(!FanText::precedes(in_order(fans)[j], in_order(fans)[i]));
    assert(!SensorFile::precedes(in_order(files)[l], in_order(files)[k]));
}

proof fn lemma_fans_rank()
    ensures
        ranks_consistently::<FanText>(),
{
    assert forall|a: FanText, b: FanText| #[trigger] FanText::precedes(
        a,
        b,
    ) implies !FanText::precedes(b, a) by {
        lemma_texts_rank(a.chip, b.chip, b.chip);
        lemma_texts_rank(a.label, b.label, b.label);
        lemma_texts_rank(b.chip, a.chip, a.chip);
    }
    assert forall|a: FanText, b: FanText, c: FanText| #[trigger] FanText::precedes(a, b) && !(
    #[trigger] FanText::precedes(c, b)) implies FanText::precedes(a, c) by {
        lemma_texts_rank(a.chip, b.chip, c.chip);
        lemma_texts_rank(b.chip, c.chip, a.chip);
        lemma_texts_rank(c.chip, b.chip, a.chip);
        lemma_texts_rank(a.label, b.label, c.label);
        lemma_texts_rank(a.chip, c.chip, b.chip);
    }
}

proof fn lemma_files_rank()
    ensures
        ranks_consistently::<SensorFile>(),
{
    assert forall|a: SensorFile, b: SensorFile| #[trigger] SensorFile::precedes(
        a,
        b,
    ) implies !SensorFile::precedes(b, a) by {
        lemma_texts_rank(a.name@, b.name@, b.name@);
    }
    assert forall|a: SensorFile, b: SensorFile, c: SensorFile| #[trigger] SensorFile::precedes(
        a,
        b,
    ) && !(#[trigger] SensorFile::precedes(c, b)) implies SensorFile::precedes(a, c) by {
        lemma_texts_rank(a.name@, b.name@, c.name@);
    }
}

/// A file's figure is the number in it, with its sign, and its label the text
/// in it, both without the white space around; an empty label is none.
pub proof fn law_figures_and_labels_are_trimmed(files: Seq<SensorFile>, name: Seq<char>)
    ensures
        text_of(files, name) is None ==> value_of(files, name) is None && label_of(files, name)
            is None,
        text_of(files, name) matches Some(t) ==> value_of(files, name) == signed_number(trimmed(t)),
        text_of(files, name) matches Some(t) ==> (trimmed(t).len() > 0 ==> label_of(files, name)
            == Some(trimmed(t))) && (trimmed(t).len() == 0 ==> label_of(files, name) is None),
{
}

} // verus!
