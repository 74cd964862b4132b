//! The RPM family: dnf and zypper, two front ends over one database.
//!
//! Listing is `rpm` for both; only how a removal is simulated differs.
use vstd::prelude::*;
use vstd::string::*;
use crate::caps::{Capabilities, Capability};
use crate::decimal::{is_spelled, spells};
use crate::error::{plain_error, AppError, ErrorCode, Result};
use crate::order::{holds_last, lemma_holds_insert, lemma_holds_nothing, lemma_holds_skip, TextMap};
use crate::space::Manager;
use crate::text::{after_prefix, begins, chars_of, ends, ends_with, join_with, joined_with, lines, number_or_zero, parse_u64, pieces, split_lines, split_on, starts_with, string_of, strip_prefix, texts, trim, trimmed, views, words};
use super::dpkg::{and_first_word, from_place, push_first_word, removal_text, residual_texts, Leftover, RemovalText};
use super::{binary_size, cannot_list, facts_of, measure_paths, measured_of, owned_args, package_text, package_texts, parse_binary_size, plain_package, with_names, Backend, Measured, Package, PackageText, PathFact, Query, RemovalPreview, ResidualConfig, unlistable};

verus! {

broadcast use vstd::string::group_string_axioms;

/// The fields that are read, in the order in which they are expected. The
/// size is the wide one: the narrow one wraps.
pub const INSTALLED_QUERY: &'static str =
    "%{NAME}\\t%{ARCH}\\t%{EPOCH}:%{VERSION}-%{RELEASE}\\t%{LONGSIZE}\\t%{SUMMARY}\\n";

/// Every tag that the query names.
pub const QUERY_TAGS: [&'static str; 7] = [
    "NAME",
    "ARCH",
    "EPOCH",
    "VERSION",
    "RELEASE",
    "LONGSIZE",
    "SUMMARY",
];

/// A version as it is shown: without an epoch that is absent or zero.
pub open spec fn shown_version(version: Seq<char>) -> Seq<char> {
    if let Some(rest) = after_prefix(version, "(none):"@) {
        rest
    } else if let Some(rest) = after_prefix(version, "0:"@) {
        rest
    } else {
        version
    }
}

/// The package that a line gives. The summary comes last, with its tabs made
/// spaces; the size is in bytes.
pub open spec fn installed_line(line: Seq<char>, manager: Manager) -> Option<PackageText> {
    let f = pieces(line, '\t');
    if f.len() < 4 || trimmed(f[0]).len() == 0 {
        None
    } else {
        Some(
            plain_package(
                trimmed(f[0]),
                trimmed(f[1]),
                shown_version(trimmed(f[2])),
                trimmed(
                    joined_with(
                        if f.len() > 4 {
                            f.skip(4)
                        } else {
                            Seq::empty()
                        },
                        " "@,
                    ),
                ),
                number_or_zero(trimmed(f[3])),
                true,
                manager,
            ),
        )
    }
}

/// The packages that some lines give, in order.
pub open spec fn installed_lines(all: Seq<Seq<char>>, manager: Manager) -> Seq<PackageText>
    decreases all.len(),
{
    if all.len() == 0 {
        Seq::empty()
    } else {
        match installed_line(all.last(), manager) {
            Some(p) => installed_lines(all.drop_last(), manager).push(p),
            None => installed_lines(all.drop_last(), manager),
        }
    }
}

fn parse_installed_line(line: &[char], manager: Manager) -> (r: Option<Package>)
    ensures
        match r {
            Some(p) => installed_line(line@, manager) == Some(package_text(p)),
            None => installed_line(line@, manager) is None,
        },
{
    let f = split_on(line, '\t');
    let ghost v = pieces(line@, '\t');
    assert(views(f@) == v);
    assert(f@.len() == v.len());
    if f.len() < 4 {
        return None;
    }
    assert(v[0] == f@[0]@ && v[1] == f@[1]@ && v[2] == f@[2]@ && v[3] == f@[3]@);
    let name = trim(f[0]);
    if name.len() == 0 {
        return None;
    }
    let whole = trim(f[2]);
    let version = if let Some(rest) = strip_prefix(whole, "(none):") {
        rest
    } else if let Some(rest) = strip_prefix(whole, "0:") {
        rest
    } else {
        whole
    };
    let rest = from_place(&f, 4);
    let joined = join_with(&rest, " ");
    let joined_chars = chars_of(joined.as_str());
    let size: u64 = match parse_u64(trim(f[3])) {
        Some(n) => n,
        None => 0,
    };
    Some(
        Package::new(
            string_of(name),
            string_of(trim(f[1])),
            string_of(version),
            string_of(trim(joined_chars.as_slice())),
            size,
            true,
            manager,
        ),
    )
}

/// Parses the answer to the query. The manager decides only what the packages
/// are labelled with.
pub fn parse_installed(output: &str, manager: Manager) -> (r: Vec<Package>)
    ensures
        package_texts(r@) == installed_lines(lines(output@), manager),
{
    let chars = chars_of(output);
    let rows = split_lines(chars.as_slice());
    let ghost all = lines(output@);
    let mut out: Vec<Package> = Vec::new();
    let mut i: usize = 0;
    assert(all.take(0) =~= Seq::<Seq<char>>::empty());
    assert(package_texts(out@) =~= Seq::<PackageText>::empty());
    while i < rows.len()
        invariant
            i <= rows@.len(),
            views(rows@) == all,
            package_texts(out@) == installed_lines(all.take(i as int), manager),
        decreases rows@.len() - i,
    {
        assert(all.take(i + 1).drop_last() =~= all.take(i as int));
        assert(all.take(i + 1).last() == rows@[i as int]@);
        if let Some(p) = parse_installed_line(rows[i], manager) {
            let ghost before = package_texts(out@);
            out.push(p);
            assert(package_texts(out@) =~= before.push(package_text(p)));
        }
        i = i + 1;
    }
    assert(all.take(i as int) =~= all);
    out
}

/// The paths among some lines, in order: what is absolute. Prose is no path.
pub open spec fn listed_paths(all: Seq<Seq<char>>) -> Seq<Seq<char>>
    decreases all.len(),
{
    if all.len() == 0 {
        Seq::empty()
    } else if begins(trimmed(all.last()), "/"@) {
        listed_paths(all.drop_last()).push(trimmed(all.last()))
    } else {
        listed_paths(all.drop_last())
    }
}

/// Parses a file list: one absolute path a line.
pub fn parse_file_list(output: &str) -> (r: Vec<String>)
    ensures
        texts(r@) == listed_paths(lines(output@)),
{
    let chars = chars_of(output);
    let rows = split_lines(chars.as_slice());
    let ghost all = lines(output@);
    let mut out: Vec<String> = Vec::new();
    let mut i: usize = 0;
    assert(all.take(0) =~= Seq::<Seq<char>>::empty());
    assert(texts(out@) =~= Seq::<Seq<char>>::empty());
    while i < rows.len()
        invariant
            i <= rows@.len(),
            views(rows@) == all,
            texts(out@) == listed_paths(all.take(i as int)),
        decreases rows@.len() - i,
    {
        assert(all.take(i + 1).drop_last() =~= all.take(i as int));
        assert(all.take(i + 1).last() == rows@[i as int]@);
        let line = trim(rows[i]);
        if starts_with(line, "/") {
            let ghost before = texts(out@);
            let p = string_of(line);
            out.push(p);
            assert(texts(out@) =~= before.push(p@));
        }
        i = i + 1;
    }
    assert(all.take(i as int) =~= all);
    out
}

// ---------------------------------------------------------------------------
// Removal
// ---------------------------------------------------------------------------

/// A text without the marks at its end.
pub open spec fn without_trailing(s: Seq<char>, mark: char) -> Seq<char>
    decreases s.len(),
{
    if s.len() > 0 && s.last() == mark {
        without_trailing(s.drop_last(), mark)
    } else {
        s
    }
}

fn trim_marks<'a>(s: &'a [char], mark: char) -> (r: &'a [char])
    ensures
        r@ == without_trailing(s@, mark),
{
    let mut n: usize = s.len();
    assert(s@.take(n as int) =~= s@);
    while n > 0 && s[n - 1] == mark
        invariant
            n <= s@.len(),
            without_trailing(s@.take(n as int), mark) == without_trailing(s@, mark),
        decreases n,
    {
        assert(s@.take(n as int).drop_last() =~= s@.take(n - 1));
        n = n - 1;
    }
    let r = vstd::slice::slice_subrange(s, 0, n);
    assert(r@ =~= s@.take(n as int));
    r
}

/// Whether a line opens a section of packages that are going.
pub open spec fn opens_removals(line: Seq<char>) -> bool {
    let heading = without_trailing(line, ':');
    spells(heading, "removing"@) || spells(heading, "erasing"@) || spells(
        heading,
        "removing dependent packages"@,
    ) || spells(heading, "removing unused dependencies"@)
}

/// Whether a line is indented.
pub open spec fn is_indented(line: Seq<char>) -> bool {
    begins(line, " "@) || begins(line, "\t"@)
}

/// What has been read of a simulation.
pub struct Reading {
    pub removing: Seq<Seq<char>>,
    pub freed_bytes: u64,
    /// Whether the lines stand in a section of packages that are going.
    pub inside: bool,
}

/// What the lines of a simulation say. Only the sections of packages that are
/// going count: a package that is mentioned elsewhere is not going.
pub open spec fn reading_of(all: Seq<Seq<char>>) -> Reading
    decreases all.len(),
{
    if all.len() == 0 {
        Reading { removing: Seq::empty(), freed_bytes: 0, inside: false }
    } else {
        let before = reading_of(all.drop_last());
        let line = trimmed(all.last());
        if opens_removals(line) {
            Reading { inside: true, ..before }
        } else if before.inside && !is_indented(all.last()) {
            Reading { inside: line.len() > 0 && !ends(line, ":"@), ..before }
        } else if before.inside {
            Reading { removing: and_first_word(before.removing, line), ..before }
        } else if let Some(rest) = after_prefix(line, "Freed space:"@) {
            Reading { freed_bytes: phrase_size(rest), ..before }
        } else {
            before
        }
    }
}

/// What a reading comes to.
pub open spec fn reading_text(r: Reading) -> RemovalText {
    RemovalText { removing: r.removing, freed_bytes: r.freed_bytes, installing: Seq::empty() }
}

fn is_opening(line: &[char]) -> (r: bool)
    ensures
        r == opens_removals(line@),
{
    let heading = trim_marks(line, ':');
    is_spelled(heading, "removing") || is_spelled(heading, "erasing") || is_spelled(
        heading,
        "removing dependent packages",
    ) || is_spelled(heading, "removing unused dependencies")
}

/// Parses a simulated removal.
pub fn parse_removal_simulation(output: &str) -> (r: RemovalPreview)
    ensures
        removal_text(r) == reading_text(reading_of(lines(output@))),
{
    let chars = chars_of(output);
    let rows = split_lines(chars.as_slice());
    let ghost all = lines(output@);
    let mut removing: Vec<String> = Vec::new();
    let mut freed_bytes: u64 = 0;
    let mut inside = false;
    let mut i: usize = 0;
    assert(all.take(0) =~= Seq::<Seq<char>>::empty());
    assert(texts(removing@) =~= Seq::<Seq<char>>::empty());
    while i < rows.len()
        invariant
            i <= rows@.len(),
            views(rows@) == all,
            texts(removing@) == reading_of(all.take(i as int)).removing,
            freed_bytes == reading_of(all.take(i as int)).freed_bytes,
            inside == reading_of(all.take(i as int)).inside,
        decreases rows@.len() - i,
    {
        assert(all.take(i + 1).drop_last() =~= all.take(i as int));
        assert(all.take(i + 1).last() == rows@[i as int]@);
        let line = trim(rows[i]);
        if is_opening(line) {
            inside = true;
        } else if inside && !starts_with(rows[i], " ") && !starts_with(rows[i], "\t") {
            if line.len() == 0 || ends_with(line, ":") {
                inside = false;
            }
        } else if inside {
            push_first_word(&mut removing, line);
        } else if let Some(rest) = strip_prefix(line, "Freed space:") {
            let phrase = string_of(rest);
            freed_bytes = parse_size_phrase(phrase.as_str());
        }
        i = i + 1;
    }
    assert(all.take(i as int) =~= all);
    let installing: Vec<String> = Vec::new();
    assert(texts(installing@) =~= Seq::<Seq<char>>::empty());
    RemovalPreview { removing, freed_bytes, installing }
}

/// The size that a phrase gives. The units are powers of two, whichever
/// suffix is printed.
pub open spec fn phrase_size(phrase: Seq<char>) -> u64 {
    binary_size(without_trailing(trimmed(phrase), '.'), false)
}

/// Parses a size phrase such as `1.2 GiB` or `512 k`.
pub fn parse_size_phrase(phrase: &str) -> (r: u64)
    ensures
        r == phrase_size(phrase@),
{
    let chars = chars_of(phrase);
    parse_binary_size(trim_marks(trim(chars.as_slice()), '.'), false)
}

// ---------------------------------------------------------------------------
// The front ends
// ---------------------------------------------------------------------------

fn rpm_listing() -> (r: Query)
    ensures
        r.program@ == "rpm"@,
        texts(r.args@) == seq!["-qa"@, "--qf"@, INSTALLED_QUERY@],
{
    let args = vec!["-qa", "--qf", INSTALLED_QUERY];
    let owned = owned_args(&args);
    assert(texts(owned@) =~= seq!["-qa"@, "--qf"@, INSTALLED_QUERY@]);
    Query { program: "rpm", args: owned }
}

/// The command that lists a package's files.
pub fn files_query(id: &str) -> (r: Query)
    ensures
        r.program@ == "rpm"@,
        texts(r.args@) == seq!["-ql"@, id@],
{
    let args = vec!["-ql", id];
    let owned = owned_args(&args);
    assert(texts(owned@) =~= seq!["-ql"@, id@]);
    Query { program: "rpm", args: owned }
}

/// Whether `r` is what a package measures. One that lists no files is an
/// error.
pub open spec fn rpm_measures(
    id: Seq<char>,
    facts: Option<Seq<PathFact>>,
    r: Result<Measured>,
) -> bool {
    match facts {
        Some(f) => if f.len() == 0 {
            r matches Err(e) && plain_error(
                e,
                ErrorCode::NotFound,
                "rpm lists no files for "@ + id + "."@,
            )
        } else {
            r == Ok::<Measured, AppError>(measured_of(f))
        },
        None => unlistable(r),
    }
}

fn rpm_measure(id: &str, facts: Option<&Vec<PathFact>>) -> (r: Result<Measured>)
    ensures
        rpm_measures(id@, facts_of(facts), r),
{
    match facts {
        Some(f) => {
            if f.len() == 0 {
                let mut message = "rpm lists no files for ".to_owned();
                message.append(id);
                message.append(".");
                return Err(AppError::new(ErrorCode::NotFound, message));
            }
            Ok(measure_paths(f))
        },
        None => cannot_list(),
    }
}

fn no_leftovers() -> (r: Vec<ResidualConfig>)
    ensures
        residual_texts(r@) == Seq::<(Seq<char>, u64)>::empty(),
{
    let none: Vec<ResidualConfig> = Vec::new();
    assert(residual_texts(none@) =~= Seq::<(Seq<char>, u64)>::empty());
    none
}

/// Fedora and friends.
#[derive(Debug, Clone, Copy)]
pub struct DnfBackend;

impl DnfBackend {
    /// The backend.
    pub fn new() -> (r: Self)
        ensures
            r == DnfBackend,
    {
        DnfBackend
    }
}

impl Default for DnfBackend {
    fn default() -> (r: Self)
        ensures
            r == DnfBackend,
    {
        DnfBackend::new()
    }
}

impl Backend for DnfBackend {
    open spec fn who(&self) -> Manager {
        Manager::Dnf
    }

    open spec fn listing(&self) -> (Seq<char>, Seq<Seq<char>>) {
        ("rpm"@, seq!["-qa"@, "--qf"@, INSTALLED_QUERY@])
    }

    open spec fn listed(&self, output: Seq<char>) -> Seq<PackageText> {
        installed_lines(lines(output), Manager::Dnf)
    }

    open spec fn simulation(&self) -> (Seq<char>, Seq<Seq<char>>) {
        ("dnf"@, seq!["remove"@, "--assumeno"@])
    }

    open spec fn simulated(&self, output: Seq<char>, r: RemovalPreview) -> bool {
        removal_text(r) == reading_text(reading_of(lines(output)))
    }

    open spec fn needs(&self) -> Capability {
        Capability::Dnf
    }

    open spec fn left_behind(&self, all: Seq<Leftover>) -> Seq<(Seq<char>, u64)> {
        Seq::empty()
    }

    open spec fn measures(
        &self,
        id: Seq<char>,
        facts: Option<Seq<PathFact>>,
        r: Result<Measured>,
    ) -> bool {
        rpm_measures(id, facts, r)
    }

    fn manager(&self) -> Manager {
        Manager::Dnf
    }

    fn available(&self, caps: &Capabilities) -> bool {
        caps.has(Capability::Dnf)
    }

    fn residual_config(&self, all: &Vec<Leftover>) -> Vec<ResidualConfig> {
        no_leftovers()
    }

    fn measure(&self, id: &str, facts: Option<&Vec<PathFact>>) -> Result<Measured> {
        rpm_measure(id, facts)
    }

    fn installed_query(&self) -> Query {
        rpm_listing()
    }

    fn installed(&self, output: &str) -> Vec<Package> {
        parse_installed(output, Manager::Dnf)
    }

    fn removal_query(&self, names: &Vec<String>) -> Option<Query> {
        let args = vec!["remove", "--assumeno"];
        assert(Seq::new(args@.len(), |i: int| args@[i]@) =~= seq!["remove"@, "--assumeno"@]);
        with_names("dnf", &args, names)
    }

    fn removal_preview(&self, output: Option<&str>) -> RemovalPreview {
        match output {
            Some(t) => parse_removal_simulation(t),
            None => RemovalPreview::default(),
        }
    }
}

/// openSUSE.
#[derive(Debug, Clone, Copy)]
pub struct ZypperBackend;

impl ZypperBackend {
    /// The backend.
    pub fn new() -> (r: Self)
        ensures
            r == ZypperBackend,
    {
        ZypperBackend
    }
}

impl Default for ZypperBackend {
    fn default() -> (r: Self)
        ensures
            r == ZypperBackend,
    {
        ZypperBackend::new()
    }
}

impl Backend for ZypperBackend {
    open spec fn who(&self) -> Manager {
        Manager::Zypper
    }

    open spec fn listing(&self) -> (Seq<char>, Seq<Seq<char>>) {
        ("rpm"@, seq!["-qa"@, "--qf"@, INSTALLED_QUERY@])
    }

    open spec fn listed(&self, output: Seq<char>) -> Seq<PackageText> {
        installed_lines(lines(output), Manager::Zypper)
    }

    open spec fn simulation(&self) -> (Seq<char>, Seq<Seq<char>>) {
        ("zypper"@, seq!["--non-interactive"@, "remove"@, "--dry-run"@])
    }

    open spec fn simulated(&self, output: Seq<char>, r: RemovalPreview) -> bool {
        removal_text(r) == reading_text(reading_of(lines(output)))
    }

    open spec fn needs(&self) -> Capability {
        Capability::Zypper
    }

    open spec fn left_behind(&self, all: Seq<Leftover>) -> Seq<(Seq<char>, u64)> {
        Seq::empty()
    }

    open spec fn measures(
        &self,
        id: Seq<char>,
        facts: Option<Seq<PathFact>>,
        r: Result<Measured>,
    ) -> bool {
        rpm_measures(id, facts, r)
    }

    fn manager(&self) -> Manager {
        Manager::Zypper
    }

    fn available(&self, caps: &Capabilities) -> bool {
        caps.has(Capability::Zypper)
    }

    fn residual_config(&self, all: &Vec<Leftover>) -> Vec<ResidualConfig> {
        no_leftovers()
    }

    fn measure(&self, id: &str, facts: Option<&Vec<PathFact>>) -> Result<Measured> {
        rpm_measure(id, facts)
    }

    fn installed_query(&self) -> Query {
        rpm_listing()
    }

    fn installed(&self, output: &str) -> Vec<Package> {
        parse_installed(output, Manager::Zypper)
    }

    fn removal_query(&self, names: &Vec<String>) -> Option<Query> {
        let args = vec!["--non-interactive", "remove", "--dry-run"];
        assert(Seq::new(args@.len(), |i: int| args@[i]@) =~= seq![
            "--non-interactive"@,
            "remove"@,
            "--dry-run"@,
        ]);
        with_names("zypper", &args, names)
    }

    fn removal_preview(&self, output: Option<&str>) -> RemovalPreview {
        match output {
            Some(t) => parse_removal_simulation(t),
            None => RemovalPreview::default(),
        }
    }
}

/// The tags among some lines: whatever is not blank.
pub open spec fn tag_entries(all: Seq<Seq<char>>) -> Seq<Option<(Seq<char>, ())>> {
    all.map_values(
        |line: Seq<char>|
            if trimmed(line).len() > 0 {
                Some((trimmed(line), ()))
            } else {
                None
            },
    )
}

/// Tags that an rpm understands, from the list that it prints of them.
pub fn known_tags(output: &str) -> (r: TextMap<()>)
    ensures
        holds_last(r, tag_entries(lines(output@))),
{
    let chars = chars_of(output);
    let rows = split_lines(chars.as_slice());
    let ghost all = tag_entries(lines(output@));
    let mut tags: TextMap<()> = TextMap::new();
    let mut i: usize = 0;
    proof {
        lemma_holds_nothing(tags, all.take(0));
    }
    assert(views(rows@).len() == rows@.len());
    while i < rows.len()
        invariant
            i <= rows@.len(),
            views(rows@) == lines(output@),
            all == tag_entries(lines(output@)),
            all.len() == rows@.len(),
            holds_last(tags, all.take(i as int)),
        decreases rows@.len() - i,
    {
        let ghost before = tags;
        let ghost next = all.take(i + 1);
        assert(next.drop_last() =~= all.take(i as int));
        assert(lines(output@)[i as int] == rows@[i as int]@);
        let line = trim(rows[i]);
        if line.len() > 0 {
            let tag = string_of(line);
            tags.insert(tag.as_str(), ());
            proof {
                lemma_holds_insert(before, tags, next, tag@, ());
            }
        } else {
            proof {
                lemma_holds_skip(tags, next);
            }
        }
        i = i + 1;
    }
    assert(all.take(i as int) =~= all);
    tags
}

/// Nothing outside a section of packages that are going is counted: a line
/// that stands outside one, and opens none, adds no package.
pub proof fn law_only_removal_sections_count(all: Seq<Seq<char>>, line: Seq<char>)
    requires
        !reading_of(all).inside,
    ensures
        reading_of(all.push(line)).removing == reading_of(all).removing,
{
    assert(all.push(line).drop_last() =~= all);
}

/// The database is one: the front end changes what a package is labelled
/// with, and nothing else.
pub proof fn law_the_label_follows_the_front_end(all: Seq<Seq<char>>, a: Manager, b: Manager)
    ensures
        installed_lines(all, a).len() == installed_lines(all, b).len(),
        forall|i: int|
            0 <= i < installed_lines(all, a).len() ==> (#[trigger] installed_lines(all, a)[i])
                == (PackageText { manager: a, ..installed_lines(all, b)[i] }),
    decreases all.len(),
{
    if all.len() > 0 {
        law_the_label_follows_the_front_end(all.drop_last(), a, b);
        let x = installed_lines(all.drop_last(), a);
        let y = installed_lines(all.drop_last(), b);
        assert forall|i: int| 0 <= i < installed_lines(all, a).len() implies (
        #[trigger] installed_lines(all, a)[i]) == (PackageText {
            manager: a,
            ..installed_lines(all, b)[i]
        }) by {
            if i < x.len() {
                assert(installed_lines(all, a)[i] == x[i]);
                assert(installed_lines(all, b)[i] == y[i]);
            }
        }
    }
}

/// A version is shown without an epoch that is absent or zero, and as it is
/// with any other.
pub proof fn law_an_epoch_of_nothing_is_not_shown(version: Seq<char>)
    ensures
        shown_version("(none):"@ + version) == version,
        shown_version("0:"@ + version) == version,
        version.len() > 0 && version[0] != '(' && version[0] != '0' ==> shown_version(version)
            == version,
{
    reveal_strlit("(none):");
    reveal_strlit("0:");
    let a = "(none):"@ + version;
    let b = "0:"@ + version;
    assert(a.take(7) =~= "(none):"@ && a.skip(7) =~= version);
    assert(b.take(2) =~= "0:"@ && b.skip(2) =~= version);
    assert(b[0] == '0');
    if b.len() >= 7 {
        assert(b.take(7)[0] == '0');
    }
    if version.len() >= 7 {
        assert(version.take(7)[0] == version[0]);
    }
    if version.len() >= 2 {
        assert(version.take(2)[0] == version[0]);
    }
}

/// An installed package is read from its own columns: name, architecture,
/// version and size in bytes, and belongs to the front end that was asked.
pub proof fn law_installed_packages_are_read_from_their_columns(
    line: Seq<char>,
    manager: Manager,
)
    ensures
        ({
            let f = pieces(line, '\t');
            match installed_line(line, manager) {
                Some(p) => {
                    &&& f.len() >= 4
                    &&& p.name == trimmed(f[0]) && p.name.len() > 0
                    &&& p.arch == trimmed(f[1])
                    &&& p.version == shown_version(trimmed(f[2]))
                    &&& p.recorded_bytes == number_or_zero(trimmed(f[3]))
                    &&& p.explicit
                    &&& p.manager == manager
                },
                None => f.len() < 4 || trimmed(f[0]).len() == 0,
            }
        }),
{
}

/// Each line that lists a package adds it, and each that holds an absolute
/// path adds that.
pub proof fn law_every_line_adds_its_own(all: Seq<Seq<char>>, line: Seq<char>, manager: Manager)
    ensures
        installed_line(line, manager) matches Some(p) ==> installed_lines(all.push(line), manager)
            == installed_lines(all, manager).push(p),
        installed_line(line, manager) is None ==> installed_lines(all.push(line), manager)
            == installed_lines(all, manager),
        trimmed(line).len() > 0 && trimmed(line)[0] == '/' ==> listed_paths(all.push(line))
            == listed_paths(all).push(trimmed(line)),
        trimmed(line).len() == 0 || trimmed(line)[0] != '/' ==> listed_paths(all.push(line))
            == listed_paths(all),
{
    assert(all.push(line).drop_last() =~= all);
    reveal_strlit("/");
    let t = trimmed(line);
    if t.len() > 0 {
        assert(t.take(1)[0] == t[0]);
        if t[0] == '/' {
            assert(t.take(1) =~= "/"@);
        }
    }
}

/// Inside a section of removals each indented line names a package that goes,
/// by its first word; the space that is freed is read from its own line
/// outside of one. Neither changes the other.
pub proof fn law_each_line_of_a_simulation_says_one_thing(
    all: Seq<Seq<char>>,
    line: Seq<char>,
    rest: Seq<char>,
)
    ensures
        ({
            let before = reading_of(all);
            let after = reading_of(all.push(line));
            &&& opens_removals(trimmed(line)) ==> after.inside && after.removing == before.removing
                && after.freed_bytes == before.freed_bytes
            &&& !opens_removals(trimmed(line)) && before.inside && is_indented(line) && words(
                trimmed(line),
            ).len() > 0 ==> after.removing == before.removing.push(words(trimmed(line))[0])
                && after.inside && after.freed_bytes == before.freed_bytes
            &&& !opens_removals(trimmed(line)) && !before.inside && trimmed(line) == "Freed space:"@
                + rest ==> after.freed_bytes == phrase_size(rest) && after.removing
                == before.removing
            &&& before.inside && !is_indented(line) ==> after.removing == before.removing
            &&& trimmed(line).len() == 0 && !is_indented(line) ==> !after.inside
        }),
{
    assert(all.push(line).drop_last() =~= all);
    reveal_strlit("removing");
    reveal_strlit("erasing");
    reveal_strlit("removing dependent packages");
    reveal_strlit("removing unused dependencies");
    let t = "Freed space:"@ + rest;
    assert(t.take("Freed space:"@.len() as int) =~= "Freed space:"@);
    assert(t.skip("Freed space:"@.len() as int) =~= rest);
    if trimmed(line).len() == 0 {
        assert(without_trailing(trimmed(line), ':').len() == 0);
        assert("removing"@.len() > 0 && "erasing"@.len() > 0);
        assert(!opens_removals(trimmed(line)));
    }
}

/// The headings of removals, in either case and with any number of colons.
pub proof fn law_headings_open_removals(line: Seq<char>)
    ensures
        opens_removals(line) == {
            let heading = without_trailing(line, ':');
            ||| spells(heading, "removing"@)
            ||| spells(heading, "erasing"@)
            ||| spells(heading, "removing dependent packages"@)
            ||| spells(heading, "removing unused dependencies"@)
        },
        opens_removals(line) ==> opens_removals(line.push(':')),
{
    assert(line.push(':').drop_last() =~= line);
}

/// Every package that a front end lists is that front end's.
pub proof fn law_every_listed_package_is_the_front_ends(
    all: Seq<Seq<char>>,
    manager: Manager,
    i: int,
)
    requires
        0 <= i < installed_lines(all, manager).len(),
    ensures
        installed_lines(all, manager)[i].manager == manager,
        installed_lines(all, manager)[i].name.len() > 0,
    decreases all.len(),
{
    if i < installed_lines(all.drop_last(), manager).len() {
        law_every_listed_package_is_the_front_ends(all.drop_last(), manager, i);
    }
}

/// Each front end lists its own packages, measures a package by its files, and
/// reports none left behind; a package without files is an error.
pub proof fn law_each_front_end_speaks_for_itself(
    dnf: DnfBackend,
    zypper: ZypperBackend,
    output: Seq<char>,
    i: int,
    all: Seq<Leftover>,
    id: Seq<char>,
    facts: Seq<PathFact>,
    r: Result<Measured>,
)
    ensures
        0 <= i < dnf.listed(output).len() ==> dnf.listed(output)[i].manager == Manager::Dnf,
        0 <= i < zypper.listed(output).len() ==> zypper.listed(output)[i].manager
            == Manager::Zypper,
        dnf.left_behind(all).len() == 0,
        zypper.left_behind(all).len() == 0,
        facts.len() > 0 && dnf.measures(id, Some(facts), r) ==> r == Ok::<Measured, AppError>(
            measured_of(facts),
        ),
        facts.len() == 0 && dnf.measures(id, Some(facts), r) ==> (r matches Err(e) && e.code
            == ErrorCode::NotFound),
        dnf.measures(id, None, r) ==> (r matches Err(e) && e.code == ErrorCode::Unsupported),
        zypper.measures(id, Some(facts), r) == dnf.measures(id, Some(facts), r),
{
    if 0 <= i < dnf.listed(output).len() {
        law_every_listed_package_is_the_front_ends(lines(output), Manager::Dnf, i);
    }
    if 0 <= i < zypper.listed(output).len() {
        law_every_listed_package_is_the_front_ends(lines(output), Manager::Zypper, i);
    }
}

} // verus!
