//! Arch Linux: what pacman says of its packages, block by block.
use vstd::prelude::*;
use crate::decimal::{is_spelled, spells};
use crate::space::Manager;
use crate::text::{begins, chars_of, lines, parted, rparted, rsplit_once, split_lines, split_once, starts_with, string_of, text_at, texts, trim, trim_start, trimmed, trimmed_start, views, find_text};
use crate::caps::{Capabilities, Capability};
use crate::error::{AppError, Result};
use super::dpkg::{removal_text, residual_texts, Leftover, RemovalText};
use super::{binary_size, cannot_list, measure_paths, measured_of, owned_args, package_text, package_texts, parse_binary_size, plain_package, unlistable, with_names, Backend, Measured, Package, PackageText, PathFact, Query, RemovalPreview, ResidualConfig};

verus! {

broadcast use vstd::string::group_string_axioms;

/// The value of the first field with a name, whatever the case of its
/// letters; nothing where no field has it.
pub open spec fn field_named(fields: Seq<(Seq<char>, Seq<char>)>, name: Seq<char>) -> Seq<char>
    decreases fields.len(),
{
    if fields.len() == 0 {
        Seq::empty()
    } else if spells(fields[0].0, name) {
        fields[0].1
    } else {
        field_named(fields.skip(1), name)
    }
}

/// The package that a block of fields describes. A block without a name
/// describes none.
pub open spec fn block_package(fields: Seq<(Seq<char>, Seq<char>)>) -> Option<PackageText> {
    let name = field_named(fields, "name"@);
    if name.len() == 0 {
        None
    } else {
        Some(
            plain_package(
                name,
                field_named(fields, "architecture"@),
                field_named(fields, "version"@),
                field_named(fields, "description"@),
                binary_size(trimmed(field_named(fields, "installed size"@)), true),
                begins(field_named(fields, "install reason"@), "Explicitly"@),
                Manager::Pacman,
            ),
        )
    }
}

/// What has been read of a list: the packages that are complete, and the
/// fields of the block that is not.
pub struct Blocks {
    pub packages: Seq<PackageText>,
    pub fields: Seq<(Seq<char>, Seq<char>)>,
}

/// A list with its open block closed.
pub open spec fn closed_off(b: Blocks) -> Blocks {
    Blocks {
        packages: match block_package(b.fields) {
            Some(p) => b.packages.push(p),
            None => b.packages,
        },
        fields: Seq::empty(),
    }
}

/// Whether a line carries a field on: it is indented and names none.
pub open spec fn carries_on(line: Seq<char>) -> bool {
    begins(line, " "@) && text_at(trimmed_start(line), " : "@) < 0
}

/// What some lines come to. A blank line closes a block; a line with a colon
/// in it is a field.
pub open spec fn blocks_in(all: Seq<Seq<char>>) -> Blocks
    decreases all.len(),
{
    if all.len() == 0 {
        Blocks { packages: Seq::empty(), fields: Seq::empty() }
    } else {
        let before = blocks_in(all.drop_last());
        let line = all.last();
        if trimmed(line).len() == 0 {
            closed_off(before)
        } else if carries_on(line) {
            before
        } else {
            match parted(line, ':') {
                Some((key, value)) => Blocks {
                    fields: before.fields.push((trimmed(key), trimmed(value))),
                    ..before
                },
                None => before,
            }
        }
    }
}

/// What some fields say.
pub open spec fn field_texts(v: Seq<(String, String)>) -> Seq<(Seq<char>, Seq<char>)> {
    v.map_values(|f: (String, String)| (f.0@, f.1@))
}

fn field(fields: &Vec<(String, String)>, name: &str) -> (r: String)
    ensures
        r@ == field_named(field_texts(fields@), name@),
{
    let ghost all = field_texts(fields@);
    let mut i: usize = 0;
    assert(all.skip(0) =~= all);
    while i < fields.len()
        invariant
            i <= fields@.len(),
            all == field_texts(fields@),
            field_named(all, name@) == field_named(all.skip(i as int), name@),
        decreases fields@.len() - i,
    {
        assert(all.skip(i as int)[0] == all[i as int]);
        assert(all.skip(i as int).skip(1) =~= all.skip(i + 1));
        let key = chars_of(fields[i].0.as_str());
        if is_spelled(key.as_slice(), name) {
            return fields[i].1.clone();
        }
        i = i + 1;
    }
    assert(all.skip(i as int).len() == 0);
    String::new()
}

/// Closes a block: what it describes joins the packages.
fn close_block(fields: &Vec<(String, String)>, packages: &mut Vec<Package>)
    ensures
        package_texts(final(packages)@) == closed_off(
            (Blocks {
                packages: package_texts(old(packages)@),
                fields: field_texts(fields@),
            }),
        ).packages,
{
    let name = field(fields, "name");
    if name.as_str().is_empty() {
        return;
    }
    let size = field(fields, "installed size");
    let reason = field(fields, "install reason");
    let reason_chars = chars_of(reason.as_str());
    let p = Package::new(
        name,
        field(fields, "architecture"),
        field(fields, "version"),
        field(fields, "description"),
        parse_size(size.as_str()),
        starts_with(reason_chars.as_slice(), "Explicitly"),
        Manager::Pacman,
    );
    let ghost before = package_texts(packages@);
    packages.push(p);
    assert(package_texts(packages@) =~= before.push(package_text(p)));
}

/// Parses a list of blocks, each a package's fields with a blank line behind
/// it.
pub fn parse_installed(output: &str) -> (r: Vec<Package>)
    ensures
        package_texts(r@) == closed_off(blocks_in(lines(output@))).packages,
{
    let chars = chars_of(output);
    let rows = split_lines(chars.as_slice());
    let ghost all = lines(output@);
    let mut packages: Vec<Package> = Vec::new();
    let mut fields: Vec<(String, String)> = Vec::new();
    let mut i: usize = 0;
    assert(all.take(0) =~= Seq::<Seq<char>>::empty());
    assert(package_texts(packages@) =~= Seq::<PackageText>::empty());
    assert(field_texts(fields@) =~= Seq::<(Seq<char>, Seq<char>)>::empty());
    while i < rows.len()
        invariant
            i <= rows@.len(),
            views(rows@) == all,
            package_texts(packages@) == blocks_in(all.take(i as int)).packages,
            field_texts(fields@) == blocks_in(all.take(i as int)).fields,
        decreases rows@.len() - i,
    {
        assert(all.take(i + 1).drop_last() =~= all.take(i as int));
        assert(all.take(i + 1).last() == rows@[i as int]@);
        let line = rows[i];
        if trim(line).len() == 0 {
            close_block(&fields, &mut packages);
            fields = Vec::new();
            assert(field_texts(fields@) =~= Seq::<(Seq<char>, Seq<char>)>::empty());
        } else if starts_with(line, " ") && find_text(trim_start(line), " : ").is_none() {
        } else if let Some((key, value)) = split_once(line, ':') {
            let ghost before = field_texts(fields@);
            let k = string_of(trim(key));
            let v = string_of(trim(value));
            fields.push((k, v));
            assert(field_texts(fields@) =~= before.push((k@, v@)));
        }
        i = i + 1;
    }
    assert(all.take(i as int) =~= all);
    close_block(&fields, &mut packages);
    packages
}

/// Parses a size: a number, a space and a unit. The units are powers of two.
pub fn parse_size(value: &str) -> (r: u64)
    ensures
        r == binary_size(trimmed(value@), true),
{
    let chars = chars_of(value);
    parse_binary_size(trim(chars.as_slice()), true)
}

/// The name in a target: what stands before the version and the release.
pub open spec fn target_name(target: Seq<char>) -> Seq<char> {
    match rparted(target, '-') {
        Some((front, _)) => match rparted(front, '-') {
            Some((name, _)) => if name.len() > 0 {
                name
            } else {
                target
            },
            None => target,
        },
        None => target,
    }
}

/// The names that the lines of a simulation give, in order. Remarks and
/// warnings give none.
pub open spec fn targets_in(all: Seq<Seq<char>>) -> Seq<Seq<char>>
    decreases all.len(),
{
    if all.len() == 0 {
        Seq::empty()
    } else {
        let line = trimmed(all.last());
        if line.len() == 0 || begins(line, ":"@) || begins(line, "warning"@) {
            targets_in(all.drop_last())
        } else {
            targets_in(all.drop_last()).push(target_name(line))
        }
    }
}

/// What a simulation that gives these targets comes to.
pub open spec fn only_removing(names: Seq<Seq<char>>) -> RemovalText {
    RemovalText { removing: names, freed_bytes: 0, installing: Seq::empty() }
}

fn name_in(target: &[char]) -> (r: String)
    ensures
        r@ == target_name(target@),
{
    if let Some((front, _)) = rsplit_once(target, '-') {
        if let Some((name, _)) = rsplit_once(front, '-') {
            if name.len() > 0 {
                return string_of(name);
            }
        }
    }
    string_of(target)
}

/// Parses a simulated removal: one target a line.
pub fn parse_removal_simulation(output: &str) -> (r: RemovalPreview)
    ensures
        removal_text(r) == only_removing(targets_in(lines(output@))),
{
    let chars = chars_of(output);
    let rows = split_lines(chars.as_slice());
    let ghost all = lines(output@);
    let mut removing: Vec<String> = Vec::new();
    let mut i: usize = 0;
    assert(all.take(0) =~= Seq::<Seq<char>>::empty());
    assert(texts(removing@) =~= Seq::<Seq<char>>::empty());
    while i < rows.len()
        invariant
            i <= rows@.len(),
            views(rows@) == all,
            texts(removing@) == targets_in(all.take(i as int)),
        decreases rows@.len() - i,
    {
        assert(all.take(i + 1).drop_last() =~= all.take(i as int));
        assert(all.take(i + 1).last() == rows@[i as int]@);
        let line = trim(rows[i]);
        if line.len() > 0 && !starts_with(line, ":") && !starts_with(line, "warning") {
            let ghost before = texts(removing@);
            let name = name_in(line);
            removing.push(name);
            assert(texts(removing@) =~= before.push(name@));
        }
        i = i + 1;
    }
    assert(all.take(i as int) =~= all);
    let installing: Vec<String> = Vec::new();
    assert(texts(installing@) =~= Seq::<Seq<char>>::empty());
    RemovalPreview { removing, freed_bytes: 0, installing }
}

/// The paths in a file list, in order: what stands behind the package's name.
pub open spec fn owned_paths(all: Seq<Seq<char>>) -> Seq<Seq<char>>
    decreases all.len(),
{
    if all.len() == 0 {
        Seq::empty()
    } else {
        match parted(all.last(), ' ') {
            Some((_, path)) => owned_paths(all.drop_last()).push(trimmed(path)),
            None => owned_paths(all.drop_last()),
        }
    }
}

/// Parses a file list: a package's name and a path on each line.
pub fn parse_file_list(output: &str) -> (r: Vec<String>)
    ensures
        texts(r@) == owned_paths(lines(output@)),
{
    let chars = chars_of(output);
    let rows = split_lines(chars.as_slice());
    let ghost all = lines(output@);
    let mut out: Vec<String> = Vec::new();
    let mut i: usize = 0;
    assert(all.take(0) =~= Seq::<Seq<char>>::empty());
    assert(texts(out@) =~= Seq::<Seq<char>>::empty());
    while i < rows.len()
        invariant
            i <= rows@.len(),
            views(rows@) == all,
            texts(out@) == owned_paths(all.take(i as int)),
        decreases rows@.len() - i,
    {
        assert(all.take(i + 1).drop_last() =~= all.take(i as int));
        assert(all.take(i + 1).last() == rows@[i as int]@);
        if let Some((_, path)) = split_once(rows[i], ' ') {
            let ghost before = texts(out@);
            let p = string_of(trim(path));
            out.push(p);
            assert(texts(out@) =~= before.push(p@));
        }
        i = i + 1;
    }
    assert(all.take(i as int) =~= all);
    out
}

/// Arch Linux and derivatives.
#[derive(Debug, Clone, Copy)]
pub struct PacmanBackend;

impl PacmanBackend {
    /// The backend.
    pub fn new() -> (r: Self)
        ensures
            r == PacmanBackend,
    {
        PacmanBackend
    }

    /// The command that lists a package's files.
    pub fn files_query(&self, id: &str) -> (r: Query)
        ensures
            r.program@ == "pacman"@,
            texts(r.args@) == seq!["-Ql"@, id@],
    {
        let args = vec!["-Ql", id];
        let owned = owned_args(&args);
        assert(texts(owned@) =~= seq!["-Ql"@, id@]);
        Query { program: "pacman", args: owned }
    }
}

impl Default for PacmanBackend {
    fn default() -> (r: Self)
        ensures
            r == PacmanBackend,
    {
        PacmanBackend::new()
    }
}

impl Backend for PacmanBackend {
    open spec fn who(&self) -> Manager {
        Manager::Pacman
    }

    open spec fn listing(&self) -> (Seq<char>, Seq<Seq<char>>) {
        ("pacman"@, seq!["-Qi"@])
    }

    open spec fn listed(&self, output: Seq<char>) -> Seq<PackageText> {
        closed_off(blocks_in(lines(output))).packages
    }

    open spec fn simulation(&self) -> (Seq<char>, Seq<Seq<char>>) {
        ("pacman"@, seq!["-Rp"@])
    }

    open spec fn simulated(&self, output: Seq<char>, r: RemovalPreview) -> bool {
        removal_text(r) == only_removing(targets_in(lines(output)))
    }

    open spec fn needs(&self) -> Capability {
        Capability::Pacman
    }

    open spec fn left_behind(&self, all: Seq<Leftover>) -> Seq<(Seq<char>, u64)> {
        Seq::empty()
    }

    open spec fn measures(
        &self,
        id: Seq<char>,
        facts: Option<Seq<PathFact>>,
        r: Result<Measured>,
    ) -> bool {
        match facts {
            Some(f) => r == Ok::<Measured, AppError>(measured_of(f)),
            None => unlistable(r),
        }
    }

    fn manager(&self) -> Manager {
        Manager::Pacman
    }

    fn available(&self, caps: &Capabilities) -> bool {
        caps.has(Capability::Pacman)
    }

    fn residual_config(&self, all: &Vec<Leftover>) -> Vec<ResidualConfig> {
        let none: Vec<ResidualConfig> = Vec::new();
        assert(residual_texts(none@) =~= Seq::<(Seq<char>, u64)>::empty());
        none
    }

    fn measure(&self, id: &str, facts: Option<&Vec<PathFact>>) -> Result<Measured> {
        match facts {
            Some(f) => Ok(measure_paths(f)),
            None => cannot_list(),
        }
    }

    fn installed_query(&self) -> Query {
        let args = vec!["-Qi"];
        let owned = owned_args(&args);
        assert(texts(owned@) =~= seq!["-Qi"@]);
        Query { program: "pacman", args: owned }
    }

    fn installed(&self, output: &str) -> Vec<Package> {
        parse_installed(output)
    }

    fn removal_query(&self, names: &Vec<String>) -> Option<Query> {
        let args = vec!["-Rp"];
        assert(Seq::new(args@.len(), |i: int| args@[i]@) =~= seq!["-Rp"@]);
        with_names("pacman", &args, names)
    }

    fn removal_preview(&self, output: Option<&str>) -> RemovalPreview {
        match output {
            Some(t) => parse_removal_simulation(t),
            None => RemovalPreview::default(),
        }
    }
}

/// Every package that a list gives has a name, and the identity that its name
/// and architecture give it.
pub proof fn law_listed_packages_are_named(all: Seq<Seq<char>>, i: int)
    requires
        0 <= i < blocks_in(all).packages.len(),
    ensures
        blocks_in(all).packages[i].name.len() > 0,
        blocks_in(all).packages[i].id == super::identity_of(
            blocks_in(all).packages[i].name,
            blocks_in(all).packages[i].arch,
        ),
        blocks_in(all).packages[i].manager == Manager::Pacman,
    decreases all.len(),
{
    if i < blocks_in(all.drop_last()).packages.len() {
        law_listed_packages_are_named(all.drop_last(), i);
    }
}

/// A blank line more closes nothing twice: a list reads the same with blank
/// lines behind it.
pub proof fn law_stray_blank_lines_add_nothing(all: Seq<Seq<char>>, blank: Seq<char>)
    requires
        trimmed(blank).len() == 0,
    ensures
        closed_off(blocks_in(all.push(blank))).packages == closed_off(blocks_in(all)).packages,
{
    assert(all.push(blank).drop_last() =~= all);
    assert(field_named(Seq::empty(), "name"@).len() == 0);
}

/// A package is read from the fields of its block, each by its name: and it
/// was asked for exactly where its reason says so.
pub proof fn law_a_block_is_one_package(fields: Seq<(Seq<char>, Seq<char>)>)
    ensures
        match block_package(fields) {
            Some(p) => {
                &&& p.name == field_named(fields, "name"@)
                &&& p.name.len() > 0
                &&& p.arch == field_named(fields, "architecture"@)
                &&& p.version == field_named(fields, "version"@)
                &&& p.summary == field_named(fields, "description"@)
                &&& p.recorded_bytes == binary_size(
                    trimmed(field_named(fields, "installed size"@)),
                    true,
                )
                &&& p.explicit == begins(field_named(fields, "install reason"@), "Explicitly"@)
                &&& p.manager == Manager::Pacman
            },
            None => field_named(fields, "name"@).len() == 0,
        },
{
}

/// A field is found by its name in any case, the first where there are two.
pub proof fn law_a_field_is_found_by_its_name(
    fields: Seq<(Seq<char>, Seq<char>)>,
    f: (Seq<char>, Seq<char>),
    name: Seq<char>,
)
    ensures
        spells(f.0, name) ==> field_named(seq![f] + fields, name) == f.1,
        !spells(f.0, name) ==> field_named(seq![f] + fields, name) == field_named(fields, name),
        field_named(Seq::<(Seq<char>, Seq<char>)>::empty(), name).len() == 0,
{
    let all = seq![f] + fields;
    assert(all[0] == f);
    assert(all.skip(1) =~= fields);
}

/// A blank line ends a block, and any other line that has a colon adds a field
/// to it, unless it carries the one before on.
pub proof fn law_a_blank_line_ends_a_block(all: Seq<Seq<char>>, line: Seq<char>)
    ensures
        ({
            let before = blocks_in(all);
            let after = blocks_in(all.push(line));
            &&& trimmed(line).len() == 0 ==> after.fields.len() == 0 && match block_package(
                before.fields,
            ) {
                Some(p) => after.packages == before.packages.push(p),
                None => after.packages == before.packages,
            }
            &&& trimmed(line).len() > 0 ==> after.packages == before.packages
            &&& trimmed(line).len() > 0 && !carries_on(line) ==> match parted(line, ':') {
                Some((key, value)) => after.fields == before.fields.push(
                    (trimmed(key), trimmed(value)),
                ),
                None => after.fields == before.fields,
            }
            &&& trimmed(line).len() > 0 && carries_on(line) ==> after.fields == before.fields
        }),
{
    assert(all.push(line).drop_last() =~= all);
}

/// A target that would go is listed by its package's name, which is what
/// stands before its version and its release.
pub proof fn law_a_target_is_named_without_its_version(
    name: Seq<char>,
    version: Seq<char>,
    release: Seq<char>,
)
    requires
        name.len() > 0,
        !version.contains('-'),
        !release.contains('-'),
    ensures
        target_name(name.push('-') + version.push('-') + release) == name,
{
    let front = name.push('-') + version;
    let target = name.push('-') + version.push('-') + release;
    assert(target =~= front.push('-') + release);
    lemma_last_mark(front, release);
    lemma_last_mark(name, version);
}

proof fn lemma_last_mark(front: Seq<char>, back: Seq<char>)
    requires
        !back.contains('-'),
    ensures
        rparted(front.push('-') + back, '-') == Some((front, back)),
{
    let s = front.push('-') + back;
    crate::text::lemma_last_at(s, '-');
    let at = crate::text::last_at(s, '-');
    assert(s[front.len() as int] == '-');
    assert(at == front.len()) by {
        if at > front.len() {
            assert(s[at] == back[at - front.len() - 1]);
            assert(back.contains(s[at]));
        }
    }
    assert(s.take(at) =~= front);
    assert(s.skip(at + 1) =~= back);
}

/// Every line of a simulation that is neither blank nor a remark of pacman's
/// is a target that would go; every line of a list of files holds a path
/// behind its first blank.
pub proof fn law_every_target_is_listed(all: Seq<Seq<char>>, line: Seq<char>)
    ensures
        trimmed(line).len() > 0 && !begins(trimmed(line), ":"@) && !begins(
            trimmed(line),
            "warning"@,
        ) ==> targets_in(all.push(line)) == targets_in(all).push(target_name(trimmed(line))),
        trimmed(line).len() == 0 || begins(trimmed(line), ":"@) || begins(trimmed(line), "warning"@)
            ==> targets_in(all.push(line)) == targets_in(all),
        match parted(line, ' ') {
            Some((_, path)) => owned_paths(all.push(line)) == owned_paths(all).push(trimmed(path)),
            None => owned_paths(all.push(line)) == owned_paths(all),
        },
{
    assert(all.push(line).drop_last() =~= all);
}

/// pacman's packages are its own, a package is measured by its files, and none
/// leaves configuration behind.
pub proof fn law_pacman_speaks_for_itself(
    b: PacmanBackend,
    all: Seq<Leftover>,
    id: Seq<char>,
    facts: Seq<PathFact>,
    r: Result<Measured>,
)
    ensures
        b.left_behind(all).len() == 0,
        b.measures(id, Some(facts), r) ==> r == Ok::<Measured, AppError>(measured_of(facts)),
        b.measures(id, None, r) ==> (r matches Err(e) && e.code
            == crate::error::ErrorCode::Unsupported),
{
}

} // verus!
