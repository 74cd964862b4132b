//! Build artifacts inside projects, and the stores of package managers.
//!
//! A directory is recognised by a file that only the tool which generates it
//! leaves behind, and never by a name that source may have as well. Nothing
//! here is rated safe: what can be generated again is not therefore unwanted.
use vstd::prelude::*;
use vstd::string::*;
use crate::error::{AppError, Result};
use crate::op::check_flag;
use crate::order::in_order;
use crate::paths::{file_name, file_name_of, join, joined, parent_name, parent_name_of};
use crate::space::{Advisory, Category as SpaceCategory, ReclaimMethod, Reclaimable, Safety};
use crate::text::{is_listed, opt_text, same_str, texts};
use super::registry::{candidate_text, candidate_texts, law_a_candidate_is_what_its_view_says, law_what_is_offered_is_returned, largest_first, offers, stopped, Candidate, CandidateText, Category, MethodText, PromiseText};

verus! {

broadcast use vstd::string::group_string_axioms;

/// One recognised kind of build artifact.
#[derive(Debug, Clone)]
pub struct Artifact {
    /// The directory's name, matched exactly.
    pub dir: &'static str,
    /// What generated it.
    pub tool: &'static str,
    /// Files of which one must stand beside the directory.
    pub beside: Vec<&'static str>,
    /// Files of which one must stand inside the directory. Where there are
    /// none of either, the name belongs to one tool and to no source.
    pub inside: Vec<&'static str>,
    /// What reclaiming it costs.
    pub cost: &'static str,
}

/// A kind of artifact with its texts.
pub struct ArtifactText {
    pub dir: Seq<char>,
    pub tool: Seq<char>,
    pub beside: Seq<Seq<char>>,
    pub inside: Seq<Seq<char>>,
    pub cost: Seq<char>,
}

/// The texts of some literals.
pub open spec fn strs(v: Seq<&'static str>) -> Seq<Seq<char>> {
    v.map_values(|s: &'static str| s@)
}

/// What a kind of artifact says.
pub open spec fn artifact_text(a: Artifact) -> ArtifactText {
    ArtifactText {
        dir: a.dir@,
        tool: a.tool@,
        beside: strs(a.beside@),
        inside: strs(a.inside@),
        cost: a.cost@,
    }
}

/// What some kinds of artifacts say.
pub open spec fn artifact_texts(v: Seq<Artifact>) -> Seq<ArtifactText> {
    v.map_values(|a: Artifact| artifact_text(a))
}

/// The recognised artifacts. Names that are source in some projects and
/// generated in others are not among them.
pub open spec fn artifact_table() -> Seq<ArtifactText> {
    seq![
        ArtifactText {
            dir: "target"@,
            tool: "Cargo"@,
            beside: seq!["Cargo.toml"@],
            inside: Seq::empty(),
            cost: "The next `cargo build` will recompile the whole dependency tree."@,
        },
        ArtifactText {
            dir: "node_modules"@,
            tool: "npm, yarn or pnpm"@,
            beside: seq!["package.json"@],
            inside: Seq::empty(),
            cost: "Dependencies will need reinstalling before the project runs again."@,
        },
        ArtifactText {
            dir: ".next"@,
            tool: "Next.js"@,
            beside: seq!["next.config.js"@, "next.config.ts"@, "next.config.mjs"@, "package.json"@],
            inside: Seq::empty(),
            cost: "The next build recompiles every route."@,
        },
        ArtifactText {
            dir: ".nuxt"@,
            tool: "Nuxt"@,
            beside: seq!["nuxt.config.js"@, "nuxt.config.ts"@, "package.json"@],
            inside: Seq::empty(),
            cost: "The next build regenerates it."@,
        },
        ArtifactText {
            dir: ".dart_tool"@,
            tool: "Dart"@,
            beside: seq!["pubspec.yaml"@],
            inside: Seq::empty(),
            cost: "`pub get` will rebuild it."@,
        },
        ArtifactText {
            dir: "build"@,
            tool: "a build system"@,
            beside: seq!["pubspec.yaml"@, "CMakeLists.txt"@, "meson.build"@, "pom.xml"@, "build.gradle"@, "build.gradle.kts"@, "setup.py"@, "pyproject.toml"@],
            inside: Seq::empty(),
            cost: "The next build regenerates it from source."@,
        },
        ArtifactText {
            dir: "dist"@,
            tool: "a bundler"@,
            beside: seq!["package.json"@, "pyproject.toml"@, "setup.py"@, "rollup.config.js"@, "vite.config.js"@, "vite.config.ts"@],
            inside: Seq::empty(),
            cost: "The next build regenerates it from source."@,
        },
        ArtifactText {
            dir: "_build"@,
            tool: "Dune, Mix or Rebar"@,
            beside: seq!["dune-project"@, "mix.exs"@, "rebar.config"@],
            inside: Seq::empty(),
            cost: "The next build regenerates it."@,
        },
        ArtifactText {
            dir: ".venv"@,
            tool: "a Python virtual environment"@,
            beside: Seq::empty(),
            inside: seq!["pyvenv.cfg"@],
            cost: "The environment will need recreating and its packages reinstalling."@,
        },
        ArtifactText {
            dir: "venv"@,
            tool: "a Python virtual environment"@,
            beside: Seq::empty(),
            inside: seq!["pyvenv.cfg"@],
            cost: "The environment will need recreating and its packages reinstalling."@,
        },
        ArtifactText {
            dir: "__pycache__"@,
            tool: "Python"@,
            beside: Seq::empty(),
            inside: Seq::empty(),
            cost: "Python regenerates it on the next import, at a small one-off cost."@,
        },
        ArtifactText {
            dir: ".mypy_cache"@,
            tool: "mypy"@,
            beside: Seq::empty(),
            inside: Seq::empty(),
            cost: "The next type-check will be slower."@,
        },
        ArtifactText {
            dir: ".pytest_cache"@,
            tool: "pytest"@,
            beside: Seq::empty(),
            inside: Seq::empty(),
            cost: "pytest loses its record of the last run."@,
        },
        ArtifactText {
            dir: ".ruff_cache"@,
            tool: "Ruff"@,
            beside: Seq::empty(),
            inside: Seq::empty(),
            cost: "The next lint will be slower."@,
        },
        ArtifactText {
            dir: ".tox"@,
            tool: "tox"@,
            beside: seq!["tox.ini"@],
            inside: Seq::empty(),
            cost: "tox will rebuild each environment on the next run."@,
        },
    ]
}

/// The recognised artifacts.
pub fn artifacts() -> (r: Vec<Artifact>)
    ensures
        artifact_texts(r@) == artifact_table(),
{
    let r = vec![
        Artifact {
            dir: "target",
            tool: "Cargo",
            beside: vec!["Cargo.toml"],
            inside: Vec::new(),
            cost: "The next `cargo build` will recompile the whole dependency tree.",
        },
        Artifact {
            dir: "node_modules",
            tool: "npm, yarn or pnpm",
            beside: vec!["package.json"],
            inside: Vec::new(),
            cost: "Dependencies will need reinstalling before the project runs again.",
        },
        Artifact {
            dir: ".next",
            tool: "Next.js",
            beside: vec!["next.config.js", "next.config.ts", "next.config.mjs", "package.json"],
            inside: Vec::new(),
            cost: "The next build recompiles every route.",
        },
        Artifact {
            dir: ".nuxt",
            tool: "Nuxt",
            beside: vec!["nuxt.config.js", "nuxt.config.ts", "package.json"],
            inside: Vec::new(),
            cost: "The next build regenerates it.",
        },
        Artifact {
            dir: ".dart_tool",
            tool: "Dart",
            beside: vec!["pubspec.yaml"],
            inside: Vec::new(),
            cost: "`pub get` will rebuild it.",
        },
        Artifact {
            dir: "build",
            tool: "a build system",
            beside: vec!["pubspec.yaml", "CMakeLists.txt", "meson.build", "pom.xml", "build.gradle", "build.gradle.kts", "setup.py", "pyproject.toml"],
            inside: Vec::new(),
            cost: "The next build regenerates it from source.",
        },
        Artifact {
            dir: "dist",
            tool: "a bundler",
            beside: vec!["package.json", "pyproject.toml", "setup.py", "rollup.config.js", "vite.config.js", "vite.config.ts"],
            inside: Vec::new(),
            cost: "The next build regenerates it from source.",
        },
        Artifact {
            dir: "_build",
            tool: "Dune, Mix or Rebar",
            beside: vec!["dune-project", "mix.exs", "rebar.config"],
            inside: Vec::new(),
            cost: "The next build regenerates it.",
        },
        Artifact {
            dir: ".venv",
            tool: "a Python virtual environment",
            beside: Vec::new(),
            inside: vec!["pyvenv.cfg"],
            cost: "The environment will need recreating and its packages reinstalling.",
        },
        Artifact {
            dir: "venv",
            tool: "a Python virtual environment",
            beside: Vec::new(),
            inside: vec!["pyvenv.cfg"],
            cost: "The environment will need recreating and its packages reinstalling.",
        },
        Artifact {
            dir: "__pycache__",
            tool: "Python",
            beside: Vec::new(),
            inside: Vec::new(),
            cost: "Python regenerates it on the next import, at a small one-off cost.",
        },
        Artifact {
            dir: ".mypy_cache",
            tool: "mypy",
            beside: Vec::new(),
            inside: Vec::new(),
            cost: "The next type-check will be slower.",
        },
        Artifact {
            dir: ".pytest_cache",
            tool: "pytest",
            beside: Vec::new(),
            inside: Vec::new(),
            cost: "pytest loses its record of the last run.",
        },
        Artifact {
            dir: ".ruff_cache",
            tool: "Ruff",
            beside: Vec::new(),
            inside: Vec::new(),
            cost: "The next lint will be slower.",
        },
        Artifact {
            dir: ".tox",
            tool: "tox",
            beside: vec!["tox.ini"],
            inside: Vec::new(),
            cost: "tox will rebuild each environment on the next run.",
        },
    ];
    proof {
        assert(strs(r@[0].beside@) =~= artifact_table()[0].beside);
        assert(strs(r@[0].inside@) =~= artifact_table()[0].inside);
        assert(strs(r@[1].beside@) =~= artifact_table()[1].beside);
        assert(strs(r@[1].inside@) =~= artifact_table()[1].inside);
        assert(strs(r@[2].beside@) =~= artifact_table()[2].beside);
        assert(strs(r@[2].inside@) =~= artifact_table()[2].inside);
        assert(strs(r@[3].beside@) =~= artifact_table()[3].beside);
        assert(strs(r@[3].inside@) =~= artifact_table()[3].inside);
        assert(strs(r@[4].beside@) =~= artifact_table()[4].beside);
        assert(strs(r@[4].inside@) =~= artifact_table()[4].inside);
        assert(strs(r@[5].beside@) =~= artifact_table()[5].beside);
        assert(strs(r@[5].inside@) =~= artifact_table()[5].inside);
        assert(strs(r@[6].beside@) =~= artifact_table()[6].beside);
        assert(strs(r@[6].inside@) =~= artifact_table()[6].inside);
        assert(strs(r@[7].beside@) =~= artifact_table()[7].beside);
        assert(strs(r@[7].inside@) =~= artifact_table()[7].inside);
        assert(strs(r@[8].beside@) =~= artifact_table()[8].beside);
        assert(strs(r@[8].inside@) =~= artifact_table()[8].inside);
        assert(strs(r@[9].beside@) =~= artifact_table()[9].beside);
        assert(strs(r@[9].inside@) =~= artifact_table()[9].inside);
        assert(strs(r@[10].beside@) =~= artifact_table()[10].beside);
        assert(strs(r@[10].inside@) =~= artifact_table()[10].inside);
        assert(strs(r@[11].beside@) =~= artifact_table()[11].beside);
        assert(strs(r@[11].inside@) =~= artifact_table()[11].inside);
        assert(strs(r@[12].beside@) =~= artifact_table()[12].beside);
        assert(strs(r@[12].inside@) =~= artifact_table()[12].inside);
        assert(strs(r@[13].beside@) =~= artifact_table()[13].beside);
        assert(strs(r@[13].inside@) =~= artifact_table()[13].inside);
        assert(strs(r@[14].beside@) =~= artifact_table()[14].beside);
        assert(strs(r@[14].inside@) =~= artifact_table()[14].inside);
        assert(artifact_texts(r@) =~= artifact_table());
    }
    r
}

/// The first kind of artifact with a name.
pub open spec fn definition_in(table: Seq<ArtifactText>, name: Seq<char>) -> Option<ArtifactText>
    decreases table.len(),
{
    if table.len() == 0 {
        None
    } else if table[0].dir == name {
        Some(table[0])
    } else {
        definition_in(table.skip(1), name)
    }
}

/// Which kind of artifact a directory of this name would be.
pub open spec fn definition(name: Seq<char>) -> Option<ArtifactText> {
    definition_in(artifact_table(), name)
}

/// Which kind of artifact a directory of this name would be.
pub fn definition_for(name: &str) -> (r: Option<Artifact>)
    ensures
        match r {
            Some(a) => definition(name@) == Some(artifact_text(a)),
            None => definition(name@) is None,
        },
{
    let known = artifacts();
    let ghost all = artifact_texts(known@);
    assert(all.skip(0) =~= all);
    for a in it: known
        invariant
            it.seq() == known@,
            all == artifact_texts(known@),
            all == artifact_table(),
            definition_in(all, name@) == definition_in(all.skip(it.index() as int), name@),
    {
        let ghost n = it.index() as int;
        assert(a == known@[n]);
        assert(all.skip(n)[0] == artifact_text(a));
        assert(all.skip(n).skip(1) =~= all.skip(n + 1));
        if same_str(a.dir, name) {
            return Some(a);
        }
    }
    assert(all.skip(all.len() as int).len() == 0);
    None
}

/// The first of some markers that is there.
pub open spec fn first_present(markers: Seq<Seq<char>>, present: Seq<Seq<char>>) -> Option<Seq<char>>
    decreases markers.len(),
{
    if markers.len() == 0 {
        None
    } else if present.contains(markers[0]) {
        Some(markers[0])
    } else {
        first_present(markers.skip(1), present)
    }
}

fn find_present(markers: &Vec<&'static str>, present: &Vec<String>) -> (r: Option<&'static str>)
    ensures
        match r {
            Some(m) => first_present(strs(markers@), texts(present@)) == Some(m@),
            None => first_present(strs(markers@), texts(present@)) is None,
        },
{
    let ghost all = strs(markers@);
    let mut i: usize = 0;
    assert(all.skip(0) =~= all);
    while i < markers.len()
        invariant
            i <= markers@.len(),
            all == strs(markers@),
            first_present(all, texts(present@)) == first_present(
                all.skip(i as int),
                texts(present@),
            ),
        decreases markers@.len() - i,
    {
        assert(all.skip(i as int)[0] == markers@[i as int]@);
        assert(all.skip(i as int).skip(1) =~= all.skip(i + 1));
        if is_listed(markers[i], present) {
            return Some(markers[i]);
        }
        i = i + 1;
    }
    assert(all.skip(i as int).len() == 0);
    None
}

/// What vouches for a name that belongs to one tool alone.
pub const NAME_ALONE: &'static str = "its name, which no source layout uses";

/// What vouches for a directory: the tool that generates it and the marker
/// that was found. `beside` and `inside` are the files beside and inside it.
pub open spec fn vouched(
    path: Seq<char>,
    beside: Seq<Seq<char>>,
    inside: Seq<Seq<char>>,
) -> Option<(Seq<char>, Seq<char>)> {
    match file_name_of(path) {
        None => None,
        Some(name) => match definition(name) {
            None => None,
            Some(d) => if d.beside.len() == 0 && d.inside.len() == 0 {
                Some((d.tool, NAME_ALONE@))
            } else {
                match first_present(d.beside, beside) {
                    Some(m) => Some((d.tool, m)),
                    None => match first_present(d.inside, inside) {
                        Some(m) => Some((d.tool, m)),
                        None => None,
                    },
                }
            },
        },
    }
}

/// The texts of an optional pair of literals.
pub open spec fn pair_text(p: Option<(&'static str, &'static str)>) -> Option<
    (Seq<char>, Seq<char>),
> {
    match p {
        Some((a, b)) => Some((a@, b@)),
        None => None,
    }
}

/// Whether a directory is corroborated as an artifact: the tool that
/// generates it, and what vouches for that.
pub fn corroborate(path: &str, beside: &Vec<String>, inside: &Vec<String>) -> (r: Option<
    (&'static str, &'static str),
>)
    ensures
        pair_text(r) == vouched(path@, texts(beside@), texts(inside@)),
{
    let name = match file_name(path) {
        Some(n) => n,
        None => {
            return None;
        },
    };
    let d = match definition_for(name.as_str()) {
        Some(d) => d,
        None => {
            return None;
        },
    };
    assert(strs(d.beside@).len() == d.beside@.len());
    assert(strs(d.inside@).len() == d.inside@.len());
    if d.beside.len() == 0 && d.inside.len() == 0 {
        return Some((d.tool, NAME_ALONE));
    }
    if let Some(m) = find_present(&d.beside, beside) {
        return Some((d.tool, m));
    }
    match find_present(&d.inside, inside) {
        Some(m) => Some((d.tool, m)),
        None => None,
    }
}

/// One entry of a scan, with what is there now.
#[derive(Debug, Clone)]
pub struct ScanEntry {
    pub path: Option<String>,
    /// Whether it was a directory when it was scanned.
    pub directory: bool,
    /// What it takes on disk.
    pub allocated: u64,
    /// Whether there is still a directory at the path.
    pub still_there: bool,
    /// The files beside it.
    pub beside: Vec<String>,
    /// The files inside it.
    pub inside: Vec<String>,
}

/// A name, or nothing.
pub open spec fn or_empty(name: Option<Seq<char>>) -> Seq<char> {
    match name {
        Some(n) => n,
        None => Seq::empty(),
    }
}

/// What it costs to reclaim an artifact of this name.
pub open spec fn cost_of(name: Option<Seq<char>>) -> Seq<char> {
    match definition(or_empty(name)) {
        Some(d) => d.cost,
        None => ""@,
    }
}

/// The offer to reclaim a directory that is vouched for.
pub open spec fn artifact_offer(
    path: Seq<char>,
    bytes: u64,
    tool: Seq<char>,
    marker: Seq<char>,
) -> CandidateText {
    CandidateText {
        path,
        label: or_empty(file_name_of(path)) + " in "@ + or_empty(parent_name_of(path)),
        bytes,
        safety: Safety::Review,
        method: MethodText::MoveToTrash(path),
        cost: Some(
            "Generated by "@ + tool + ", recognised by "@ + marker + ". "@ + cost_of(
                file_name_of(path),
            ),
        ),
        category: "build_artifacts"@,
        reclaimable: PromiseText::Exact,
    }
}

/// What is offered of one entry. One that is gone, or that nothing vouches
/// for, is not mentioned at all.
pub open spec fn entry_offer(e: ScanEntry) -> Option<CandidateText> {
    if !e.directory || !e.still_there {
        None
    } else {
        match opt_text(e.path) {
            None => None,
            Some(path) => match vouched(path, texts(e.beside@), texts(e.inside@)) {
                Some((tool, marker)) => Some(artifact_offer(path, e.allocated, tool, marker)),
                None => None,
            },
        }
    }
}

/// What is offered of some entries, in order.
pub open spec fn entry_offers(all: Seq<ScanEntry>) -> Seq<CandidateText>
    decreases all.len(),
{
    if all.len() == 0 {
        Seq::empty()
    } else {
        match entry_offer(all.last()) {
            Some(c) => entry_offers(all.drop_last()).push(c),
            None => entry_offers(all.drop_last()),
        }
    }
}

fn offer_entry(e: &ScanEntry) -> (r: Option<Candidate>)
    ensures
        match r {
            Some(c) => entry_offer(*e) == Some(candidate_text(c)),
            None => entry_offer(*e) is None,
        },
{
    if !e.directory || !e.still_there {
        return None;
    }
    let path = match &e.path {
        Some(p) => p.as_str(),
        None => {
            return None;
        },
    };
    let (tool, marker) = match corroborate(path, &e.beside, &e.inside) {
        Some(pair) => pair,
        None => {
            return None;
        },
    };
    let name = match file_name(path) {
        Some(n) => n,
        None => String::new(),
    };
    let parent = match parent_name(path) {
        Some(n) => n,
        None => String::new(),
    };
    assert(name@ == or_empty(file_name_of(path@)));
    let mut label = name.as_str().to_owned();
    label.append(" in ");
    label.append(parent.as_str());
    let mut cost = "Generated by ".to_owned();
    cost.append(tool);
    cost.append(", recognised by ");
    cost.append(marker);
    cost.append(". ");
    cost.append(
        match definition_for(name.as_str()) {
            Some(d) => d.cost,
            None => "",
        },
    );
    Some(
        Candidate {
            path: path.to_owned(),
            label,
            bytes: e.allocated,
            safety: Safety::Review,
            method: ReclaimMethod::MoveToTrash { path: path.to_owned() },
            cost: Some(cost),
            category: "build_artifacts".to_owned(),
            reclaimable: Reclaimable::Exact,
        },
    )
}

/// What the category of build artifacts holds.
pub const ARTIFACTS_MEANING: &'static str =
    "Compiler output in project directories — target, node_modules, build. Regenerated by rebuilding, which for a large project is minutes rather than seconds and needs whatever the build downloads. Source files and version control are never touched.";

/// Build artifacts inside projects, found in a scan.
#[derive(Debug, Clone)]
pub struct BuildArtifactCategory {
    scan: Option<Vec<ScanEntry>>,
}

impl BuildArtifactCategory {
    /// The entries of the scan, where one has been made.
    pub closed spec fn scanned(&self) -> Option<Seq<ScanEntry>> {
        match self.scan {
            Some(v) => Some(v@),
            None => None,
        }
    }

    /// A category without a scan.
    pub fn new() -> (r: Self)
        ensures
            r.scanned() is None,
    {
        BuildArtifactCategory { scan: None }
    }

    /// A category over the entries of a scan.
    pub fn at(scan: Vec<ScanEntry>) -> (r: Self)
        ensures
            r.scanned() == Some(scan@),
    {
        BuildArtifactCategory { scan: Some(scan) }
    }
}

impl Default for BuildArtifactCategory {
    fn default() -> (r: Self)
        ensures
            r.scanned() is None,
    {
        BuildArtifactCategory::new()
    }
}

impl Category for BuildArtifactCategory {
    open spec fn ident(&self) -> Seq<char> {
        "build_artifacts"@
    }

    open spec fn title(&self) -> Seq<char> {
        "Build artifacts"@
    }

    open spec fn meaning(&self) -> Seq<char> {
        ARTIFACTS_MEANING@
    }

    open spec fn kind(&self) -> SpaceCategory {
        SpaceCategory::BuildArtifact
    }

    open spec fn usable(&self) -> bool {
        self.scanned() is Some
    }

    open spec fn proposes(&self, cancelled: bool, r: Result<Vec<Candidate>>) -> bool {
        if cancelled {
            stopped(r)
        } else {
            match self.scanned() {
                Some(all) => offers(r, in_order(entry_offers(all))),
                None => offers(r, Seq::empty()),
            }
        }
    }

    open spec fn advises(&self, r: Seq<Advisory>) -> bool {
        r.len() == 0
    }

    fn id(&self) -> &'static str {
        "build_artifacts"
    }

    fn label(&self) -> &'static str {
        "Build artifacts"
    }

    fn explains(&self) -> &'static str {
        ARTIFACTS_MEANING
    }

    fn space_category(&self) -> SpaceCategory {
        SpaceCategory::BuildArtifact
    }

    fn available(&self) -> bool {
        self.scan.is_some()
    }

    fn advisories(&self) -> Vec<Advisory> {
        Vec::new()
    }

    fn candidates(&self, cancelled: bool) -> Result<Vec<Candidate>> {
        if let Err(e) = check_flag(cancelled) {
            return Err(e);
        }
        let mut out: Vec<Candidate> = Vec::new();
        assert(candidate_texts(out@) =~= Seq::<CandidateText>::empty());
        let entries = match &self.scan {
            Some(v) => v,
            None => {
                return Ok(out);
            },
        };
        let mut i: usize = 0;
        assert(entries@.take(0) =~= Seq::<ScanEntry>::empty());
        while i < entries.len()
            invariant
                i <= entries@.len(),
                candidate_texts(out@) == entry_offers(entries@.take(i as int)),
            decreases entries@.len() - i,
        {
            assert(entries@.take(i + 1).drop_last() =~= entries@.take(i as int));
            if let Some(c) = offer_entry(&entries[i]) {
                let ghost before = candidate_texts(out@);
                out.push(c);
                assert(candidate_texts(out@) =~= before.push(candidate_text(c)));
            }
            i = i + 1;
        }
        assert(entries@.take(i as int) =~= entries@);
        Ok(largest_first(out))
    }
}

// ---------------------------------------------------------------------------
// Package stores
// ---------------------------------------------------------------------------

/// A package manager's store outside the user's cache directory.
#[derive(Debug, Clone, Copy)]
pub struct Store {
    /// Path below the home directory.
    pub relative: &'static str,
    pub tool: &'static str,
    pub cost: &'static str,
}

/// What some stores say: path, tool and cost.
pub open spec fn store_texts(v: Seq<Store>) -> Seq<(Seq<char>, Seq<char>, Seq<char>)> {
    v.map_values(|s: Store| (s.relative@, s.tool@, s.cost@))
}

/// The stores worth offering. None is below the user's cache directory, so
/// that none is counted twice.
pub open spec fn store_table() -> Seq<(Seq<char>, Seq<char>, Seq<char>)> {
    seq![
        (".npm/_cacache"@, "npm"@, "npm will re-download packages it had kept locally."@),
        (".cargo/registry/cache"@, "Cargo"@, "Cargo will re-download crate archives."@),
        (".cargo/registry/src"@, "Cargo"@, "Cargo will re-extract crate sources from its archives, or re-download them."@),
        (".cargo/git/db"@, "Cargo"@, "Cargo will re-clone git dependencies."@),
        (".gradle/caches"@, "Gradle"@, "Gradle will re-download dependencies and rebuild its caches."@),
        (".m2/repository"@, "Maven"@, "Maven will re-download every dependency it had cached."@),
        ("go/pkg/mod"@, "Go"@, "Go will re-download modules. Note it makes them read-only, so removal may need care."@),
        (".local/share/pnpm/store"@, "pnpm"@, "pnpm will re-download packages. Projects using its store will need reinstalling."@),
    ]
}

/// The stores worth offering.
pub fn stores() -> (r: Vec<Store>)
    ensures
        store_texts(r@) == store_table(),
{
    let r = vec![
        Store {
            relative: ".npm/_cacache",
            tool: "npm",
            cost: "npm will re-download packages it had kept locally.",
        },
        Store {
            relative: ".cargo/registry/cache",
            tool: "Cargo",
            cost: "Cargo will re-download crate archives.",
        },
        Store {
            relative: ".cargo/registry/src",
            tool: "Cargo",
            cost: "Cargo will re-extract crate sources from its archives, or re-download them.",
        },
        Store {
            relative: ".cargo/git/db",
            tool: "Cargo",
            cost: "Cargo will re-clone git dependencies.",
        },
        Store {
            relative: ".gradle/caches",
            tool: "Gradle",
            cost: "Gradle will re-download dependencies and rebuild its caches.",
        },
        Store {
            relative: ".m2/repository",
            tool: "Maven",
            cost: "Maven will re-download every dependency it had cached.",
        },
        Store {
            relative: "go/pkg/mod",
            tool: "Go",
            cost: "Go will re-download modules. Note it makes them read-only, so removal may need care.",
        },
        Store {
            relative: ".local/share/pnpm/store",
            tool: "pnpm",
            cost: "pnpm will re-download packages. Projects using its store will need reinstalling.",
        },
    ];
    assert(store_texts(r@) =~= store_table());
    r
}

/// What was seen of a store.
#[derive(Debug, Clone, Copy, PartialEq, Eq, Structural)]
pub struct StoreFact {
    /// Whether there is a directory.
    pub directory: bool,
    /// What a scan says that it takes, where one knows.
    pub cached: Option<u64>,
    /// What walking it finds that it takes, where no scan knows.
    pub measured: u64,
}

/// What a store takes: nothing where there is none.
pub open spec fn store_bytes(f: StoreFact) -> u64 {
    if !f.directory {
        0
    } else {
        match f.cached {
            Some(n) => n,
            None => f.measured,
        }
    }
}

/// The offer to reclaim a store.
pub open spec fn store_offer(
    home: Seq<char>,
    store: (Seq<char>, Seq<char>, Seq<char>),
    bytes: u64,
) -> CandidateText {
    CandidateText {
        path: joined(home, store.0),
        label: store.1 + " store"@,
        bytes,
        safety: Safety::Review,
        method: MethodText::MoveToTrash(joined(home, store.0)),
        cost: Some(store.2),
        category: "package_stores"@,
        reclaimable: PromiseText::Exact,
    }
}

/// What is offered of some stores, in order: each that takes space.
pub open spec fn store_offers(
    home: Seq<char>,
    all: Seq<(Seq<char>, Seq<char>, Seq<char>)>,
    seen: Seq<StoreFact>,
) -> Seq<CandidateText>
    decreases all.len(),
{
    if all.len() == 0 {
        Seq::empty()
    } else {
        let rest = store_offers(home, all.drop_last(), seen);
        if all.len() <= seen.len() && store_bytes(seen[all.len() - 1]) > 0 {
            rest.push(store_offer(home, all.last(), store_bytes(seen[all.len() - 1])))
        } else {
            rest
        }
    }
}

fn offer_store(home: &str, store: &Store, bytes: u64) -> (r: Candidate)
    ensures
        candidate_text(r) == store_offer(
            home@,
            (store.relative@, store.tool@, store.cost@),
            bytes,
        ),
{
    let path = join(home, store.relative);
    let mut label = store.tool.to_owned();
    label.append(" store");
    Candidate {
        path: path.as_str().to_owned(),
        label,
        bytes,
        safety: Safety::Review,
        method: ReclaimMethod::MoveToTrash { path },
        cost: Some(store.cost.to_owned()),
        category: "package_stores".to_owned(),
        reclaimable: Reclaimable::Exact,
    }
}

/// What the category of package stores holds.
pub const STORES_MEANING: &'static str =
    "Downloaded packages and metadata kept by pnpm, npm, cargo and pip so a second install is instant. Refetched on the next install, which needs a network connection.";

/// Package stores, with what was seen of each.
#[derive(Debug, Clone)]
pub struct PackageStoreCategory {
    home: Option<String>,
    seen: Vec<StoreFact>,
}

impl PackageStoreCategory {
    /// The home directory, where there is one.
    pub closed spec fn root(&self) -> Option<Seq<char>> {
        opt_text(self.home)
    }

    /// What was seen of each store, in the order of the table.
    pub closed spec fn facts(&self) -> Seq<StoreFact> {
        self.seen@
    }

    /// A category without a home directory.
    pub fn new() -> (r: Self)
        ensures
            r.root() is None,
            r.facts() == Seq::<StoreFact>::empty(),
    {
        PackageStoreCategory { home: None, seen: Vec::new() }
    }

    /// A category over a home directory, with what was seen of each store.
    pub fn rooted_at(home: String, seen: Vec<StoreFact>) -> (r: Self)
        ensures
            r.root() == Some(home@),
            r.facts() == seen@,
    {
        PackageStoreCategory { home: Some(home), seen }
    }
}

impl Default for PackageStoreCategory {
    fn default() -> (r: Self)
        ensures
            r.root() is None,
            r.facts() == Seq::<StoreFact>::empty(),
    {
        PackageStoreCategory::new()
    }
}

impl Category for PackageStoreCategory {
    open spec fn ident(&self) -> Seq<char> {
        "package_stores"@
    }

    open spec fn title(&self) -> Seq<char> {
        "Package manager stores"@
    }

    open spec fn meaning(&self) -> Seq<char> {
        STORES_MEANING@
    }

    open spec fn kind(&self) -> SpaceCategory {
        SpaceCategory::PackageCache
    }

    open spec fn usable(&self) -> bool {
        self.root() is Some
    }

    open spec fn proposes(&self, cancelled: bool, r: Result<Vec<Candidate>>) -> bool {
        if cancelled {
            stopped(r)
        } else {
            match self.root() {
                Some(home) => offers(
                    r,
                    in_order(store_offers(home, store_table(), self.facts())),
                ),
                None => offers(r, Seq::empty()),
            }
        }
    }

    open spec fn advises(&self, r: Seq<Advisory>) -> bool {
        r.len() == 0
    }

    fn id(&self) -> &'static str {
        "package_stores"
    }

    fn label(&self) -> &'static str {
        "Package manager stores"
    }

    fn explains(&self) -> &'static str {
        STORES_MEANING
    }

    fn space_category(&self) -> SpaceCategory {
        SpaceCategory::PackageCache
    }

    fn available(&self) -> bool {
        self.home.is_some()
    }

    fn advisories(&self) -> Vec<Advisory> {
        Vec::new()
    }

    fn candidates(&self, cancelled: bool) -> Result<Vec<Candidate>> {
        if let Err(e) = check_flag(cancelled) {
            return Err(e);
        }
        let mut out: Vec<Candidate> = Vec::new();
        assert(candidate_texts(out@) =~= Seq::<CandidateText>::empty());
        let home = match &self.home {
            Some(h) => h.as_str(),
            None => {
                return Ok(out);
            },
        };
        let known = stores();
        let ghost all = store_texts(known@);
        let mut i: usize = 0;
        assert(all.take(0) =~= Seq::<(Seq<char>, Seq<char>, Seq<char>)>::empty());
        while i < known.len()
            invariant
                i <= known@.len(),
                all == store_texts(known@),
                all == store_table(),
                candidate_texts(out@) == store_offers(home@, all.take(i as int), self.seen@),
            decreases known@.len() - i,
        {
            assert(all.take(i + 1).drop_last() =~= all.take(i as int));
            if i < self.seen.len() && self.seen[i].directory {
                let bytes: u64 = match self.seen[i].cached {
                    Some(n) => n,
                    None => self.seen[i].measured,
                };
                if bytes > 0 {
                    let ghost before = candidate_texts(out@);
                    let c = offer_store(home, &known[i], bytes);
                    out.push(c);
                    assert(candidate_texts(out@) =~= before.push(candidate_text(c)));
                }
            }
            i = i + 1;
        }
        assert(all.take(i as int) =~= all);
        Ok(largest_first(out))
    }
}

/// A directory is never recognised by its name where source may have that
/// name: whatever vouches for it is a file that is there.
pub proof fn law_a_name_alone_vouches_for_nothing(
    path: Seq<char>,
    beside: Seq<Seq<char>>,
    inside: Seq<Seq<char>>,
)
    requires
        vouched(path, beside, inside) is Some,
    ensures
        file_name_of(path) matches Some(name) && definition(name) matches Some(d) && (d.beside.len()
            + d.inside.len() == 0 || beside.contains((vouched(path, beside, inside)->0).1)
            || inside.contains((vouched(path, beside, inside)->0).1)),
{
    let d = definition(file_name_of(path)->0)->0;
    lemma_first_present(d.beside, beside);
    lemma_first_present(d.inside, inside);
}

/// No artifact is ever rated safe, and each states its cost.
pub proof fn law_no_artifact_is_safe(all: Seq<ScanEntry>, i: int)
    requires
        0 <= i < entry_offers(all).len(),
    ensures
        entry_offers(all)[i].safety == Safety::Review,
        entry_offers(all)[i].cost is Some,
    decreases all.len(),
{
    if i < entry_offers(all.drop_last()).len() {
        law_no_artifact_is_safe(all.drop_last(), i);
        assert(entry_offers(all)[i] == entry_offers(all.drop_last())[i]);
    }
}

/// No store is ever rated safe, and each that is offered takes space and
/// states its cost.
pub proof fn law_no_store_is_safe(
    home: Seq<char>,
    all: Seq<(Seq<char>, Seq<char>, Seq<char>)>,
    seen: Seq<StoreFact>,
    i: int,
)
    requires
        0 <= i < store_offers(home, all, seen).len(),
    ensures
        store_offers(home, all, seen)[i].safety == Safety::Review,
        store_offers(home, all, seen)[i].cost is Some,
        store_offers(home, all, seen)[i].bytes > 0,
    decreases all.len(),
{
    if i < store_offers(home, all.drop_last(), seen).len() {
        law_no_store_is_safe(home, all.drop_last(), seen, i);
        assert(store_offers(home, all, seen)[i] == store_offers(home, all.drop_last(), seen)[i]);
    }
}

proof fn lemma_definition_in(table: Seq<ArtifactText>, name: Seq<char>)
    ensures
        match definition_in(table, name) {
            Some(d) => table.contains(d) && d.dir == name,
            None => forall|i: int| 0 <= i < table.len() ==> (#[trigger] table[i]).dir != name,
        },
    decreases table.len(),
{
    if table.len() > 0 {
        if table[0].dir != name {
            let rest = table.skip(1);
            lemma_definition_in(rest, name);
            match definition_in(rest, name) {
                Some(d) => {
                    let i = choose|i: int| 0 <= i < rest.len() && rest[i] == d;
                    assert(table[i + 1] == d);
                },
                None => {
                    assert forall|i: int| 0 <= i < table.len() implies (#[trigger] table[i]).dir
                        != name by {
                        if i > 0 {
                            assert(rest[i - 1] == table[i]);
                        }
                    }
                },
            }
        } else {
            assert(table[0] == definition_in(table, name)->0);
        }
    }
}

proof fn lemma_first_present(markers: Seq<Seq<char>>, present: Seq<Seq<char>>)
    ensures
        match first_present(markers, present) {
            Some(m) => markers.contains(m) && present.contains(m),
            None => forall|i: int|
                0 <= i < markers.len() ==> !present.contains(#[trigger] markers[i]),
        },
    decreases markers.len(),
{
    if markers.len() > 0 {
        if !present.contains(markers[0]) {
            let rest = markers.skip(1);
            lemma_first_present(rest, present);
            match first_present(rest, present) {
                Some(m) => {
                    let i = choose|i: int| 0 <= i < rest.len() && rest[i] == m;
                    assert(markers[i + 1] == m);
                },
                None => {
                    assert forall|i: int| 0 <= i < markers.len() implies !present.contains(
                        #[trigger] markers[i],
                    ) by {
                        if i > 0 {
                            assert(rest[i - 1] == markers[i]);
                        }
                    }
                },
            }
        } else {
            assert(markers[0] == first_present(markers, present)->0);
        }
    }
}

/// What vouches for a directory: a marker of its own definition, beside it or
/// inside it, where the definition has any; and whatever has such a marker is
/// recognised.
pub proof fn law_what_vouches_for_an_artifact(
    path: Seq<char>,
    beside: Seq<Seq<char>>,
    inside: Seq<Seq<char>>,
    name: Seq<char>,
    d: ArtifactText,
)
    requires
        file_name_of(path) == Some(name),
        definition(name) == Some(d),
    ensures
        d.dir == name,
        artifact_table().contains(d),
        (vouched(path, beside, inside) is Some) <==> {
            ||| d.beside.len() == 0 && d.inside.len() == 0
            ||| exists|m: Seq<char>| d.beside.contains(m) && #[trigger] beside.contains(m)
            ||| exists|m: Seq<char>| d.inside.contains(m) && #[trigger] inside.contains(m)
        },
        vouched(path, beside, inside) matches Some(v) ==> v.0 == d.tool,
{
    lemma_definition_in(artifact_table(), name);
    lemma_first_present(d.beside, beside);
    lemma_first_present(d.inside, inside);
    if exists|m: Seq<char>| d.beside.contains(m) && #[trigger] beside.contains(m) {
        let m = choose|m: Seq<char>| d.beside.contains(m) && #[trigger] beside.contains(m);
        let i = choose|i: int| 0 <= i < d.beside.len() && d.beside[i] == m;
        assert(beside.contains(d.beside[i]));
    }
    if exists|m: Seq<char>| d.inside.contains(m) && #[trigger] inside.contains(m) {
        let m = choose|m: Seq<char>| d.inside.contains(m) && #[trigger] inside.contains(m);
        let i = choose|i: int| 0 <= i < d.inside.len() && d.inside[i] == m;
        assert(inside.contains(d.inside[i]));
    }
}

/// A name that people give to directories of their own is never enough: each
/// such name wants a marker of the tool that generates it.
pub proof fn law_ordinary_names_need_a_marker(name: Seq<char>, d: ArtifactText)
    requires
        definition(name) == Some(d),
    ensures
        name == "target"@ ==> d.beside == seq!["Cargo.toml"@] && d.inside.len() == 0,
        name == "node_modules"@ ==> d.beside == seq!["package.json"@] && d.inside.len() == 0,
        name == "build"@ || name == "dist"@ || name == "_build"@ ==> d.beside.len() > 0,
        name == "venv"@ || name == ".venv"@ ==> d.inside == seq!["pyvenv.cfg"@] && d.beside.len()
            == 0,
        d.beside.len() == 0 && d.inside.len() == 0 ==> name == "__pycache__"@ || name
            == ".mypy_cache"@ || name == ".pytest_cache"@ || name == ".ruff_cache"@,
{
    lemma_definition_in(artifact_table(), name);
    reveal_strlit("target");
    reveal_strlit("node_modules");
    reveal_strlit(".next");
    reveal_strlit(".nuxt");
    reveal_strlit(".dart_tool");
    reveal_strlit("build");
    reveal_strlit("dist");
    reveal_strlit("_build");
    reveal_strlit(".venv");
    reveal_strlit("venv");
    reveal_strlit("__pycache__");
    reveal_strlit(".mypy_cache");
    reveal_strlit(".pytest_cache");
    reveal_strlit(".ruff_cache");
    reveal_strlit(".tox");
    let k = choose|k: int| 0 <= k < artifact_table().len() && artifact_table()[k] == d;
    assert(0 <= k < 15);
    assert("target"@.len() == 6 && "target"@[0] == 't');
    assert("node_modules"@.len() == 12 && "node_modules"@[0] == 'n');
    assert(".next"@.len() == 5 && ".next"@[1] == 'n' && ".next"@[2] == 'e');
    assert(".nuxt"@.len() == 5 && ".nuxt"@[1] == 'n' && ".nuxt"@[2] == 'u');
    assert(".dart_tool"@.len() == 10);
    assert("build"@.len() == 5 && "build"@[0] == 'b');
    assert("dist"@.len() == 4 && "dist"@[0] == 'd');
    assert("_build"@.len() == 6 && "_build"@[0] == '_');
    assert(".venv"@.len() == 5 && ".venv"@[1] == 'v');
    assert("venv"@.len() == 4 && "venv"@[0] == 'v');
    assert("__pycache__"@.len() == 11 && "__pycache__"@[0] == '_');
    assert(".mypy_cache"@.len() == 11 && ".mypy_cache"@[0] == '.' && ".mypy_cache"@[1] == 'm');
    assert(".pytest_cache"@.len() == 13);
    assert(".ruff_cache"@.len() == 11 && ".ruff_cache"@[1] == 'r');
    assert(".tox"@.len() == 4 && ".tox"@[0] == '.');
}

/// An artifact is offered where it was scanned as a directory, is still one,
/// and something vouches for it: for what it takes, and moved to the trash by
/// its own path. Nothing else is.
pub proof fn law_which_artifacts_are_offered(e: ScanEntry)
    ensures
        entry_offer(e) matches Some(c) ==> {
            &&& e.directory
            &&& e.still_there
            &&& e.path matches Some(path)
            &&& vouched(path@, texts(e.beside@), texts(e.inside@)) is Some
            &&& c.path == path@
            &&& c.method == MethodText::MoveToTrash(path@)
            &&& c.bytes == e.allocated
            &&& c.safety == Safety::Review
            &&& c.reclaimable is Exact
        },
        e.directory && e.still_there && (e.path matches Some(path) && vouched(
            path@,
            texts(e.beside@),
            texts(e.inside@),
        ) is Some) ==> entry_offer(e) is Some,
{
}

/// Each entry of a scan that is an artifact adds its own offer.
pub proof fn law_every_artifact_is_offered(all: Seq<ScanEntry>, e: ScanEntry)
    ensures
        entry_offer(e) matches Some(c) ==> entry_offers(all.push(e)) == entry_offers(all).push(c),
        entry_offer(e) is None ==> entry_offers(all.push(e)) == entry_offers(all),
{
    assert(all.push(e).drop_last() =~= all);
}

/// A store is offered at its own place in the home directory, moved to the
/// trash from there, for what a scan knows that it takes, or for what walking
/// it found where none does; and only where there is a directory.
pub proof fn law_which_stores_are_offered(
    home: Seq<char>,
    all: Seq<(Seq<char>, Seq<char>, Seq<char>)>,
    store: (Seq<char>, Seq<char>, Seq<char>),
    seen: Seq<StoreFact>,
)
    requires
        all.len() < seen.len(),
    ensures
        ({
            let f = seen[all.len() as int];
            let bytes = if let Some(n) = f.cached {
                n
            } else {
                f.measured
            };
            let more = store_offers(home, all.push(store), seen);
            if f.directory && bytes > 0 {
                &&& more.len() == store_offers(home, all, seen).len() + 1
                &&& more.drop_last() == store_offers(home, all, seen)
                &&& more.last().path == joined(home, store.0)
                &&& more.last().method == MethodText::MoveToTrash(joined(home, store.0))
                &&& more.last().bytes == bytes
                &&& more.last().cost == Some(store.2)
            } else {
                more == store_offers(home, all, seen)
            }
        }),
{
    assert(all.push(store).drop_last() =~= all);
    let before = store_offers(home, all, seen);
    let f = seen[all.len() as int];
    assert(before.push(store_offer(home, store, store_bytes(f))).drop_last() =~= before);
}

/// Whether a scan has, at a path, a directory that is still there and that
/// something vouches for, and that takes this much.
pub open spec fn is_vouched_directory(all: Seq<ScanEntry>, path: Seq<char>, bytes: u64) -> bool {
    exists|k: int|
        0 <= k < all.len() && opt_text((#[trigger] all[k]).path) == Some(path) && all[k].directory
            && all[k].still_there && all[k].allocated == bytes && vouched(
            path,
            texts(all[k].beside@),
            texts(all[k].inside@),
        ) is Some
}

/// What is offered of a scan is directories that something vouches for, each
/// moved to the trash by its own path and for what it takes.
pub proof fn law_only_vouched_directories_are_named(
    c: BuildArtifactCategory,
    all: Seq<ScanEntry>,
    r: Result<Vec<Candidate>>,
    v: Vec<Candidate>,
    i: int,
)
    requires
        call_ensures(<BuildArtifactCategory as Category>::candidates, (&c, false), r),
        r == Ok::<Vec<Candidate>, AppError>(v),
        c.scanned() == Some(all),
        0 <= i < v@.len(),
    ensures
        v@[i].method matches ReclaimMethod::MoveToTrash { path } && path@ == v@[i].path@
            && is_vouched_directory(all, path@, v@[i].bytes),
        v@[i].safety == Safety::Review,
{
    let found = entry_offers(all);
    law_what_is_offered_is_returned(v, in_order(found));
    law_a_candidate_is_what_its_view_says(v@[i]);
    crate::order::law_sorting_keeps_every_element(found);
    found.to_multiset_ensures();
    in_order(found).to_multiset_ensures();
    let x = in_order(found)[i];
    assert(in_order(found).contains(x));
    assert(in_order(found).to_multiset().count(x) == found.to_multiset().count(x));
    let j = choose|j: int| 0 <= j < found.len() && found[j] == x;
    let k = lemma_offered_entry(all, j);
    assert(opt_text(all[k].path) == Some(v@[i].path@));
}

proof fn lemma_offered_entry(all: Seq<ScanEntry>, i: int) -> (k: int)
    requires
        0 <= i < entry_offers(all).len(),
    ensures
        0 <= k < all.len(),
        entry_offer(all[k]) == Some(entry_offers(all)[i]),
    decreases all.len(),
{
    if i < entry_offers(all.drop_last()).len() {
        lemma_offered_entry(all.drop_last(), i)
    } else {
        all.len() - 1
    }
}

} // verus!
