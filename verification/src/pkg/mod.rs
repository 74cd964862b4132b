//! Package managers: what is installed, what it takes on disk, and what
//! removing it would do.
//!
//! A manager records a size for each package; walking the package's files
//! gives another. The two are different figures, and neither replaces the
//! other.
use std::collections::HashSet;
use vstd::prelude::*;
use vstd::string::*;
use crate::caps::{Capabilities, Capability};
use crate::decimal::{parse_scaled, scaled_number};
use crate::double::capped;
use crate::error::{plain_error, AppError, Cause, ErrorCode, Result};
use crate::space::Manager;
use dpkg::{residual_texts, Leftover};
use crate::text::{lossy_text, opt_text, remove_char, texts, trim, trimmed, utf8_lossy, without};

pub mod dpkg;
pub mod flatpak;
pub mod pacman;
pub mod rpm;
pub mod snap;
pub mod store;

verus! {

broadcast use {vstd::std_specs::hash::group_hash_axioms, vstd::string::group_string_axioms};

/// What walking a package's own file list found on disk.
#[derive(Debug, Clone, Copy, PartialEq, Eq, Structural)]
pub struct Measured {
    /// Bytes the files contain.
    pub apparent_bytes: u64,
    /// Bytes the filesystem has committed. This is what removal gives back.
    pub disk_bytes: u64,
    /// Regular files counted, each distinct one once.
    pub files: u32,
    /// Directories in the list, which are not measured: they belong to no
    /// single package.
    pub directories: u32,
    /// Paths that could not be read, which make the figures a floor.
    pub unreadable: u32,
}

impl Measured {
    /// Bytes spent on block allocation rather than content. None where a
    /// sparse file takes less than it contains.
    pub fn block_overhead(&self) -> (r: u64)
        ensures
            r == if self.disk_bytes > self.apparent_bytes {
                (self.disk_bytes - self.apparent_bytes) as u64
            } else {
                0
            },
    {
        if self.disk_bytes > self.apparent_bytes {
            self.disk_bytes - self.apparent_bytes
        } else {
            0
        }
    }

    /// Whether every path in the list was accounted for.
    pub fn is_complete(&self) -> (r: bool)
        ensures
            r == (self.unreadable == 0),
    {
        self.unreadable == 0
    }
}

/// One installed package.
#[derive(Debug, PartialEq, Eq)]
pub struct Package {
    /// The package's identity, qualified by architecture where the manager
    /// qualifies.
    pub id: String,
    pub name: String,
    /// Architecture as the manager names it; empty where it has no such
    /// concept.
    pub arch: String,
    pub version: String,
    /// One-line description.
    pub summary: String,
    /// Size the package database records, in bytes.
    pub recorded_bytes: u64,
    /// What walking the files found, where that was asked for.
    pub measured: Option<Measured>,
    /// When the package last changed, in seconds since the epoch.
    pub changed_at: Option<u64>,
    /// Whether the user asked for this, as opposed to it arriving as a
    /// dependency.
    pub explicit: bool,
    pub manager: Manager,
}

impl Clone for Package {
    fn clone(&self) -> (r: Self)
        ensures
            r == *self,
    {
        Package {
            id: self.id.clone(),
            name: self.name.clone(),
            arch: self.arch.clone(),
            version: self.version.clone(),
            summary: self.summary.clone(),
            recorded_bytes: self.recorded_bytes,
            measured: self.measured,
            changed_at: self.changed_at,
            explicit: self.explicit,
            manager: self.manager,
        }
    }
}

/// A package with its texts.
pub struct PackageText {
    pub id: Seq<char>,
    pub name: Seq<char>,
    pub arch: Seq<char>,
    pub version: Seq<char>,
    pub summary: Seq<char>,
    pub recorded_bytes: u64,
    pub measured: Option<Measured>,
    pub changed_at: Option<u64>,
    pub explicit: bool,
    pub manager: Manager,
}

/// What a package says.
pub open spec fn package_text(p: Package) -> PackageText {
    PackageText {
        id: p.id@,
        name: p.name@,
        arch: p.arch@,
        version: p.version@,
        summary: p.summary@,
        recorded_bytes: p.recorded_bytes,
        measured: p.measured,
        changed_at: p.changed_at,
        explicit: p.explicit,
        manager: p.manager,
    }
}

/// What some packages say.
pub open spec fn package_texts(v: Seq<Package>) -> Seq<PackageText> {
    v.map_values(|p: Package| package_text(p))
}

/// How an identity is spelled: `name:arch`, or a bare name where there is no
/// architecture.
pub open spec fn identity_of(name: Seq<char>, arch: Seq<char>) -> Seq<char> {
    if arch.len() == 0 {
        name
    } else {
        name + ":"@ + arch
    }
}

/// A package that has been neither measured nor dated.
pub open spec fn plain_package(
    name: Seq<char>,
    arch: Seq<char>,
    version: Seq<char>,
    summary: Seq<char>,
    recorded_bytes: u64,
    explicit: bool,
    manager: Manager,
) -> PackageText {
    PackageText {
        id: identity_of(name, arch),
        name,
        arch,
        version,
        summary,
        recorded_bytes,
        measured: None,
        changed_at: None,
        explicit,
        manager,
    }
}

impl Package {
    /// A package with the identity that its name and architecture give it.
    pub fn new(
        name: String,
        arch: String,
        version: String,
        summary: String,
        recorded_bytes: u64,
        explicit: bool,
        manager: Manager,
    ) -> (r: Self)
        ensures
            package_text(r) == plain_package(
                name@,
                arch@,
                version@,
                summary@,
                recorded_bytes,
                explicit,
                manager,
            ),
    {
        Package {
            id: Package::identity(name.as_str(), arch.as_str()),
            name,
            arch,
            version,
            summary,
            recorded_bytes,
            measured: None,
            changed_at: None,
            explicit,
            manager,
        }
    }

    /// How an identity is spelled.
    pub fn identity(name: &str, arch: &str) -> (r: String)
        ensures
            r@ == identity_of(name@, arch@),
    {
        let mut out = name.to_owned();
        if !arch.is_empty() {
            out.append(":");
            out.append(arch);
        }
        out
    }

    /// The size to show: what was measured, or else what the manager records.
    pub fn display_bytes(&self) -> (r: u64)
        ensures
            r == match self.measured {
                Some(m) => m.disk_bytes,
                None => self.recorded_bytes,
            },
    {
        match self.measured {
            Some(m) => m.disk_bytes,
            None => self.recorded_bytes,
        }
    }

    /// How far the manager's figure is from the space actually committed,
    /// once measured. Signed, since the figure may be wrong either way.
    pub fn recorded_error(&self) -> (r: Option<i64>)
        ensures
            r == match self.measured {
                Some(m) => if m.disk_bytes <= i64::MAX && self.recorded_bytes <= i64::MAX {
                    Some((m.disk_bytes - self.recorded_bytes) as i64)
                } else {
                    None
                },
                None => None,
            },
    {
        match self.measured {
            Some(m) => if m.disk_bytes <= i64::MAX as u64 && self.recorded_bytes <= i64::MAX as u64 {
                Some(m.disk_bytes as i64 - self.recorded_bytes as i64)
            } else {
                None
            },
            None => None,
        }
    }
}

/// A package removed with its configuration left behind.
#[derive(Debug, Clone, PartialEq, Eq)]
pub struct ResidualConfig {
    pub name: String,
    pub bytes: u64,
}

/// What removing a set of packages would actually do.
#[derive(Debug, Clone, PartialEq, Eq)]
pub struct RemovalPreview {
    /// Packages that would be removed, consequences counted in.
    pub removing: Vec<String>,
    /// Bytes the manager expects to free.
    pub freed_bytes: u64,
    /// Packages the manager would install or upgrade for the removal.
    pub installing: Vec<String>,
}

/// Whether a preview says that nothing would happen.
pub open spec fn empty_preview(p: RemovalPreview) -> bool {
    p.removing@.len() == 0 && p.freed_bytes == 0 && p.installing@.len() == 0
}

impl Default for RemovalPreview {
    fn default() -> (r: Self)
        ensures
            empty_preview(r),
    {
        RemovalPreview { removing: Vec::new(), freed_bytes: 0, installing: Vec::new() }
    }
}

// ---------------------------------------------------------------------------
// Asking a manager
// ---------------------------------------------------------------------------

/// A read-only command: the program and its arguments.
#[derive(Debug, Clone, PartialEq, Eq)]
pub struct Query {
    pub program: &'static str,
    pub args: Vec<String>,
}

/// How a package manager is asked, and how its answers are read. Asking is
/// left to the caller.
pub trait Backend {
    /// Which manager this is.
    spec fn who(&self) -> Manager;

    /// The tool that it needs.
    spec fn needs(&self) -> Capability;

    /// The command that lists what is installed: program and arguments.
    spec fn listing(&self) -> (Seq<char>, Seq<Seq<char>>);

    /// What the answer to that says.
    spec fn listed(&self, output: Seq<char>) -> Seq<PackageText>;

    /// The command that simulates a removal: program, and the arguments
    /// before the names.
    spec fn simulation(&self) -> (Seq<char>, Seq<Seq<char>>);

    /// Whether `r` is what the answer to that says.
    spec fn simulated(&self, output: Seq<char>, r: RemovalPreview) -> bool;

    /// What removed packages left behind, name and bytes, given what is at
    /// their configuration files.
    spec fn left_behind(&self, all: Seq<Leftover>) -> Seq<(Seq<char>, u64)>;

    /// Whether `r` is what a package measures, given what is at the paths
    /// that it lists, where it has such a list.
    spec fn measures(
        &self,
        id: Seq<char>,
        facts: Option<Seq<PathFact>>,
        r: Result<Measured>,
    ) -> bool;

    /// Which manager this is.
    fn manager(&self) -> (r: Manager)
        ensures
            r == self.who(),
    ;

    /// Whether this manager can be asked on a machine. By capability, never
    /// by distribution.
    fn available(&self, caps: &Capabilities) -> (r: bool)
        ensures
            r == caps.found@.contains(self.needs()),
    ;

    /// The command that lists what is installed.
    fn installed_query(&self) -> (r: Query)
        ensures
            r.program@ == self.listing().0,
            texts(r.args@) == self.listing().1,
    ;

    /// Every installed package with its recorded size, from the answer.
    fn installed(&self, output: &str) -> (r: Vec<Package>)
        ensures
            package_texts(r@) == self.listed(output@),
    ;

    /// The command that says what removing some packages would do. None
    /// where there is nothing to remove: then nothing is asked.
    fn removal_query(&self, names: &Vec<String>) -> (r: Option<Query>)
        ensures
            match r {
                Some(q) => names@.len() > 0 && q.program@ == self.simulation().0 && texts(q.args@)
                    == self.simulation().1 + texts(names@),
                None => names@.len() == 0,
            },
    ;

    /// What removing them would do, from the answer; nothing where nothing
    /// was asked.
    fn removal_preview(&self, output: Option<&str>) -> (r: RemovalPreview)
        ensures
            match output {
                Some(t) => self.simulated(t@, r),
                None => empty_preview(r),
            },
    ;

    /// Configuration left behind by removed packages. A manager that knows
    /// of none has none to tell of.
    fn residual_config(&self, all: &Vec<Leftover>) -> (r: Vec<ResidualConfig>)
        ensures
            residual_texts(r@) == self.left_behind(all@),
    ;

    /// What is on disk of one package, by its identity.
    fn measure(&self, id: &str, facts: Option<&Vec<PathFact>>) -> (r: Result<Measured>)
        ensures
            self.measures(id@, facts_of(facts), r),
    ;
}

/// What is at some paths, where they are known.
pub open spec fn facts_of(facts: Option<&Vec<PathFact>>) -> Option<Seq<PathFact>> {
    match facts {
        Some(v) => Some(v@),
        None => None,
    }
}

/// What a manager says that cannot list a package's files.
pub const UNLISTABLE: &'static str = "This package manager cannot list a package's files.";

/// Whether `r` says that a package's files cannot be listed.
pub open spec fn unlistable(r: Result<Measured>) -> bool {
    r matches Err(e) && plain_error(e, ErrorCode::Unsupported, UNLISTABLE@)
}

/// The answer of a manager that cannot list a package's files.
pub fn cannot_list() -> (r: Result<Measured>)
    ensures
        unlistable(r),
{
    Err(AppError::new(ErrorCode::Unsupported, UNLISTABLE.to_owned()))
}

/// Some fixed arguments, as strings.
pub(crate) fn owned_args(args: &Vec<&str>) -> (r: Vec<String>)
    ensures
        texts(r@) == Seq::new(args@.len(), |i: int| args@[i]@),
{
    let ghost wanted = Seq::new(args@.len(), |i: int| args@[i]@);
    let mut out: Vec<String> = Vec::new();
    let mut i: usize = 0;
    while i < args.len()
        invariant
            i <= args@.len(),
            wanted == Seq::new(args@.len(), |i: int| args@[i]@),
            texts(out@) == wanted.take(i as int),
        decreases args@.len() - i,
    {
        let ghost before = texts(out@);
        out.push(args[i].to_owned());
        assert(texts(out@) =~= before.push(args@[i as int]@));
        assert(wanted.take(i + 1) =~= before.push(args@[i as int]@));
        i = i + 1;
    }
    assert(wanted.take(i as int) =~= wanted);
    out
}

/// Some fixed arguments with names behind them, where there are names.
pub(crate) fn with_names(program: &'static str, args: &Vec<&str>, names: &Vec<String>) -> (r: Option<
    Query,
>)
    ensures
        match r {
            Some(q) => names@.len() > 0 && q.program == program && texts(q.args@) == Seq::new(
                args@.len(),
                |i: int| args@[i]@,
            ) + texts(names@),
            None => names@.len() == 0,
        },
{
    if names.len() == 0 {
        return None;
    }
    let mut all = owned_args(args);
    let mut rest = crate::text::copy_strings(names);
    let ghost front = texts(all@);
    let ghost back = texts(rest@);
    all.append(&mut rest);
    assert(texts(all@) =~= front + back);
    Some(Query { program, args: all })
}

/// What came of running a command.
#[derive(Debug)]
pub enum Ran {
    /// It could not be started, and this is why.
    NotStarted(AppError),
    /// It ran to its end.
    Ended { success: bool, status: Option<i32>, stdout: Vec<u8>, stderr: Vec<u8> },
}

/// What to do about a program that cannot be started.
pub open spec fn install_remedy(program: Seq<char>) -> Seq<char> {
    "Check that "@ + program + " is installed and on PATH."@
}

/// Whether `r` is what is read of a command that was run. One that could not
/// be started is an error; so is one that failed, unless its output is read
/// whatever the status.
pub open spec fn is_read(
    program: Seq<char>,
    whatever_status: bool,
    ran: Ran,
    r: Result<String>,
) -> bool {
    match ran {
        Ran::NotStarted(error) => r matches Err(e) && opt_text(e.remedy) == Some(
            install_remedy(program),
        ) && e == (AppError { remedy: e.remedy, ..error }),
        Ran::Ended { success, status, stdout, stderr } => if success || whatever_status {
            r matches Ok(text) && text@ == lossy_text(stdout@)
        } else {
            &&& r matches Err(e)
            &&& e.code == ErrorCode::CommandFailed
            &&& e.message@ == program + " did not succeed."@
            &&& e.remedy is None
            &&& e.path is None
            &&& e.cause matches Some(Cause::Command { program: p, status: s, stderr: t })
            &&& p@ == program
            &&& s == status
            &&& t@ == lossy_text(stderr@)
        },
    }
}

/// Whether a manager ends the simulation of a removal with a failure on
/// purpose: all but APT answer their own question with a no.
pub open spec fn abandons(m: Manager) -> bool {
    m != Manager::Apt
}

/// The output of a simulated removal: of a manager that abandons it, whatever
/// the status; of any other, only where it succeeded.
pub fn simulation_output(manager: Manager, program: &str, ran: Ran) -> (r: Result<String>)
    ensures
        is_read(program@, abandons(manager), ran, r),
{
    let abandoned = match manager {
        Manager::Apt => false,
        Manager::Dnf | Manager::Pacman | Manager::Zypper => true,
    };
    match ran {
        Ran::Ended { success, status, stdout, stderr } => query(
            program,
            Ran::Ended { success: success || abandoned, status, stdout, stderr },
        ),
        Ran::NotStarted(error) => query(program, Ran::NotStarted(error)),
    }
}

/// The output of a command that was run. A failure is an error, never an
/// empty output.
pub fn query(program: &str, ran: Ran) -> (r: Result<String>)
    ensures
        is_read(program@, false, ran, r),
{
    match ran {
        Ran::NotStarted(error) => {
            let mut remedy = "Check that ".to_owned();
            remedy.append(program);
            remedy.append(" is installed and on PATH.");
            Err(error.with_remedy(remedy.as_str()))
        },
        Ran::Ended { success, status, stdout, stderr } => {
            if success {
                return Ok(utf8_lossy(&stdout));
            }
            let mut message = program.to_owned();
            message.append(" did not succeed.");
            Err(
                AppError::new(ErrorCode::CommandFailed, message).with_cause(
                    Cause::Command {
                        program: program.to_owned(),
                        status,
                        stderr: utf8_lossy(&stderr),
                    },
                ),
            )
        },
    }
}

/// Every manager that can be asked on this machine, given what it has. All of
/// them, not the first that matches.
pub fn backends(caps: &Capabilities) -> (r: Vec<Manager>)
    ensures
        r@ == if caps.found@.contains(Capability::Apt) {
            seq![Manager::Apt]
        } else {
            Seq::empty()
        },
{
    let mut found: Vec<Manager> = Vec::new();
    if caps.has(Capability::Apt) {
        found.push(Manager::Apt);
    }
    found
}

// ---------------------------------------------------------------------------
// Sizes in words
// ---------------------------------------------------------------------------

/// Whether a character can stand in a number.
pub open spec fn in_number(c: char, commas: bool) -> bool {
    '0' <= c <= '9' || c == '.' || commas && c == ','
}

/// How long the number at the front of a text is.
pub open spec fn number_end(s: Seq<char>, commas: bool) -> int
    decreases s.len(),
{
    if s.len() == 0 || !in_number(s[0], commas) {
        0
    } else {
        1 + number_end(s.skip(1), commas)
    }
}

/// How many bytes a unit stands for: powers of two, by its first letter.
pub open spec fn binary_unit(unit: Seq<char>) -> nat {
    if unit.len() == 0 {
        1
    } else if unit[0] == 'K' || unit[0] == 'k' {
        1024
    } else if unit[0] == 'M' || unit[0] == 'm' {
        1048576
    } else if unit[0] == 'G' || unit[0] == 'g' {
        1073741824
    } else if unit[0] == 'T' || unit[0] == 't' {
        1099511627776
    } else {
        1
    }
}

/// The size that a number and a unit behind it give; zero where there is no
/// number.
pub open spec fn binary_size(s: Seq<char>, commas: bool) -> u64 {
    let at = number_end(s, commas);
    match scaled_number(without(s.take(at), ','), binary_unit(trimmed(s.skip(at)))) {
        Some(n) => n,
        None => 0,
    }
}

/// The size that a number and a unit behind it give.
pub(crate) fn parse_binary_size(s: &[char], commas: bool) -> (r: u64)
    ensures
        r == binary_size(s@, commas),
{
    let end: usize = s.len();
    let mut at: usize = 0;
    assert(s@.skip(0) =~= s@);
    while at < end && (('0' <= s[at] && s[at] <= '9') || s[at] == '.' || (commas && s[at] == ','))
        invariant
            at <= end == s@.len(),
            number_end(s@, commas) == at + number_end(s@.skip(at as int), commas),
        decreases end - at,
    {
        assert(s@.skip(at as int).skip(1) =~= s@.skip(at + 1));
        at = at + 1;
    }
    let front = vstd::slice::slice_subrange(s, 0, at);
    assert(front@ =~= s@.take(at as int));
    let back = vstd::slice::slice_subrange(s, at, end);
    assert(back@ =~= s@.skip(at as int));
    let unit = trim(back);
    let scale: u64 = if unit.len() == 0 {
        1
    } else {
        match unit[0] {
            'K' | 'k' => 1024,
            'M' | 'm' => 1048576,
            'G' | 'g' => 1073741824,
            'T' | 't' => 1099511627776,
            _ => 1,
        }
    };
    let digits = remove_char(front, ',');
    match parse_scaled(digits.as_slice(), scale) {
        Some(n) => n,
        None => 0,
    }
}

// ---------------------------------------------------------------------------
// Measuring
// ---------------------------------------------------------------------------

/// What is at a path, looked at without following links.
#[derive(Debug, Clone, Copy, PartialEq, Eq, Structural)]
pub enum PathFact {
    Unreadable,
    Directory,
    /// A regular file: which one it is, what it contains, and the blocks of
    /// 512 bytes that it takes.
    File { device: u64, inode: u64, length: u64, blocks: u64 },
    /// A link, or anything else that is not a file of its own.
    Other,
}

/// Which file a fact is about.
pub open spec fn file_key(f: PathFact) -> Option<u128> {
    match f {
        PathFact::File { device, inode, .. } => Some(
            (device * 0x10000000000000000 + inode) as u128,
        ),
        _ => None,
    }
}

/// The files that some facts are about.
pub open spec fn files_in(facts: Seq<PathFact>) -> Set<u128>
    decreases facts.len(),
{
    if facts.len() == 0 {
        Set::empty()
    } else {
        match file_key(facts.last()) {
            Some(k) => files_in(facts.drop_last()).insert(k),
            None => files_in(facts.drop_last()),
        }
    }
}

/// Whether the last of some facts is about a file that none before it is
/// about.
pub open spec fn last_is_new(facts: Seq<PathFact>) -> bool {
    facts.len() > 0 && (file_key(facts.last()) matches Some(k) && !files_in(
        facts.drop_last(),
    ).contains(k))
}

/// What some facts add up to, each file counted once: content, committed
/// bytes, files, directories, unreadable paths.
pub open spec fn sums(facts: Seq<PathFact>) -> (nat, nat, nat, nat, nat)
    decreases facts.len(),
{
    if facts.len() == 0 {
        (0, 0, 0, 0, 0)
    } else {
        let (a, b, f, d, u) = sums(facts.drop_last());
        match facts.last() {
            PathFact::Unreadable => (a, b, f, d, u + 1),
            PathFact::Directory => (a, b, f, d + 1, u),
            PathFact::Other => (a, b, f, d, u),
            PathFact::File { length, blocks, .. } => if last_is_new(facts) {
                (a + length as nat, b + capped((blocks * 512) as nat) as nat, f + 1, d, u)
            } else {
                (a, b, f, d, u)
            },
        }
    }
}

/// What 32 bits hold of a count.
pub open spec fn capped_count(n: nat) -> u32 {
    if n > u32::MAX {
        u32::MAX
    } else {
        n as u32
    }
}

/// What some facts measure.
pub open spec fn measured_of(facts: Seq<PathFact>) -> Measured {
    let (a, b, f, d, u) = sums(facts);
    Measured {
        apparent_bytes: capped(a),
        disk_bytes: capped(b),
        files: capped_count(f),
        directories: capped_count(d),
        unreadable: capped_count(u),
    }
}

fn more(count: u32) -> (r: u32)
    ensures
        r == if count == u32::MAX {
            u32::MAX
        } else {
            (count + 1) as u32
        },
{
    if count == u32::MAX {
        u32::MAX
    } else {
        count + 1
    }
}

pub(crate) fn capped_add(a: u64, b: u64) -> (r: u64)
    ensures
        r == capped((a + b) as nat),
{
    if a > u64::MAX - b {
        u64::MAX
    } else {
        a + b
    }
}

pub(crate) fn block_bytes(blocks: u64) -> (r: u64)
    ensures
        r == capped((blocks * 512) as nat),
{
    if blocks > u64::MAX / 512 {
        u64::MAX
    } else {
        blocks * 512
    }
}

/// Measures a package's file list: content bytes, committed bytes, and what
/// could not be read. Directories are counted and not measured, links
/// contribute nothing, and a file with two names counts once.
pub fn measure_paths(facts: &Vec<PathFact>) -> (r: Measured)
    ensures
        r == measured_of(facts@),
{
    let mut seen: HashSet<u128> = HashSet::new();
    let mut out = Measured {
        apparent_bytes: 0,
        disk_bytes: 0,
        files: 0,
        directories: 0,
        unreadable: 0,
    };
    let mut i: usize = 0;
    assert(facts@.take(0) =~= Seq::<PathFact>::empty());
    while i < facts.len()
        invariant
            i <= facts@.len(),
            seen@ == files_in(facts@.take(i as int)),
            out == measured_of(facts@.take(i as int)),
        decreases facts@.len() - i,
    {
        assert(facts@.take(i + 1).drop_last() =~= facts@.take(i as int));
        assert(facts@.take(i + 1).last() == facts@[i as int]);
        match facts[i] {
            PathFact::Unreadable => {
                out.unreadable = more(out.unreadable);
            },
            PathFact::Directory => {
                out.directories = more(out.directories);
            },
            PathFact::Other => {},
            PathFact::File { device, inode, length, blocks } => {
                let key: u128 = device as u128 * 0x10000000000000000 + inode as u128;
                if !seen.contains(&key) {
                    seen.insert(key);
                    out.apparent_bytes = capped_add(out.apparent_bytes, length);
                    out.disk_bytes = capped_add(out.disk_bytes, block_bytes(blocks));
                    out.files = more(out.files);
                } else {
                    assert(seen@ =~= seen@.insert(key));
                }
            },
        }
        i = i + 1;
    }
    assert(facts@.take(i as int) =~= facts@);
    out
}

/// Two architectures of one package are two identities: identities are equal
/// only where the names are and the architectures are.
pub proof fn law_identities_tell_packages_apart(
    name: Seq<char>,
    arch: Seq<char>,
    other: Seq<char>,
    another: Seq<char>,
)
    requires
        !name.contains(':'),
        !other.contains(':'),
        identity_of(name, arch) == identity_of(other, another),
    ensures
        name == other,
        arch == another,
{
    reveal_strlit(":");
    let x = identity_of(name, arch);
    let y = identity_of(other, another);
    if arch.len() > 0 {
        assert(x[name.len() as int] == ':');
        assert(x.len() == name.len() + 1 + arch.len());
    }
    if another.len() > 0 {
        assert(y[other.len() as int] == ':');
        assert(y.len() == other.len() + 1 + another.len());
    }
    if name.len() < other.len() {
        if arch.len() > 0 {
            assert(y[name.len() as int] == other[name.len() as int]);
            assert(other.contains(other[name.len() as int]));
        } else {
            assert(x.len() == name.len());
        }
    }
    if other.len() < name.len() {
        if another.len() > 0 {
            assert(x[other.len() as int] == name[other.len() as int]);
            assert(name.contains(name[other.len() as int]));
        } else {
            assert(y.len() == other.len());
        }
    }
    assert(name.len() == other.len());
    assert forall|i: int| 0 <= i < name.len() implies name[i] == other[i] by {
        assert(x[i] == name[i]);
        assert(y[i] == other[i]);
    }
    assert(name =~= other);
    assert(arch.len() == another.len());
    if arch.len() > 0 {
        assert forall|i: int| 0 <= i < arch.len() implies arch[i] == another[i] by {
            assert(x[name.len() + 1 + i] == arch[i]);
            assert(y[name.len() + 1 + i] == another[i]);
        }
    }
    assert(arch =~= another);
}

/// A file with two names counts once: listing it again changes nothing.
pub proof fn law_each_file_counts_once(facts: Seq<PathFact>, again: PathFact)
    requires
        file_key(again) matches Some(k) && files_in(facts).contains(k),
    ensures
        measured_of(facts.push(again)) == measured_of(facts),
{
    assert(facts.push(again).drop_last() =~= facts);
}

/// The view of a package keeps every field, and a new package has the ones it
/// was made with: it has not been measured, and its identity is its name with
/// its architecture behind it where it has one.
pub proof fn law_a_package_is_what_it_was_made_of(
    p: Package,
    name: Seq<char>,
    arch: Seq<char>,
    version: Seq<char>,
    summary: Seq<char>,
    recorded_bytes: u64,
    explicit: bool,
    manager: Manager,
)
    requires
        package_text(p) == plain_package(
            name,
            arch,
            version,
            summary,
            recorded_bytes,
            explicit,
            manager,
        ),
    ensures
        p.name@ == name,
        p.arch@ == arch,
        p.version@ == version,
        p.summary@ == summary,
        p.recorded_bytes == recorded_bytes,
        p.explicit == explicit,
        p.manager == manager,
        p.measured is None,
        p.changed_at is None,
        arch.len() == 0 ==> p.id@ == name,
        arch.len() > 0 ==> p.id@ == name + ":"@ + arch,
{
}

/// The view of a package keeps every field.
pub proof fn law_a_package_is_what_its_view_says(p: Package)
    ensures
        package_text(p).id == p.id@,
        package_text(p).name == p.name@,
        package_text(p).arch == p.arch@,
        package_text(p).version == p.version@,
        package_text(p).summary == p.summary@,
        package_text(p).recorded_bytes == p.recorded_bytes,
        package_text(p).measured == p.measured,
        package_text(p).changed_at == p.changed_at,
        package_text(p).explicit == p.explicit,
        package_text(p).manager == p.manager,
{
}

/// Each path counts as what is at it: a directory and what could not be read
/// as one of those, a link as nothing, and a file that was not seen before as
/// one file, with what it contains and the blocks that it takes.
pub proof fn law_each_path_counts_as_what_it_is(facts: Seq<PathFact>, f: PathFact)
    ensures
        ({
            let before = sums(facts);
            let after = sums(facts.push(f));
            match f {
                PathFact::Unreadable => after == (
                    before.0,
                    before.1,
                    before.2,
                    before.3,
                    (before.4 + 1) as nat,
                ),
                PathFact::Directory => after == (
                    before.0,
                    before.1,
                    before.2,
                    (before.3 + 1) as nat,
                    before.4,
                ),
                PathFact::Other => after == before,
                PathFact::File { device, inode, length, blocks } => {
                    let seen = exists|i: int|
                        0 <= i < facts.len() && (#[trigger] facts[i] matches PathFact::File {
                            device: d,
                            inode: n,
                            ..
                        } && d == device && n == inode);
                    if seen {
                        after == before
                    } else {
                        &&& after.0 == before.0 + length
                        &&& blocks * 512 <= u64::MAX ==> after.1 == before.1 + blocks * 512
                        &&& after.2 == before.2 + 1
                        &&& after.3 == before.3
                        &&& after.4 == before.4
                    }
                },
            }
        }),
        sums(Seq::<PathFact>::empty()) == (0nat, 0nat, 0nat, 0nat, 0nat),
{
    assert(facts.push(f).drop_last() =~= facts);
    if let PathFact::File { device, inode, .. } = f {
        lemma_seen_files(facts, device, inode);
    }
}

proof fn lemma_seen_files(facts: Seq<PathFact>, device: u64, inode: u64)
    ensures
        files_in(facts).contains((device * 0x10000000000000000 + inode) as u128) <==> exists|
            i: int,
        |
            0 <= i < facts.len() && (#[trigger] facts[i] matches PathFact::File {
                device: d,
                inode: n,
                ..
            } && d == device && n == inode),
    decreases facts.len(),
{
    if facts.len() > 0 {
        let rest = facts.drop_last();
        lemma_seen_files(rest, device, inode);
        if exists|i: int|
            0 <= i < rest.len() && (#[trigger] rest[i] matches PathFact::File {
                device: d,
                inode: n,
                ..
            } && d == device && n == inode) {
            let i = choose|i: int|
                0 <= i < rest.len() && (#[trigger] rest[i] matches PathFact::File {
                    device: d,
                    inode: n,
                    ..
                } && d == device && n == inode);
            assert(facts[i] == rest[i]);
        }
        if exists|i: int|
            0 <= i < facts.len() && (#[trigger] facts[i] matches PathFact::File {
                device: d,
                inode: n,
                ..
            } && d == device && n == inode) {
            let i = choose|i: int|
                0 <= i < facts.len() && (#[trigger] facts[i] matches PathFact::File {
                    device: d,
                    inode: n,
                    ..
                } && d == device && n == inode);
            if i < rest.len() {
                assert(rest[i] == facts[i]);
            }
        }
        if file_key(facts.last()) == Some((device * 0x10000000000000000 + inode) as u128) {
            assert(facts[facts.len() - 1] == facts.last());
        }
    }
}

/// What is measured is those sums: what the files contain, what they take on
/// disk, and the three counts.
pub proof fn law_a_measurement_is_the_sums(facts: Seq<PathFact>)
    ensures
        sums(facts).0 <= u64::MAX ==> measured_of(facts).apparent_bytes == sums(facts).0,
        sums(facts).1 <= u64::MAX ==> measured_of(facts).disk_bytes == sums(facts).1,
        sums(facts).2 <= u32::MAX ==> measured_of(facts).files == sums(facts).2,
        sums(facts).3 <= u32::MAX ==> measured_of(facts).directories == sums(facts).3,
        sums(facts).4 <= u32::MAX ==> measured_of(facts).unreadable == sums(facts).4,
{
}

/// What is read of a command: what it printed where it succeeded, and for
/// every manager but APT the simulation of a removal whatever it ended with. A
/// failure that counts is an error with the program's status and complaint,
/// and one that could not be started says what to install.
pub proof fn law_what_is_read_of_a_command(
    program: Seq<char>,
    manager: Manager,
    ran: Ran,
    r: Result<String>,
)
    requires
        is_read(program, abandons(manager), ran, r),
    ensures
        match ran {
            Ran::NotStarted(error) => r matches Err(e) && e.code == error.code && e.remedy is Some
                && e.message == error.message,
            Ran::Ended { success, status, stdout, stderr } => {
                let read = success || manager == Manager::Dnf || manager == Manager::Pacman
                    || manager == Manager::Zypper;
                if read {
                    r matches Ok(t) && t@ == lossy_text(stdout@)
                } else {
                    r matches Err(e) && e.code == ErrorCode::CommandFailed && (e.cause
                        matches Some(Cause::Command { program: p, status: s, stderr: t }) && p@
                        == program && s == status && t@ == lossy_text(stderr@))
                }
            },
        },
{
}

/// Sizes are counted in units of a thousand and twenty-four, by the unit's
/// first letter in either case; without one they are in bytes.
pub proof fn law_binary_units_are_powers_of_1024(unit: Seq<char>)
    ensures
        unit.len() == 0 ==> binary_unit(unit) == 1,
        unit.len() > 0 && (unit[0] == 'k' || unit[0] == 'K') ==> binary_unit(unit) == 1024,
        unit.len() > 0 && (unit[0] == 'm' || unit[0] == 'M') ==> binary_unit(unit) == 1024 * 1024,
        unit.len() > 0 && (unit[0] == 'g' || unit[0] == 'G') ==> binary_unit(unit) == 1024 * 1024
            * 1024,
        unit.len() > 0 && (unit[0] == 't' || unit[0] == 'T') ==> binary_unit(unit) == 1024 * 1024
            * 1024 * 1024,
        unit.len() > 0 && (unit[0] == 'B' || unit[0] == 'b') ==> binary_unit(unit) == 1,
{
}

/// What is shown of a package is what it was measured to take on disk, or what
/// the database records where it was not measured; the error of the record is
/// the difference of the two.
pub proof fn law_a_measurement_is_shown_before_the_record(
    p: Package,
    shown: u64,
    error: Option<i64>,
)
    requires
        call_ensures(Package::display_bytes, (&p,), shown),
        call_ensures(Package::recorded_error, (&p,), error),
    ensures
        p.measured is None ==> shown == p.recorded_bytes && error is None,
        p.measured matches Some(m) ==> shown == m.disk_bytes && (error matches Some(e)
            ==> p.recorded_bytes + e == m.disk_bytes) && (m.disk_bytes <= i64::MAX
            && p.recorded_bytes <= i64::MAX ==> error is Some),
{
}

/// What the blocks of a package take beyond what it contains, and whether
/// every path of it could be read.
pub proof fn law_overhead_is_what_blocks_add(m: Measured, overhead: u64, complete: bool)
    requires
        call_ensures(Measured::block_overhead, (&m,), overhead),
        call_ensures(Measured::is_complete, (&m,), complete),
    ensures
        m.disk_bytes >= m.apparent_bytes ==> m.apparent_bytes + overhead == m.disk_bytes,
        m.disk_bytes < m.apparent_bytes ==> overhead == 0,
        complete == (m.unreadable == 0),
{
}

/// The output of a simulated removal is read whatever it ended with, but for
/// APT, whose simulation has to succeed.
pub proof fn law_only_apt_has_to_succeed(
    manager: Manager,
    program: &str,
    ran: Ran,
    r: Result<String>,
    queried: Result<String>,
)
    requires
        call_ensures(simulation_output, (manager, program, ran), r),
        call_ensures(query, (program, ran), queried),
    ensures
        ran matches Ran::Ended { success, stdout, .. } ==> {
            &&& success || manager != Manager::Apt ==> (r matches Ok(t) && t@ == lossy_text(
                stdout@,
            ))
            &&& !success && manager == Manager::Apt ==> r is Err
            &&& success ==> (queried matches Ok(t) && t@ == lossy_text(stdout@))
            &&& !success ==> (queried matches Err(e) && e.code == ErrorCode::CommandFailed)
        },
        ran is NotStarted ==> r is Err && queried is Err,
{
}

/// A measurement is of the paths that it was given, and a package's identity
/// is its name with its architecture.
pub proof fn law_measuring_measures_the_paths(
    facts: Vec<PathFact>,
    m: Measured,
    name: &str,
    arch: &str,
    id: String,
)
    requires
        call_ensures(measure_paths, (&facts,), m),
        call_ensures(Package::identity, (name, arch), id),
    ensures
        sums(facts@).1 <= u64::MAX ==> m.disk_bytes == sums(facts@).1,
        sums(facts@).0 <= u64::MAX ==> m.apparent_bytes == sums(facts@).0,
        sums(facts@).2 <= u32::MAX ==> m.files == sums(facts@).2,
        sums(facts@).4 <= u32::MAX ==> m.unreadable == sums(facts@).4,
        arch@.len() == 0 ==> id@ == name@,
        arch@.len() > 0 ==> id@ == name@ + ":"@ + arch@,
{
    law_a_measurement_is_the_sums(facts@);
}

/// A manager's commands are its own: how each lists what is installed, and how
/// each simulates a removal without carrying it out.
pub proof fn law_a_simulation_removes_nothing(
    apt: dpkg::DpkgBackend,
    dnf: rpm::DnfBackend,
    zypper: rpm::ZypperBackend,
    arch: pacman::PacmanBackend,
)
    ensures
        apt.simulation() == ("apt-get"@, seq!["-s"@, "remove"@]),
        dnf.simulation() == ("dnf"@, seq!["remove"@, "--assumeno"@]),
        zypper.simulation() == ("zypper"@, seq!["--non-interactive"@, "remove"@, "--dry-run"@]),
        arch.simulation() == ("pacman"@, seq!["-Rp"@]),
        apt.who() == Manager::Apt && apt.needs() == Capability::Apt,
        dnf.who() == Manager::Dnf && dnf.needs() == Capability::Dnf,
        zypper.who() == Manager::Zypper && zypper.needs() == Capability::Zypper,
        arch.who() == Manager::Pacman && arch.needs() == Capability::Pacman,
        apt.listing().0 == "dpkg-query"@,
        dnf.listing().0 == "rpm"@ && zypper.listing() == dnf.listing(),
        arch.listing() == ("pacman"@, seq!["-Qi"@]),
{
}

/// Each of these asks its own tool for its own list.
pub proof fn law_each_list_is_asked_of_its_own_tool(
    refs: Query,
    snaps: Query,
    id: &str,
    files: Query,
    arch: pacman::PacmanBackend,
    owned: Query,
    apt: dpkg::DpkgBackend,
    left: Query,
)
    requires
        call_ensures(flatpak::installed_query, (), refs),
        call_ensures(snap::revisions_query, (), snaps),
        call_ensures(rpm::files_query, (id,), files),
        call_ensures(pacman::PacmanBackend::files_query, (&arch, id), owned),
        call_ensures(dpkg::DpkgBackend::residual_query, (&apt,), left),
    ensures
        refs.program@ == "flatpak"@ && texts(refs.args@) == seq!["list"@, "--columns=ref,runtime"@],
        snaps.program@ == "snap"@ && texts(snaps.args@) == seq!["list"@, "--all"@],
        files.program@ == "rpm"@ && texts(files.args@) == seq!["-ql"@, id@],
        owned.program@ == "pacman"@ && texts(owned.args@) == seq!["-Ql"@, id@],
        left.program@ == "dpkg-query"@ && texts(left.args@)[0] == "-W"@,
{
}

/// The figure at the start of a size ends where its unit starts.
pub proof fn lemma_number_end(figure: Seq<char>, unit: Seq<char>, commas: bool)
    requires
        forall|i: int| 0 <= i < figure.len() ==> in_number(#[trigger] figure[i], commas),
        unit.len() == 0 || !in_number(unit[0], commas),
    ensures
        number_end(figure + unit, commas) == figure.len(),
    decreases figure.len(),
{
    let s = figure + unit;
    if figure.len() == 0 {
        assert(s =~= unit);
    } else {
        assert(s[0] == figure[0]);
        assert(in_number(figure[0], commas));
        assert(s.skip(1) =~= figure.skip(1) + unit);
        assert forall|i: int| 0 <= i < figure.skip(1).len() implies in_number(
            #[trigger] figure.skip(1)[i],
            commas,
        ) by {
            assert(figure.skip(1)[i] == figure[i + 1]);
            assert(in_number(figure[i + 1], commas));
        }
        lemma_number_end(figure.skip(1), unit, commas);
    }
}

/// A text without white space at its ends is trimmed already.
pub proof fn lemma_trimmed_already(s: Seq<char>)
    requires
        s.len() > 0,
        !crate::text::is_space(s[0]),
        !crate::text::is_space(s.last()),
    ensures
        trimmed(s) == s,
{
}

/// A number has no character in it that is no digit.
pub proof fn lemma_nothing_to_take_out(s: Seq<char>, c: char)
    requires
        forall|i: int| 0 <= i < s.len() ==> (#[trigger] s[i]) != c,
    ensures
        without(s, c) == s,
    decreases s.len(),
{
    if s.len() > 0 {
        assert forall|i: int| 0 <= i < s.drop_last().len() implies (#[trigger] s.drop_last()[i])
            != c by {
            assert(s.drop_last()[i] == s[i]);
        }
        lemma_nothing_to_take_out(s.drop_last(), c);
        assert(s[s.len() - 1] != c);
        assert(s.drop_last().push(s.last()) =~= s);
    }
}

/// A size of so many units is that many times what the unit is worth.
pub proof fn law_a_size_is_its_figure_times_its_unit(n: nat, unit: Seq<char>, commas: bool)
    requires
        unit.len() > 0,
        'A' <= unit[0] <= 'z',
        !crate::text::is_space(unit.last()),
        n < 9007199254740992,
        n * binary_unit(unit) < 9007199254740992,
    ensures
        binary_size(crate::text::decimal(n) + unit, commas) == n * binary_unit(unit),
{
    let d = crate::text::decimal(n);
    crate::text::law_decimal_reads_back(n);
    assert forall|i: int| 0 <= i < d.len() implies in_number(#[trigger] d[i], commas) && d[i]
        != ',' by {
        assert(crate::text::is_digit(d[i]));
    }
    lemma_number_end(d, unit, commas);
    let s = d + unit;
    assert(s.take(d.len() as int) =~= d);
    assert(s.skip(d.len() as int) =~= unit);
    lemma_nothing_to_take_out(d, ',');
    lemma_trimmed_already(unit);
    crate::decimal::law_whole_numbers_are_scaled_exactly(n, binary_unit(unit));
}

} // verus!
