//! Protected paths: what must never be reclaimed, whoever asks.
//!
//! Both the scan and the execution ask here, so a path is neither offered and
//! then refused nor offered under one set of rules and deleted under another.
use vstd::prelude::*;
use vstd::string::*;
use crate::paths::{absolute, app_directory, cache_dir, components, config_dir, home_of, is_absolute, is_within, joined, law_within_is_transitive, path_within, split_components, state_dir, Environment};
use crate::text::{chars_of, is_text, opt_text, texts, views};

verus! {

broadcast use vstd::string::group_string_axioms;

/// A rule that protects a path, and the reason a user is shown.
#[derive(Debug, Clone, Copy)]
struct Rule {
    prefix: &'static str,
    id: &'static str,
    reason: &'static str,
}

/// A rule as texts: what it covers, its identifier and its reason.
pub struct RuleText {
    pub prefix: Seq<char>,
    pub id: Seq<char>,
    pub reason: Seq<char>,
}

/// A rule from its three texts.
pub open spec fn rule(prefix: Seq<char>, id: Seq<char>, reason: Seq<char>) -> RuleText {
    RuleText { prefix, id, reason }
}

/// Absolute locations that must never be reclaimed from.
pub open spec fn protected_prefixes() -> Seq<RuleText> {
    seq![
        rule("/bin"@, "system_binaries"@, "System programs."@),
        rule("/sbin"@, "system_binaries"@, "System programs."@),
        rule("/lib"@, "system_libraries"@, "System libraries."@),
        rule("/lib32"@, "system_libraries"@, "System libraries."@),
        rule("/lib64"@, "system_libraries"@, "System libraries."@),
        rule("/usr"@, "system_files"@, "Installed software. Remove it with the package manager instead."@),
        rule("/boot"@, "boot"@, "Kernels and the bootloader. Old kernels are removed with the package manager."@),
        rule("/efi"@, "boot"@, "The EFI system partition."@),
        rule("/proc"@, "kernel_interface"@, "A kernel interface, not stored data."@),
        rule("/sys"@, "kernel_interface"@, "A kernel interface, not stored data."@),
        rule("/dev"@, "kernel_interface"@, "Device nodes."@),
        rule("/run"@, "runtime_state"@, "Runtime state for running programs."@),
        rule("/etc"@, "configuration"@, "System configuration."@),
        rule("/var/lib/dpkg"@, "package_database"@, "The package database."@),
        rule("/var/lib/rpm"@, "package_database"@, "The package database."@),
        rule("/var/lib/pacman"@, "package_database"@, "The package database."@),
        rule("/var/lib/flatpak"@, "package_database"@, "Flatpak's installation. Remove apps with flatpak instead."@),
        rule("/var/lib/snapd"@, "package_database"@, "Snap's installation. Remove snaps with snap instead."@),
        rule("/var/lib/mysql"@, "live_database"@, "A database's live data."@),
        rule("/var/lib/postgresql"@, "live_database"@, "A database's live data."@),
        rule("/var/lib/mongodb"@, "live_database"@, "A database's live data."@),
        rule("/var/lib/influxdb"@, "live_database"@, "A database's live data."@),
        rule("/var/lib/docker/volumes"@, "container_volume"@, "Container volumes hold data your containers expect to keep."@),
        rule("/var/lib/containers/storage/volumes"@, "container_volume"@, "Container volumes hold data your containers expect to keep."@),
        rule("/media"@, "removable_media"@, "Removable media."@),
        rule("/mnt"@, "mounted_volume"@, "A volume you mounted yourself."@),
        rule("/root"@, "other_user"@, "Another user's home directory."@),
    ]
}

/// Directory names that protect everything below them wherever they appear.
pub open spec fn protected_names() -> Seq<RuleText> {
    seq![
        rule(".git"@, "version_control"@, "Version control history."@),
        rule(".hg"@, "version_control"@, "Version control history."@),
        rule(".svn"@, "version_control"@, "Version control history."@),
        rule(".ssh"@, "credentials"@, "SSH keys."@),
        rule(".gnupg"@, "credentials"@, "GPG keys."@),
        rule(".password-store"@, "credentials"@, "Stored passwords."@),
    ]
}

spec fn rule_texts(v: Seq<Rule>) -> Seq<RuleText> {
    Seq::new(v.len(), |i: int| rule(v[i].prefix@, v[i].id@, v[i].reason@))
}

fn prefix_rules() -> (r: Vec<Rule>)
    ensures
        rule_texts(r@) == protected_prefixes(),
{
    let rules = vec![
        Rule { prefix: "/bin", id: "system_binaries", reason: "System programs." },
        Rule { prefix: "/sbin", id: "system_binaries", reason: "System programs." },
        Rule { prefix: "/lib", id: "system_libraries", reason: "System libraries." },
        Rule { prefix: "/lib32", id: "system_libraries", reason: "System libraries." },
        Rule { prefix: "/lib64", id: "system_libraries", reason: "System libraries." },
        Rule { prefix: "/usr", id: "system_files", reason: "Installed software. Remove it with the package manager instead." },
        Rule { prefix: "/boot", id: "boot", reason: "Kernels and the bootloader. Old kernels are removed with the package manager." },
        Rule { prefix: "/efi", id: "boot", reason: "The EFI system partition." },
        Rule { prefix: "/proc", id: "kernel_interface", reason: "A kernel interface, not stored data." },
        Rule { prefix: "/sys", id: "kernel_interface", reason: "A kernel interface, not stored data." },
        Rule { prefix: "/dev", id: "kernel_interface", reason: "Device nodes." },
        Rule { prefix: "/run", id: "runtime_state", reason: "Runtime state for running programs." },
        Rule { prefix: "/etc", id: "configuration", reason: "System configuration." },
        Rule { prefix: "/var/lib/dpkg", id: "package_database", reason: "The package database." },
        Rule { prefix: "/var/lib/rpm", id: "package_database", reason: "The package database." },
        Rule { prefix: "/var/lib/pacman", id: "package_database", reason: "The package database." },
        Rule { prefix: "/var/lib/flatpak", id: "package_database", reason: "Flatpak's installation. Remove apps with flatpak instead." },
        Rule { prefix: "/var/lib/snapd", id: "package_database", reason: "Snap's installation. Remove snaps with snap instead." },
        Rule { prefix: "/var/lib/mysql", id: "live_database", reason: "A database's live data." },
        Rule { prefix: "/var/lib/postgresql", id: "live_database", reason: "A database's live data." },
        Rule { prefix: "/var/lib/mongodb", id: "live_database", reason: "A database's live data." },
        Rule { prefix: "/var/lib/influxdb", id: "live_database", reason: "A database's live data." },
        Rule { prefix: "/var/lib/docker/volumes", id: "container_volume", reason: "Container volumes hold data your containers expect to keep." },
        Rule { prefix: "/var/lib/containers/storage/volumes", id: "container_volume", reason: "Container volumes hold data your containers expect to keep." },
        Rule { prefix: "/media", id: "removable_media", reason: "Removable media." },
        Rule { prefix: "/mnt", id: "mounted_volume", reason: "A volume you mounted yourself." },
        Rule { prefix: "/root", id: "other_user", reason: "Another user's home directory." },
    ];
    assert(rule_texts(rules@) =~= protected_prefixes());
    rules
}

fn name_rules() -> (r: Vec<Rule>)
    ensures
        rule_texts(r@) == protected_names(),
{
    let rules = vec![
        Rule { prefix: ".git", id: "version_control", reason: "Version control history." },
        Rule { prefix: ".hg", id: "version_control", reason: "Version control history." },
        Rule { prefix: ".svn", id: "version_control", reason: "Version control history." },
        Rule { prefix: ".ssh", id: "credentials", reason: "SSH keys." },
        Rule { prefix: ".gnupg", id: "credentials", reason: "GPG keys." },
        Rule { prefix: ".password-store", id: "credentials", reason: "Stored passwords." },
    ];
    assert(rule_texts(rules@) =~= protected_names());
    rules
}

/// Why a path may not be reclaimed.
#[derive(Debug, PartialEq, Eq)]
pub struct Refusal {
    pub path: String,
    /// Stable rule identifier.
    pub rule: String,
    /// Phrased for a user.
    pub reason: String,
}

impl Clone for Refusal {
    fn clone(&self) -> (r: Self)
        ensures
            r == *self,
    {
        Refusal { path: self.path.clone(), rule: self.rule.clone(), reason: self.reason.clone() }
    }
}

/// The answer to "may this be reclaimed?".
#[derive(Debug, Clone, PartialEq, Eq)]
pub enum Verdict {
    /// No rule objects. This says nothing of whether reclaiming is wise.
    Allowed,
    /// A rule objects, and here is which.
    Protected(Refusal),
}

/// The objection that a verdict carries: the rule and its reason.
pub open spec fn objection(v: Verdict) -> Option<(Seq<char>, Seq<char>)> {
    match v {
        Verdict::Allowed => None,
        Verdict::Protected(r) => Some((r.rule@, r.reason@)),
    }
}

impl Verdict {
    /// Whether no rule objects.
    pub fn is_allowed(&self) -> (r: bool)
        ensures
            r == (self is Allowed),
    {
        matches!(self, Verdict::Allowed)
    }

    /// The refusal, where a rule objects.
    pub fn refusal(&self) -> (r: Option<&Refusal>)
        ensures
            match *self {
                Verdict::Allowed => r is None,
                Verdict::Protected(refusal) => r == Some(&refusal),
            },
    {
        match self {
            Verdict::Allowed => None,
            Verdict::Protected(refusal) => Some(refusal),
        }
    }
}

/// The first rule that covers `path` by its location.
pub open spec fn first_location(rules: Seq<RuleText>, path: Seq<char>) -> Option<RuleText>
    decreases rules.len(),
{
    if rules.len() == 0 {
        None
    } else if path_within(path, rules[0].prefix) {
        Some(rules[0])
    } else {
        first_location(rules.skip(1), path)
    }
}

/// The first rule whose name is one of the components of `path`.
pub open spec fn first_name(rules: Seq<RuleText>, path: Seq<char>) -> Option<RuleText>
    decreases rules.len(),
{
    if rules.len() == 0 {
        None
    } else if components(path).contains(rules[0].prefix) {
        Some(rules[0])
    } else {
        first_name(rules.skip(1), path)
    }
}

/// The first of some directories that `path` lies within.
pub open spec fn first_directory(dirs: Seq<Seq<char>>, path: Seq<char>) -> Option<Seq<char>>
    decreases dirs.len(),
{
    if dirs.len() == 0 {
        None
    } else if path_within(path, dirs[0]) {
        Some(dirs[0])
    } else {
        first_directory(dirs.skip(1), path)
    }
}

/// What is said of a path that the user excluded.
pub open spec fn exclusion_reason(excluded: Seq<char>) -> Seq<char> {
    "You excluded "@ + excluded + "."@
}

/// The objection to reclaiming `path`, if there is one, given the user's
/// exclusions and this program's own directories.
pub open spec fn objection_to(
    path: Seq<char>,
    user: Seq<Seq<char>>,
    own: Seq<Seq<char>>,
) -> Option<(Seq<char>, Seq<char>)> {
    if !absolute(path) {
        Some(
            (
                "relative_path"@,
                "Only absolute paths can be checked against the protection rules."@,
            ),
        )
    } else if components(path).len() == 1 {
        Some(("filesystem_root"@, "The root of the filesystem."@))
    } else if components(path).contains(".."@) {
        Some(("traversal"@, "Paths containing .. are not accepted."@))
    } else if let Some(rule) = first_location(protected_prefixes(), path) {
        Some((rule.id, rule.reason))
    } else if let Some(rule) = first_name(protected_names(), path) {
        Some((rule.id, rule.reason))
    } else if first_directory(own, path) is Some {
        Some(("nix_state"@, "nix's own settings, logs and cache."@))
    } else if let Some(excluded) = first_directory(user, path) {
        Some(("user_exclusion"@, exclusion_reason(excluded)))
    } else {
        None
    }
}

/// Decides whether a path may be reclaimed.
#[derive(Debug, Clone)]
pub struct Guard {
    /// Paths the user added. Treated exactly like a built-in rule.
    pub user: Vec<String>,
    /// This program's own directories.
    pub own: Vec<String>,
}

impl Default for Guard {
    fn default() -> (r: Self)
        ensures
            r.user@.len() == 0,
            r.own@.len() == 0,
    {
        Guard { user: Vec::new(), own: Vec::new() }
    }
}

/// The objection that a guard raises to a path.
pub open spec fn guard_objection(guard: Guard, path: Seq<char>) -> Option<(Seq<char>, Seq<char>)> {
    objection_to(path, texts(guard.user@), texts(guard.own@))
}

/// The paths that a guard allows, in order.
pub open spec fn allowed_paths(guard: Guard, paths: Seq<Seq<char>>) -> Seq<Seq<char>>
    decreases paths.len(),
{
    if paths.len() == 0 {
        paths
    } else if guard_objection(guard, paths.last()) is None {
        allowed_paths(guard, paths.drop_last()).push(paths.last())
    } else {
        allowed_paths(guard, paths.drop_last())
    }
}

/// The refusals that a guard answers with, in order: path, rule and reason.
pub open spec fn refused_paths(guard: Guard, paths: Seq<Seq<char>>) -> Seq<
    (Seq<char>, Seq<char>, Seq<char>),
>
    decreases paths.len(),
{
    if paths.len() == 0 {
        Seq::empty()
    } else if let Some((rule, reason)) = guard_objection(guard, paths.last()) {
        refused_paths(guard, paths.drop_last()).push((paths.last(), rule, reason))
    } else {
        refused_paths(guard, paths.drop_last())
    }
}

/// The texts of a list of refusals.
pub open spec fn refusal_texts(v: Seq<Refusal>) -> Seq<(Seq<char>, Seq<char>, Seq<char>)> {
    Seq::new(v.len(), |i: int| (v[i].path@, v[i].rule@, v[i].reason@))
}

/// A refusal made of three texts.
fn refuse(path: &str, rule: &str, reason: &str) -> (r: Verdict)
    ensures
        r matches Verdict::Protected(refusal) && refusal.path@ == path@,
        objection(r) == Some((rule@, reason@)),
{
    Verdict::Protected(
        Refusal { path: path.to_owned(), rule: rule.to_owned(), reason: reason.to_owned() },
    )
}

/// Whether a path has a component of the given name.
fn has_component(parts: &Vec<&[char]>, name: &str) -> (r: bool)
    ensures
        r == views(parts@).contains(name@),
{
    let mut i: usize = 0;
    while i < parts.len()
        invariant
            i <= parts@.len(),
            forall|k: int| 0 <= k < i ==> views(parts@)[k] != name@,
        decreases parts@.len() - i,
    {
        if is_text(parts[i], name) {
            assert(views(parts@)[i as int] == name@);
            return true;
        }
        i = i + 1;
    }
    false
}

/// The first of some directories that a path lies within.
fn find_directory<'a>(dirs: &'a Vec<String>, path: &[char]) -> (r: Option<&'a str>)
    ensures
        match r {
            Some(d) => first_directory(texts(dirs@), path@) == Some(d@),
            None => first_directory(texts(dirs@), path@) is None,
        },
{
    let ghost all = texts(dirs@);
    let mut i: usize = 0;
    assert(all.skip(0) =~= all);
    while i < dirs.len()
        invariant
            i <= dirs@.len(),
            all == texts(dirs@),
            first_directory(all.skip(i as int), path@) == first_directory(all, path@),
        decreases dirs@.len() - i,
    {
        let dir = dirs[i].as_str();
        let chars = chars_of(dir);
        assert(all.skip(i as int)[0] == dir@);
        if is_within(path, chars.as_slice()) {
            return Some(dir);
        }
        assert(all.skip(i as int).skip(1) =~= all.skip(i + 1));
        i = i + 1;
    }
    None
}

impl Guard {
    /// A guard with the built-in rules, the user's exclusions and this
    /// program's own directories.
    pub fn new(user_exclusions: Vec<String>, env: &Environment) -> (r: Self)
        ensures
            r.user@ == user_exclusions@,
            texts(r.own@) == own_directories(*env),
    {
        let mut own: Vec<String> = Vec::new();
        if let Some(dir) = config_dir(env) {
            own.push(dir);
        }
        if let Some(dir) = state_dir(env) {
            own.push(dir);
        }
        if let Some(dir) = cache_dir(env) {
            own.push(dir);
        }
        assert(texts(own@) =~= own_directories(*env));
        Guard { user: user_exclusions, own }
    }

    /// A guard configured from the user's saved settings.
    pub fn from_settings(settings: &crate::settings::Settings, env: &Environment) -> (r: Self)
        ensures
            texts(r.user@) == texts(settings.protected_paths@),
            texts(r.own@) == own_directories(*env),
    {
        Guard::new(crate::text::copy_strings(&settings.protected_paths), env)
    }

    /// May this path be reclaimed?
    pub fn verdict(&self, path: &str) -> (r: Verdict)
        ensures
            objection(r) == guard_objection(*self, path@),
            r matches Verdict::Protected(refusal) ==> refusal.path@ == path@,
    {
        let chars = chars_of(path);
        let slice = chars.as_slice();
        if !is_absolute(slice) {
            return refuse(
                path,
                "relative_path",
                "Only absolute paths can be checked against the protection rules.",
            );
        }
        let parts = split_components(slice);
        assert(views(parts@).len() == parts@.len());
        if parts.len() == 1 {
            return refuse(path, "filesystem_root", "The root of the filesystem.");
        }
        if has_component(&parts, "..") {
            return refuse(path, "traversal", "Paths containing .. are not accepted.");
        }
        let rules = prefix_rules();
        let ghost all = protected_prefixes();
        let mut i: usize = 0;
        assert(all.skip(0) =~= all);
        while i < rules.len()
            invariant
                i <= rules@.len(),
                slice@ == path@,
                absolute(path@),
                components(path@).len() != 1,
                !components(path@).contains(".."@),
                all == protected_prefixes(),
                rule_texts(rules@) == all,
                first_location(all.skip(i as int), path@) == first_location(all, path@),
            decreases rules@.len() - i,
        {
            let prefix = chars_of(rules[i].prefix);
            assert(all.skip(i as int)[0] == rule_texts(rules@)[i as int]);
            if is_within(slice, prefix.as_slice()) {
                return refuse(path, rules[i].id, rules[i].reason);
            }
            assert(all.skip(i as int).skip(1) =~= all.skip(i + 1));
            i = i + 1;
        }
        let names = name_rules();
        let ghost all_names = protected_names();
        let mut j: usize = 0;
        assert(all_names.skip(0) =~= all_names);
        while j < names.len()
            invariant
                j <= names@.len(),
                views(parts@) == components(path@),
                absolute(path@),
                components(path@).len() != 1,
                !components(path@).contains(".."@),
                first_location(protected_prefixes(), path@) is None,
                all_names == protected_names(),
                rule_texts(names@) == all_names,
                first_name(all_names.skip(j as int), path@) == first_name(all_names, path@),
            decreases names@.len() - j,
        {
            assert(all_names.skip(j as int)[0] == rule_texts(names@)[j as int]);
            if has_component(&parts, names[j].prefix) {
                return refuse(path, names[j].id, names[j].reason);
            }
            assert(all_names.skip(j as int).skip(1) =~= all_names.skip(j + 1));
            j = j + 1;
        }
        if find_directory(&self.own, slice).is_some() {
            return refuse(path, "nix_state", "nix's own settings, logs and cache.");
        }
        if let Some(excluded) = find_directory(&self.user, slice) {
            let mut reason = "You excluded ".to_owned();
            reason.append(excluded);
            reason.append(".");
            return refuse(path, "user_exclusion", reason.as_str());
        }
        Verdict::Allowed
    }

    /// Whether the path may be reclaimed.
    pub fn allows(&self, path: &str) -> (r: bool)
        ensures
            r == (guard_objection(*self, path@) is None),
    {
        self.verdict(path).is_allowed()
    }

    /// Parts a set of paths into permitted and refused.
    pub fn partition(&self, paths: Vec<String>) -> (r: (Vec<String>, Vec<Refusal>))
        ensures
            texts(r.0@) == allowed_paths(*self, texts(paths@)),
            refusal_texts(r.1@) == refused_paths(*self, texts(paths@)),
    {
        let ghost all = texts(paths@);
        let mut allowed: Vec<String> = Vec::new();
        let mut refused: Vec<Refusal> = Vec::new();
        let mut i: usize = 0;
        assert(texts(allowed@) =~= allowed_paths(*self, all.take(0)));
        assert(refusal_texts(refused@) =~= refused_paths(*self, all.take(0)));
        while i < paths.len()
            invariant
                i <= paths@.len(),
                all == texts(paths@),
                texts(allowed@) == allowed_paths(*self, all.take(i as int)),
                refusal_texts(refused@) == refused_paths(*self, all.take(i as int)),
            decreases paths@.len() - i,
        {
            assert(all.take(i + 1).drop_last() =~= all.take(i as int));
            assert(all.take(i + 1).last() == paths@[i as int]@);
            let ghost allowed_before = texts(allowed@);
            let ghost refused_before = refusal_texts(refused@);
            match self.verdict(paths[i].as_str()) {
                Verdict::Allowed => {
                    let path = paths[i].as_str().to_owned();
                    allowed.push(path);
                    assert(texts(allowed@) =~= allowed_before.push(path@));
                },
                Verdict::Protected(refusal) => {
                    refused.push(refusal);
                    assert(refusal_texts(refused@) =~= refused_before.push(
                        (refusal.path@, refusal.rule@, refusal.reason@),
                    ));
                },
            }
            i = i + 1;
        }
        assert(all.take(i as int) =~= all);
        (allowed, refused)
    }

    /// Every built-in rule, so that a user can read what is never touched.
    pub fn built_in_rules() -> (r: Vec<Refusal>)
        ensures
            refusal_texts(r@) == (protected_prefixes() + protected_names()).map_values(
                |t: RuleText| (t.prefix, t.id, t.reason),
            ),
    {
        let ghost f = |t: RuleText| (t.prefix, t.id, t.reason);
        let mut rules = prefix_rules();
        let mut names = name_rules();
        let ghost all = protected_prefixes() + protected_names();
        rules.append(&mut names);
        assert(rule_texts(rules@) =~= all);
        let mut out: Vec<Refusal> = Vec::new();
        let mut i: usize = 0;
        while i < rules.len()
            invariant
                i <= rules@.len(),
                rule_texts(rules@) == all,
                f == (|t: RuleText| (t.prefix, t.id, t.reason)),
                refusal_texts(out@) == all.take(i as int).map_values(f),
            decreases rules@.len() - i,
        {
            let ghost before = refusal_texts(out@);
            assert(all[i as int] == rule_texts(rules@)[i as int]);
            out.push(
                Refusal {
                    path: rules[i].prefix.to_owned(),
                    rule: rules[i].id.to_owned(),
                    reason: rules[i].reason.to_owned(),
                },
            );
            assert(refusal_texts(out@) =~= before.push(f(all[i as int])));
            assert(all.take(i + 1).map_values(f) =~= before.push(f(all[i as int])));
            i = i + 1;
        }
        assert(all.take(i as int) =~= all);
        out
    }
}

/// This program's own directories: settings, then state, then cache, as far
/// as the environment gives them.
pub open spec fn own_directories(env: Environment) -> Seq<Seq<char>> {
    let home = home_of(env);
    some_seq(app_directory(opt_text(env.config_home), home, ".config"@)) + some_seq(
        app_directory(opt_text(env.state_home), home, ".local/state"@),
    ) + some_seq(app_directory(opt_text(env.cache_home), home, ".cache"@))
}

/// The sequence of what an option holds.
pub open spec fn some_seq(o: Option<Seq<char>>) -> Seq<Seq<char>> {
    match o {
        Some(s) => seq![s],
        None => Seq::empty(),
    }
}

proof fn lemma_first_location_below(rules: Seq<RuleText>, outer: Seq<char>, inner: Seq<char>)
    requires
        path_within(inner, outer),
        first_location(rules, outer) is Some,
    ensures
        first_location(rules, inner) is Some,
    decreases rules.len(),
{
    if path_within(outer, rules[0].prefix) {
        law_within_is_transitive(inner, outer, rules[0].prefix);
    } else {
        lemma_first_location_below(rules.skip(1), outer, inner);
    }
}

proof fn lemma_component_below(name: Seq<char>, outer: Seq<char>, inner: Seq<char>)
    requires
        path_within(inner, outer),
        components(outer).contains(name),
    ensures
        components(inner).contains(name),
{
    let k = choose|k: int| 0 <= k < components(outer).len() && components(outer)[k] == name;
    assert(components(inner).take(components(outer).len() as int)[k] == name);
    assert(components(inner)[k] == name);
}

proof fn lemma_first_name_below(rules: Seq<RuleText>, outer: Seq<char>, inner: Seq<char>)
    requires
        path_within(inner, outer),
        first_name(rules, outer) is Some,
    ensures
        first_name(rules, inner) is Some,
    decreases rules.len(),
{
    if components(outer).contains(rules[0].prefix) {
        lemma_component_below(rules[0].prefix, outer, inner);
    } else {
        lemma_first_name_below(rules.skip(1), outer, inner);
    }
}

proof fn lemma_first_directory_below(dirs: Seq<Seq<char>>, outer: Seq<char>, inner: Seq<char>)
    requires
        path_within(inner, outer),
        first_directory(dirs, outer) is Some,
    ensures
        first_directory(dirs, inner) is Some,
    decreases dirs.len(),
{
    if path_within(outer, dirs[0]) {
        law_within_is_transitive(inner, outer, dirs[0]);
    } else {
        lemma_first_directory_below(dirs.skip(1), outer, inner);
    }
}

/// A refusal covers the whole subtree: whatever lies within a refused
/// directory is refused too. The root is the one exception, since refusing it
/// does not refuse everything on the machine.
pub proof fn law_refusal_covers_the_subtree(guard: Guard, outer: Seq<char>, inner: Seq<char>)
    requires
        guard_objection(guard, outer) is Some,
        absolute(outer),
        components(outer).len() != 1,
        path_within(inner, outer),
    ensures
        guard_objection(guard, inner) is Some,
{
    if absolute(inner) && components(inner).len() != 1 {
        let user = texts(guard.user@);
        let own = texts(guard.own@);
        if components(outer).contains(".."@) {
            lemma_component_below(".."@, outer, inner);
        } else if first_location(protected_prefixes(), outer) is Some {
            lemma_first_location_below(protected_prefixes(), outer, inner);
        } else if first_name(protected_names(), outer) is Some {
            lemma_first_name_below(protected_names(), outer, inner);
        } else if first_directory(own, outer) is Some {
            lemma_first_directory_below(own, outer, inner);
        } else {
            lemma_first_directory_below(user, outer, inner);
        }
    }
}

proof fn lemma_listed_location(rules: Seq<RuleText>, k: int, path: Seq<char>)
    requires
        0 <= k < rules.len(),
        path_within(path, rules[k].prefix),
    ensures
        first_location(rules, path) is Some,
    decreases rules.len(),
{
    if k > 0 && !path_within(path, rules[0].prefix) {
        lemma_listed_location(rules.skip(1), k - 1, path);
    }
}

proof fn lemma_listed_name(rules: Seq<RuleText>, k: int, path: Seq<char>)
    requires
        0 <= k < rules.len(),
        components(path).contains(rules[k].prefix),
    ensures
        first_name(rules, path) is Some,
    decreases rules.len(),
{
    if k > 0 && !components(path).contains(rules[0].prefix) {
        lemma_listed_name(rules.skip(1), k - 1, path);
    }
}

proof fn lemma_listed_directory(dirs: Seq<Seq<char>>, k: int, path: Seq<char>)
    requires
        0 <= k < dirs.len(),
        path_within(path, dirs[k]),
    ensures
        first_directory(dirs, path) is Some,
    decreases dirs.len(),
{
    if k > 0 && !path_within(path, dirs[0]) {
        lemma_listed_directory(dirs.skip(1), k - 1, path);
    }
}

/// No guard, however configured, allows a path inside a protected location.
pub proof fn law_protected_locations_are_never_allowed(guard: Guard, k: int, path: Seq<char>)
    requires
        0 <= k < protected_prefixes().len(),
        path_within(path, protected_prefixes()[k].prefix),
    ensures
        guard_objection(guard, path) is Some,
{
    lemma_listed_location(protected_prefixes(), k, path);
}

/// No guard allows a path that has a protected name anywhere in it.
pub proof fn law_protected_names_are_never_allowed(guard: Guard, k: int, path: Seq<char>)
    requires
        0 <= k < protected_names().len(),
        components(path).contains(protected_names()[k].prefix),
    ensures
        guard_objection(guard, path) is Some,
{
    lemma_listed_name(protected_names(), k, path);
}

/// What the user excluded, and this program's own directories, are refused
/// with everything below them.
pub proof fn law_exclusions_are_honoured(guard: Guard, k: int, path: Seq<char>)
    requires
        ({
            ||| 0 <= k < guard.user@.len() && path_within(path, guard.user@[k]@)
            ||| 0 <= k < guard.own@.len() && path_within(path, guard.own@[k]@)
        }),
    ensures
        guard_objection(guard, path) is Some,
{
    if 0 <= k < guard.user@.len() && path_within(path, guard.user@[k]@) {
        lemma_listed_directory(texts(guard.user@), k, path);
    } else {
        lemma_listed_directory(texts(guard.own@), k, path);
    }
}

/// An allowed path is absolute, is not the root, and has no traversal in it.
pub proof fn law_allowed_paths_are_plain(guard: Guard, path: Seq<char>)
    requires
        guard_objection(guard, path) is None,
    ensures
        absolute(path),
        components(path).len() > 1,
        !components(path).contains(".."@),
{
}

/// Partitioning loses nothing: every path is allowed or refused, once.
pub proof fn law_partition_loses_nothing(guard: Guard, paths: Seq<Seq<char>>)
    ensures
        allowed_paths(guard, paths).len() + refused_paths(guard, paths).len() == paths.len(),
        forall|i: int|
            0 <= i < allowed_paths(guard, paths).len() ==> guard_objection(
                guard,
                #[trigger] allowed_paths(guard, paths)[i],
            ) is None,
    decreases paths.len(),
{
    if paths.len() > 0 {
        law_partition_loses_nothing(guard, paths.drop_last());
    }
}

/// What is refused before any rule is looked at: a path that is not absolute,
/// the root, and a path that climbs.
pub proof fn law_what_is_refused_outright(guard: Guard, path: Seq<char>)
    ensures
        (path.len() == 0 || path[0] != '/') ==> (guard_objection(guard, path) matches Some(why)
            && why.0 == "relative_path"@),
        path.len() > 0 && path[0] == '/' && components(path).len() == 1 ==> (guard_objection(
            guard,
            path,
        ) matches Some(why) && why.0 == "filesystem_root"@),
        path.len() > 0 && path[0] == '/' && components(path).len() > 1 && components(path).contains(
            ".."@,
        ) ==> (guard_objection(guard, path) matches Some(why) && why.0 == "traversal"@),
{
}

proof fn lemma_first_directory(dirs: Seq<Seq<char>>, path: Seq<char>)
    ensures
        match first_directory(dirs, path) {
            Some(d) => dirs.contains(d) && path_within(path, d),
            None => forall|k: int| 0 <= k < dirs.len() ==> !path_within(path, #[trigger] dirs[k]),
        },
    decreases dirs.len(),
{
    if dirs.len() > 0 {
        if !path_within(path, dirs[0]) {
            lemma_first_directory(dirs.skip(1), path);
            match first_directory(dirs.skip(1), path) {
                Some(d) => {
                    let k = choose|k: int| 0 <= k < dirs.skip(1).len() && dirs.skip(1)[k] == d;
                    assert(dirs[k + 1] == d);
                },
                None => {
                    assert forall|k: int| 0 <= k < dirs.len() implies !path_within(
                        path,
                        #[trigger] dirs[k],
                    ) by {
                        if k > 0 {
                            assert(dirs.skip(1)[k - 1] == dirs[k]);
                        }
                    }
                },
            }
        } else {
            assert(dirs[0] == first_directory(dirs, path)->0);
        }
    }
}

/// What no built-in rule covers is refused exactly where it lies in one of
/// this program's own directories, or in one that the user excluded; the
/// reason then names that one.
pub proof fn law_beyond_the_rules_only_named_directories_are_refused(guard: Guard, path: Seq<char>)
    requires
        absolute(path),
        components(path).len() > 1,
        !components(path).contains(".."@),
        first_location(protected_prefixes(), path) is None,
        first_name(protected_names(), path) is None,
    ensures
        (exists|k: int| 0 <= k < guard.own@.len() && path_within(path, (#[trigger] guard.own@[k])@))
            ==> (guard_objection(guard, path) matches Some(why) && why.0 == "nix_state"@),
        !(exists|k: int|
            0 <= k < guard.own@.len() && path_within(path, (#[trigger] guard.own@[k])@)) ==> match guard_objection(
            guard,
            path,
        ) {
            Some(why) => why.0 == "user_exclusion"@ && exists|k: int|
                0 <= k < guard.user@.len() && path_within(path, (#[trigger] guard.user@[k])@)
                    && why.1 == "You excluded "@ + guard.user@[k]@ + "."@,
            None => forall|k: int|
                0 <= k < guard.user@.len() ==> !path_within(path, (#[trigger] guard.user@[k])@),
        },
{
    let own = texts(guard.own@);
    let user = texts(guard.user@);
    lemma_first_directory(own, path);
    lemma_first_directory(user, path);
    if exists|k: int| 0 <= k < guard.own@.len() && path_within(path, (#[trigger] guard.own@[k])@) {
        let k = choose|k: int|
            0 <= k < guard.own@.len() && path_within(path, (#[trigger] guard.own@[k])@);
        assert(own[k] == guard.own@[k]@);
    } else {
        if first_directory(own, path) is Some {
            let d = first_directory(own, path)->0;
            let k = choose|k: int| 0 <= k < own.len() && own[k] == d;
            assert(guard.own@[k]@ == d);
        }
        match first_directory(user, path) {
            Some(d) => {
                let k = choose|k: int| 0 <= k < user.len() && user[k] == d;
                assert(guard.user@[k]@ == d);
            },
            None => {
                assert forall|k: int| 0 <= k < guard.user@.len() implies !path_within(
                    path,
                    (#[trigger] guard.user@[k])@,
                ) by {
                    assert(user[k] == guard.user@[k]@);
                }
            },
        }
    }
}

/// This program's own directories are its settings, its state and its cache:
/// each in the directory that the environment names for that, or in the usual
/// one in the home directory.
pub proof fn law_own_directories_are_settings_state_and_cache(env: Environment)
    requires
        env.home matches Some(h) && h@.len() > 0,
        env.config_home is None,
        env.state_home is None,
        env.cache_home is None,
    ensures
        ({
            let h = env.home->0@;
            own_directories(env) == seq![
                joined(joined(h, ".config"@), "nix"@),
                joined(joined(h, ".local/state"@), "nix"@),
                joined(joined(h, ".cache"@), "nix"@),
            ]
        }),
{
    let h = env.home->0@;
    assert(own_directories(env) =~= seq![
        joined(joined(h, ".config"@), "nix"@),
        joined(joined(h, ".local/state"@), "nix"@),
        joined(joined(h, ".cache"@), "nix"@),
    ]);
}

/// Parting keeps the order, and each path comes out on one side: allowed as it
/// is, or refused with the objection that the guard has to it.
pub proof fn law_each_path_comes_out_once(guard: Guard, paths: Seq<Seq<char>>, path: Seq<char>)
    ensures
        match guard_objection(guard, path) {
            None => allowed_paths(guard, paths.push(path)) == allowed_paths(guard, paths).push(path)
                && refused_paths(guard, paths.push(path)) == refused_paths(guard, paths),
            Some(why) => refused_paths(guard, paths.push(path)) == refused_paths(
                guard,
                paths,
            ).push((path, why.0, why.1)) && allowed_paths(guard, paths.push(path))
                == allowed_paths(guard, paths),
        },
{
    assert(paths.push(path).drop_last() =~= paths);
}

/// A verdict is the guard's objection to the very path that was asked about,
/// and a path is allowed exactly where there is none.
pub proof fn law_a_verdict_is_about_its_path(
    guard: Guard,
    path: &str,
    verdict: Verdict,
    allowed: bool,
)
    requires
        call_ensures(Guard::verdict, (&guard, path), verdict),
        call_ensures(Guard::allows, (&guard, path), allowed),
    ensures
        allowed == (verdict is Allowed),
        allowed == (guard_objection(guard, path@) is None),
        verdict matches Verdict::Protected(refusal) ==> refusal.path@ == path@ && guard_objection(
            guard,
            path@,
        ) == Some((refusal.rule@, refusal.reason@)),
{
}

} // verus!
