//! Application caches, named by the application that owns each.
//!
//! Clearing a cache costs a slower start or another download, so most are
//! for review; only what comes back unnoticed is safe.
use vstd::prelude::*;
use vstd::string::*;
use crate::error::{AppError, Result};
use crate::op::check_flag;
use crate::paths::{base_dir, base_directory, home_dir, home_of, Environment};
use crate::space::{Advisory, Category as SpaceCategory, ReclaimMethod, Reclaimable, Safety};
use crate::text::{opt_text, same_str};
use super::registry::{candidate_text, candidate_texts, law_a_candidate_is_what_its_view_says, law_what_is_offered_is_returned, offers, stopped, Candidate, CandidateText, Category, MethodText, PromiseText};

verus! {

broadcast use vstd::string::group_string_axioms;

/// A cache that can be named: its directory, its application, and what
/// clearing it costs.
#[derive(Debug, Clone, Copy)]
pub struct Known {
    pub dir: &'static str,
    pub app: &'static str,
    pub cost: &'static str,
}

/// What some known caches say.
pub open spec fn known_texts(v: Seq<Known>) -> Seq<(Seq<char>, Seq<char>, Seq<char>)> {
    v.map_values(|k: Known| (k.dir@, k.app@, k.cost@))
}

/// The caches that can be named.
pub open spec fn known_table() -> Seq<(Seq<char>, Seq<char>, Seq<char>)> {
    seq![
        ("mozilla"@, "Firefox"@, "Firefox will re-download cached pages and assets."@),
        ("google-chrome"@, "Chrome"@, "Chrome will re-download cached pages and assets."@),
        ("chromium"@, "Chromium"@, "Chromium will re-download cached pages and assets."@),
        ("BraveSoftware"@, "Brave"@, "Brave will re-download cached pages and assets."@),
        ("microsoft-edge"@, "Edge"@, "Edge will re-download cached pages and assets."@),
        ("vivaldi"@, "Vivaldi"@, "Vivaldi will re-download cached pages and assets."@),
        ("thumbnails"@, "Image thumbnails"@, "Thumbnails regenerate as you browse folders."@),
        ("fontconfig"@, "Font cache"@, "The first application to start afterwards will rebuild it."@),
        ("mesa_shader_cache"@, "Graphics shader cache"@, "Games and 3D applications will recompile shaders on first run, which stutters briefly."@),
        ("mesa_shader_cache_db"@, "Graphics shader cache"@, "Games and 3D applications will recompile shaders on first run, which stutters briefly."@),
        ("nvidia"@, "NVIDIA shader cache"@, "Shaders will be recompiled on first run."@),
        ("pip"@, "pip"@, "Python packages will be downloaded again on next install."@),
        ("npm"@, "npm"@, "Node packages will be downloaded again on next install."@),
        ("yarn"@, "Yarn"@, "Node packages will be downloaded again on next install."@),
        ("pnpm"@, "pnpm"@, "Node packages will be downloaded again on next install."@),
        ("go-build"@, "Go build cache"@, "The next Go build will be slower."@),
        ("sccache"@, "sccache"@, "The next compile will be slower."@),
        ("JetBrains"@, "JetBrains IDEs"@, "Indexes will be rebuilt when you next open a project."@),
        ("Code"@, "Visual Studio Code"@, "VS Code will rebuild its caches on next start."@),
        ("spotify"@, "Spotify"@, "Spotify will re-download cached tracks."@),
        ("gstreamer-1.0"@, "GStreamer"@, "Media plugins will be rescanned once."@),
        ("tracker3"@, "File indexer"@, "The file index will be rebuilt in the background."@),
        ("winetricks"@, "Winetricks"@, "Downloads will be fetched again if needed."@),
        ("flatpak"@, "Flatpak"@, "Flatpak will re-fetch metadata."@),
        ("snapd"@, "Snap"@, "Snap will re-fetch metadata."@),
        ("cargo"@, "Cargo"@, "Crates will be downloaded again on next build."@),
        ("composer"@, "Composer"@, "PHP packages will be downloaded again."@),
        ("ms-playwright"@, "Playwright browsers"@, "Test browsers will be downloaded again."@),
        ("puppeteer"@, "Puppeteer browsers"@, "Test browsers will be downloaded again."@),
    ]
}

/// The caches that can be named.
pub fn known() -> (r: Vec<Known>)
    ensures
        known_texts(r@) == known_table(),
{
    let r = vec![
        Known { dir: "mozilla", app: "Firefox", cost: "Firefox will re-download cached pages and assets." },
        Known { dir: "google-chrome", app: "Chrome", cost: "Chrome will re-download cached pages and assets." },
        Known { dir: "chromium", app: "Chromium", cost: "Chromium will re-download cached pages and assets." },
        Known { dir: "BraveSoftware", app: "Brave", cost: "Brave will re-download cached pages and assets." },
        Known { dir: "microsoft-edge", app: "Edge", cost: "Edge will re-download cached pages and assets." },
        Known { dir: "vivaldi", app: "Vivaldi", cost: "Vivaldi will re-download cached pages and assets." },
        Known { dir: "thumbnails", app: "Image thumbnails", cost: "Thumbnails regenerate as you browse folders." },
        Known { dir: "fontconfig", app: "Font cache", cost: "The first application to start afterwards will rebuild it." },
        Known { dir: "mesa_shader_cache", app: "Graphics shader cache", cost: "Games and 3D applications will recompile shaders on first run, which stutters briefly." },
        Known { dir: "mesa_shader_cache_db", app: "Graphics shader cache", cost: "Games and 3D applications will recompile shaders on first run, which stutters briefly." },
        Known { dir: "nvidia", app: "NVIDIA shader cache", cost: "Shaders will be recompiled on first run." },
        Known { dir: "pip", app: "pip", cost: "Python packages will be downloaded again on next install." },
        Known { dir: "npm", app: "npm", cost: "Node packages will be downloaded again on next install." },
        Known { dir: "yarn", app: "Yarn", cost: "Node packages will be downloaded again on next install." },
        Known { dir: "pnpm", app: "pnpm", cost: "Node packages will be downloaded again on next install." },
        Known { dir: "go-build", app: "Go build cache", cost: "The next Go build will be slower." },
        Known { dir: "sccache", app: "sccache", cost: "The next compile will be slower." },
        Known { dir: "JetBrains", app: "JetBrains IDEs", cost: "Indexes will be rebuilt when you next open a project." },
        Known { dir: "Code", app: "Visual Studio Code", cost: "VS Code will rebuild its caches on next start." },
        Known { dir: "spotify", app: "Spotify", cost: "Spotify will re-download cached tracks." },
        Known { dir: "gstreamer-1.0", app: "GStreamer", cost: "Media plugins will be rescanned once." },
        Known { dir: "tracker3", app: "File indexer", cost: "The file index will be rebuilt in the background." },
        Known { dir: "winetricks", app: "Winetricks", cost: "Downloads will be fetched again if needed." },
        Known { dir: "flatpak", app: "Flatpak", cost: "Flatpak will re-fetch metadata." },
        Known { dir: "snapd", app: "Snap", cost: "Snap will re-fetch metadata." },
        Known { dir: "cargo", app: "Cargo", cost: "Crates will be downloaded again on next build." },
        Known { dir: "composer", app: "Composer", cost: "PHP packages will be downloaded again." },
        Known { dir: "ms-playwright", app: "Playwright browsers", cost: "Test browsers will be downloaded again." },
        Known { dir: "puppeteer", app: "Puppeteer browsers", cost: "Test browsers will be downloaded again." },
    ];
    assert(known_texts(r@) =~= known_table());
    r
}

/// The first entry of a table for a directory.
pub open spec fn known_in(
    table: Seq<(Seq<char>, Seq<char>, Seq<char>)>,
    name: Seq<char>,
) -> Option<(Seq<char>, Seq<char>, Seq<char>)>
    decreases table.len(),
{
    if table.len() == 0 {
        None
    } else if table[0].0 == name {
        Some(table[0])
    } else {
        known_in(table.skip(1), name)
    }
}

/// Whether the loss of a cache goes unnoticed.
pub open spec fn invisible(name: Seq<char>) -> bool {
    name == "thumbnails"@ || name == "fontconfig"@
}

/// Whether the loss of a cache goes unnoticed.
pub fn is_invisible(name: &str) -> (r: bool)
    ensures
        r == invisible(name@),
{
    same_str(name, "thumbnails") || same_str(name, "fontconfig")
}

/// What is said of a cache that cannot be named.
pub const UNKNOWN_COST: &'static str =
    "nix does not recognise this cache, so it cannot say what clearing it costs.";

/// What is said of a cache: whose it is, what clearing it costs, and how safe
/// that is. One that cannot be named is called what its directory is called.
pub open spec fn description(name: Seq<char>) -> (Seq<char>, Seq<char>, Safety) {
    match known_in(known_table(), name) {
        Some(k) => (
            k.1,
            k.2,
            if invisible(name) {
                Safety::Safe
            } else {
                Safety::Review
            },
        ),
        None => (name + " (unrecognised)"@, UNKNOWN_COST@, Safety::Review),
    }
}

/// Describes one cache directory.
pub fn describe(name: &str) -> (r: (String, &'static str, Safety))
    ensures
        r.0@ == description(name@).0,
        r.1@ == description(name@).1,
        r.2 == description(name@).2,
{
    let table = known();
    let ghost all = known_texts(table@);
    let mut i: usize = 0;
    assert(all.skip(0) =~= all);
    while i < table.len()
        invariant
            i <= table@.len(),
            all == known_texts(table@),
            all == known_table(),
            known_in(all, name@) == known_in(all.skip(i as int), name@),
        decreases table@.len() - i,
    {
        assert(all.skip(i as int)[0] == (
            table@[i as int].dir@,
            table@[i as int].app@,
            table@[i as int].cost@,
        ));
        assert(all.skip(i as int).skip(1) =~= all.skip(i + 1));
        if same_str(table[i].dir, name) {
            let safety = if is_invisible(name) {
                Safety::Safe
            } else {
                Safety::Review
            };
            return (table[i].app.to_owned(), table[i].cost, safety);
        }
        i = i + 1;
    }
    assert(all.skip(i as int).len() == 0);
    let mut label = name.to_owned();
    label.append(" (unrecognised)");
    (label, UNKNOWN_COST, Safety::Review)
}

/// The directory that holds a user's caches.
pub fn cache_root(env: &Environment) -> (r: Option<String>)
    ensures
        opt_text(r) == base_directory(opt_text(env.cache_home), home_of(*env), ".cache"@),
{
    let var = match &env.cache_home {
        Some(v) => Some(v.as_str()),
        None => None,
    };
    base_dir(var, home_dir(env), ".cache")
}

/// One entry of the directory of caches.
#[derive(Debug, Clone)]
pub struct CacheEntry {
    pub path: String,
    pub name: String,
    /// Whether it is a directory.
    pub directory: bool,
    /// Whether it is a link, which may lead anywhere.
    pub link: bool,
    /// What it takes on disk.
    pub bytes: u64,
}

/// What was seen of the directory of caches.
#[derive(Debug, Clone)]
pub struct CacheListing {
    /// Whether it is a directory.
    pub directory: bool,
    /// What is in it, where it could be read.
    pub entries: Option<Vec<CacheEntry>>,
}

/// The offer to clear a cache.
pub open spec fn cache_offer(e: CacheEntry) -> CandidateText {
    CandidateText {
        path: e.path@,
        label: description(e.name@).0,
        bytes: e.bytes,
        safety: description(e.name@).2,
        method: MethodText::MoveToTrash(e.path@),
        cost: Some(description(e.name@).1),
        category: "app_cache"@,
        reclaimable: PromiseText::Exact,
    }
}

/// What is offered of some entries, in order: each directory that is no link
/// and takes space.
pub open spec fn cache_offers(all: Seq<CacheEntry>) -> Seq<CandidateText>
    decreases all.len(),
{
    if all.len() == 0 {
        Seq::empty()
    } else if all.last().directory && !all.last().link && all.last().bytes > 0 {
        cache_offers(all.drop_last()).push(cache_offer(all.last()))
    } else {
        cache_offers(all.drop_last())
    }
}

fn offer_cache(e: &CacheEntry) -> (r: Candidate)
    ensures
        candidate_text(r) == cache_offer(*e),
{
    let (label, cost, safety) = describe(e.name.as_str());
    Candidate {
        path: e.path.clone(),
        label,
        bytes: e.bytes,
        safety,
        method: ReclaimMethod::MoveToTrash { path: e.path.clone() },
        cost: Some(cost.to_owned()),
        category: "app_cache".to_owned(),
        reclaimable: Reclaimable::Exact,
    }
}

/// What the category holds.
pub const MEANING: &'static str =
    "Files that applications keep to start faster or to avoid downloading again. They are made again as they are needed, which the first time is slower.";

/// Application caches, with what was seen of them.
#[derive(Debug, Clone)]
pub struct AppCacheCategory {
    root: Option<CacheListing>,
}

impl AppCacheCategory {
    /// What was seen of the directory of caches.
    pub closed spec fn listing(&self) -> Option<CacheListing> {
        self.root
    }

    /// A category that has seen no caches.
    pub fn new() -> (r: Self)
        ensures
            r.listing() is None,
    {
        AppCacheCategory { root: None }
    }

    /// A category over what was seen of a directory of caches.
    pub fn at(root: CacheListing) -> (r: Self)
        ensures
            r.listing() == Some(root),
    {
        AppCacheCategory { root: Some(root) }
    }
}

impl Default for AppCacheCategory {
    fn default() -> (r: Self)
        ensures
            r.listing() is None,
    {
        AppCacheCategory::new()
    }
}

impl Category for AppCacheCategory {
    open spec fn ident(&self) -> Seq<char> {
        "app_cache"@
    }

    open spec fn title(&self) -> Seq<char> {
        "Application caches"@
    }

    open spec fn meaning(&self) -> Seq<char> {
        MEANING@
    }

    open spec fn kind(&self) -> SpaceCategory {
        SpaceCategory::AppCache
    }

    open spec fn usable(&self) -> bool {
        match self.listing() {
            Some(l) => l.directory,
            None => false,
        }
    }

    /// A request to stop is honoured before each entry.
    open spec fn proposes(&self, cancelled: bool, r: Result<Vec<Candidate>>) -> bool {
        match self.listing() {
            Some(CacheListing { entries: Some(all), .. }) => if cancelled && all@.len() > 0 {
                stopped(r)
            } else {
                offers(r, cache_offers(all@))
            },
            _ => offers(r, Seq::empty()),
        }
    }

    open spec fn advises(&self, r: Seq<Advisory>) -> bool {
        r.len() == 0
    }

    fn id(&self) -> &'static str {
        "app_cache"
    }

    fn label(&self) -> &'static str {
        "Application caches"
    }

    fn explains(&self) -> &'static str {
        MEANING
    }

    fn space_category(&self) -> SpaceCategory {
        SpaceCategory::AppCache
    }

    fn available(&self) -> bool {
        match &self.root {
            Some(l) => l.directory,
            None => false,
        }
    }

    fn advisories(&self) -> Vec<Advisory> {
        Vec::new()
    }

    fn candidates(&self, cancelled: bool) -> Result<Vec<Candidate>> {
        let mut out: Vec<Candidate> = Vec::new();
        assert(candidate_texts(out@) =~= Seq::<CandidateText>::empty());
        let entries = match &self.root {
            Some(CacheListing { entries: Some(all), .. }) => all,
            _ => {
                return Ok(out);
            },
        };
        let mut i: usize = 0;
        assert(entries@.take(0) =~= Seq::<CacheEntry>::empty());
        while i < entries.len()
            invariant
                i <= entries@.len(),
                i > 0 ==> !cancelled,
                self.root matches Some(l) && l.entries == Some(*entries),
                candidate_texts(out@) == cache_offers(entries@.take(i as int)),
            decreases entries@.len() - i,
        {
            if let Err(e) = check_flag(cancelled) {
                return Err(e);
            }
            assert(entries@.take(i + 1).drop_last() =~= entries@.take(i as int));
            if entries[i].directory && !entries[i].link && entries[i].bytes > 0 {
                let ghost before = candidate_texts(out@);
                let c = offer_cache(&entries[i]);
                out.push(c);
                assert(candidate_texts(out@) =~= before.push(candidate_text(c)));
            }
            i = i + 1;
        }
        assert(entries@.take(i as int) =~= entries@);
        Ok(out)
    }
}

/// Only a cache whose loss goes unnoticed is ever rated safe; every other one
/// is for review.
pub proof fn law_only_invisible_caches_are_safe(name: Seq<char>)
    ensures
        description(name).2 == Safety::Safe ==> invisible(name),
        !invisible(name) ==> description(name).2 == Safety::Review,
{
}

/// Every cache that is offered goes to the trash, takes space and states its
/// cost.
pub proof fn law_caches_are_trashed_and_state_their_cost(all: Seq<CacheEntry>, i: int)
    requires
        0 <= i < cache_offers(all).len(),
    ensures
        cache_offers(all)[i].method is MoveToTrash,
        cache_offers(all)[i].bytes > 0,
        cache_offers(all)[i].cost is Some,
    decreases all.len(),
{
    if i < cache_offers(all.drop_last()).len() {
        law_caches_are_trashed_and_state_their_cost(all.drop_last(), i);
        assert(cache_offers(all)[i] == cache_offers(all.drop_last())[i]);
    }
}

proof fn lemma_known_in(table: Seq<(Seq<char>, Seq<char>, Seq<char>)>, name: Seq<char>)
    ensures
        match known_in(table, name) {
            Some(k) => table.contains(k) && k.0 == name,
            None => forall|i: int| 0 <= i < table.len() ==> (#[trigger] table[i]).0 != name,
        },
    decreases table.len(),
{
    if table.len() > 0 {
        if table[0].0 != name {
            let rest = table.skip(1);
            lemma_known_in(rest, name);
            match known_in(rest, name) {
                Some(k) => {
                    let i = choose|i: int| 0 <= i < rest.len() && rest[i] == k;
                    assert(table[i + 1] == k);
                },
                None => {
                    assert forall|i: int| 0 <= i < table.len() implies (#[trigger] table[i]).0
                        != name by {
                        if i > 0 {
                            assert(rest[i - 1] == table[i]);
                        }
                    }
                },
            }
        } else {
            assert(table[0] == known_in(table, name)->0);
        }
    }
}

/// A cache is described by the entry for its directory, application and cost
/// together, and where there is none it is called unrecognised. Only
/// thumbnails and the font cache are ever safe to take along unseen.
pub proof fn law_a_cache_is_described_by_its_own_entry(name: Seq<char>)
    ensures
        ({
            ||| exists|k: int|
                0 <= k < known_table().len() && (#[trigger] known_table()[k]).0 == name
                    && description(name).0 == known_table()[k].1 && description(name).1
                    == known_table()[k].2
            ||| description(name).0 == name + " (unrecognised)"@ && description(name).2
                == Safety::Review && forall|k: int|
                0 <= k < known_table().len() ==> (#[trigger] known_table()[k]).0 != name
        }),
        description(name).2 == Safety::Safe ==> name == "thumbnails"@ || name == "fontconfig"@,
        description(name).2 == Safety::Safe || description(name).2 == Safety::Review,
{
    lemma_known_in(known_table(), name);
    if let Some(e) = known_in(known_table(), name) {
        let k = choose|k: int| 0 <= k < known_table().len() && known_table()[k] == e;
        assert(known_table()[k].0 == name);
    }
}

/// A cache that is a directory of its own, and no link, is offered for what it
/// takes, and is moved to the trash by its own path; nothing else is.
pub proof fn law_which_caches_are_offered(all: Seq<CacheEntry>, e: CacheEntry)
    ensures
        e.directory && !e.link && e.bytes > 0 ==> {
            &&& cache_offers(all.push(e)).len() == cache_offers(all).len() + 1
            &&& cache_offers(all.push(e)).drop_last() == cache_offers(all)
            &&& cache_offers(all.push(e)).last().path == e.path@
            &&& cache_offers(all.push(e)).last().method == MethodText::MoveToTrash(e.path@)
            &&& cache_offers(all.push(e)).last().bytes == e.bytes
            &&& cache_offers(all.push(e)).last().label == description(e.name@).0
            &&& cache_offers(all.push(e)).last().cost == Some(description(e.name@).1)
            &&& cache_offers(all.push(e)).last().safety == description(e.name@).2
        },
        !e.directory || e.link || e.bytes == 0 ==> cache_offers(all.push(e)) == cache_offers(all),
        cache_offers(Seq::<CacheEntry>::empty()).len() == 0,
{
    assert(all.push(e).drop_last() =~= all);
    assert(cache_offers(all).push(cache_offer(e)).drop_last() =~= cache_offers(all));
}

/// What is offered of the caches is directories of their own, each moved to
/// the trash by its own path and for what it takes.
pub proof fn law_only_cache_directories_are_named(
    c: AppCacheCategory,
    l: CacheListing,
    r: Result<Vec<Candidate>>,
    v: Vec<Candidate>,
    i: int,
)
    requires
        call_ensures(<AppCacheCategory as Category>::candidates, (&c, false), r),
        r == Ok::<Vec<Candidate>, AppError>(v),
        c.listing() == Some(l),
        l.entries is Some,
        0 <= i < v@.len(),
    ensures
        v@[i].method matches ReclaimMethod::MoveToTrash { path } && path@ == v@[i].path@
            && is_cache_directory((l.entries->0)@, path@, v@[i].bytes),
        v@[i].safety == Safety::Safe || v@[i].safety == Safety::Review,
        v@[i].cost is Some,
{
    let all = (l.entries->0)@;
    law_what_is_offered_is_returned(v, cache_offers(all));
    law_a_candidate_is_what_its_view_says(v@[i]);
    let k = lemma_offered_cache(all, i);
    assert(all[k].path@ == v@[i].path@);
}

/// Whether a directory of caches has a directory of its own at a path, which
/// takes this much.
pub open spec fn is_cache_directory(all: Seq<CacheEntry>, path: Seq<char>, bytes: u64) -> bool {
    exists|k: int|
        0 <= k < all.len() && (#[trigger] all[k]).path@ == path && all[k].directory && !all[k].link
            && all[k].bytes == bytes && bytes > 0
}

proof fn lemma_offered_cache(all: Seq<CacheEntry>, i: int) -> (k: int)
    requires
        0 <= i < cache_offers(all).len(),
    ensures
        0 <= k < all.len(),
        all[k].directory && !all[k].link && all[k].bytes > 0,
        cache_offers(all)[i] == cache_offer(all[k]),
    decreases all.len(),
{
    if i < cache_offers(all.drop_last()).len() {
        lemma_offered_cache(all.drop_last(), i)
    } else {
        all.len() - 1
    }
}

} // verus!
