//! Container images, containers, build caches and volumes.
//!
//! Docker states sizes in powers of ten. Images and caches can be had again;
//! a volume holds the only copy of something, so each one is a decision of
//! its own.
use vstd::prelude::*;
use vstd::string::*;
use crate::caps::{Capabilities, Capability};
use crate::decimal::{parse_scaled, scaled_number};
use crate::error::{plain_error, AppError, ErrorCode, Result};
use crate::op::check_flag;
use crate::order::in_order;
use crate::pkg::{number_end, owned_args, Query, Ran};
use crate::space::{Advisory, Category as SpaceCategory, PruneScope, ReclaimMethod, Reclaimable, Safety};
use crate::text::{after_prefix, begins, chars_of, decimal, ends, ends_with, is_text, lines, lossy_text, number, number_or_zero, opt_text, parse_u64, parted_at, push_u64, same_str, split_lines, split_once_text, split_words, starts_with, string_of, strip_prefix, text_at, texts, trim, trimmed, utf8_lossy, views, words};
use super::registry::{candidate_text, candidate_texts, largest_first, law_a_candidate_is_what_its_view_says, law_what_is_offered_is_returned, offers, stopped, Candidate, CandidateText, Category, MethodText, PromiseText};

verus! {

broadcast use vstd::string::group_string_axioms;

// ---------------------------------------------------------------------------
// Sizes
// ---------------------------------------------------------------------------

/// How many bytes one of Docker's units is. One that is not known is none.
pub open spec fn docker_unit(unit: Seq<char>) -> Option<nat> {
    if unit == "B"@ || unit.len() == 0 {
        Some(1)
    } else if unit == "kB"@ || unit == "KB"@ {
        Some(1000)
    } else if unit == "MB"@ {
        Some(1000000)
    } else if unit == "GB"@ {
        Some(1000000000)
    } else if unit == "TB"@ {
        Some(1000000000000)
    } else if unit == "PB"@ {
        Some(1000000000000000)
    } else {
        None
    }
}

/// A size without the percentage that may stand behind it.
pub open spec fn without_percentage(raw: Seq<char>) -> Seq<char> {
    match parted_at(raw, " ("@) {
        Some((front, _)) => trimmed(front),
        None => trimmed(raw),
    }
}

/// The bytes that one of Docker's sizes states. Nothing is claimed of a unit
/// that is not known.
pub open spec fn docker_size(raw: Seq<char>) -> u64 {
    let text = without_percentage(raw);
    let at = number_end(text, false);
    match docker_unit(trimmed(text.skip(at))) {
        Some(unit) => match scaled_number(text.take(at), unit) {
            Some(n) => n,
            None => 0,
        },
        None => 0,
    }
}

/// Parses a size as Docker states it: `314MB`, `17.5GB (60%)`, `0B`.
pub fn parse_docker_size(raw: &str) -> (r: u64)
    ensures
        r == docker_size(raw@),
{
    let chars = chars_of(raw);
    let text = match split_once_text(chars.as_slice(), " (") {
        Some((front, _)) => trim(front),
        None => trim(chars.as_slice()),
    };
    let end: usize = text.len();
    let mut at: usize = 0;
    assert(text@.skip(0) =~= text@);
    while at < end && (('0' <= text[at] && text[at] <= '9') || text[at] == '.')
        invariant
            at <= end == text@.len(),
            number_end(text@, false) == at + number_end(text@.skip(at as int), false),
        decreases end - at,
    {
        assert(text@.skip(at as int).skip(1) =~= text@.skip(at + 1));
        at = at + 1;
    }
    let figure = vstd::slice::slice_subrange(text, 0, at);
    assert(figure@ =~= text@.take(at as int));
    let back = vstd::slice::slice_subrange(text, at, end);
    assert(back@ =~= text@.skip(at as int));
    let unit = trim(back);
    let scale: u64 = if unit.len() == 0 || is_text(unit, "B") {
        1
    } else if is_text(unit, "kB") || is_text(unit, "KB") {
        1000
    } else if is_text(unit, "MB") {
        1000000
    } else if is_text(unit, "GB") {
        1000000000
    } else if is_text(unit, "TB") {
        1000000000000
    } else if is_text(unit, "PB") {
        1000000000000000
    } else {
        return 0;
    };
    match parse_scaled(figure, scale) {
        Some(n) => n,
        None => 0,
    }
}

// ---------------------------------------------------------------------------
// What Docker says it holds
// ---------------------------------------------------------------------------

/// One row of Docker's account of its space.
#[derive(Debug, Clone, PartialEq, Eq)]
pub struct Usage {
    /// `Images`, `Containers`, `Local Volumes` or `Build Cache`.
    pub kind: String,
    pub total: u64,
    pub active: u64,
    pub size: u64,
    pub reclaimable: u64,
}

/// A row with its text.
pub struct UsageText {
    pub kind: Seq<char>,
    pub total: u64,
    pub active: u64,
    pub size: u64,
    pub reclaimable: u64,
}

/// What a row says.
pub open spec fn usage_text(u: Usage) -> UsageText {
    UsageText {
        kind: u.kind@,
        total: u.total,
        active: u.active,
        size: u.size,
        reclaimable: u.reclaimable,
    }
}

/// What some rows say.
pub open spec fn usage_texts(v: Seq<Usage>) -> Seq<UsageText> {
    v.map_values(|u: Usage| usage_text(u))
}

/// The text under a key of a JSON object: none where `text` is not JSON, and
/// an empty inner option where there is no text under that key.
pub uninterp spec fn json_text(text: Seq<char>, key: Seq<char>) -> Option<Option<Seq<char>>>;

/// What an option of an option stands for.
pub open spec fn nested_text(t: Option<Option<String>>) -> Option<Option<Seq<char>>> {
    match t {
        Some(inner) => Some(opt_text(inner)),
        None => None,
    }
}

/// Calls `serde_json::from_str` for a `serde_json::Value`, then
/// `Value::get` and `Value::as_str`. The contract claims that what comes out
/// depends on the text and the key alone; what it is for a given text is left
/// to JSON.
#[verifier::external_body]
fn json_field(text: &str, key: &str) -> (r: Option<Option<String>>)
    ensures
        nested_text(r) == json_text(text@, key@),
{
    serde_json::from_str::<serde_json::Value>(text).ok().map(
        |value| value.get(key).and_then(serde_json::Value::as_str).map(str::to_string),
    )
}

/// The row that five fields describe. One without a kind is no row.
pub open spec fn usage_row(
    kind: Seq<char>,
    total: Seq<char>,
    active: Seq<char>,
    size: Seq<char>,
    reclaimable: Seq<char>,
) -> Option<UsageText> {
    if kind.len() == 0 {
        None
    } else {
        Some(
            UsageText {
                kind,
                total: number_or_zero(total),
                active: number_or_zero(active),
                size: docker_size(size),
                reclaimable: docker_size(reclaimable),
            },
        )
    }
}

fn count_in(text: &str) -> (r: u64)
    ensures
        r == number_or_zero(text@),
{
    let chars = chars_of(text);
    match parse_u64(chars.as_slice()) {
        Some(n) => n,
        None => 0,
    }
}

/// The row that five fields describe.
pub fn usage_from(kind: &str, total: &str, active: &str, size: &str, reclaimable: &str) -> (r:
    Option<Usage>)
    ensures
        match r {
            Some(u) => usage_row(kind@, total@, active@, size@, reclaimable@) == Some(
                usage_text(u),
            ),
            None => usage_row(kind@, total@, active@, size@, reclaimable@) is None,
        },
{
    if kind.is_empty() {
        return None;
    }
    Some(
        Usage {
            kind: kind.to_owned(),
            total: count_in(total),
            active: count_in(active),
            size: parse_docker_size(size),
            reclaimable: parse_docker_size(reclaimable),
        },
    )
}

/// The text under a key, or nothing.
pub open spec fn field_or_empty(text: Seq<char>, key: Seq<char>) -> Seq<char> {
    match json_text(text, key) {
        Some(Some(t)) => t,
        _ => Seq::empty(),
    }
}

/// The row that a line describes. A line that is not JSON describes none.
pub open spec fn usage_line(line: Seq<char>) -> Option<UsageText> {
    let text = trimmed(line);
    if json_text(text, "Type"@) is None {
        None
    } else {
        usage_row(
            field_or_empty(text, "Type"@),
            field_or_empty(text, "TotalCount"@),
            field_or_empty(text, "Active"@),
            field_or_empty(text, "Size"@),
            field_or_empty(text, "Reclaimable"@),
        )
    }
}

/// The rows that some lines describe, in order.
pub open spec fn usage_lines(all: Seq<Seq<char>>) -> Seq<UsageText>
    decreases all.len(),
{
    if all.len() == 0 {
        Seq::empty()
    } else {
        match usage_line(all.last()) {
            Some(u) => usage_lines(all.drop_last()).push(u),
            None => usage_lines(all.drop_last()),
        }
    }
}

fn field(text: &str, key: &str) -> (r: String)
    ensures
        r@ == field_or_empty(text@, key@),
{
    match json_field(text, key) {
        Some(Some(t)) => t,
        _ => String::new(),
    }
}

/// Parses Docker's account of its space, one JSON object a line.
pub fn parse_system_df(output: &str) -> (r: Vec<Usage>)
    ensures
        usage_texts(r@) == usage_lines(lines(output@)),
{
    let chars = chars_of(output);
    let rows = split_lines(chars.as_slice());
    let ghost all = lines(output@);
    let mut out: Vec<Usage> = Vec::new();
    let mut i: usize = 0;
    assert(all.take(0) =~= Seq::<Seq<char>>::empty());
    assert(usage_texts(out@) =~= Seq::<UsageText>::empty());
    while i < rows.len()
        invariant
            i <= rows@.len(),
            views(rows@) == all,
            usage_texts(out@) == usage_lines(all.take(i as int)),
        decreases rows@.len() - i,
    {
        assert(all.take(i + 1).drop_last() =~= all.take(i as int));
        assert(all.take(i + 1).last() == rows@[i as int]@);
        let text = string_of(trim(rows[i]));
        if let Some(found) = json_field(text.as_str(), "Type") {
            let kind = match found {
                Some(k) => k,
                None => String::new(),
            };
            let total = field(text.as_str(), "TotalCount");
            let active = field(text.as_str(), "Active");
            let size = field(text.as_str(), "Size");
            let reclaimable = field(text.as_str(), "Reclaimable");
            if let Some(u) = usage_from(
                kind.as_str(),
                total.as_str(),
                active.as_str(),
                size.as_str(),
                reclaimable.as_str(),
            ) {
                let ghost before = usage_texts(out@);
                out.push(u);
                assert(usage_texts(out@) =~= before.push(usage_text(u)));
            }
        }
        i = i + 1;
    }
    assert(all.take(i as int) =~= all);
    out
}

// ---------------------------------------------------------------------------
// Volumes
// ---------------------------------------------------------------------------

/// One local volume.
#[derive(Debug, Clone, PartialEq, Eq)]
pub struct Volume {
    pub name: String,
    /// Bytes it occupies.
    pub bytes: u64,
    /// How many containers refer to it. Zero means nothing is using it.
    pub links: u64,
}

/// A volume with its text.
pub struct VolumeText {
    pub name: Seq<char>,
    pub bytes: u64,
    pub links: u64,
}

/// What a volume says.
pub open spec fn volume_text(v: Volume) -> VolumeText {
    VolumeText { name: v.name@, bytes: v.bytes, links: v.links }
}

/// What some volumes say.
pub open spec fn volume_texts(v: Seq<Volume>) -> Seq<VolumeText> {
    v.map_values(|x: Volume| volume_text(x))
}

/// Whether a character is an ASCII letter or digit.
pub open spec fn alphanumeric(c: char) -> bool {
    'a' <= c <= 'z' || 'A' <= c <= 'Z' || '0' <= c <= '9'
}

/// Whether a text is shaped like the name of a volume: a letter or digit, and
/// then letters, digits, underscores, dots and hyphens, 255 in all at most.
pub open spec fn volume_name(name: Seq<char>) -> bool {
    &&& 0 < name.len() <= 255
    &&& alphanumeric(name[0])
    &&& forall|i: int|
        0 < i < name.len() ==> alphanumeric(#[trigger] name[i]) || name[i] == '_' || name[i] == '.'
            || name[i] == '-'
}

fn is_alphanumeric(c: char) -> (r: bool)
    ensures
        r == alphanumeric(c),
{
    ('a' <= c && c <= 'z') || ('A' <= c && c <= 'Z') || ('0' <= c && c <= '9')
}

/// Whether a text is shaped like the name of a volume.
pub fn is_volume_name(name: &str) -> (r: bool)
    ensures
        r == volume_name(name@),
{
    let chars = chars_of(name);
    if chars.len() == 0 || chars.len() > 255 || !is_alphanumeric(chars[0]) {
        return false;
    }
    let mut i: usize = 1;
    while i < chars.len()
        invariant
            1 <= i <= chars@.len(),
            chars@ == name@,
            forall|k: int|
                0 < k < i ==> alphanumeric(#[trigger] chars@[k]) || chars@[k] == '_' || chars@[k]
                    == '.' || chars@[k] == '-',
        decreases chars@.len() - i,
    {
        let c: char = chars[i];
        if !is_alphanumeric(c) && c != '_' && c != '.' && c != '-' {
            assert(name@[i as int] == c);
            return false;
        }
        i = i + 1;
    }
    true
}

/// The volume that a line lists: its name first, and its links and its size
/// last.
pub open spec fn volume_line(line: Seq<char>) -> Option<VolumeText> {
    let w = words(line);
    if w.len() < 3 || w[0] == "VOLUME"@ || !volume_name(w[0]) {
        None
    } else {
        match number(w[w.len() - 2]) {
            Some(links) => Some(
                VolumeText { name: w[0], bytes: docker_size(w[w.len() - 1]), links },
            ),
            None => None,
        }
    }
}

/// Whether a line heads a section: that of the build cache carries a figure
/// after its name, every other one ends with it.
pub open spec fn is_heading(line: Seq<char>) -> bool {
    ends(line, "space usage:"@) || begins(line, "Build cache usage:"@)
}

/// The volumes that some lines list: those of the section on volumes, up to
/// the next section.
pub open spec fn volumes_in(all: Seq<Seq<char>>, inside: bool) -> Seq<VolumeText>
    decreases all.len(),
{
    if all.len() == 0 {
        Seq::empty()
    } else if begins(all[0], "Local Volumes space usage"@) {
        volumes_in(all.skip(1), true)
    } else if !inside {
        volumes_in(all.skip(1), false)
    } else if is_heading(all[0]) {
        Seq::empty()
    } else {
        match volume_line(all[0]) {
            Some(v) => seq![v] + volumes_in(all.skip(1), true),
            None => volumes_in(all.skip(1), true),
        }
    }
}

fn parse_volume(line: &[char]) -> (r: Option<Volume>)
    ensures
        match r {
            Some(v) => volume_line(line@) == Some(volume_text(v)),
            None => volume_line(line@) is None,
        },
{
    let fields = split_words(line);
    let ghost w = words(line@);
    let n: usize = fields.len();
    assert(views(fields@) == w && w.len() == n);
    if n < 3 {
        return None;
    }
    assert(w[0] == fields@[0]@ && w[n - 2] == fields@[n - 2]@ && w[n - 1] == fields@[n - 1]@);
    if is_text(fields[0], "VOLUME") {
        return None;
    }
    let name = string_of(fields[0]);
    if !is_volume_name(name.as_str()) {
        return None;
    }
    let size = string_of(fields[n - 1]);
    match parse_u64(fields[n - 2]) {
        Some(links) => Some(Volume { name, bytes: parse_docker_size(size.as_str()), links }),
        None => None,
    }
}

/// Parses the section on volumes in Docker's detailed account.
pub fn parse_volumes(output: &str) -> (r: Vec<Volume>)
    ensures
        volume_texts(r@) == volumes_in(lines(output@), false),
{
    let chars = chars_of(output);
    let rows = split_lines(chars.as_slice());
    let ghost all = lines(output@);
    let mut out: Vec<Volume> = Vec::new();
    let mut inside = false;
    let mut i: usize = 0;
    assert(all.skip(0) =~= all);
    assert(volume_texts(out@) =~= Seq::<VolumeText>::empty());
    assert(volumes_in(all, false) =~= volume_texts(out@) + volumes_in(all, false));
    while i < rows.len()
        invariant
            i <= rows@.len(),
            views(rows@) == all,
            all == lines(output@),
            volumes_in(all, false) == volume_texts(out@) + volumes_in(all.skip(i as int), inside),
        decreases rows@.len() - i,
    {
        let ghost rest = all.skip(i as int);
        assert(rest[0] == rows@[i as int]@);
        assert(rest.skip(1) =~= all.skip(i + 1));
        if starts_with(rows[i], "Local Volumes space usage") {
            inside = true;
        } else if inside {
            if ends_with(rows[i], "space usage:") || starts_with(rows[i], "Build cache usage:") {
                assert(volumes_in(all, false) =~= volume_texts(out@));
                return out;
            }
            if let Some(v) = parse_volume(rows[i]) {
                let ghost before = volume_texts(out@);
                out.push(v);
                assert(volume_texts(out@) =~= before.push(volume_text(v)));
                assert(before + (seq![volume_text(v)] + volumes_in(rest.skip(1), true))
                    =~= volume_texts(out@) + volumes_in(rest.skip(1), true));
            }
        }
        i = i + 1;
    }
    assert(volumes_in(all, false) =~= volume_texts(out@));
    out
}

// ---------------------------------------------------------------------------
// Asking Docker
// ---------------------------------------------------------------------------

/// What to do about a Docker that does not answer.
pub const UNREACHABLE_REMEDY: &'static str =
    "nix talks to Docker as your own user. If you are not in the `docker` group, Docker needs root and nix will not run privileged Docker commands it cannot test.";

/// Whether `e` says that Docker did not answer.
pub open spec fn no_answer(e: AppError) -> bool {
    &&& e.code == ErrorCode::CommandFailed
    &&& e.message@ == "Docker did not answer."@
    &&& opt_text(e.remedy) == Some(UNREACHABLE_REMEDY@)
    &&& e.cause is None
    &&& e.path is None
}

/// What Docker answered, once it has been run. What kept it from starting is
/// passed on.
pub fn docker(ran: Ran) -> (r: Result<String>)
    ensures
        match ran {
            Ran::NotStarted(error) => r == Err::<String, AppError>(error),
            Ran::Ended { success, stdout, .. } => if success {
                r matches Ok(t) && t@ == lossy_text(stdout@)
            } else {
                r matches Err(e) && no_answer(e)
            },
        },
{
    match ran {
        Ran::NotStarted(error) => Err(error),
        Ran::Ended { success, stdout, .. } => if success {
            Ok(utf8_lossy(&stdout))
        } else {
            Err(
                AppError::new(
                    ErrorCode::CommandFailed,
                    "Docker did not answer.".to_owned(),
                ).with_remedy(UNREACHABLE_REMEDY),
            )
        },
    }
}

/// The arguments that ask for Docker's account of its space.
pub open spec fn usage_args() -> Seq<Seq<char>> {
    seq!["system"@, "df"@, "--format"@, "{{json .}}"@]
}

/// The command that asks for Docker's account of its space.
pub fn usage_query() -> (r: Query)
    ensures
        r.program@ == "docker"@,
        texts(r.args@) == usage_args(),
{
    let args = vec!["system", "df", "--format", "{{json .}}"];
    let owned = owned_args(&args);
    assert(texts(owned@) =~= usage_args());
    Query { program: "docker", args: owned }
}

/// The command that asks for the detailed account.
pub fn detail_query() -> (r: Query)
    ensures
        r.program@ == "docker"@,
        texts(r.args@) == seq!["system"@, "df"@, "-v"@],
{
    let args = vec!["system", "df", "-v"];
    let owned = owned_args(&args);
    assert(texts(owned@) =~= seq!["system"@, "df"@, "-v"@]);
    Query { program: "docker", args: owned }
}

/// The arguments that prune a scope.
pub open spec fn prune_args(scope: PruneScope) -> Seq<Seq<char>> {
    match scope {
        PruneScope::DanglingImages => seq!["image"@, "prune"@, "-f"@],
        PruneScope::UnusedImages => seq!["image"@, "prune"@, "-a"@, "-f"@],
        PruneScope::StoppedContainers => seq!["container"@, "prune"@, "-f"@],
        PruneScope::BuildCache => seq!["builder"@, "prune"@, "-f"@],
    }
}

/// The fixed arguments for each scope. Nothing in them comes from a caller.
pub fn prune_command(scope: PruneScope) -> (r: Vec<&'static str>)
    ensures
        Seq::new(r@.len(), |i: int| r@[i]@) == prune_args(scope),
{
    let r = match scope {
        PruneScope::DanglingImages => vec!["image", "prune", "-f"],
        PruneScope::UnusedImages => vec!["image", "prune", "-a", "-f"],
        PruneScope::StoppedContainers => vec!["container", "prune", "-f"],
        PruneScope::BuildCache => vec!["builder", "prune", "-f"],
    };
    assert(Seq::new(r@.len(), |i: int| r@[i]@) =~= prune_args(scope));
    r
}

/// What the lines of a prune say was reclaimed: the last of them that says.
pub open spec fn reclaimed_in(all: Seq<Seq<char>>) -> u64
    decreases all.len(),
{
    if all.len() == 0 {
        0
    } else {
        match after_prefix(all.last(), "Total reclaimed space:"@) {
            Some(rest) => docker_size(trimmed(rest)),
            None => reclaimed_in(all.drop_last()),
        }
    }
}

/// Reads what a prune says it reclaimed.
pub fn parse_reclaimed(output: &str) -> (r: u64)
    ensures
        r == reclaimed_in(lines(output@)),
{
    let chars = chars_of(output);
    let rows = split_lines(chars.as_slice());
    let ghost all = lines(output@);
    let mut n: usize = rows.len();
    assert(views(rows@).len() == rows@.len());
    assert(all.take(n as int) =~= all);
    while n > 0
        invariant
            n <= rows@.len(),
            views(rows@) == all,
            all.len() == rows@.len(),
            all == lines(output@),
            reclaimed_in(all.take(n as int)) == reclaimed_in(all),
        decreases n,
    {
        assert(all.take(n as int).drop_last() =~= all.take(n - 1));
        assert(all.take(n as int).last() == rows@[n - 1]@);
        if let Some(rest) = strip_prefix(rows[n - 1], "Total reclaimed space:") {
            let value = string_of(trim(rest));
            return parse_docker_size(value.as_str());
        }
        n = n - 1;
    }
    0
}

/// What a prune that was run came to: what Docker says it reclaimed.
pub fn prune(ran: Ran) -> (r: Result<u64>)
    ensures
        match ran {
            Ran::NotStarted(error) => r == Err::<u64, AppError>(error),
            Ran::Ended { success, stdout, .. } => if success {
                r == Ok::<u64, AppError>(reclaimed_in(lines(lossy_text(stdout@))))
            } else {
                r matches Err(e) && no_answer(e)
            },
        },
{
    match docker(ran) {
        Ok(output) => Ok(parse_reclaimed(output.as_str())),
        Err(e) => Err(e),
    }
}

/// The command that lists the volumes before one is removed. A name that no
/// volume can have is refused, and nothing is asked.
pub fn volume_query(name: &str) -> (r: Result<Query>)
    ensures
        match r {
            Ok(q) => volume_name(name@) && q.program@ == "docker"@ && texts(q.args@) == seq![
                "system"@,
                "df"@,
                "-v"@,
            ],
            Err(e) => !volume_name(name@) && plain_error(
                e,
                ErrorCode::InvalidInput,
                name@ + " is not shaped like a Docker volume name."@,
            ),
        },
{
    if !is_volume_name(name) {
        let mut message = name.to_owned();
        message.append(" is not shaped like a Docker volume name.");
        return Err(AppError::invalid_input(message.as_str()));
    }
    Ok(detail_query())
}

/// What to say of a volume that is in use after all.
pub const IN_USE_REMEDY: &'static str =
    "Docker is asked again immediately before removal, and it no longer reports this volume as unused — something may have started using it.";

/// The size of the first volume of a name that nothing uses.
pub open spec fn unused_size(all: Seq<VolumeText>, name: Seq<char>) -> Option<u64>
    decreases all.len(),
{
    if all.len() == 0 {
        None
    } else if all[0].name == name && all[0].links == 0 {
        Some(all[0].bytes)
    } else {
        unused_size(all.skip(1), name)
    }
}

/// Confirms that Docker still considers a volume unused: the command that
/// removes it, and what it takes. One that has come into use is refused.
pub fn remove_volume(name: &str, listed: Result<String>) -> (r: Result<(Query, u64)>)
    ensures
        match listed {
            Err(error) => r == Err::<(Query, u64), AppError>(error),
            Ok(verbose) => match unused_size(volumes_in(lines(verbose@), false), name@) {
                Some(bytes) => r matches Ok((q, n)) && q.program@ == "docker"@ && texts(q.args@)
                    == seq!["volume"@, "rm"@, name@] && n == bytes,
                None => {
                    &&& r matches Err(e)
                    &&& e.code == ErrorCode::HelperRejected
                    &&& e.message@ == name@ + " is not an unused volume."@
                    &&& opt_text(e.remedy) == Some(IN_USE_REMEDY@)
                    &&& e.cause is None
                    &&& e.path is None
                },
            },
        },
{
    let verbose = match listed {
        Ok(t) => t,
        Err(e) => {
            return Err(e);
        },
    };
    let volumes = parse_volumes(verbose.as_str());
    let ghost all = volume_texts(volumes@);
    let mut i: usize = 0;
    assert(all.skip(0) =~= all);
    while i < volumes.len()
        invariant
            i <= volumes@.len(),
            all == volume_texts(volumes@),
            all == volumes_in(lines(verbose@), false),
            listed == Ok::<String, AppError>(verbose),
            unused_size(all, name@) == unused_size(all.skip(i as int), name@),
        decreases volumes@.len() - i,
    {
        assert(all.skip(i as int)[0] == volume_text(volumes@[i as int]));
        assert(all.skip(i as int).skip(1) =~= all.skip(i + 1));
        if volumes[i].links == 0 && same_str(volumes[i].name.as_str(), name) {
            let args = vec!["volume", "rm", name];
            let owned = owned_args(&args);
            assert(texts(owned@) =~= seq!["volume"@, "rm"@, name@]);
            return Ok((Query { program: "docker", args: owned }, volumes[i].bytes));
        }
        i = i + 1;
    }
    assert(all.skip(i as int).len() == 0);
    let mut message = name.to_owned();
    message.append(" is not an unused volume.");
    Err(AppError::new(ErrorCode::HelperRejected, message).with_remedy(IN_USE_REMEDY))
}

// ---------------------------------------------------------------------------
// The category
// ---------------------------------------------------------------------------

/// What removing dangling layers costs.
pub const DANGLING_COST: &'static str =
    "Removes layers belonging to no tagged image. Rebuilding an image that shared them will take longer.";

/// Why dangling layers promise nothing.
pub const DANGLING_REASON: &'static str =
    "Docker shares layers between images, so how much a prune returns is its accounting rather than a per-file measurement.";

/// What removing unused images costs.
pub const UNUSED_COST: &'static str =
    "Removes every image not currently used by a container, tagged ones included. Anything you want again will have to be pulled or rebuilt.";

/// Why unused images promise nothing.
pub const UNUSED_REASON: &'static str =
    "Docker decides which images are unused and shares layers between them, so the figure is its estimate.";

/// What removing stopped containers costs.
pub const STOPPED_COST: &'static str =
    "Removes exited containers and their writable layers. Anything written inside one that is not on a volume is lost.";

/// What removing the build cache costs.
pub const BUILD_CACHE_COST: &'static str =
    "The next image build repeats every step instead of reusing cached layers.";

/// What the category holds and what reclaiming it means.
pub const MEANING: &'static str =
    "Images, stopped containers and build layers Docker is holding. An image still referenced is downloaded again the next time you run it, which needs a network connection and can be several gigabytes. Running containers and their volumes are never touched.";

/// Container storage, with what Docker answered.
#[derive(Debug, Clone)]
pub struct ContainerCategory {
    present: bool,
    usage: Option<String>,
    detail: Option<String>,
}

/// A count without another, and never below zero.
pub open spec fn left(total: u64, active: u64) -> nat {
    if total > active {
        (total - active) as nat
    } else {
        0
    }
}

/// The first row of a kind.
pub open spec fn row_of(rows: Seq<UsageText>, kind: Seq<char>) -> Option<UsageText>
    decreases rows.len(),
{
    if rows.len() == 0 {
        None
    } else if rows[0].kind == kind {
        Some(rows[0])
    } else {
        row_of(rows.skip(1), kind)
    }
}

/// The offer to remove dangling layers.
pub open spec fn dangling_offer(images: UsageText) -> CandidateText {
    CandidateText {
        path: "docker dangling images"@,
        label: "Dangling image layers"@,
        bytes: images.reclaimable,
        safety: Safety::Review,
        method: MethodText::ContainerPrune(PruneScope::DanglingImages),
        cost: Some(DANGLING_COST@),
        category: "containers"@,
        reclaimable: PromiseText::AtMost(None, DANGLING_REASON@),
    }
}

/// The offer to remove unused images.
pub open spec fn unused_offer(images: UsageText) -> CandidateText {
    CandidateText {
        path: "docker unused images"@,
        label: "Images no container uses ("@ + decimal(left(images.total, images.active)) + " of "@
            + decimal(images.total as nat) + ")"@,
        bytes: images.reclaimable,
        safety: Safety::Risky,
        method: MethodText::ContainerPrune(PruneScope::UnusedImages),
        cost: Some(UNUSED_COST@),
        category: "containers"@,
        reclaimable: PromiseText::AtMost(None, UNUSED_REASON@),
    }
}

/// The offer to remove stopped containers.
pub open spec fn stopped_offer(containers: UsageText) -> CandidateText {
    CandidateText {
        path: "docker stopped containers"@,
        label: "Stopped containers ("@ + decimal(left(containers.total, containers.active)) + ")"@,
        bytes: containers.reclaimable,
        safety: Safety::Review,
        method: MethodText::ContainerPrune(PruneScope::StoppedContainers),
        cost: Some(STOPPED_COST@),
        category: "containers"@,
        reclaimable: PromiseText::Exact,
    }
}

/// The offer to remove the build cache.
pub open spec fn cache_offer(cache: UsageText) -> CandidateText {
    CandidateText {
        path: "docker build cache"@,
        label: "Build cache ("@ + decimal(cache.total as nat) + " entries)"@,
        bytes: cache.reclaimable,
        safety: Safety::Review,
        method: MethodText::ContainerPrune(PruneScope::BuildCache),
        cost: Some(BUILD_CACHE_COST@),
        category: "containers"@,
        reclaimable: PromiseText::Exact,
    }
}

/// The offer to remove a volume.
pub open spec fn volume_offer(v: VolumeText) -> CandidateText {
    CandidateText {
        path: "docker volume "@ + v.name,
        label: "Volume "@ + v.name,
        bytes: v.bytes,
        safety: Safety::Risky,
        method: MethodText::ContainerVolume(v.name),
        cost: Some(
            "Deletes the contents of "@ + v.name
                + " permanently. If this held a database, that data is gone and nothing else has it."@,
        ),
        category: "containers"@,
        reclaimable: PromiseText::Exact,
    }
}

/// What is offered of the images. Dangling layers and unused images are two
/// decisions.
pub open spec fn image_offers(rows: Seq<UsageText>) -> Seq<CandidateText> {
    match row_of(rows, "Images"@) {
        Some(u) => if u.reclaimable == 0 {
            Seq::empty()
        } else if u.total > u.active && u.size > u.reclaimable {
            seq![dangling_offer(u), unused_offer(u)]
        } else {
            seq![dangling_offer(u)]
        },
        None => Seq::empty(),
    }
}

/// What is offered of the containers.
pub open spec fn container_offers(rows: Seq<UsageText>) -> Seq<CandidateText> {
    match row_of(rows, "Containers"@) {
        Some(u) => if u.reclaimable == 0 {
            Seq::empty()
        } else {
            seq![stopped_offer(u)]
        },
        None => Seq::empty(),
    }
}

/// What is offered of the build cache.
pub open spec fn cache_offers(rows: Seq<UsageText>) -> Seq<CandidateText> {
    match row_of(rows, "Build Cache"@) {
        Some(u) => if u.reclaimable == 0 {
            Seq::empty()
        } else {
            seq![cache_offer(u)]
        },
        None => Seq::empty(),
    }
}

/// What is offered of some volumes: each that nothing uses and that takes
/// space, one by one.
pub open spec fn volume_offers(all: Seq<VolumeText>) -> Seq<CandidateText>
    decreases all.len(),
{
    if all.len() == 0 {
        Seq::empty()
    } else if all.last().links > 0 || all.last().bytes == 0 {
        volume_offers(all.drop_last())
    } else {
        volume_offers(all.drop_last()).push(volume_offer(all.last()))
    }
}

/// Everything that is offered, in the order in which it is found.
pub open spec fn all_offers(rows: Seq<UsageText>, volumes: Seq<VolumeText>) -> Seq<CandidateText> {
    image_offers(rows) + container_offers(rows) + cache_offers(rows) + volume_offers(volumes)
}

/// What is offered for two of Docker's answers, largest first. Without the
/// detailed one no volume is known.
pub open spec fn offered(usage: Seq<char>, detail: Option<Seq<char>>) -> Seq<CandidateText> {
    in_order(
        all_offers(
            usage_lines(lines(usage)),
            match detail {
                Some(t) => volumes_in(lines(t), false),
                None => Seq::empty(),
            },
        ),
    )
}

fn find_row<'a>(rows: &'a Vec<Usage>, kind: &str) -> (r: Option<&'a Usage>)
    ensures
        match r {
            Some(u) => row_of(usage_texts(rows@), kind@) == Some(usage_text(*u)),
            None => row_of(usage_texts(rows@), kind@) is None,
        },
{
    let ghost all = usage_texts(rows@);
    let mut i: usize = 0;
    assert(all.skip(0) =~= all);
    while i < rows.len()
        invariant
            i <= rows@.len(),
            all == usage_texts(rows@),
            row_of(all, kind@) == row_of(all.skip(i as int), kind@),
        decreases rows@.len() - i,
    {
        assert(all.skip(i as int)[0] == usage_text(rows@[i as int]));
        assert(all.skip(i as int).skip(1) =~= all.skip(i + 1));
        if same_str(rows[i].kind.as_str(), kind) {
            return Some(&rows[i]);
        }
        i = i + 1;
    }
    assert(all.skip(i as int).len() == 0);
    None
}

fn remaining(total: u64, active: u64) -> (r: u64)
    ensures
        r == left(total, active),
{
    if total > active {
        total - active
    } else {
        0
    }
}

fn find_images(rows: &Vec<Usage>) -> (r: Vec<Candidate>)
    ensures
        candidate_texts(r@) == image_offers(usage_texts(rows@)),
{
    let mut out: Vec<Candidate> = Vec::new();
    if let Some(images) = find_row(rows, "Images") {
        if images.reclaimable > 0 {
            let ghost u = usage_text(*images);
            out.push(
                Candidate {
                    path: "docker dangling images".to_owned(),
                    label: "Dangling image layers".to_owned(),
                    bytes: images.reclaimable,
                    safety: Safety::Review,
                    method: ReclaimMethod::ContainerPrune { scope: PruneScope::DanglingImages },
                    cost: Some(DANGLING_COST.to_owned()),
                    category: "containers".to_owned(),
                    reclaimable: Reclaimable::AtMost {
                        exclusive: None,
                        reason: DANGLING_REASON.to_owned(),
                    },
                },
            );
            assert(candidate_texts(out@) =~= seq![dangling_offer(u)]);
            if images.total > images.active && images.size > images.reclaimable {
                let mut label = "Images no container uses (".to_owned();
                push_u64(&mut label, remaining(images.total, images.active));
                label.append(" of ");
                push_u64(&mut label, images.total);
                label.append(")");
                out.push(
                    Candidate {
                        path: "docker unused images".to_owned(),
                        label,
                        bytes: images.reclaimable,
                        safety: Safety::Risky,
                        method: ReclaimMethod::ContainerPrune { scope: PruneScope::UnusedImages },
                        cost: Some(UNUSED_COST.to_owned()),
                        category: "containers".to_owned(),
                        reclaimable: Reclaimable::AtMost {
                            exclusive: None,
                            reason: UNUSED_REASON.to_owned(),
                        },
                    },
                );
                assert(candidate_texts(out@) =~= seq![dangling_offer(u), unused_offer(u)]);
            }
            return out;
        }
    }
    assert(candidate_texts(out@) =~= Seq::<CandidateText>::empty());
    out
}

fn find_containers(rows: &Vec<Usage>) -> (r: Vec<Candidate>)
    ensures
        candidate_texts(r@) == container_offers(usage_texts(rows@)),
{
    let mut out: Vec<Candidate> = Vec::new();
    if let Some(containers) = find_row(rows, "Containers") {
        if containers.reclaimable > 0 {
            let mut label = "Stopped containers (".to_owned();
            push_u64(&mut label, remaining(containers.total, containers.active));
            label.append(")");
            out.push(
                Candidate {
                    path: "docker stopped containers".to_owned(),
                    label,
                    bytes: containers.reclaimable,
                    safety: Safety::Review,
                    method: ReclaimMethod::ContainerPrune { scope: PruneScope::StoppedContainers },
                    cost: Some(STOPPED_COST.to_owned()),
                    category: "containers".to_owned(),
                    reclaimable: Reclaimable::Exact,
                },
            );
            assert(candidate_texts(out@) =~= seq![stopped_offer(usage_text(*containers))]);
            return out;
        }
    }
    assert(candidate_texts(out@) =~= Seq::<CandidateText>::empty());
    out
}

fn find_cache(rows: &Vec<Usage>) -> (r: Vec<Candidate>)
    ensures
        candidate_texts(r@) == cache_offers(usage_texts(rows@)),
{
    let mut out: Vec<Candidate> = Vec::new();
    if let Some(cache) = find_row(rows, "Build Cache") {
        if cache.reclaimable > 0 {
            let mut label = "Build cache (".to_owned();
            push_u64(&mut label, cache.total);
            label.append(" entries)");
            out.push(
                Candidate {
                    path: "docker build cache".to_owned(),
                    label,
                    bytes: cache.reclaimable,
                    safety: Safety::Review,
                    method: ReclaimMethod::ContainerPrune { scope: PruneScope::BuildCache },
                    cost: Some(BUILD_CACHE_COST.to_owned()),
                    category: "containers".to_owned(),
                    reclaimable: Reclaimable::Exact,
                },
            );
            assert(candidate_texts(out@) =~= seq![cache_offer(usage_text(*cache))]);
            return out;
        }
    }
    assert(candidate_texts(out@) =~= Seq::<CandidateText>::empty());
    out
}

fn offer_volume(volume: &Volume) -> (r: Candidate)
    ensures
        candidate_text(r) == volume_offer(volume_text(*volume)),
{
    let name = volume.name.as_str();
    let mut path = "docker volume ".to_owned();
    path.append(name);
    let mut label = "Volume ".to_owned();
    label.append(name);
    let mut cost = "Deletes the contents of ".to_owned();
    cost.append(name);
    cost.append(
        " permanently. If this held a database, that data is gone and nothing else has it.",
    );
    Candidate {
        path,
        label,
        bytes: volume.bytes,
        safety: Safety::Risky,
        method: ReclaimMethod::ContainerVolume { name: name.to_owned() },
        cost: Some(cost),
        category: "containers".to_owned(),
        reclaimable: Reclaimable::Exact,
    }
}

fn find_volumes(volumes: &Vec<Volume>) -> (r: Vec<Candidate>)
    ensures
        candidate_texts(r@) == volume_offers(volume_texts(volumes@)),
{
    let ghost all = volume_texts(volumes@);
    let mut out: Vec<Candidate> = Vec::new();
    let mut i: usize = 0;
    assert(all.take(0) =~= Seq::<VolumeText>::empty());
    assert(candidate_texts(out@) =~= Seq::<CandidateText>::empty());
    while i < volumes.len()
        invariant
            i <= volumes@.len(),
            all == volume_texts(volumes@),
            candidate_texts(out@) == volume_offers(all.take(i as int)),
        decreases volumes@.len() - i,
    {
        assert(all.take(i + 1).drop_last() =~= all.take(i as int));
        assert(all.take(i + 1).last() == volume_text(volumes@[i as int]));
        if volumes[i].links == 0 && volumes[i].bytes > 0 {
            let ghost before = candidate_texts(out@);
            let c = offer_volume(&volumes[i]);
            out.push(c);
            assert(candidate_texts(out@) =~= before.push(candidate_text(c)));
        }
        i = i + 1;
    }
    assert(all.take(i as int) =~= all);
    out
}

/// Everything that is offered for these rows and volumes, largest first.
pub fn container_candidates(rows: &Vec<Usage>, volumes: &Vec<Volume>) -> (r: Vec<Candidate>)
    ensures
        candidate_texts(r@) == in_order(all_offers(usage_texts(rows@), volume_texts(volumes@))),
{
    let mut out = find_images(rows);
    let ghost a = candidate_texts(out@);
    let mut containers = find_containers(rows);
    let ghost b = candidate_texts(containers@);
    out.append(&mut containers);
    assert(candidate_texts(out@) =~= a + b);
    let mut cache = find_cache(rows);
    let ghost c = candidate_texts(cache@);
    out.append(&mut cache);
    assert(candidate_texts(out@) =~= a + b + c);
    let mut rest = find_volumes(volumes);
    let ghost d = candidate_texts(rest@);
    out.append(&mut rest);
    assert(candidate_texts(out@) =~= a + b + c + d);
    largest_first(out)
}

impl ContainerCategory {
    /// Whether Docker is installed.
    pub closed spec fn installed(&self) -> bool {
        self.present
    }

    /// Docker's account of its space, where it answered.
    pub closed spec fn account(&self) -> Option<Seq<char>> {
        opt_text(self.usage)
    }

    /// The detailed account, where it answered.
    pub closed spec fn details(&self) -> Option<Seq<char>> {
        opt_text(self.detail)
    }

    /// A category that has seen no Docker.
    pub fn new() -> (r: Self)
        ensures
            !r.installed(),
            r.account() is None,
            r.details() is None,
    {
        ContainerCategory { present: false, usage: None, detail: None }
    }

    /// A category over what Docker answered.
    pub fn at(caps: &Capabilities, usage: Option<String>, detail: Option<String>) -> (r: Self)
        ensures
            r.installed() == caps.found@.contains(Capability::Docker),
            r.account() == opt_text(usage),
            r.details() == opt_text(detail),
    {
        ContainerCategory { present: caps.has(Capability::Docker), usage, detail }
    }
}

impl Default for ContainerCategory {
    fn default() -> (r: Self)
        ensures
            !r.installed(),
            r.account() is None,
            r.details() is None,
    {
        ContainerCategory::new()
    }
}

impl Category for ContainerCategory {
    open spec fn ident(&self) -> Seq<char> {
        "containers"@
    }

    open spec fn title(&self) -> Seq<char> {
        "Container storage"@
    }

    open spec fn meaning(&self) -> Seq<char> {
        MEANING@
    }

    open spec fn kind(&self) -> SpaceCategory {
        SpaceCategory::ContainerImage
    }

    open spec fn usable(&self) -> bool {
        self.installed() && self.account() is Some
    }

    open spec fn proposes(&self, cancelled: bool, r: Result<Vec<Candidate>>) -> bool {
        if cancelled {
            stopped(r)
        } else {
            match self.account() {
                Some(t) if self.installed() => offers(r, offered(t, self.details())),
                _ => offers(r, Seq::empty()),
            }
        }
    }

    open spec fn advises(&self, r: Seq<Advisory>) -> bool {
        r.len() == 0
    }

    fn id(&self) -> &'static str {
        "containers"
    }

    fn label(&self) -> &'static str {
        "Container storage"
    }

    fn explains(&self) -> &'static str {
        MEANING
    }

    fn space_category(&self) -> SpaceCategory {
        SpaceCategory::ContainerImage
    }

    fn available(&self) -> bool {
        self.present && self.usage.is_some()
    }

    fn advisories(&self) -> Vec<Advisory> {
        Vec::new()
    }

    fn candidates(&self, cancelled: bool) -> Result<Vec<Candidate>> {
        if let Err(e) = check_flag(cancelled) {
            return Err(e);
        }
        let nothing: Vec<Candidate> = Vec::new();
        assert(candidate_texts(nothing@) =~= Seq::<CandidateText>::empty());
        if !self.present {
            return Ok(nothing);
        }
        match &self.usage {
            Some(df) => {
                let rows = parse_system_df(df.as_str());
                let volumes = match &self.detail {
                    Some(verbose) => parse_volumes(verbose.as_str()),
                    None => Vec::new(),
                };
                assert(self.detail is None ==> volume_texts(volumes@) =~= Seq::<
                    VolumeText,
                >::empty());
                Ok(container_candidates(&rows, &volumes))
            },
            None => Ok(nothing),
        }
    }
}

/// Every volume that is offered is a decision of its own and never part of a
/// sweep: nothing uses it, it takes space, and it is rated as risky.
pub proof fn law_volumes_are_decided_one_by_one(all: Seq<VolumeText>, i: int)
    requires
        0 <= i < volume_offers(all).len(),
    ensures
        volume_offers(all)[i].safety == Safety::Risky,
        volume_offers(all)[i].bytes > 0,
        exists|k: int|
            0 <= k < all.len() && (#[trigger] all[k]).links == 0 && volume_offers(all)[i]
                == volume_offer(all[k]),
    decreases all.len(),
{
    let last = all.last();
    if last.links > 0 || last.bytes == 0 || i < volume_offers(all).len() - 1 {
        law_volumes_are_decided_one_by_one(all.drop_last(), i);
        let k = choose|k: int|
            0 <= k < all.drop_last().len() && (#[trigger] all.drop_last()[k]).links == 0
                && volume_offers(all.drop_last())[i] == volume_offer(all.drop_last()[k]);
        assert(all[k] == all.drop_last()[k]);
    } else {
        assert(all[all.len() - 1] == last);
    }
}

/// Nothing that Docker holds is ever selected before the user has said
/// anything, and every offer states its cost and claims something.
pub proof fn law_nothing_in_containers_is_safe(
    rows: Seq<UsageText>,
    volumes: Seq<VolumeText>,
    i: int,
)
    requires
        0 <= i < all_offers(rows, volumes).len(),
    ensures
        all_offers(rows, volumes)[i].safety != Safety::Safe,
        all_offers(rows, volumes)[i].cost is Some,
        all_offers(rows, volumes)[i].bytes > 0,
{
    let a = image_offers(rows) + container_offers(rows) + cache_offers(rows);
    if i < a.len() {
        assert(all_offers(rows, volumes)[i] == a[i]);
    } else {
        law_volumes_are_decided_one_by_one(volumes, i - a.len());
        assert(all_offers(rows, volumes)[i] == volume_offers(volumes)[i - a.len()]);
    }
}

/// What a prune takes. Only the prune of unused images takes tagged ones
/// along, because only it is given `-a`; each prune is addressed to its own
/// kind of storage, does nothing but prune, and no two scopes run the same
/// command.
pub proof fn law_only_unused_images_take_tagged_ones(scope: PruneScope, other: PruneScope)
    ensures
        prune_args(scope).contains("-a"@) == (scope == PruneScope::UnusedImages),
        prune_args(scope)[0] == match scope {
            PruneScope::DanglingImages => "image"@,
            PruneScope::UnusedImages => "image"@,
            PruneScope::StoppedContainers => "container"@,
            PruneScope::BuildCache => "builder"@,
        },
        prune_args(scope)[1] == "prune"@,
        prune_args(scope).last() == "-f"@,
        prune_args(scope).len() == if scope == PruneScope::UnusedImages {
            4nat
        } else {
            3
        },
        prune_args(scope) == prune_args(other) ==> scope == other,
{
    reveal_strlit("-a");
    reveal_strlit("-f");
    reveal_strlit("image");
    reveal_strlit("container");
    reveal_strlit("builder");
    reveal_strlit("prune");
    let a = prune_args(scope);
    let b = prune_args(other);
    assert("-a"@[1] == 'a' && "-f"@[1] == 'f' && "image"@.len() == 5 && "prune"@.len() == 5);
    assert("container"@.len() == 9 && "builder"@.len() == 7 && "-a"@.len() == 2);
    if scope == PruneScope::UnusedImages {
        assert(a[2] == "-a"@);
    } else {
        assert forall|i: int| 0 <= i < a.len() implies a[i] != "-a"@ by {
            assert(a[0].len() >= 5 && a[1].len() == 5 && a[2][1] == 'f');
        }
    }
    if a == b {
        assert(a[0] == b[0] && a.len() == b.len());
        assert(a[0].len() == b[0].len());
    }
}

/// Whether a row of Docker's account is of this kind and may give something
/// back.
pub open spec fn gives_back(row: UsageText, kind: Seq<char>) -> bool {
    row.kind == kind && row.reclaimable > 0
}

proof fn lemma_row_of(rows: Seq<UsageText>, kind: Seq<char>)
    ensures
        match row_of(rows, kind) {
            Some(u) => u.kind == kind && rows.contains(u),
            None => forall|k: int| 0 <= k < rows.len() ==> (#[trigger] rows[k]).kind != kind,
        },
    decreases rows.len(),
{
    if rows.len() > 0 {
        if rows[0].kind != kind {
            lemma_row_of(rows.skip(1), kind);
            match row_of(rows.skip(1), kind) {
                Some(u) => {
                    let k = choose|k: int| 0 <= k < rows.skip(1).len() && rows.skip(1)[k] == u;
                    assert(rows[k + 1] == u);
                },
                None => {
                    assert forall|k: int| 0 <= k < rows.len() implies (#[trigger] rows[k]).kind
                        != kind by {
                        if k > 0 {
                            assert(rows.skip(1)[k - 1] == rows[k]);
                        }
                    }
                },
            }
        } else {
            assert(rows[0] == row_of(rows, kind)->0);
        }
    }
}

/// Every offer is of what it prunes: its scope decides which row of Docker's
/// account the figure comes from, how it is rated, and whether any of it may
/// be promised. A volume is offered by its own name and size, and only where
/// no container refers to it.
pub proof fn law_each_offer_prunes_what_it_counts(
    rows: Seq<UsageText>,
    volumes: Seq<VolumeText>,
    i: int,
)
    requires
        0 <= i < all_offers(rows, volumes).len(),
    ensures
        ({
            let c = all_offers(rows, volumes)[i];
            match c.method {
                MethodText::ContainerPrune(PruneScope::DanglingImages) => c.safety == Safety::Review
                    && (c.reclaimable matches PromiseText::AtMost(None, _)) && exists|u: UsageText|
                    rows.contains(u) && #[trigger] gives_back(u, "Images"@) && c.bytes
                        == u.reclaimable,
                MethodText::ContainerPrune(PruneScope::UnusedImages) => c.safety == Safety::Risky
                    && (c.reclaimable matches PromiseText::AtMost(None, _)) && exists|u: UsageText|
                    rows.contains(u) && #[trigger] gives_back(u, "Images"@) && c.bytes
                        == u.reclaimable && u.active < u.total && u.reclaimable < u.size,
                MethodText::ContainerPrune(PruneScope::StoppedContainers) => c.safety
                    == Safety::Review && c.reclaimable is Exact && exists|u: UsageText|
                    rows.contains(u) && #[trigger] gives_back(u, "Containers"@) && c.bytes
                        == u.reclaimable,
                MethodText::ContainerPrune(PruneScope::BuildCache) => c.safety == Safety::Review
                    && c.reclaimable is Exact && exists|u: UsageText|
                    rows.contains(u) && #[trigger] gives_back(u, "Build Cache"@) && c.bytes
                        == u.reclaimable,
                MethodText::ContainerVolume(name) => c.safety == Safety::Risky && c.reclaimable
                    is Exact && exists|k: int|
                    0 <= k < volumes.len() && (#[trigger] volumes[k]).name == name
                        && volumes[k].links == 0 && volumes[k].bytes > 0 && c.bytes
                        == volumes[k].bytes,
                _ => false,
            }
        }),
        all_offers(rows, volumes)[i].cost is Some,
        all_offers(rows, volumes)[i].category == "containers"@,
{
    let a = image_offers(rows);
    let b = container_offers(rows);
    let d = cache_offers(rows);
    let e = volume_offers(volumes);
    lemma_row_of(rows, "Images"@);
    lemma_row_of(rows, "Containers"@);
    lemma_row_of(rows, "Build Cache"@);
    let c = all_offers(rows, volumes)[i];
    if i < a.len() {
        assert(c == a[i]);
        assert(gives_back(row_of(rows, "Images"@)->0, "Images"@));
    } else if i < a.len() + b.len() {
        assert(c == b[i - a.len()]);
        assert(gives_back(row_of(rows, "Containers"@)->0, "Containers"@));
    } else if i < a.len() + b.len() + d.len() {
        assert(c == d[i - a.len() - b.len()]);
        assert(gives_back(row_of(rows, "Build Cache"@)->0, "Build Cache"@));
    } else {
        let n = i - a.len() - b.len() - d.len();
        assert(c == e[n]);
        law_volumes_are_decided_one_by_one(volumes, n);
    }
}

/// Whether an offer prunes a scope.
pub open spec fn prunes(c: CandidateText, scope: PruneScope) -> bool {
    c.method == MethodText::ContainerPrune(scope)
}

/// Whatever Docker says it can give back is offered: dangling layers of
/// images, stopped containers, the build cache, and every volume that nothing
/// refers to.
pub proof fn law_everything_reclaimable_is_offered(
    rows: Seq<UsageText>,
    volumes: Seq<VolumeText>,
    u: UsageText,
    k: int,
)
    requires
        rows.contains(u),
        forall|j: int, l: int|
            0 <= j < rows.len() && 0 <= l < rows.len() && (#[trigger] rows[j]).kind == (
            #[trigger] rows[l]).kind ==> j == l,
    ensures
        gives_back(u, "Images"@) ==> exists|c: CandidateText|
            all_offers(rows, volumes).contains(c) && #[trigger] prunes(
                c,
                PruneScope::DanglingImages,
            ),
        gives_back(u, "Images"@) && u.active < u.total && u.reclaimable < u.size ==> exists|
            c: CandidateText,
        |
            all_offers(rows, volumes).contains(c) && #[trigger] prunes(c, PruneScope::UnusedImages),
        gives_back(u, "Containers"@) ==> exists|c: CandidateText|
            all_offers(rows, volumes).contains(c) && #[trigger] prunes(
                c,
                PruneScope::StoppedContainers,
            ),
        gives_back(u, "Build Cache"@) ==> exists|c: CandidateText|
            all_offers(rows, volumes).contains(c) && #[trigger] prunes(c, PruneScope::BuildCache),
        0 <= k < volumes.len() && volumes[k].links == 0 && volumes[k].bytes > 0 ==> exists|
            c: CandidateText,
        |
            all_offers(rows, volumes).contains(c) && #[trigger] c.method
                == MethodText::ContainerVolume(volumes[k].name),
{
    let a = image_offers(rows);
    let b = container_offers(rows);
    let d = cache_offers(rows);
    let e = volume_offers(volumes);
    let all = all_offers(rows, volumes);
    lemma_row_of(rows, u.kind);
    let j = choose|j: int| 0 <= j < rows.len() && rows[j] == u;
    assert(row_of(rows, u.kind) == Some(u)) by {
        let w = row_of(rows, u.kind);
        assert(rows[j].kind == u.kind);
        let l = choose|l: int| 0 <= l < rows.len() && rows[l] == w->0;
        assert(rows[l].kind == rows[j].kind);
    }
    if gives_back(u, "Images"@) {
        assert(all[0] == a[0]);
        assert(prunes(all[0], PruneScope::DanglingImages));
        if u.active < u.total && u.reclaimable < u.size {
            assert(all[1] == a[1]);
            assert(prunes(all[1], PruneScope::UnusedImages));
        }
    }
    if gives_back(u, "Containers"@) {
        assert(all[a.len() as int] == b[0]);
        assert(prunes(all[a.len() as int], PruneScope::StoppedContainers));
    }
    if gives_back(u, "Build Cache"@) {
        assert(all[(a.len() + b.len()) as int] == d[0]);
        assert(prunes(all[(a.len() + b.len()) as int], PruneScope::BuildCache));
    }
    if 0 <= k < volumes.len() && volumes[k].links == 0 && volumes[k].bytes > 0 {
        let n = lemma_volume_is_offered(volumes, k);
        let at = a.len() + b.len() + d.len() + n;
        assert(all[at] == e[n]);
        assert(all.contains(all[at]));
    }
}

proof fn lemma_volume_is_offered(all: Seq<VolumeText>, k: int) -> (n: int)
    requires
        0 <= k < all.len(),
        all[k].links == 0,
        all[k].bytes > 0,
    ensures
        0 <= n < volume_offers(all).len(),
        volume_offers(all)[n].method == MethodText::ContainerVolume(all[k].name),
    decreases all.len(),
{
    if k == all.len() - 1 {
        volume_offers(all).len() - 1
    } else {
        assert(all.drop_last()[k] == all[k]);
        lemma_volume_is_offered(all.drop_last(), k)
    }
}

/// A volume is removed by its own name, and only where Docker, asked again,
/// lists it with no container that refers to it.
pub proof fn law_only_an_unused_volume_is_removed(all: Seq<VolumeText>, name: Seq<char>)
    ensures
        unused_size(all, name) matches Some(bytes) ==> exists|k: int|
            0 <= k < all.len() && (#[trigger] all[k]).name == name && all[k].links == 0
                && all[k].bytes == bytes,
        unused_size(all, name) is None ==> forall|k: int|
            0 <= k < all.len() && (#[trigger] all[k]).name == name ==> all[k].links > 0,
    decreases all.len(),
{
    if all.len() > 0 {
        if !(all[0].name == name && all[0].links == 0) {
            law_only_an_unused_volume_is_removed(all.skip(1), name);
            if unused_size(all, name) is Some {
                let k = choose|k: int|
                    0 <= k < all.skip(1).len() && (#[trigger] all.skip(1)[k]).name == name
                        && all.skip(1)[k].links == 0 && all.skip(1)[k].bytes == unused_size(
                        all,
                        name,
                    )->0;
                assert(all[k + 1].name == name);
            } else {
                assert forall|k: int|
                    0 <= k < all.len() && (#[trigger] all[k]).name == name implies all[k].links
                    > 0 by {
                    if k > 0 {
                        assert(all.skip(1)[k - 1] == all[k]);
                    }
                }
            }
        } else {
            assert(all[0].name == name);
        }
    }
}

/// Docker counts in thousands: each unit is a thousand of the one below it,
/// and a figure without a unit is in bytes.
pub proof fn law_docker_counts_in_thousands()
    ensures
        docker_unit(Seq::<char>::empty()) == Some(1nat),
        docker_unit("B"@) == docker_unit(Seq::<char>::empty()),
        docker_unit("kB"@) == Some((1000 * docker_unit("B"@)->0) as nat),
        docker_unit("KB"@) == docker_unit("kB"@),
        docker_unit("MB"@) == Some((1000 * docker_unit("kB"@)->0) as nat),
        docker_unit("GB"@) == Some((1000 * docker_unit("MB"@)->0) as nat),
        docker_unit("TB"@) == Some((1000 * docker_unit("GB"@)->0) as nat),
        docker_unit("PB"@) == Some((1000 * docker_unit("TB"@)->0) as nat),
{
    reveal_strlit("B");
    reveal_strlit("kB");
    reveal_strlit("KB");
    reveal_strlit("MB");
    reveal_strlit("GB");
    reveal_strlit("TB");
    reveal_strlit("PB");
    assert("kB"@[0] == 'k' && "KB"@[0] == 'K' && "MB"@[0] == 'M' && "GB"@[0] == 'G' && "TB"@[0]
        == 'T' && "PB"@[0] == 'P');
    assert("B"@.len() == 1 && "kB"@.len() == 2 && "MB"@.len() == 2 && "GB"@.len() == 2
        && "TB"@.len() == 2 && "PB"@.len() == 2 && "KB"@.len() == 2);
}

/// Each figure of a row is read from its own column, and a row without a kind
/// is none.
pub proof fn law_columns_are_not_confused(
    kind: Seq<char>,
    total: Seq<char>,
    active: Seq<char>,
    size: Seq<char>,
    reclaimable: Seq<char>,
)
    ensures
        usage_row(kind, total, active, size, reclaimable) is None <==> kind.len() == 0,
        usage_row(kind, total, active, size, reclaimable) matches Some(u) ==> u.kind == kind
            && u.total == number_or_zero(total) && u.active == number_or_zero(active) && u.size
            == docker_size(size) && u.reclaimable == docker_size(reclaimable),
{
}

/// The fields of Docker's account that are read, by their names there.
pub proof fn law_fields_are_read_by_name(line: Seq<char>, u: UsageText)
    requires
        usage_line(line) == Some(u),
    ensures
        json_text(trimmed(line), "Type"@) == Some(Some(u.kind)),
        json_text(trimmed(line), "TotalCount"@) matches Some(Some(t)) ==> u.total
            == number_or_zero(t),
        json_text(trimmed(line), "Active"@) matches Some(Some(t)) ==> u.active == number_or_zero(t),
        json_text(trimmed(line), "Size"@) matches Some(Some(t)) ==> u.size == docker_size(t),
        json_text(trimmed(line), "Reclaimable"@) matches Some(Some(t)) ==> u.reclaimable
            == docker_size(t),
{
}

/// A volume's line gives its name first, its size last, and before the size
/// the number of containers that refer to it.
pub proof fn law_a_volume_line_is_read_from_its_ends(line: Seq<char>, v: VolumeText)
    requires
        volume_line(line) == Some(v),
    ensures
        words(line).len() >= 3,
        v.name == words(line).first(),
        v.bytes == docker_size(words(line).last()),
        number(words(line).drop_last().last()) == Some(v.links),
        v.name != "VOLUME"@,
{
}

/// The views of a row and of a volume keep every field.
pub proof fn law_rows_and_volumes_are_what_their_views_say(u: Usage, v: Volume)
    ensures
        usage_text(u).kind == u.kind@,
        usage_text(u).total == u.total,
        usage_text(u).active == u.active,
        usage_text(u).size == u.size,
        usage_text(u).reclaimable == u.reclaimable,
        volume_text(v).name == v.name@,
        volume_text(v).bytes == v.bytes,
        volume_text(v).links == v.links,
{
}

/// What a prune gave back is what its last line of that kind says.
pub proof fn law_the_last_total_counts(all: Seq<Seq<char>>, rest: Seq<char>)
    ensures
        reclaimed_in(all.push("Total reclaimed space:"@ + rest)) == docker_size(trimmed(rest)),
        reclaimed_in(Seq::<Seq<char>>::empty()) == 0,
{
    let line = "Total reclaimed space:"@ + rest;
    let n = "Total reclaimed space:"@.len() as int;
    assert(line.take(n) =~= "Total reclaimed space:"@);
    assert(line.skip(n) =~= rest);
    assert(all.push(line).last() == line);
}

/// Only lines of the section on volumes are read as volumes: nothing before
/// its heading, and nothing from the next heading on.
pub proof fn law_only_the_volumes_section_is_read(
    before: Seq<Seq<char>>,
    inside: Seq<Seq<char>>,
    heading: Seq<char>,
    after: Seq<Seq<char>>,
)
    requires
        forall|i: int|
            0 <= i < before.len() ==> !begins(
                #[trigger] before[i],
                "Local Volumes space usage"@,
            ),
        forall|i: int|
            0 <= i < inside.len() ==> !begins(#[trigger] inside[i], "Local Volumes space usage"@)
                && !ends(inside[i], "space usage:"@) && !begins(
                inside[i],
                "Build cache usage:"@,
            ),
        !begins(heading, "Local Volumes space usage"@),
        ends(heading, "space usage:"@) || begins(heading, "Build cache usage:"@),
    ensures
        volumes_in(before, false).len() == 0,
        volumes_in(inside + seq![heading] + after, true) == volumes_in(inside, true),
    decreases before.len() + inside.len(),
{
    if before.len() > 0 {
        assert forall|i: int| 0 <= i < before.skip(1).len() implies !begins(
            #[trigger] before.skip(1)[i],
            "Local Volumes space usage"@,
        ) by {
            assert(before.skip(1)[i] == before[i + 1]);
        }
        assert(!begins(before[0], "Local Volumes space usage"@));
        law_only_the_volumes_section_is_read(before.skip(1), inside, heading, after);
    } else if inside.len() > 0 {
        assert forall|i: int| 0 <= i < inside.skip(1).len() implies !begins(
            #[trigger] inside.skip(1)[i],
            "Local Volumes space usage"@,
        ) && !ends(inside.skip(1)[i], "space usage:"@) && !begins(
            inside.skip(1)[i],
            "Build cache usage:"@,
        ) by {
            assert(inside.skip(1)[i] == inside[i + 1]);
        }
        let all = inside + seq![heading] + after;
        assert(all[0] == inside[0]);
        assert(all.skip(1) =~= inside.skip(1) + seq![heading] + after);
        law_only_the_volumes_section_is_read(before, inside.skip(1), heading, after);
    } else {
        let all = inside + seq![heading] + after;
        assert(all[0] == heading);
    }
}

/// The command that is run for a scope is the prune of that scope's own
/// storage, and takes tagged images along for unused images alone.
pub proof fn law_the_command_prunes_its_own_scope(scope: PruneScope, r: Vec<&'static str>)
    requires
        call_ensures(prune_command, (scope,), r),
    ensures
        r@.len() >= 3,
        r@[0]@ == match scope {
            PruneScope::DanglingImages => "image"@,
            PruneScope::UnusedImages => "image"@,
            PruneScope::StoppedContainers => "container"@,
            PruneScope::BuildCache => "builder"@,
        },
        r@[1]@ == "prune"@,
        (exists|i: int| 0 <= i < r@.len() && (#[trigger] r@[i])@ == "-a"@) == (scope
            == PruneScope::UnusedImages),
{
    law_only_unused_images_take_tagged_ones(scope, scope);
    let args = Seq::new(r@.len(), |i: int| r@[i]@);
    assert(args == prune_args(scope));
    assert(args[0] == r@[0]@ && args[1] == r@[1]@);
    if args.contains("-a"@) {
        let i = choose|i: int| 0 <= i < args.len() && args[i] == "-a"@;
        assert(r@[i]@ == "-a"@);
    }
    if exists|i: int| 0 <= i < r@.len() && (#[trigger] r@[i])@ == "-a"@ {
        let i = choose|i: int| 0 <= i < r@.len() && (#[trigger] r@[i])@ == "-a"@;
        assert(args[i] == "-a"@);
    }
}

/// What is asked of Docker is asked of Docker: its account, its detailed
/// account, and the latter again before a volume is removed, which only a name
/// that a volume can have is.
pub proof fn law_what_is_asked_of_docker(
    usage: Query,
    detail: Query,
    name: &str,
    listing: Result<Query>,
)
    requires
        call_ensures(usage_query, (), usage),
        call_ensures(detail_query, (), detail),
        call_ensures(volume_query, (name,), listing),
    ensures
        usage.program@ == "docker"@,
        texts(usage.args@) == seq!["system"@, "df"@, "--format"@, "{{json .}}"@],
        detail.program@ == "docker"@,
        texts(detail.args@) == seq!["system"@, "df"@, "-v"@],
        listing matches Ok(q) ==> q.program@ == "docker"@ && texts(q.args@) == texts(detail.args@),
        (listing is Ok) == {
            &&& 0 < name@.len() <= 255
            &&& alphanumeric(name@[0])
            &&& forall|i: int|
                0 < i < name@.len() ==> alphanumeric(#[trigger] name@[i]) || name@[i] == '_'
                    || name@[i] == '.' || name@[i] == '-'
        },
        listing matches Err(e) ==> e.code == ErrorCode::InvalidInput,
{
}

/// Whether a volume is listed with this size and no container that refers to
/// it.
pub open spec fn lists_unused(all: Seq<VolumeText>, name: Seq<char>, bytes: u64) -> bool {
    exists|k: int|
        0 <= k < all.len() && (#[trigger] all[k]).name == name && all[k].links == 0 && all[k].bytes
            == bytes
}

/// The one command that removes a volume removes the volume that was named,
/// and only where what Docker has just listed shows it with no container that
/// refers to it; the size is what was listed there.
pub proof fn law_only_the_named_volume_is_removed(
    name: &str,
    listed: Result<String>,
    r: Result<(Query, u64)>,
)
    requires
        call_ensures(remove_volume, (name, listed), r),
    ensures
        r matches Ok(done) ==> {
            &&& done.0.program@ == "docker"@
            &&& texts(done.0.args@) == seq!["volume"@, "rm"@, name@]
            &&& listed matches Ok(t)
            &&& lists_unused(volumes_in(lines(t@), false), name@, done.1)
        },
        listed matches Err(e) ==> r == Err::<(Query, u64), AppError>(e),
        listed matches Ok(t) ==> r matches Err(e) ==> e.code == ErrorCode::HelperRejected,
{
    if let Ok(t) = listed {
        law_only_an_unused_volume_is_removed(volumes_in(lines(t@), false), name@);
    }
}

/// What Docker prints is read where it succeeded; a failure is an error and
/// never an empty answer or an empty gain.
pub proof fn law_a_failed_docker_gives_nothing(ran: Ran, text: Result<String>, bytes: Result<u64>)
    requires
        call_ensures(docker, (ran,), text),
        call_ensures(prune, (ran,), bytes),
    ensures
        match ran {
            Ran::NotStarted(error) => text == Err::<String, AppError>(error) && bytes == Err::<
                u64,
                AppError,
            >(error),
            Ran::Ended { success, stdout, .. } => if success {
                (text matches Ok(t) && t@ == lossy_text(stdout@)) && bytes == Ok::<u64, AppError>(
                    reclaimed_in(lines(lossy_text(stdout@))),
                )
            } else {
                (text matches Err(e) && e.code == ErrorCode::CommandFailed) && (bytes
                    matches Err(e) && e.code == ErrorCode::CommandFailed)
            },
        },
{
}

/// What a category of container storage offers is what Docker counts for it:
/// each prune for its own scope, each volume by its own name, and never as
/// safe.
pub proof fn law_container_offers_are_dockers_own(
    c: ContainerCategory,
    r: Result<Vec<Candidate>>,
    v: Vec<Candidate>,
    usage: Seq<char>,
    i: int,
)
    requires
        call_ensures(<ContainerCategory as Category>::candidates, (&c, false), r),
        r == Ok::<Vec<Candidate>, AppError>(v),
        c.installed(),
        c.account() == Some(usage),
        0 <= i < v@.len(),
    ensures
        v@[i].safety == Safety::Review || v@[i].safety == Safety::Risky,
        v@[i].cost is Some,
        v@[i].bytes > 0,
        v@[i].method matches ReclaimMethod::ContainerPrune { scope } ==> (scope
            == PruneScope::UnusedImages) == (v@[i].safety == Safety::Risky),
        v@[i].method matches ReclaimMethod::ContainerPrune { scope } ==> (scope
            == PruneScope::DanglingImages || scope == PruneScope::UnusedImages ==> exists|
            u: UsageText,
        |
            usage_lines(lines(usage)).contains(u) && #[trigger] gives_back(u, "Images"@)
                && v@[i].bytes == u.reclaimable) && (scope == PruneScope::StoppedContainers
            ==> exists|u: UsageText|
            usage_lines(lines(usage)).contains(u) && #[trigger] gives_back(u, "Containers"@)
                && v@[i].bytes == u.reclaimable) && (scope == PruneScope::BuildCache ==> exists|
            u: UsageText,
        |
            usage_lines(lines(usage)).contains(u) && #[trigger] gives_back(u, "Build Cache"@)
                && v@[i].bytes == u.reclaimable),
        v@[i].method is ContainerPrune || v@[i].method is ContainerVolume,
{
    let rows = usage_lines(lines(usage));
    let volumes = match c.details() {
        Some(t) => volumes_in(lines(t), false),
        None => Seq::empty(),
    };
    let all = all_offers(rows, volumes);
    law_what_is_offered_is_returned(v, in_order(all));
    law_a_candidate_is_what_its_view_says(v@[i]);
    crate::order::law_sorting_keeps_every_element(all);
    all.to_multiset_ensures();
    in_order(all).to_multiset_ensures();
    let x = in_order(all)[i];
    assert(in_order(all).contains(x));
    assert(in_order(all).to_multiset().count(x) == all.to_multiset().count(x));
    assert(all.contains(x));
    let k = choose|k: int| 0 <= k < all.len() && all[k] == x;
    law_each_offer_prunes_what_it_counts(rows, volumes, k);
    law_nothing_in_containers_is_safe(rows, volumes, k);
}

/// A size that Docker prints is its figure times its unit, and whatever
/// percentage stands behind it in brackets says nothing.
pub proof fn law_a_docker_size_is_its_figure_times_its_unit(
    n: nat,
    unit: Seq<char>,
    worth: nat,
    percentage: Seq<char>,
)
    requires
        unit.len() > 0,
        forall|i: int| 0 <= i < unit.len() ==> 'A' <= (#[trigger] unit[i]) <= 'z',
        docker_unit(unit) == Some(worth),
        n < 9007199254740992,
        n * worth < 9007199254740992,
    ensures
        docker_size(decimal(n) + unit) == n * worth,
        docker_size(decimal(n) + unit + " ("@ + percentage) == n * worth,
{
    let d = decimal(n);
    let s = d + unit;
    reveal_strlit(" (");
    crate::text::law_decimal_reads_back(n);
    crate::text::law_no_zeros_are_written_first(n);
    assert forall|i: int| 0 <= i < d.len() implies crate::pkg::in_number(#[trigger] d[i], false) by {
        assert(crate::text::is_digit(d[i]));
    }
    assert forall|i: int| 0 <= i < s.len() implies !crate::text::is_space(#[trigger] s[i]) by {
        if i < d.len() {
            assert(crate::text::is_digit(d[i]));
        } else {
            assert('A' <= unit[i - d.len()] <= 'z');
        }
    }
    assert('A' <= unit[0] <= 'z');
    crate::pkg::lemma_number_end(d, unit, false);
    assert(s.take(d.len() as int) =~= d);
    assert(s.skip(d.len() as int) =~= unit);
    assert(!crate::text::is_space(s[0]) && !crate::text::is_space(s[s.len() - 1]));
    crate::pkg::lemma_trimmed_already(s);
    assert('A' <= unit[unit.len() - 1] <= 'z');
    crate::pkg::lemma_trimmed_already(unit);
    assert(worth > 0);
    crate::decimal::law_whole_numbers_are_scaled_exactly(n, worth);
    crate::text::lemma_text_at(s, " ("@);
    let at = text_at(s, " ("@);
    if at >= 0 {
        assert(s.skip(at).take(2)[0] == s[at]);
        assert(" ("@[0] == ' ');
    }
    assert(without_percentage(s) == s);
    let long = s + " ("@ + percentage;
    crate::text::lemma_text_at(long, " ("@);
    let there = text_at(long, " ("@);
    assert(long.skip(s.len() as int).take(2) =~= " ("@);
    assert(begins(long.skip(s.len() as int), " ("@));
    assert(there == s.len()) by {
        if 0 <= there < s.len() {
            assert(long.skip(there).take(2)[0] == s[there]);
            assert(" ("@[0] == ' ');
        }
    }
    assert(long.take(there) =~= s);
    assert(without_percentage(long) == s);
}

} // verus!
