//! Snap revisions: which of them snapd has superseded.
use vstd::prelude::*;
use vstd::string::*;
use crate::double::capped;
use crate::paths::{join, joined};
use crate::space::{format_bytes, size_text, Reclaimable};
use crate::text::{chars_of, is_text, lines, opt_text, pieces, same_str, split_lines, split_on, split_words, string_of, texts, views, words};
use super::{block_bytes, owned_args, Query};

verus! {

broadcast use vstd::string::group_string_axioms;

/// Where snapd keeps downloaded revisions.
pub const SNAP_BLOBS: &'static str = "/var/lib/snapd/snaps";

/// One installed revision of a snap.
#[derive(Debug, PartialEq, Eq)]
pub struct Revision {
    pub name: String,
    pub revision: String,
    pub version: String,
    /// Whether snapd has superseded this revision.
    pub disabled: bool,
    /// What its blob takes, where that is known.
    pub bytes: u64,
    /// How many names the blob has. More than one means that it is shared.
    pub links: u64,
    pub blob: Option<String>,
}

impl Clone for Revision {
    fn clone(&self) -> (r: Self)
        ensures
            r == *self,
    {
        Revision {
            name: self.name.clone(),
            revision: self.revision.clone(),
            version: self.version.clone(),
            disabled: self.disabled,
            bytes: self.bytes,
            links: self.links,
            blob: crate::error::copy_option(&self.blob),
        }
    }
}

/// What has to be said of a blob that snapd's cache shares.
pub open spec fn cache_reason(bytes: u64) -> Seq<char> {
    "snapd also keeps this "@ + size_text(bytes as nat)
        + " blob in its download cache, so removing the revision may not return the space until that cache is pruned."@
}

impl Revision {
    /// How much of the bytes would actually come back. Nothing can be proven
    /// of a blob with another name: when its cache is pruned is up to snapd.
    pub fn reclaimable(&self) -> (r: Reclaimable)
        ensures
            if self.links <= 1 {
                r is Exact
            } else {
                r matches Reclaimable::AtMost { exclusive, reason } && exclusive is None && reason@
                    == cache_reason(self.bytes)
            },
    {
        if self.links <= 1 {
            return Reclaimable::Exact;
        }
        let mut reason = "snapd also keeps this ".to_owned();
        let size = format_bytes(self.bytes);
        reason.append(size.as_str());
        reason.append(
            " blob in its download cache, so removing the revision may not return the space until that cache is pruned.",
        );
        Reclaimable::AtMost { exclusive: None, reason }
    }
}

/// A revision as a list gives it: name, version, revision, and whether it is
/// disabled.
pub struct RevisionText {
    pub name: Seq<char>,
    pub version: Seq<char>,
    pub revision: Seq<char>,
    pub disabled: bool,
}

/// Whether a revision is one that a list gives, not measured yet.
pub open spec fn unmeasured(r: Revision, t: RevisionText) -> bool {
    &&& r.name@ == t.name
    &&& r.version@ == t.version
    &&& r.revision@ == t.revision
    &&& r.disabled == t.disabled
    &&& r.bytes == 0
    &&& r.links == 1
    &&& r.blob is None
}

/// The revision that a line gives. The notes are a set with commas between
/// its members.
pub open spec fn revision_line(line: Seq<char>) -> Option<RevisionText> {
    let w = words(line);
    if w.len() < 6 {
        None
    } else {
        Some(
            RevisionText {
                name: w[0],
                version: w[1],
                revision: w[2],
                disabled: pieces(w[5], ',').contains("disabled"@),
            },
        )
    }
}

/// The revisions that some lines give, in order.
pub open spec fn revision_lines(all: Seq<Seq<char>>) -> Seq<RevisionText>
    decreases all.len(),
{
    if all.len() == 0 {
        Seq::empty()
    } else {
        match revision_line(all.last()) {
            Some(r) => revision_lines(all.drop_last()).push(r),
            None => revision_lines(all.drop_last()),
        }
    }
}

/// The lines of a list without its header.
pub open spec fn below_header(all: Seq<Seq<char>>) -> Seq<Seq<char>> {
    if all.len() > 0 {
        all.skip(1)
    } else {
        all
    }
}

/// Whether some revisions are the ones that a list gives.
pub open spec fn all_unmeasured(v: Seq<Revision>, t: Seq<RevisionText>) -> bool {
    v.len() == t.len() && forall|i: int| 0 <= i < v.len() ==> #[trigger] unmeasured(v[i], t[i])
}

fn has_member(notes: &[char], member: &str) -> (r: bool)
    ensures
        r == pieces(notes@, ',').contains(member@),
{
    let parts = split_on(notes, ',');
    let ghost all = views(parts@);
    let mut i: usize = 0;
    while i < parts.len()
        invariant
            i <= parts@.len(),
            all == views(parts@),
            all == pieces(notes@, ','),
            forall|k: int| 0 <= k < i ==> all[k] != member@,
        decreases parts@.len() - i,
    {
        assert(all[i as int] == parts@[i as int]@);
        if is_text(parts[i], member) {
            assert(all[i as int] == member@);
            return true;
        }
        i = i + 1;
    }
    false
}

/// Parses a list of every revision. Its first line is a header.
pub fn parse_snap_list(output: &str) -> (r: Vec<Revision>)
    ensures
        all_unmeasured(r@, revision_lines(below_header(lines(output@)))),
{
    let chars = chars_of(output);
    let rows = split_lines(chars.as_slice());
    let ghost whole = lines(output@);
    let ghost all = below_header(whole);
    assert(views(rows@).len() == rows@.len());
    let mut out: Vec<Revision> = Vec::new();
    let mut i: usize = 1;
    assert(all.take(0) =~= Seq::<Seq<char>>::empty());
    while i < rows.len()
        invariant
            1 <= i,
            i <= rows@.len() || rows@.len() == 0 && i == 1,
            views(rows@) == whole,
            whole.len() == rows@.len(),
            all == below_header(whole),
            all_unmeasured(out@, revision_lines(all.take(i - 1))),
        decreases rows@.len() - i,
    {
        assert(all.take(i as int).drop_last() =~= all.take(i - 1));
        assert(all.take(i as int).last() == rows@[i as int]@) by {
            assert(all[i - 1] == whole[i as int]);
        }
        let fields = split_words(rows[i]);
        assert(views(fields@).len() == fields@.len());
        if fields.len() >= 6 {
            assert(views(fields@)[0] == fields@[0]@ && views(fields@)[1] == fields@[1]@ && views(
                fields@,
            )[2] == fields@[2]@ && views(fields@)[5] == fields@[5]@);
            let ghost before = out@;
            out.push(
                Revision {
                    name: string_of(fields[0]),
                    revision: string_of(fields[2]),
                    version: string_of(fields[1]),
                    disabled: has_member(fields[5], "disabled"),
                    bytes: 0,
                    links: 1,
                    blob: None,
                },
            );
            proof {
                let rest = revision_lines(all.take(i - 1));
                let wanted = revision_lines(all.take(i as int));
                assert forall|k: int| 0 <= k < out@.len() implies #[trigger] unmeasured(
                    out@[k],
                    wanted[k],
                ) by {
                    if k < before.len() {
                        assert(unmeasured(before[k], rest[k]));
                    }
                }
            }
        }
        i = i + 1;
    }
    proof {
        if rows@.len() == 0 {
            assert(all =~= Seq::<Seq<char>>::empty());
        } else {
            assert(all.take(i - 1) =~= all);
        }
    }
    out
}

/// The command that lists every revision.
pub fn revisions_query() -> (r: Query)
    ensures
        r.program@ == "snap"@,
        texts(r.args@) == seq!["list"@, "--all"@],
{
    let args = vec!["list", "--all"];
    let owned = owned_args(&args);
    assert(texts(owned@) =~= seq!["list"@, "--all"@]);
    Query { program: "snap", args: owned }
}

/// Where a revision's blob is.
pub open spec fn blob_path(r: Revision, dir: Seq<char>) -> Seq<char> {
    joined(dir, r.name@ + "_"@ + r.revision@ + ".snap"@)
}

/// Where a revision's blob is.
pub fn blob_of(revision: &Revision, blob_dir: &str) -> (r: String)
    ensures
        r@ == blob_path(*revision, blob_dir@),
{
    let mut name = revision.name.as_str().to_owned();
    name.append("_");
    name.append(revision.revision.as_str());
    name.append(".snap");
    join(blob_dir, name.as_str())
}

/// Whether a revision has been measured: what was seen of its blob, as blocks
/// of 512 bytes and number of names, is filled in, and the rest unchanged.
pub open spec fn measured_as(
    before: Revision,
    dir: Seq<char>,
    seen: Option<(u64, u64)>,
    after: Revision,
) -> bool {
    match seen {
        Some((blocks, links)) => {
            &&& after.bytes == capped((blocks * 512) as nat)
            &&& after.links == links
            &&& opt_text(after.blob) == Some(blob_path(before, dir))
            &&& after == (Revision {
                bytes: after.bytes,
                links: after.links,
                blob: after.blob,
                ..before
            })
        },
        None => after == before,
    }
}

/// Fills in a revision's blob, size and number of names, where there is a
/// blob: the blocks that it takes and the names that it has.
pub fn measure(revision: &mut Revision, blob_dir: &str, seen: Option<(u64, u64)>)
    ensures
        measured_as(*old(revision), blob_dir@, seen, *final(revision)),
{
    if let Some((blocks, links)) = seen {
        let path = blob_of(revision, blob_dir);
        revision.bytes = block_bytes(blocks);
        revision.links = links;
        revision.blob = Some(path);
    }
}

/// Every installed revision, measured by what was seen of each blob.
pub fn revisions(found: Vec<Revision>, seen: &Vec<Option<(u64, u64)>>) -> (r: Vec<Revision>)
    requires
        found@.len() == seen@.len(),
    ensures
        r@.len() == found@.len(),
        forall|i: int|
            0 <= i < r@.len() ==> measured_as(
                found@[i],
                SNAP_BLOBS@,
                seen@[i],
                #[trigger] r@[i],
            ),
{
    let mut out: Vec<Revision> = Vec::new();
    let mut i: usize = 0;
    while i < found.len()
        invariant
            i <= found@.len() == seen@.len(),
            out@.len() == i,
            forall|k: int|
                0 <= k < i ==> measured_as(found@[k], SNAP_BLOBS@, seen@[k], #[trigger] out@[k]),
        decreases found@.len() - i,
    {
        let mut revision = found[i].clone();
        measure(&mut revision, SNAP_BLOBS, seen[i]);
        out.push(revision);
        i = i + 1;
    }
    out
}

/// How many revisions of a snap there are.
pub open spec fn revision_count(all: Seq<Revision>, name: Seq<char>) -> nat
    decreases all.len(),
{
    if all.len() == 0 {
        0
    } else {
        revision_count(all.drop_last(), name) + if all.last().name@ == name {
            1nat
        } else {
            0
        }
    }
}

/// Whether a revision may be removed: snapd has superseded it, it is not the
/// only one of its snap, and there is something to reclaim.
pub open spec fn may_go(all: Seq<Revision>, r: Revision) -> bool {
    r.disabled && revision_count(all, r.name@) > 1 && r.bytes > 0
}

/// The revisions among some that may be removed, in order.
pub open spec fn removable_of(part: Seq<Revision>, all: Seq<Revision>) -> Seq<Revision>
    decreases part.len(),
{
    if part.len() == 0 {
        part
    } else if may_go(all, part.last()) {
        removable_of(part.drop_last(), all).push(part.last())
    } else {
        removable_of(part.drop_last(), all)
    }
}

/// Whether a snap has more than one revision.
fn has_sibling(all: &Vec<Revision>, name: &str) -> (r: bool)
    ensures
        r == (revision_count(all@, name@) > 1),
{
    let mut count: usize = 0;
    let mut i: usize = 0;
    assert(all@.take(0) =~= Seq::<Revision>::empty());
    while i < all.len()
        invariant
            i <= all@.len(),
            count <= i,
            count == revision_count(all@.take(i as int), name@),
        decreases all@.len() - i,
    {
        assert(all@.take(i + 1).drop_last() =~= all@.take(i as int));
        if same_str(all[i].name.as_str(), name) {
            count = count + 1;
        }
        i = i + 1;
    }
    assert(all@.take(i as int) =~= all@);
    count > 1
}

/// The revisions that are safe to remove. Removing the only revision of a
/// snap would uninstall it, which is another decision.
pub fn removable(all: &Vec<Revision>) -> (r: Vec<Revision>)
    ensures
        r@ == removable_of(all@, all@),
{
    let mut out: Vec<Revision> = Vec::new();
    let mut i: usize = 0;
    assert(all@.take(0) =~= Seq::<Revision>::empty());
    while i < all.len()
        invariant
            i <= all@.len(),
            out@ == removable_of(all@.take(i as int), all@),
        decreases all@.len() - i,
    {
        assert(all@.take(i + 1).drop_last() =~= all@.take(i as int));
        let r = &all[i];
        if r.disabled && r.bytes > 0 && has_sibling(all, r.name.as_str()) {
            out.push(r.clone());
        }
        i = i + 1;
    }
    assert(all@.take(i as int) =~= all@);
    out
}

/// An active revision is never offered, nor is the only one of a snap:
/// whatever is offered is superseded, and one of several.
pub proof fn law_active_and_sole_revisions_stay(part: Seq<Revision>, all: Seq<Revision>, i: int)
    requires
        0 <= i < removable_of(part, all).len(),
    ensures
        removable_of(part, all)[i].disabled,
        removable_of(part, all)[i].bytes > 0,
        revision_count(all, removable_of(part, all)[i].name@) > 1,
    decreases part.len(),
{
    if i < removable_of(part.drop_last(), all).len() {
        law_active_and_sole_revisions_stay(part.drop_last(), all, i);
        if may_go(all, part.last()) {
            assert(removable_of(part, all)[i] == removable_of(part.drop_last(), all)[i]);
        }
    }
}

/// A revision is read from its own columns: name, version and number, and from
/// its notes whether it is superseded.
pub proof fn law_revisions_are_read_from_their_columns(line: Seq<char>)
    ensures
        match revision_line(line) {
            Some(r) => {
                &&& words(line).len() >= 6
                &&& r.name == words(line)[0]
                &&& r.version == words(line)[1]
                &&& r.revision == words(line)[2]
                &&& r.disabled == pieces(words(line)[5], ',').contains("disabled"@)
            },
            None => words(line).len() < 6,
        },
{
}

/// Each line below the header adds its revision.
pub proof fn law_every_revision_is_listed(all: Seq<Seq<char>>, line: Seq<char>)
    ensures
        revision_line(line) matches Some(r) ==> revision_lines(all.push(line)) == revision_lines(
            all,
        ).push(r),
        revision_line(line) is None ==> revision_lines(all.push(line)) == revision_lines(all),
        below_header(seq![line] + all) == all,
{
    assert(all.push(line).drop_last() =~= all);
    assert((seq![line] + all).skip(1) =~= all);
}

/// A revision is measured by its own blob: the file of its name and number,
/// for the blocks that it takes, and nothing else of it changes.
pub proof fn law_a_revision_is_measured_by_its_own_blob(
    before: Revision,
    dir: Seq<char>,
    seen: Option<(u64, u64)>,
    after: Revision,
)
    requires
        measured_as(before, dir, seen, after),
    ensures
        after.name == before.name,
        after.revision == before.revision,
        after.version == before.version,
        after.disabled == before.disabled,
        seen is None ==> after == before,
        seen matches Some((blocks, links)) ==> after.links == links && (blocks * 512 <= u64::MAX
            ==> after.bytes == blocks * 512) && (after.blob matches Some(b) && b@ == joined(
            dir,
            before.name@ + "_"@ + before.revision@ + ".snap"@,
        )),
{
}

/// Every superseded revision of a snap that has another one, and whose blob
/// takes anything, may be removed; nothing else may.
pub proof fn law_every_superseded_revision_is_removable(
    part: Seq<Revision>,
    all: Seq<Revision>,
    r: Revision,
)
    ensures
        r.disabled && r.bytes > 0 && revision_count(all, r.name@) > 1 ==> removable_of(
            part.push(r),
            all,
        ) == removable_of(part, all).push(r),
        !r.disabled || r.bytes == 0 || revision_count(all, r.name@) <= 1 ==> removable_of(
            part.push(r),
            all,
        ) == removable_of(part, all),
        revision_count(all.push(r), r.name@) == revision_count(all, r.name@) + 1,
{
    assert(part.push(r).drop_last() =~= part);
    assert(all.push(r).drop_last() =~= all);
}

/// A blob with one name comes back whole; of one that has others nothing may
/// be promised.
pub proof fn law_a_shared_blob_promises_nothing(r: Revision, promise: Reclaimable)
    requires
        call_ensures(Revision::reclaimable, (&r,), promise),
    ensures
        r.links <= 1 ==> promise is Exact,
        r.links > 1 ==> (promise matches Reclaimable::AtMost { exclusive, .. } && exclusive is None),
{
}

} // verus!
