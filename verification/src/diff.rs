//! The per-file differences between a checkpoint and the one before it.

use vstd::prelude::*;
use vstd::string::*;
use vstd::utf8::*;

use crate::checkpoint::{path_of, totals_of, DiffSummary};
use crate::text::{comes_before, copy_opt, same_text};
use crate::text::{lemma_text_order, text_less};

verus! {

/// The cap on the text of a patch, in bytes: a longer one is cut.
pub const MAX_PATCH_BYTES: usize = 64 * 1024;

/// What happened to a file between two checkpoints.
#[derive(Debug, Clone, Copy, PartialEq, Eq, Structural)]
pub enum FileStatus {
    Added,
    Modified,
    Deleted,
    Renamed,
    Copied,
}

/// The difference of one file.
#[derive(Debug)]
pub struct FileDiff {
    pub path: String,
    pub status: FileStatus,
    pub additions: u32,
    pub deletions: u32,
    /// The unified patch; empty where there is no textual difference.
    pub patch: String,
    /// Whether the patch was cut.
    pub truncated: bool,
}

/// The content of a `FileDiff`.
#[verifier::ext_equal]
pub struct DiffView {
    pub path: Seq<char>,
    pub status: FileStatus,
    pub additions: u32,
    pub deletions: u32,
    pub patch: Seq<char>,
    pub truncated: bool,
}

impl View for FileDiff {
    type V = DiffView;

    open spec fn view(&self) -> DiffView {
        DiffView {
            path: self.path@,
            status: self.status,
            additions: self.additions,
            deletions: self.deletions,
            patch: self.patch@,
            truncated: self.truncated,
        }
    }
}

impl Clone for FileDiff {
    fn clone(&self) -> (r: Self)
        ensures
            r@ == self@,
    {
        FileDiff {
            path: self.path.clone(),
            status: self.status,
            additions: self.additions,
            deletions: self.deletions,
            patch: self.patch.clone(),
            truncated: self.truncated,
        }
    }
}

/// The contents of a list of differences.
pub open spec fn diffs(s: Seq<FileDiff>) -> Seq<DiffView> {
    s.map_values(|d: FileDiff| d@)
}

/// How the comparison of two trees classifies a file.
#[derive(Debug, Clone, Copy, PartialEq, Eq, Structural)]
pub enum DeltaStatus {
    Unmodified,
    Added,
    Deleted,
    Modified,
    Renamed,
    Copied,
    Ignored,
    Untracked,
    Typechange,
    Unreadable,
    Conflicted,
}

/// What the comparison of two trees says of one file.
#[derive(Debug)]
pub struct DeltaRecord {
    /// Whether a patch could be made.
    pub has_patch: bool,
    pub new_path: Option<String>,
    pub old_path: Option<String>,
    pub status: DeltaStatus,
    /// Lines of context, of additions and of deletions, where they were counted.
    pub line_stats: Option<(usize, usize, usize)>,
    /// The text of the patch, where it could be written out.
    pub patch: Option<Vec<u8>>,
}

/// The status that is shown for a file.
pub open spec fn shown_status(s: DeltaStatus) -> FileStatus {
    match s {
        DeltaStatus::Added => FileStatus::Added,
        DeltaStatus::Deleted => FileStatus::Deleted,
        DeltaStatus::Renamed => FileStatus::Renamed,
        DeltaStatus::Copied => FileStatus::Copied,
        _ => FileStatus::Modified,
    }
}

/// The status that is shown for a file.
pub fn file_status(s: DeltaStatus) -> (r: FileStatus)
    ensures
        r == shown_status(s),
{
    match s {
        DeltaStatus::Added => FileStatus::Added,
        DeltaStatus::Deleted => FileStatus::Deleted,
        DeltaStatus::Renamed => FileStatus::Renamed,
        DeltaStatus::Copied => FileStatus::Copied,
        _ => FileStatus::Modified,
    }
}

/// The word for a status.
pub open spec fn status_word(s: FileStatus) -> Seq<char> {
    match s {
        FileStatus::Added => "added"@,
        FileStatus::Modified => "modified"@,
        FileStatus::Deleted => "deleted"@,
        FileStatus::Renamed => "renamed"@,
        FileStatus::Copied => "copied"@,
    }
}

/// The word for a status.
pub fn status_name(s: FileStatus) -> (r: &'static str)
    ensures
        r@ == status_word(s),
{
    match s {
        FileStatus::Added => "added",
        FileStatus::Modified => "modified",
        FileStatus::Deleted => "deleted",
        FileStatus::Renamed => "renamed",
        FileStatus::Copied => "copied",
    }
}

/// `std::str::from_utf8`: the text that the bytes encode, where they are valid
/// UTF-8; nothing where they are not.
#[verifier::external_body]
fn utf8_text(bytes: &[u8]) -> (r: Option<&str>)
    ensures
        match r {
            Some(s) => encode_utf8(s@) == bytes@,
            None => !valid_utf8(bytes@),
        },
{
    std::str::from_utf8(bytes).ok()
}

/// The text of a patch: empty where it was not written out or is not UTF-8.
pub open spec fn patch_text(patch: Option<Vec<u8>>) -> Seq<char> {
    match patch {
        Some(b) => if valid_utf8(b@) {
            decode_utf8(b@)
        } else {
            Seq::empty()
        },
        None => Seq::empty(),
    }
}

/// The last position up to `from` at which a character begins or the text ends.
pub open spec fn last_boundary(bytes: Seq<u8>, from: int) -> int
    decreases from,
{
    if from <= 0 || is_char_boundary(bytes, from) {
        from
    } else {
        last_boundary(bytes, from - 1)
    }
}

/// A patch is too long to be shown whole.
pub open spec fn is_too_long(patch: Seq<char>) -> bool {
    encode_utf8(patch).len() > MAX_PATCH_BYTES
}

/// What is shown of a patch: all of it, or, where it is too long, as many characters
/// as fit into `MAX_PATCH_BYTES` bytes.
pub open spec fn shown_patch(patch: Seq<char>) -> Seq<char> {
    let bytes = encode_utf8(patch);
    if is_too_long(patch) {
        decode_utf8(bytes.take(last_boundary(bytes, MAX_PATCH_BYTES as int)))
    } else {
        patch
    }
}

/// What is shown of a patch, and whether it was cut.
pub fn cut_patch(raw: &str) -> (r: (String, bool))
    ensures
        r.0@ == shown_patch(raw@),
        r.1 == is_too_long(raw@),
{
    let len = raw.as_bytes().len();
    if len <= MAX_PATCH_BYTES {
        return (raw.to_string(), false);
    }
    let ghost bytes = encode_utf8(raw@);
    proof {
        encode_utf8_valid_utf8(raw@);
        is_char_boundary_start_end_of_seq(bytes);
    }
    let mut cut: usize = MAX_PATCH_BYTES;
    while cut > 0 && !raw.is_char_boundary(cut)
        invariant
            bytes == encode_utf8(raw@),
            cut <= bytes.len(),
            last_boundary(bytes, cut as int) == last_boundary(bytes, MAX_PATCH_BYTES as int),
        decreases cut,
    {
        cut -= 1;
    }
    assert(is_char_boundary(bytes, cut as int));
    let (head, _) = raw.split_at(cut);
    assert(encode_utf8(head@) == bytes.subrange(0, cut as int));
    assert(bytes.subrange(0, cut as int) == bytes.take(cut as int));
    proof {
        encode_utf8_decode_utf8(head@);
    }
    (head.to_string(), true)
}

/// The comparison yields a difference: a patch could be made and the file has a
/// path.
pub open spec fn is_shown(d: DeltaRecord) -> bool {
    &&& d.has_patch
    &&& path_of(d.new_path, d.old_path) is Some
    &&& path_of(d.new_path, d.old_path).unwrap().len() > 0
}

/// The difference that is shown for a file.
pub open spec fn diff_of(d: DeltaRecord) -> DiffView {
    let stats: (usize, usize, usize) = match d.line_stats {
        Some(t) => t,
        None => (0, 0, 0),
    };
    DiffView {
        path: path_of(d.new_path, d.old_path).unwrap(),
        status: shown_status(d.status),
        additions: stats.1 as u32,
        deletions: stats.2 as u32,
        patch: shown_patch(patch_text(d.patch)),
        truncated: is_too_long(patch_text(d.patch)),
    }
}

/// The difference that is shown for a file, if any is.
pub fn file_diff(d: &DeltaRecord) -> (r: Option<FileDiff>)
    ensures
        match r {
            Some(f) => is_shown(*d) && f@ == diff_of(*d),
            None => !is_shown(*d),
        },
{
    if !d.has_patch {
        return None;
    }
    let path = if d.new_path.is_some() {
        copy_opt(&d.new_path)
    } else {
        copy_opt(&d.old_path)
    };
    match path {
        None => None,
        Some(path) => {
            if path.as_str().is_empty() {
                return None;
            }
            let stats: (usize, usize, usize) = match d.line_stats {
                Some(t) => t,
                None => (0, 0, 0),
            };
            let (patch, truncated) = match &d.patch {
                Some(b) => {
                    match utf8_text(b.as_slice()) {
                        Some(s) => {
                            proof {
                                encode_utf8_valid_utf8(s@);
                                encode_utf8_decode_utf8(s@);
                            }
                            cut_patch(s)
                        },
                        None => cut_patch(""),
                    }
                },
                None => cut_patch(""),
            };
            proof {
                reveal_strlit("");
                assert(""@ =~= Seq::<char>::empty());
            }
            Some(
                FileDiff {
                    path,
                    status: file_status(d.status),
                    additions: stats.1 as u32,
                    deletions: stats.2 as u32,
                    patch,
                    truncated,
                },
            )
        },
    }
}

/// The differences by path; where two files have the same path, the later one
/// counts.
pub open spec fn diffs_by_path(deltas: Seq<DeltaRecord>) -> Map<Seq<char>, DiffView>
    decreases deltas.len(),
{
    if deltas.len() == 0 {
        Map::empty()
    } else {
        let rest = diffs_by_path(deltas.drop_last());
        if is_shown(deltas.last()) {
            rest.insert(diff_of(deltas.last()).path, diff_of(deltas.last()))
        } else {
            rest
        }
    }
}

/// `out` holds the values of `m`, each once, in the order of their paths.
pub open spec fn is_sorted_listing(m: Map<Seq<char>, DiffView>, out: Seq<DiffView>) -> bool {
    &&& forall|a: int, b: int|
        0 <= a < b < out.len() ==> text_less((#[trigger] out[a]).path, (#[trigger] out[b]).path)
    &&& forall|k: int|
        0 <= k < out.len() ==> m.contains_key((#[trigger] out[k]).path) && m[out[k].path] == out[k]
    &&& forall|p: Seq<char>| #[trigger]
        m.contains_key(p) ==> exists|k: int| 0 <= k < out.len() && (#[trigger] out[k]).path == p
}

/// Puts a difference into a listing, in the place of one with the same path.
fn put_sorted(out: &mut Vec<FileDiff>, f: FileDiff, m: Ghost<Map<Seq<char>, DiffView>>)
    requires
        is_sorted_listing(m@, diffs(old(out)@)),
    ensures
        is_sorted_listing(m@.insert(f@.path, f@), diffs(final(out)@)),
{
    let ghost before = diffs(out@);
    let ghost fv = f@;
    let mut at: usize = 0;
    while at < out.len() && comes_before(out[at].path.as_str(), f.path.as_str())
        invariant
            at <= out@.len(),
            before == diffs(out@),
            forall|k: int| 0 <= k < at ==> text_less((#[trigger] before[k]).path, f@.path),
        decreases out@.len() - at,
    {
        assert(before[at as int] == out@[at as int]@);
        at += 1;
    }
    let ghost p = at as int;
    let ghost n = m@.insert(fv.path, fv);
    if at < out.len() && same_text(out[at].path.as_str(), f.path.as_str()) {
        assert(before[p].path == fv.path);
        out.set(at, f);
        proof {
            let after = diffs(out@);
            assert(after =~= before.update(p, fv));
            assert forall|k: int| 0 <= k < after.len() implies n.contains_key(
                (#[trigger] after[k]).path,
            ) && n[after[k].path] == after[k] by {
                if k != p {
                    assert(after[k] == before[k]);
                    lemma_text_order(before[k].path, before[p].path, before[k].path);
                    if k < p {
                        assert(text_less(before[k].path, before[p].path));
                    } else {
                        assert(text_less(before[p].path, before[k].path));
                    }
                    assert(before[k].path != fv.path);
                }
            }
            assert forall|q: Seq<char>| #[trigger] n.contains_key(q) implies exists|k: int|
                0 <= k < after.len() && (#[trigger] after[k]).path == q by {
                if q == fv.path {
                    assert(after[p].path == q);
                } else {
                    assert(m@.contains_key(q));
                    let k = choose|k: int| 0 <= k < before.len() && (#[trigger] before[k]).path == q;
                    assert(after[k].path == q);
                }
            }
            assert forall|a: int, b: int| 0 <= a < b < after.len() implies text_less(
                (#[trigger] after[a]).path,
                (#[trigger] after[b]).path,
            ) by {
                assert(text_less(before[a].path, before[b].path));
            }
        }
    } else {
        out.insert(at, f);
        proof {
            let after = diffs(out@);
            assert(after =~= before.insert(p, fv));
            if p < before.len() {
                lemma_text_order(before[p].path, fv.path, fv.path);
                assert(text_less(fv.path, before[p].path));
            }
            assert forall|k: int| p <= k < before.len() implies text_less(
                fv.path,
                (#[trigger] before[k]).path,
            ) by {
                if k > p {
                    assert(text_less(before[p].path, before[k].path));
                    lemma_text_order(fv.path, before[p].path, before[k].path);
                }
            }
            assert forall|k: int| 0 <= k < before.len() implies (#[trigger] before[k]).path
                != fv.path by {
                lemma_text_order(fv.path, fv.path, fv.path);
            }
            assert forall|a: int, b: int| 0 <= a < b < after.len() implies text_less(
                (#[trigger] after[a]).path,
                (#[trigger] after[b]).path,
            ) by {
                let x = if a < p { a } else { a - 1 };
                let y = if b < p { b } else { b - 1 };
                if a != p {
                    assert(after[a] == before[x]);
                }
                if b != p {
                    assert(after[b] == before[y]);
                }
                if a != p && b != p {
                    assert(text_less(before[x].path, before[y].path));
                }
            }
            assert forall|k: int| 0 <= k < after.len() implies n.contains_key(
                (#[trigger] after[k]).path,
            ) && n[after[k].path] == after[k] by {
                if k < p {
                    assert(after[k] == before[k]);
                } else if k > p {
                    assert(after[k] == before[k - 1]);
                }
            }
            assert forall|q: Seq<char>| #[trigger] n.contains_key(q) implies exists|k: int|
                0 <= k < after.len() && (#[trigger] after[k]).path == q by {
                if q == fv.path {
                    assert(after[p].path == q);
                } else {
                    assert(m@.contains_key(q));
                    let k = choose|k: int| 0 <= k < before.len() && (#[trigger] before[k]).path == q;
                    if k < p {
                        assert(after[k].path == q);
                    } else {
                        assert(after[k + 1].path == q);
                    }
                }
            }
        }
    }
}

/// The differences between a checkpoint and the one before it, by path.
pub fn diff(deltas: &Vec<DeltaRecord>) -> (r: Vec<FileDiff>)
    ensures
        is_sorted_listing(diffs_by_path(deltas@), diffs(r@)),
        forall|i: int|
            0 <= i < deltas@.len() && #[trigger] is_last_of_path(deltas@, i) ==> is_told(
                diffs(r@),
                deltas@[i],
            ),
        forall|k: int| 0 <= k < r@.len() ==> is_heard((#[trigger] r@[k])@, deltas@),
        forall|a: int, b: int|
            0 <= a < b < r@.len() ==> text_less(
                (#[trigger] r@[a]).path@,
                (#[trigger] r@[b]).path@,
            ),
{
    let mut out: Vec<FileDiff> = Vec::new();
    let mut i: usize = 0;
    assert(diffs_by_path(deltas@.take(0)) =~= Map::<Seq<char>, DiffView>::empty());
    while i < deltas.len()
        invariant
            i <= deltas@.len(),
            is_sorted_listing(diffs_by_path(deltas@.take(i as int)), diffs(out@)),
        decreases deltas@.len() - i,
    {
        assert(deltas@.take(i + 1).drop_last() == deltas@.take(i as int));
        if let Some(f) = file_diff(&deltas[i]) {
            put_sorted(&mut out, f, Ghost(diffs_by_path(deltas@.take(i as int))));
        }
        i += 1;
    }
    assert(deltas@.take(i as int) == deltas@);
    proof {
        let all = diffs(out@);
        assert forall|i: int| 0 <= i < deltas@.len() && #[trigger] is_last_of_path(
            deltas@,
            i,
        ) implies is_told(all, deltas@[i]) by {
            law_every_change_is_shown(deltas@, all, i);
        }
        assert forall|k: int| 0 <= k < out@.len() implies is_heard(
            (#[trigger] out@[k])@,
            deltas@,
        ) by {
            law_nothing_else_is_shown(deltas@, all, k);
            assert(all[k] == out@[k]@);
        }
        assert forall|a: int, b: int| 0 <= a < b < out@.len() implies text_less(
            (#[trigger] out@[a]).path@,
            (#[trigger] out@[b]).path@,
        ) by {
            assert(text_less(all[a].path, all[b].path));
        }
    }
    out
}

// ---- laws ----

/// `last_boundary` is the greatest boundary up to `from`.
proof fn lemma_last_boundary(bytes: Seq<u8>, from: int, k: int)
    requires
        0 <= k <= from <= bytes.len(),
        valid_utf8(bytes),
        is_char_boundary(bytes, k),
    ensures
        k <= last_boundary(bytes, from) <= from,
        is_char_boundary(bytes, last_boundary(bytes, from)),
    decreases from,
{
    if from > 0 && !is_char_boundary(bytes, from) {
        lemma_last_boundary(bytes, from - 1, k);
    } else {
        is_char_boundary_start_end_of_seq(bytes);
    }
}

/// Within any four positions in a row a character begins, or the text ends.
proof fn lemma_boundary_nearby(bytes: Seq<u8>, from: int) -> (k: int)
    requires
        valid_utf8(bytes),
        0 <= from <= bytes.len(),
    ensures
        from <= k <= from + 3,
        k <= bytes.len(),
        is_char_boundary(bytes, k),
    decreases bytes.len(),
{
    reveal_with_fuel(is_char_boundary, 2);
    if from == 0 {
        0
    } else {
        let n = length_of_first_scalar(bytes);
        let rest = pop_first_scalar(bytes);
        if from <= n {
            assert(is_char_boundary(rest, 0));
            n
        } else {
            n + lemma_boundary_nearby(rest, from - n)
        }
    }
}

/// What is shown of a patch is its beginning, and never more than `MAX_PATCH_BYTES`
/// bytes: all of it where it is not too long, and otherwise at most three bytes less
/// than the cap, so that no character is split.
pub proof fn law_shown_patch_is_capped(patch: Seq<char>)
    ensures
        crate::text::has_prefix(patch, shown_patch(patch)),
        !is_too_long(patch) ==> shown_patch(patch) == patch,
        encode_utf8(shown_patch(patch)).len() <= MAX_PATCH_BYTES,
        is_too_long(patch) ==> encode_utf8(shown_patch(patch)).len() >= MAX_PATCH_BYTES - 3,
{
    let bytes = encode_utf8(patch);
    if is_too_long(patch) {
        encode_utf8_valid_utf8(patch);
        encode_utf8_decode_utf8(patch);
        let near = lemma_boundary_nearby(bytes, MAX_PATCH_BYTES - 3);
        lemma_last_boundary(bytes, MAX_PATCH_BYTES as int, near);
        let cut = last_boundary(bytes, MAX_PATCH_BYTES as int);
        assert(bytes.subrange(0, cut) == bytes.take(cut));
        valid_utf8_split(bytes, cut);
        decode_utf8_split(bytes, cut);
        decode_utf8_encode_utf8(bytes.take(cut));
        let shown = shown_patch(patch);
        let tail = decode_utf8(bytes.subrange(cut, bytes.len() as int));
        assert(patch =~= shown + tail);
        assert(patch.take(shown.len() as int) =~= shown);
    } else {
        assert(patch.take(patch.len() as int) =~= patch);
    }
}

/// A listing of differences names no path twice.
pub proof fn law_each_path_once(m: Map<Seq<char>, DiffView>, out: Seq<DiffView>, a: int, b: int)
    requires
        is_sorted_listing(m, out),
        0 <= a < b < out.len(),
    ensures
        out[a].path != out[b].path,
{
    lemma_text_order(out[a].path, out[a].path, out[a].path);
    assert(text_less(out[a].path, out[b].path));
}


/// The differences that were put in by path are those of the files, each under its
/// own path, where no path comes twice.
proof fn lemma_one_by_path(deltas: Seq<DeltaRecord>)
    requires
        forall|i: int| 0 <= i < deltas.len() ==> is_shown(#[trigger] deltas[i]),
        forall|i: int, j: int|
            0 <= i < j < deltas.len() ==> diff_of(#[trigger] deltas[i]).path != diff_of(
                #[trigger] deltas[j],
            ).path,
    ensures
        diffs_by_path(deltas).dom().finite(),
        diffs_by_path(deltas).dom().len() == deltas.len(),
        forall|i: int|
            0 <= i < deltas.len() ==> diffs_by_path(deltas).contains_key(
                diff_of(#[trigger] deltas[i]).path,
            ) && diffs_by_path(deltas)[diff_of(deltas[i]).path] == diff_of(deltas[i]),
        forall|p: Seq<char>| #[trigger]
            diffs_by_path(deltas).contains_key(p) ==> exists|i: int|
                0 <= i < deltas.len() && diff_of(#[trigger] deltas[i]).path == p,
    decreases deltas.len(),
{
    if deltas.len() > 0 {
        let front = deltas.drop_last();
        let last = deltas.last();
        assert forall|i: int| 0 <= i < front.len() implies is_shown(#[trigger] front[i]) by {
            assert(front[i] == deltas[i]);
        }
        assert forall|i: int, j: int| 0 <= i < j < front.len() implies diff_of(
            #[trigger] front[i],
        ).path != diff_of(#[trigger] front[j]).path by {
            assert(front[i] == deltas[i] && front[j] == deltas[j]);
        }
        lemma_one_by_path(front);
        let rest = diffs_by_path(front);
        let all = diffs_by_path(deltas);
        let path = diff_of(last).path;
        assert(is_shown(deltas[deltas.len() - 1]));
        if rest.contains_key(path) {
            let i = choose|i: int| 0 <= i < front.len() && diff_of(#[trigger] front[i]).path == path;
            assert(front[i] == deltas[i]);
            assert(diff_of(deltas[i]).path != diff_of(deltas[deltas.len() - 1]).path);
        }
        assert(all.dom() =~= rest.dom().insert(path));
        assert forall|i: int| 0 <= i < deltas.len() implies all.contains_key(
            diff_of(#[trigger] deltas[i]).path,
        ) && all[diff_of(deltas[i]).path] == diff_of(deltas[i]) by {
            if i < front.len() {
                assert(front[i] == deltas[i]);
                assert(diff_of(deltas[i]).path != diff_of(deltas[deltas.len() - 1]).path);
            }
        }
        assert forall|p: Seq<char>| #[trigger] all.contains_key(p) implies exists|i: int|
            0 <= i < deltas.len() && diff_of(#[trigger] deltas[i]).path == p by {
            if p == path {
                assert(diff_of(deltas[deltas.len() - 1]).path == p);
            } else {
                assert(rest.contains_key(p));
                let i = choose|i: int| 0 <= i < front.len() && diff_of(#[trigger] front[i]).path == p;
                assert(deltas[i] == front[i]);
            }
        }
    }
}

/// A listing has as many entries as there are paths.
proof fn lemma_listing_len(m: Map<Seq<char>, DiffView>, out: Seq<DiffView>)
    requires
        is_sorted_listing(m, out),
        m.dom().finite(),
    ensures
        out.len() == m.dom().len(),
    decreases out.len(),
{
    if out.len() == 0 {
        assert(m.dom() =~= Set::empty());
    } else {
        let last = out.last();
        let front = out.drop_last();
        let rest = m.remove(last.path);
        assert(m.contains_key(out[out.len() - 1].path));
        assert forall|k: int| 0 <= k < front.len() implies rest.contains_key(
            (#[trigger] front[k]).path,
        ) && rest[front[k].path] == front[k] by {
            assert(front[k] == out[k]);
            law_each_path_once(m, out, k, out.len() - 1);
        }
        assert forall|p: Seq<char>| #[trigger] rest.contains_key(p) implies exists|k: int|
            0 <= k < front.len() && (#[trigger] front[k]).path == p by {
            assert(m.contains_key(p));
            let k = choose|k: int| 0 <= k < out.len() && (#[trigger] out[k]).path == p;
            assert(k < front.len());
            assert(front[k].path == p);
        }
        assert forall|a: int, b: int| 0 <= a < b < front.len() implies text_less(
            (#[trigger] front[a]).path,
            (#[trigger] front[b]).path,
        ) by {
            assert(text_less(out[a].path, out[b].path));
        }
        lemma_listing_len(rest, front);
        assert(rest.dom() =~= m.dom().remove(last.path));
    }
}

/// A file that a comparison finds added, without a deleted line, and that has a patch
/// and a path.
pub open spec fn is_pure_addition(d: DeltaRecord) -> bool {
    &&& is_shown(d)
    &&& d.status == DeltaStatus::Added
    &&& d.line_stats matches Some(t) ==> t.2 == 0
}

/// The first checkpoint shows every one of its files as added: a comparison with
/// nothing finds every file added, without a deleted line and each under a path of its
/// own, and then the differences are one for each file, every one of them added and
/// without deletions, as many as the checkpoint counts.
pub proof fn law_first_checkpoint_is_all_added(
    deltas: Seq<DeltaRecord>,
    summary: DiffSummary,
    out: Seq<DiffView>,
)
    requires
        forall|i: int| 0 <= i < deltas.len() ==> is_pure_addition(#[trigger] deltas[i]),
        forall|i: int, j: int|
            0 <= i < j < deltas.len() ==> diff_of(#[trigger] deltas[i]).path != diff_of(
                #[trigger] deltas[j],
            ).path,
        is_sorted_listing(diffs_by_path(deltas), out),
        summary.totals matches Some(t) && t.0 == deltas.len() && t.0 <= u32::MAX,
    ensures
        forall|k: int|
            0 <= k < out.len() ==> (#[trigger] out[k]).status == FileStatus::Added
                && out[k].deletions == 0,
        forall|i: int|
            0 <= i < deltas.len() ==> out.contains(diff_of(#[trigger] deltas[i])),
        out.len() == deltas.len(),
        out.len() == totals_of(Some(summary)).0,
{
    let m = diffs_by_path(deltas);
    assert forall|i: int| 0 <= i < deltas.len() implies is_shown(#[trigger] deltas[i]) by {
        assert(is_pure_addition(deltas[i]));
    }
    lemma_one_by_path(deltas);
    lemma_listing_len(m, out);
    assert forall|k: int| 0 <= k < out.len() implies (#[trigger] out[k]).status
        == FileStatus::Added && out[k].deletions == 0 by {
        assert(m.contains_key(out[k].path));
        let i = choose|i: int|
            0 <= i < deltas.len() && diff_of(#[trigger] deltas[i]).path == out[k].path;
        assert(is_pure_addition(deltas[i]));
        assert(out[k] == diff_of(deltas[i]));
    }
    assert forall|i: int| 0 <= i < deltas.len() implies out.contains(
        diff_of(#[trigger] deltas[i]),
    ) by {
        let p = diff_of(deltas[i]).path;
        assert(m.contains_key(p));
        let k = choose|k: int| 0 <= k < out.len() && (#[trigger] out[k]).path == p;
        assert(out[k] == diff_of(deltas[i]));
    }
}

/// The path of a changed file: the one it has now, or else the one it had.
pub open spec fn changed_path(d: DeltaRecord) -> Seq<char> {
    if d.new_path is Some {
        d.new_path.unwrap()@
    } else if d.old_path is Some {
        d.old_path.unwrap()@
    } else {
        Seq::empty()
    }
}

/// A difference says of a file what the comparison of the trees says: its path, what
/// happened to it, the lines that were counted, and the patch.
pub open spec fn tells_of(v: DiffView, d: DeltaRecord) -> bool {
    &&& v.path == changed_path(d)
    &&& v.status == FileStatus::Added <==> d.status == DeltaStatus::Added
    &&& v.status == FileStatus::Deleted <==> d.status == DeltaStatus::Deleted
    &&& v.status == FileStatus::Renamed <==> d.status == DeltaStatus::Renamed
    &&& v.status == FileStatus::Copied <==> d.status == DeltaStatus::Copied
    &&& d.line_stats matches Some(t) ==> {
        &&& t.1 <= u32::MAX ==> v.additions == t.1
        &&& t.2 <= u32::MAX ==> v.deletions == t.2
    }
    &&& d.line_stats is None ==> v.additions == 0 && v.deletions == 0
    &&& d.patch matches Some(b) ==> {
        &&& valid_utf8(b@) ==> encode_utf8(v.patch).is_prefix_of(b@)
        &&& valid_utf8(b@) && b@.len() <= 65536 ==> encode_utf8(v.patch) == b@ && !v.truncated
        &&& valid_utf8(b@) && b@.len() > 65536 ==> v.truncated && 65533 <= encode_utf8(
            v.patch,
        ).len() <= 65536
        &&& !valid_utf8(b@) ==> v.patch.len() == 0 && !v.truncated
    }
    &&& d.patch is None ==> v.patch.len() == 0 && !v.truncated
}

/// The file at position `i` has a patch and a path, and no later one has both and the same
/// path.
pub open spec fn is_last_of_path(deltas: Seq<DeltaRecord>, i: int) -> bool {
    &&& deltas[i].has_patch
    &&& changed_path(deltas[i]).len() > 0
    &&& forall|j: int|
        i < j < deltas.len() && (#[trigger] deltas[j]).has_patch ==> changed_path(deltas[j])
            != changed_path(deltas[i])
}

/// One of the differences tells of the file.
pub open spec fn is_told(out: Seq<DiffView>, d: DeltaRecord) -> bool {
    exists|k: int| 0 <= k < out.len() && tells_of(#[trigger] out[k], d)
}

/// The difference tells of one of the files, the last one with its path.
pub open spec fn is_heard(v: DiffView, deltas: Seq<DeltaRecord>) -> bool {
    exists|i: int|
        0 <= i < deltas.len() && #[trigger] is_last_of_path(deltas, i) && tells_of(v, deltas[i])
}

/// The difference that is shown for a file says what the comparison says of it, and it is
/// there for every file with a patch and a path, whatever happened to the file.
pub proof fn law_difference_tells_of_the_file(d: DeltaRecord)
    ensures
        is_shown(d) <==> d.has_patch && changed_path(d).len() > 0,
        is_shown(d) ==> tells_of(diff_of(d), d),
{
    let none = Seq::<char>::empty();
    encode_utf8_valid_utf8(none);
    assert(encode_utf8(none).len() == 0);
    if is_shown(d) {
        let text = patch_text(d.patch);
        law_shown_patch_is_capped(text);
        if d.patch is Some {
            let b = d.patch.unwrap()@;
            if valid_utf8(b) {
                decode_utf8_encode_utf8(b);
                let shown = shown_patch(text);
                let bytes = encode_utf8(text);
                if is_too_long(text) {
                    let near = lemma_boundary_nearby(bytes, MAX_PATCH_BYTES - 3);
                    lemma_last_boundary(bytes, MAX_PATCH_BYTES as int, near);
                    let cut = last_boundary(bytes, MAX_PATCH_BYTES as int);
                    assert(bytes.subrange(0, cut) == bytes.take(cut));
                    valid_utf8_split(bytes, cut);
                    decode_utf8_encode_utf8(bytes.take(cut));
                    assert(encode_utf8(shown) =~= b.subrange(0, cut));
                } else {
                    assert(b.subrange(0, b.len() as int) =~= b);
                }
            }
        }
    }
}

/// Every change is shown: for a file with a patch and a path, and no later one with the
/// same path, the differences hold one that tells of that file, whether it was added,
/// changed, deleted, renamed or copied.
pub proof fn law_every_change_is_shown(deltas: Seq<DeltaRecord>, out: Seq<DiffView>, i: int)
    requires
        is_sorted_listing(diffs_by_path(deltas), out),
        0 <= i < deltas.len(),
        deltas[i].has_patch,
        changed_path(deltas[i]).len() > 0,
        forall|j: int|
            i < j < deltas.len() && (#[trigger] deltas[j]).has_patch ==> changed_path(deltas[j])
                != changed_path(deltas[i]),
    ensures
        exists|k: int| 0 <= k < out.len() && tells_of(#[trigger] out[k], deltas[i]),
{
    let m = diffs_by_path(deltas);
    let p = changed_path(deltas[i]);
    lemma_last_with_path(deltas, i);
    law_difference_tells_of_the_file(deltas[i]);
    assert(m.contains_key(p));
    let k = choose|k: int| 0 <= k < out.len() && (#[trigger] out[k]).path == p;
    assert(out[k] == diff_of(deltas[i]));
    assert(tells_of(out[k], deltas[i]));
}

/// Of the files with one path the last one stands under it.
proof fn lemma_last_with_path(deltas: Seq<DeltaRecord>, i: int)
    requires
        0 <= i < deltas.len(),
        deltas[i].has_patch,
        changed_path(deltas[i]).len() > 0,
        forall|j: int|
            i < j < deltas.len() && (#[trigger] deltas[j]).has_patch ==> changed_path(deltas[j])
                != changed_path(deltas[i]),
    ensures
        diffs_by_path(deltas).contains_key(changed_path(deltas[i])),
        diffs_by_path(deltas)[changed_path(deltas[i])] == diff_of(deltas[i]),
    decreases deltas.len(),
{
    let last = deltas.len() - 1;
    law_difference_tells_of_the_file(deltas[last]);
    if i < last {
        let front = deltas.drop_last();
        assert(front[i] == deltas[i]);
        assert forall|j: int| i < j < front.len() && (#[trigger] front[j]).has_patch implies
            changed_path(front[j]) != changed_path(front[i]) by {
            assert(front[j] == deltas[j]);
        }
        lemma_last_with_path(front, i);
        if is_shown(deltas[last]) {
            assert(deltas[last].has_patch);
            assert(diff_of(deltas[last]).path == changed_path(deltas[last]));
        }
    }
}

/// Nothing else is shown: each difference tells of a file with a patch and a path, and of
/// the last one with that path.
pub proof fn law_nothing_else_is_shown(deltas: Seq<DeltaRecord>, out: Seq<DiffView>, k: int)
    requires
        is_sorted_listing(diffs_by_path(deltas), out),
        0 <= k < out.len(),
    ensures
        is_heard(out[k], deltas),
{
    let m = diffs_by_path(deltas);
    let p = out[k].path;
    assert(m.contains_key(p));
    lemma_from_a_file(deltas, p);
    let i = choose|i: int|
        0 <= i < deltas.len() && (#[trigger] deltas[i]).has_patch && tells_of(m[p], deltas[i])
            && forall|j: int|
            i < j < deltas.len() && (#[trigger] deltas[j]).has_patch ==> changed_path(deltas[j]) != p;
    assert(is_last_of_path(deltas, i));
}

proof fn lemma_from_a_file(deltas: Seq<DeltaRecord>, p: Seq<char>)
    requires
        diffs_by_path(deltas).contains_key(p),
    ensures
        p.len() > 0,
        exists|i: int|
            0 <= i < deltas.len() && (#[trigger] deltas[i]).has_patch && tells_of(
                diffs_by_path(deltas)[p],
                deltas[i],
            ) && forall|j: int|
                i < j < deltas.len() && (#[trigger] deltas[j]).has_patch ==> changed_path(deltas[j])
                    != p,
    decreases deltas.len(),
{
    if deltas.len() > 0 {
        let last = deltas.len() - 1;
        let front = deltas.drop_last();
        law_difference_tells_of_the_file(deltas[last]);
        if is_shown(deltas[last]) && diff_of(deltas[last]).path == p {
            assert(deltas[last].has_patch && tells_of(diffs_by_path(deltas)[p], deltas[last]));
        } else {
            assert(diffs_by_path(front).contains_key(p));
            assert(diffs_by_path(front)[p] == diffs_by_path(deltas)[p]);
            lemma_from_a_file(front, p);
            let i = choose|i: int|
                0 <= i < front.len() && (#[trigger] front[i]).has_patch && tells_of(
                    diffs_by_path(front)[p],
                    front[i],
                ) && forall|j: int|
                    i < j < front.len() && (#[trigger] front[j]).has_patch ==> changed_path(
                        front[j],
                    ) != p;
            assert(deltas[i] == front[i]);
            assert forall|j: int| i < j < deltas.len() && (#[trigger] deltas[j]).has_patch implies
                changed_path(deltas[j]) != p by {
                if j < last {
                    assert(front[j] == deltas[j]);
                }
            }
        }
    }
}

/// The word for a status says what happened, and no two statuses share one.
pub proof fn law_status_words(a: FileStatus, b: FileStatus)
    ensures
        status_word(FileStatus::Added) == "added"@,
        status_word(FileStatus::Modified) == "modified"@,
        status_word(FileStatus::Deleted) == "deleted"@,
        status_word(FileStatus::Renamed) == "renamed"@,
        status_word(FileStatus::Copied) == "copied"@,
        status_word(a) == status_word(b) ==> a == b,
{
    reveal_strlit("added");
    reveal_strlit("modified");
    reveal_strlit("deleted");
    reveal_strlit("renamed");
    reveal_strlit("copied");
    assert("deleted"@[0] == 'd' && "renamed"@[0] == 'r' && "added"@[0] == 'a' && "copied"@[0] == 'c'
        && "modified"@[0] == 'm');
}

/// A difference is what it holds.
pub proof fn law_difference_is_what_it_holds(s: Seq<FileDiff>, d: FileDiff)
    ensures
        d@.path == d.path@,
        d@.status == d.status,
        d@.additions == d.additions,
        d@.deletions == d.deletions,
        d@.patch == d.patch@,
        d@.truncated == d.truncated,
        diffs(s).len() == s.len(),
        forall|i: int| 0 <= i < s.len() ==> #[trigger] diffs(s)[i] == s[i]@,
{
}

} // verus!
