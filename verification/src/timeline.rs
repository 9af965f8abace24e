//! What checkpoints mean for the files of a workspace: a model over their contents,
//! and what holds of snapshots and restores in it.

use vstd::prelude::*;

use crate::checkpoint::{law_only_changed_paths_are_dropped, unflagged};
use crate::paths::{
    all_fit, covers_path, files_among, files_under, fits_depth, law_sweep_stays_outside_excluded,
    law_sweep_starts_at_workspace, lemma_segments_joined, names_path, path_key, plain_name, segments,
    skipped, sweep_outcome, sweepable_dir, EntryKind, EntryView, FileMeta, SweepView,
};
use crate::paths::{dir_excluded, is_excluded};
use crate::restore::{
    files_of, law_covered_is_exact, law_selection_is_exact, law_tree_files_are_exact, removals_of,
    set_aside, stash_base, tree_has_file, written_of, TreeEntry,
};
use crate::text::texts;

verus! {

/// A file: what the file system says of it, and its bytes.
#[verifier::ext_equal]
pub struct FileState {
    pub meta: FileMeta,
    pub bytes: Seq<u8>,
}

/// The files of a workspace, by their paths in it.
pub type Workspace = Map<Seq<char>, FileState>;

/// The contents of files, by their paths.
pub type Contents = Map<Seq<char>, Seq<u8>>;

/// A checkpoint takes in the file at `p`.
pub open spec fn taken_in(w: Workspace, p: Seq<char>) -> bool {
    w.contains_key(p) && !skipped(p, Some(w[p].meta))
}

/// What a full snapshot records.
pub open spec fn recorded(w: Workspace) -> Contents {
    Map::new(|p: Seq<char>| taken_in(w, p), |p: Seq<char>| w[p].bytes)
}

/// What is not a symbolic link is a regular file, and as long as its bytes.
pub open spec fn is_sound(w: Workspace) -> bool {
    forall|p: Seq<char>| #[trigger]
        w.contains_key(p) ==> w[p].meta.is_symlink || (w[p].meta.is_file && w[p].meta.len
            == w[p].bytes.len())
}

/// Two paths of the workspaces that name the same file are the same.
pub open spec fn one_path_each(a: Workspace, b: Workspace) -> bool {
    forall|p: Seq<char>, q: Seq<char>|
        (a.contains_key(p) || b.contains_key(p)) && (a.contains_key(q) || b.contains_key(q))
            && #[trigger] path_key(p) == #[trigger] path_key(q) ==> p == q
}

/// A regular file with the given bytes.
pub open spec fn written_file(bytes: Seq<u8>) -> FileState {
    FileState {
        meta: FileMeta { is_symlink: false, is_file: true, len: bytes.len() as u64 },
        bytes,
    }
}

/// The workspace after the files `written` were written with the contents that the
/// checkpoint has of them, and the files `removed` were removed.
pub open spec fn after_restore(
    w: Workspace,
    checkpoint: Contents,
    written: Seq<Seq<char>>,
    removed: Seq<Seq<char>>,
) -> Workspace {
    Map::new(
        |p: Seq<char>| written.contains(p) || (w.contains_key(p) && !removed.contains(p)),
        |p: Seq<char>|
            if written.contains(p) {
                written_file(checkpoint[p])
            } else {
                w[p]
            },
    )
}

/// The workspace after a whole checkpoint, which has the files `held`, was checked
/// out, and before anything is removed: as the sweep finds it.
pub open spec fn checked_out(w: Workspace, checkpoint: Contents, held: Seq<Seq<char>>) -> Workspace {
    after_restore(w, checkpoint, written_of(held, None), Seq::empty())
}

/// The list names exactly the paths for which there are contents.
pub open spec fn lists_contents(list: Seq<Seq<char>>, c: Contents) -> bool {
    forall|p: Seq<char>| #[trigger] list.contains(p) <==> c.contains_key(p)
}

/// A file that the list has is named by it; a file with another path is not.
proof fn lemma_named(a: Workspace, b: Workspace, list: Seq<Seq<char>>, p: Seq<char>)
    requires
        one_path_each(a, b),
        forall|q: Seq<char>| #[trigger] list.contains(q) ==> a.contains_key(q),
        a.contains_key(p) || b.contains_key(p),
    ensures
        names_path(list, p) == list.contains(p),
{
    if list.contains(p) {
        let i = choose|i: int| 0 <= i < list.len() && list[i] == p;
        assert(path_key(list[i]) == path_key(p));
    }
    if names_path(list, p) {
        let i = choose|i: int| 0 <= i < list.len() && path_key(#[trigger] list[i]) == path_key(p);
        assert(list.contains(list[i]));
        assert(list[i] == p);
    }
}

/// A snapshot comes back: whatever happened to the workspace in between, restoring a
/// full snapshot leaves it with the files that the snapshot recorded, their contents
/// included, and with no other file that a checkpoint takes in. `held` lists the
/// files of the checkpoint, `existing` those that the workspace has once they are
/// written and that a checkpoint takes in.
pub proof fn law_snapshot_comes_back(
    then: Workspace,
    now: Workspace,
    held: Seq<Seq<char>>,
    existing: Seq<Seq<char>>,
)
    requires
        is_sound(then),
        one_path_each(then, now),
        lists_contents(held, recorded(then)),
        lists_contents(existing, recorded(checked_out(now, recorded(then), held))),
    ensures
        recorded(
            after_restore(
                now,
                recorded(then),
                written_of(held, None),
                removals_of(held, None, existing),
            ),
        ) == recorded(then),
{
    let tree = recorded(then);
    let removed = removals_of(held, None, existing);
    let after = after_restore(now, tree, held, removed);
    assert forall|p: Seq<char>| taken_in(after, p) == #[trigger] tree.contains_key(p) && (
    tree.contains_key(p) ==> after[p].bytes == tree[p]) by {
        if held.contains(p) {
            assert(tree.contains_key(p));
            assert(then[p].bytes.len() == then[p].meta.len);
            assert(after[p] == written_file(tree[p]));
        } else {
            assert(!tree.contains_key(p));
            if taken_in(now, p) {
                let mid = checked_out(now, tree, held);
                assert(mid.contains_key(p) && mid[p] == now[p]);
                assert(recorded(mid).contains_key(p));
                assert(existing.contains(p));
                law_selection_is_exact(existing, held, false, p);
                assert forall|q: Seq<char>| #[trigger] held.contains(q) implies then.contains_key(
                    q,
                ) by {
                    assert(tree.contains_key(q));
                }
                lemma_named(then, now, held, p);
                assert(removed.contains(p));
            }
        }
    }
    assert(recorded(after) =~= tree);
}

/// A restore spares what checkpoints do not take in: a file of the workspace that is
/// skipped, and that the checkpoint does not have, stays as it is.
pub proof fn law_restore_spares_skipped_files(
    now: Workspace,
    checkpoint: Contents,
    held: Seq<Seq<char>>,
    existing: Seq<Seq<char>>,
    p: Seq<char>,
)
    requires
        lists_contents(held, checkpoint),
        lists_contents(existing, recorded(checked_out(now, checkpoint, held))),
        now.contains_key(p),
        !taken_in(now, p),
        !checkpoint.contains_key(p),
    ensures
        after_restore(
            now,
            checkpoint,
            written_of(held, None),
            removals_of(held, None, existing),
        ).contains_key(p),
        after_restore(
            now,
            checkpoint,
            written_of(held, None),
            removals_of(held, None, existing),
        )[p] == now[p],
{
    law_selection_is_exact(existing, held, false, p);
    assert(!held.contains(p));
    let mid = checked_out(now, checkpoint, held);
    assert(mid.contains_key(p) && mid[p] == now[p]);
    assert(!recorded(mid).contains_key(p));
}

/// The commit that keeps what the workspace held before a restore: the one that was
/// set aside, or the latest checkpoint where there was nothing to set aside. Without
/// one, there is no restore.
pub open spec fn kept_commit(
    latest: Seq<char>,
    clean: Option<bool>,
    built: Result<Seq<char>, Seq<char>>,
    written: Result<(), Seq<char>>,
) -> Option<Seq<char>> {
    match stash_base(Some(latest), clean) {
        None => Some(latest),
        Some(parent) => match set_aside(parent, built, written) {
            Err(_) => None,
            Ok(None) => Some(latest),
            Ok(Some(c)) => Some(c),
        },
    }
}

/// A restore drops nothing: where it goes ahead, a commit keeps what the workspace
/// held, and every file that the workspace had is left as it is or is in that commit,
/// but for one that checkpoints skip and that the checkpoint has under the same path.
/// `contents` tells what a commit records: the one that was built to set the work
/// aside records the workspace, and so does the latest checkpoint where the workspace
/// was found to be as it left it.
pub proof fn law_restore_drops_nothing(
    now: Workspace,
    checkpoint: Contents,
    held: Seq<Seq<char>>,
    existing: Seq<Seq<char>>,
    contents: spec_fn(Seq<char>) -> Contents,
    latest: Seq<char>,
    clean: Option<bool>,
    built: Result<Seq<char>, Seq<char>>,
    written: Result<(), Seq<char>>,
    p: Seq<char>,
)
    requires
        lists_contents(held, checkpoint),
        lists_contents(existing, recorded(checked_out(now, checkpoint, held))),
        clean == Some(true) ==> contents(latest) == recorded(now),
        built matches Ok(c) ==> contents(c) == recorded(now),
        kept_commit(latest, clean, built, written) is Some,
        now.contains_key(p),
        taken_in(now, p) || !checkpoint.contains_key(p),
    ensures
        ({
            let after = after_restore(
                now,
                checkpoint,
                written_of(held, None),
                removals_of(held, None, existing),
            );
            let kept = contents(kept_commit(latest, clean, built, written)->0);
            (after.contains_key(p) && after[p] == now[p]) || (kept.contains_key(p) && kept[p]
                == now[p].bytes)
        }),
{
    if !taken_in(now, p) {
        law_restore_spares_skipped_files(now, checkpoint, held, existing, p);
    }
}

/// A restore of chosen paths leaves every file as it is that is none of them and lies
/// below none of them.
pub proof fn law_partial_restore_is_local(
    now: Workspace,
    checkpoint: Contents,
    held: Seq<Seq<char>>,
    paths: &Vec<String>,
    existing: Seq<Seq<char>>,
    p: Seq<char>,
)
    requires
        !covers_path(texts(paths@), p),
    ensures
        after_restore(
            now,
            checkpoint,
            written_of(held, Some(paths)),
            removals_of(held, Some(paths), existing),
        ).contains_key(p) == now.contains_key(p),
        now.contains_key(p) ==> after_restore(
            now,
            checkpoint,
            written_of(held, Some(paths)),
            removals_of(held, Some(paths), existing),
        )[p] == now[p],
{
    law_covered_is_exact(held, texts(paths@), p);
}

/// What an incremental snapshot records: the contents of its parent, with those of
/// the changed paths at which there is a file that a checkpoint takes in brought up
/// to date, and without those at which there is no file any more.
pub open spec fn recorded_incrementally(
    parent: Contents,
    w: Workspace,
    changed: Seq<Seq<char>>,
    dropped: Seq<Seq<char>>,
) -> Contents {
    Map::new(
        |p: Seq<char>|
            (changed.contains(p) && taken_in(w, p)) || (parent.contains_key(p)
                && !dropped.contains(p)),
        |p: Seq<char>|
            if changed.contains(p) && taken_in(w, p) {
                w[p].bytes
            } else {
                parent[p]
            },
    )
}

/// An incremental snapshot is as good as a full one: where the parent is a full
/// snapshot, every path whose file changed is listed, and no listed path has become
/// one that checkpoints skip, both record the same. `present` tells of each listed
/// path whether there is a file.
pub proof fn law_incremental_is_full(
    then: Workspace,
    now: Workspace,
    changed: Seq<Seq<char>>,
    present: Seq<bool>,
)
    requires
        changed.len() == present.len(),
        forall|i: int|
            0 <= i < changed.len() ==> #[trigger] present[i] == now.contains_key(changed[i]),
        forall|p: Seq<char>|
            !(#[trigger] changed.contains(p)) ==> then.contains_key(p) == now.contains_key(p) && (
            then.contains_key(p) ==> then[p] == now[p]),
        forall|p: Seq<char>| #[trigger]
            changed.contains(p) && now.contains_key(p) ==> taken_in(now, p),
    ensures
        recorded_incrementally(recorded(then), now, changed, unflagged(changed, present))
            == recorded(now),
{
    let dropped = unflagged(changed, present);
    let parent = recorded(then);
    let tree = recorded_incrementally(parent, now, changed, dropped);
    assert forall|p: Seq<char>| #[trigger]
        tree.contains_key(p) == recorded(now).contains_key(p) && (tree.contains_key(p) ==> tree[p]
            == recorded(now)[p]) by {
        law_only_changed_paths_are_dropped(changed, present, p);
        if changed.contains(p) {
            let i = choose|i: int| 0 <= i < changed.len() && changed[i] == p;
            assert(present[i] == now.contains_key(p));
        } else {
            assert(!dropped.contains(p));
            assert(then.contains_key(p) == now.contains_key(p));
            assert(taken_in(then, p) == taken_in(now, p));
        }
    }
    assert(tree =~= recorded(now));
}


// ---- the sweep ----

/// `ls` lists the directories of the workspace: an entry stands in the directory that
/// lists it, an entry that is a regular file is one of the workspace and tells its
/// length, every regular file of the workspace has an entry, and every directory in
/// which there is something has one too, but for the workspace itself.
pub open spec fn lists_workspace(ls: spec_fn(Seq<char>) -> Seq<EntryView>, w: Workspace) -> bool {
    &&& forall|d: Seq<char>, e: EntryView| #[trigger]
        ls(d).contains(e) ==> e.dir == d && plain_name(e.name)
    &&& forall|d: Seq<char>, e: EntryView| #[trigger]
        ls(d).contains(e) && e.kind == EntryKind::File ==> e.len is Some && w.contains_key(e.path())
            && w[e.path()].meta == (FileMeta {
            is_symlink: false,
            is_file: true,
            len: e.len.unwrap(),
        })
    &&& forall|p: Seq<char>| #[trigger]
        w.contains_key(p) && w[p].meta.is_file && !w[p].meta.is_symlink ==> exists|e: EntryView|
            #[trigger] ls(e.dir).contains(e) && e.kind == EntryKind::File && e.path() == p
    &&& forall|d: Seq<char>|
        d.len() > 0 && (#[trigger] ls(d)).len() > 0 ==> exists|g: EntryView| #[trigger]
            ls(g.dir).contains(g) && g.kind == EntryKind::Dir && g.path() == d
}

/// What is found at or below an entry is found among the entries.
proof fn lemma_among(
    entries: Seq<EntryView>,
    ls: spec_fn(Seq<char>) -> Seq<EntryView>,
    depth: nat,
    e: EntryView,
    p: Seq<char>,
)
    requires
        entries.contains(e),
    ensures
        files_under(e, ls, depth).contains(p) ==> files_among(entries, ls, depth).contains(p),
        all_fit(entries, ls, depth) ==> fits_depth(e, ls, depth),
    decreases entries.len(),
{
    let first = files_under(entries[0], ls, depth);
    let rest = files_among(entries.drop_first(), ls, depth);
    let all = files_among(entries, ls, depth);
    assert(all == first + rest);
    if entries[0] == e {
        if first.contains(p) {
            let k = choose|k: int| 0 <= k < first.len() && first[k] == p;
            assert(all[k] == p);
        }
    } else {
        let i = choose|i: int| 0 <= i < entries.len() && entries[i] == e;
        assert(entries.drop_first()[i - 1] == e);
        lemma_among(entries.drop_first(), ls, depth, e, p);
        if rest.contains(p) {
            let k = choose|k: int| 0 <= k < rest.len() && rest[k] == p;
            assert(all[first.len() + k] == p);
        }
    }
}

/// A directory in which there is something does not end in a separator.
proof fn lemma_listed_dir(ls: spec_fn(Seq<char>) -> Seq<EntryView>, w: Workspace, d: Seq<char>)
    requires
        lists_workspace(ls, w),
        ls(d).len() > 0,
    ensures
        d.len() == 0 || d.last() != '/',
{
    if d.len() > 0 {
        let g = choose|g: EntryView| #[trigger]
            ls(g.dir).contains(g) && g.kind == EntryKind::Dir && g.path() == d;
        assert(plain_name(g.name));
        assert(d.last() == g.name.last());
    }
}

/// What is found below a directory that the sweep can enter is found in the workspace.
proof fn lemma_reached(
    ls: spec_fn(Seq<char>) -> Seq<EntryView>,
    w: Workspace,
    depth: nat,
    d: Seq<char>,
    p: Seq<char>,
) -> (k: nat)
    requires
        lists_workspace(ls, w),
        all_fit(ls(Seq::empty()), ls, depth),
        ls(d).len() > 0,
        !dir_excluded(d),
    ensures
        all_fit(ls(d), ls, k),
        files_among(ls(d), ls, k).contains(p) ==> files_among(
            ls(Seq::empty()),
            ls,
            depth,
        ).contains(p),
    decreases d.len(),
{
    if d.len() == 0 {
        assert(d =~= Seq::empty());
        depth
    } else {
        let g = choose|g: EntryView| #[trigger]
            ls(g.dir).contains(g) && g.kind == EntryKind::Dir && g.path() == d;
        assert(plain_name(g.name));
        lemma_listed_dir(ls, w, g.dir);
        lemma_segments_joined(g.dir, g.name);
        assert(segments(d).last() == g.name);
        assert(!is_excluded(segments(d)[segments(d).len() - 1]));
        assert(!dir_excluded(g.dir)) by {
            if g.dir.len() == 0 {
                law_sweep_starts_at_workspace();
                assert(g.dir =~= Seq::empty());
            } else {
                assert forall|i: int| 0 <= i < segments(g.dir).len() implies !is_excluded(
                    #[trigger] segments(g.dir)[i],
                ) by {
                    assert(segments(d)[i] == segments(g.dir)[i]);
                }
            }
        }
        let k = lemma_reached(ls, w, depth, g.dir, p);
        lemma_among(ls(g.dir), ls, k, g, p);
        assert(g.is_entered());
        assert(fits_depth(g, ls, k));
        assert(files_under(g, ls, k) == files_among(ls(d), ls, (k - 1) as nat));
        (k - 1) as nat
    }
}

/// What is found among entries of directories that the sweep can enter is a file that a
/// checkpoint takes in.
proof fn lemma_found_is_recorded(
    entries: Seq<EntryView>,
    ls: spec_fn(Seq<char>) -> Seq<EntryView>,
    w: Workspace,
    depth: nat,
    p: Seq<char>,
)
    requires
        lists_workspace(ls, w),
        forall|i: int|
            0 <= i < entries.len() ==> ls((#[trigger] entries[i]).dir).contains(entries[i])
                && sweepable_dir(entries[i].dir),
        files_among(entries, ls, depth).contains(p),
    ensures
        recorded(w).contains_key(p),
    decreases depth, entries.len(),
{
    let e = entries[0];
    let first = files_under(e, ls, depth);
    let tail = entries.drop_first();
    let rest = files_among(tail, ls, depth);
    assert(ls(e.dir).contains(e) && sweepable_dir(e.dir));
    law_sweep_stays_outside_excluded(e);
    let all = files_among(entries, ls, depth);
    let k = choose|k: int| 0 <= k < all.len() && all[k] == p;
    if k < first.len() {
        assert(first[k] == p);
        if e.is_recorded() {
            assert(p == e.path());
            assert(taken_in(w, p));
        } else {
            let inner = ls(e.path());
            assert(first == files_among(inner, ls, (depth - 1) as nat));
            assert forall|i: int| 0 <= i < inner.len() implies ls(
                (#[trigger] inner[i]).dir,
            ).contains(inner[i]) && sweepable_dir(inner[i].dir) by {
                assert(ls(e.path()).contains(inner[i]));
            }
            assert(first.contains(p));
            lemma_found_is_recorded(inner, ls, w, (depth - 1) as nat, p);
        }
    } else {
        assert(rest[k - first.len()] == p);
        assert forall|i: int| 0 <= i < tail.len() implies ls((#[trigger] tail[i]).dir).contains(
            tail[i],
        ) && sweepable_dir(tail[i].dir) by {
            assert(tail[i] == entries[i + 1]);
        }
        lemma_found_is_recorded(tail, ls, w, depth, p);
    }
}

/// A sweep over a workspace lists exactly the files that a full snapshot of it records:
/// what the sweep that has entered the workspace will have found when it is done are
/// the paths that `recorded` has.
pub proof fn law_sweep_lists_what_is_recorded(
    ls: spec_fn(Seq<char>) -> Seq<EntryView>,
    w: Workspace,
    depth: nat,
)
    requires
        is_sound(w),
        lists_workspace(ls, w),
        all_fit(ls(Seq::empty()), ls, depth),
    ensures
        lists_contents(
            sweep_outcome(
                SweepView { queue: ls(Seq::empty()), found: Seq::empty() },
                ls,
                depth,
            ),
            recorded(w),
        ),
{
    let root = ls(Seq::empty());
    let found = sweep_outcome(SweepView { queue: root, found: Seq::empty() }, ls, depth);
    assert(found =~= files_among(root, ls, depth));
    law_sweep_starts_at_workspace();
    assert forall|p: Seq<char>| #[trigger] found.contains(p) <==> recorded(w).contains_key(p) by {
        if found.contains(p) {
            assert forall|i: int| 0 <= i < root.len() implies ls((#[trigger] root[i]).dir).contains(
                root[i],
            ) && sweepable_dir(root[i].dir) by {
                assert(ls(Seq::empty()).contains(root[i]));
            }
            lemma_found_is_recorded(root, ls, w, depth, p);
        }
        if recorded(w).contains_key(p) {
            assert(taken_in(w, p));
            assert(w.contains_key(p));
            let e = choose|e: EntryView| #[trigger]
                ls(e.dir).contains(e) && e.kind == EntryKind::File && e.path() == p;
            assert(ls(e.dir).len() > 0);
            assert(plain_name(e.name));
            lemma_listed_dir(ls, w, e.dir);
            lemma_segments_joined(e.dir, e.name);
            assert(!dir_excluded(e.dir)) by {
                if e.dir.len() == 0 {
                    assert(e.dir =~= Seq::empty());
                } else {
                    assert forall|i: int| 0 <= i < segments(e.dir).len() implies !is_excluded(
                        #[trigger] segments(e.dir)[i],
                    ) by {
                        assert(segments(p)[i] == segments(e.dir)[i]);
                    }
                }
            }
            law_sweep_stays_outside_excluded(e);
            assert(e.is_recorded());
            let k = lemma_reached(ls, w, depth, e.dir, p);
            assert(files_under(e, ls, k) == seq![p]);
            assert(files_under(e, ls, k)[0] == p);
            lemma_among(ls(e.dir), ls, k, e, p);
        }
    }
}

// ---- trees ----

/// The tree of a commit records the contents: it has a file at exactly the paths for
/// which there are contents, and no two of them name the same file.
pub open spec fn is_tree_of(entries: Seq<TreeEntry>, c: Contents) -> bool {
    &&& forall|p: Seq<char>| #[trigger] tree_has_file(entries, p) <==> c.contains_key(p)
    &&& forall|p: Seq<char>, q: Seq<char>|
        c.contains_key(p) && c.contains_key(q) && #[trigger] path_key(p) == #[trigger] path_key(q)
            ==> p == q
}

/// The files read from the tree of a checkpoint are those of which it has the contents.
pub proof fn law_tree_lists_contents(entries: Seq<TreeEntry>, c: Contents)
    requires
        is_tree_of(entries, c),
    ensures
        lists_contents(files_of(entries), c),
{
    law_tree_files_are_exact(entries);
    let files = files_of(entries);
    assert forall|p: Seq<char>| #[trigger] files.contains(p) <==> c.contains_key(p) by {
        if files.contains(p) {
            let k = choose|k: int| 0 <= k < files.len() && files[k] == p;
            assert(tree_has_file(entries, files[k]));
        }
        if c.contains_key(p) {
            assert(tree_has_file(entries, p));
            let k = choose|k: int| 0 <= k < files.len() && path_key(#[trigger] files[k]) == path_key(p);
            assert(tree_has_file(entries, files[k]));
            assert(c.contains_key(files[k]));
            assert(files[k] == p);
        }
    }
}

/// A snapshot comes back from its tree: the files are read from the tree of the
/// checkpoint, the workspace is swept when they are written, and what is then left is
/// what the snapshot recorded. Nothing that the checkpoint has is removed.
pub proof fn law_tree_comes_back(
    then: Workspace,
    now: Workspace,
    entries: Seq<TreeEntry>,
    ls: spec_fn(Seq<char>) -> Seq<EntryView>,
    depth: nat,
)
    requires
        is_sound(then),
        is_sound(now),
        one_path_each(then, now),
        is_tree_of(entries, recorded(then)),
        lists_workspace(ls, checked_out(now, recorded(then), files_of(entries))),
        all_fit(ls(Seq::empty()), ls, depth),
    ensures
        ({
            let held = files_of(entries);
            let existing = sweep_outcome(
                SweepView { queue: ls(Seq::empty()), found: Seq::empty() },
                ls,
                depth,
            );
            let removed = removals_of(held, None, existing);
            &&& recorded(after_restore(now, recorded(then), written_of(held, None), removed))
                == recorded(then)
            &&& forall|p: Seq<char>| #[trigger]
                removed.contains(p) ==> !tree_has_file(entries, p)
        }),
{
    let held = files_of(entries);
    law_tree_lists_contents(entries, recorded(then));
    let mid = checked_out(now, recorded(then), held);
    assert(is_sound(mid)) by {
        assert forall|p: Seq<char>| #[trigger] mid.contains_key(p) implies mid[p].meta.is_symlink || (
        mid[p].meta.is_file && mid[p].meta.len == mid[p].bytes.len()) by {
            if held.contains(p) {
                assert(recorded(then).contains_key(p));
                assert(then.contains_key(p));
                assert(then[p].bytes.len() == then[p].meta.len);
            } else {
                assert(now.contains_key(p));
            }
        }
    }
    law_sweep_lists_what_is_recorded(ls, mid, depth);
    let existing = sweep_outcome(
        SweepView { queue: ls(Seq::empty()), found: Seq::empty() },
        ls,
        depth,
    );
    law_snapshot_comes_back(then, now, held, existing);
    let removed = removals_of(held, None, existing);
    assert forall|p: Seq<char>| #[trigger] removed.contains(p) implies !tree_has_file(
        entries,
        p,
    ) by {
        law_selection_is_exact(existing, held, false, p);
        law_tree_files_are_exact(entries);
    }
}

} // verus!
