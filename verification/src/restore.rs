//! Restoring a workspace to a checkpoint: which files come back, which are
//! removed, and what is set aside first.

use vstd::prelude::*;
use vstd::string::*;

use crate::paths::{join, key_of, lies_at_or_below, Key, PathSet};
use crate::paths::{
    at_or_below, covers_path, joined, lemma_named_after_push, names_path, path_key,
};
use crate::text::{copy_opt, copy_texts, same_text};
use crate::text::{opt_text, texts};

verus! {

/// Where the data of a workspace is kept.
#[derive(Debug, Clone, Copy, PartialEq, Eq, Structural)]
pub enum RepoLayout {
    /// A bare repository.
    Bare,
    /// A repository with its own `.git` directory, as older versions made it.
    Legacy,
    /// Nothing yet: a bare repository is to be made.
    Fresh,
}

/// Which layout is in place, given whether the `HEAD` of each exists.
pub fn repo_layout(head_bare: bool, head_legacy: bool) -> (r: RepoLayout)
    ensures
        r == (if head_bare {
            RepoLayout::Bare
        } else if head_legacy {
            RepoLayout::Legacy
        } else {
            RepoLayout::Fresh
        }),
{
    if head_bare {
        RepoLayout::Bare
    } else if head_legacy {
        RepoLayout::Legacy
    } else {
        RepoLayout::Fresh
    }
}

/// What was done to restore a workspace.
#[derive(Debug)]
pub struct RestoreReport {
    pub restored_files: Vec<String>,
    pub removed_files: Vec<String>,
    /// The commit that holds what was set aside before the restore, if anything.
    pub stash_commit: Option<String>,
}

/// The content of a `RestoreReport`.
#[verifier::ext_equal]
pub struct ReportView {
    pub restored_files: Seq<Seq<char>>,
    pub removed_files: Seq<Seq<char>>,
    pub stash_commit: Option<Seq<char>>,
}

impl View for RestoreReport {
    type V = ReportView;

    open spec fn view(&self) -> ReportView {
        ReportView {
            restored_files: texts(self.restored_files@),
            removed_files: texts(self.removed_files@),
            stash_commit: opt_text(self.stash_commit),
        }
    }
}

impl Clone for RestoreReport {
    fn clone(&self) -> (r: Self)
        ensures
            r@ == self@,
    {
        RestoreReport {
            restored_files: copy_texts(&self.restored_files),
            removed_files: copy_texts(&self.removed_files),
            stash_commit: copy_opt(&self.stash_commit),
        }
    }
}

impl Default for RestoreReport {
    fn default() -> (r: Self)
        ensures
            r@ == (ReportView {
                restored_files: Seq::empty(),
                removed_files: Seq::empty(),
                stash_commit: None,
            }),
    {
        let r = RestoreReport {
            restored_files: Vec::new(),
            removed_files: Vec::new(),
            stash_commit: None,
        };
        assert(r@.restored_files =~= Seq::empty());
        assert(r@.removed_files =~= Seq::empty());
        r
    }
}

/// What the look-up of a checkpoint's ref gave.
#[derive(Debug)]
pub enum RefLookup {
    Missing,
    NoTarget,
    Target(String),
}

/// The commit of the checkpoint `id`, or why there is none.
pub fn checkpoint_target(id: &str, found: RefLookup) -> (r: Result<String, String>)
    ensures
        match found {
            RefLookup::Missing => r matches Err(e) && e@ == "checkpoint not found: "@ + id@,
            RefLookup::NoTarget => r matches Err(e) && e@ == "ref has no target"@,
            RefLookup::Target(t) => r matches Ok(c) && c@ == t@,
        },
{
    match found {
        RefLookup::Missing => {
            let mut e = "checkpoint not found: ".to_string();
            e.append(id);
            Err(e)
        },
        RefLookup::NoTarget => Err("ref has no target".to_string()),
        RefLookup::Target(t) => Ok(t),
    }
}

// ---- setting work aside ----

/// The commit with which the workspace is to be compared before a restore: the latest
/// checkpoint, unless there is none, or no workspace that could hold any work.
pub fn stash_start(workspace_exists: bool, latest: Option<String>) -> (r: Option<String>)
    ensures
        opt_text(r) == (if workspace_exists {
            opt_text(latest)
        } else {
            None
        }),
{
    if workspace_exists {
        latest
    } else {
        None
    }
}

/// The commit on which work is to be set aside before a restore: the latest
/// checkpoint, unless there is none or the workspace is known to be as it left it.
pub open spec fn stash_base(latest: Option<Seq<char>>, clean: Option<bool>) -> Option<Seq<char>> {
    if clean == Some(true) {
        None
    } else {
        latest
    }
}

/// The commit on which work is to be set aside before a restore. `clean` is what the
/// comparison of the workspace with the latest checkpoint said, where it could be
/// made.
pub fn stash_parent(latest: Option<String>, clean: Option<bool>) -> (r: Option<String>)
    ensures
        opt_text(r) == stash_base(opt_text(latest), clean),
{
    match clean {
        Some(true) => None,
        _ => latest,
    }
}

/// The text of a commit, or of the reason why there is none.
pub open spec fn built_text(built: Result<String, String>) -> Result<Seq<char>, Seq<char>> {
    match built {
        Ok(c) => Ok(c@),
        Err(e) => Err(e@),
    }
}

/// The reason why a ref was not written, if it was not.
pub open spec fn written_text(written: Result<(), String>) -> Result<(), Seq<char>> {
    match written {
        Ok(_) => Ok(()),
        Err(e) => Err(e@),
    }
}

/// The commit that a ref is to hold: the one that was built, unless none could be
/// built or it is `parent` itself.
pub fn stash_uncommitted(parent: &str, built: &Result<String, String>) -> (r: Option<String>)
    ensures
        opt_text(r) == (match *built {
            Ok(c) => if c@ == parent@ {
                None
            } else {
                Some(c@)
            },
            Err(_) => None,
        }),
{
    match built {
        Ok(c) => {
            if same_text(c.as_str(), parent) {
                None
            } else {
                Some(c.clone())
            }
        },
        Err(_) => None,
    }
}

/// The commit that holds what was set aside, or why nothing could be: the commit has
/// to be built and a ref has to hold it, unless it is `parent` itself.
pub open spec fn set_aside(
    parent: Seq<char>,
    built: Result<Seq<char>, Seq<char>>,
    written: Result<(), Seq<char>>,
) -> Result<Option<Seq<char>>, Seq<char>> {
    match built {
        Err(e) => Err(e),
        Ok(c) => if c == parent {
            Ok(None)
        } else {
            match written {
                Err(e) => Err(e),
                Ok(_) => Ok(Some(c)),
            }
        },
    }
}

/// The content of an outcome of setting work aside.
pub open spec fn stash_text(r: Result<Option<String>, String>) -> Result<
    Option<Seq<char>>,
    Seq<char>,
> {
    match r {
        Ok(s) => Ok(opt_text(s)),
        Err(e) => Err(e@),
    }
}

/// The commit that holds what was set aside on `parent`, where there was anything; an
/// error where it could not be built, or where no ref holds it.
pub fn stash_outcome(
    parent: &str,
    built: Result<String, String>,
    ref_written: Result<(), String>,
) -> (r: Result<Option<String>, String>)
    ensures
        stash_text(r) == set_aside(parent@, built_text(built), written_text(ref_written)),
        built is Err ==> r is Err,
        built matches Ok(c) && c@ == parent@ ==> r == Ok::<Option<String>, String>(None),
        built matches Ok(c) && c@ != parent@ && ref_written is Err ==> r is Err,
{
    match built {
        Err(e) => Err(e),
        Ok(c) => {
            if same_text(c.as_str(), parent) {
                Ok(None)
            } else {
                match ref_written {
                    Err(e) => Err(e),
                    Ok(_) => Ok(Some(c)),
                }
            }
        },
    }
}

// ---- the files of a checkpoint ----

/// An entry of the tree of a checkpoint; `name` is missing where it is not UTF-8.
#[derive(Debug)]
pub struct TreeEntry {
    pub dir: String,
    pub is_blob: bool,
    pub name: Option<String>,
}

/// The paths of the files in a tree, each once.
pub open spec fn files_of(entries: Seq<TreeEntry>) -> Seq<Seq<char>>
    decreases entries.len(),
{
    if entries.len() == 0 {
        Seq::empty()
    } else {
        let rest = files_of(entries.drop_last());
        let e = entries.last();
        match e.name {
            Some(n) => if e.is_blob && !names_path(rest, joined(e.dir@, n@)) {
                rest.push(joined(e.dir@, n@))
            } else {
                rest
            },
            None => rest,
        }
    }
}

/// The paths of the files in the tree of a checkpoint.
pub fn tracked_files(entries: &Vec<TreeEntry>) -> (r: Vec<String>)
    ensures
        texts(r@) == files_of(entries@),
{
    let mut out: Vec<String> = Vec::new();
    let mut seen = PathSet::new();
    let mut i: usize = 0;
    assert(texts(out@) =~= files_of(entries@.take(0)));
    while i < entries.len()
        invariant
            i <= entries@.len(),
            texts(out@) == files_of(entries@.take(i as int)),
            seen.wf(),
            forall|p: Seq<char>|
                seen@.contains(#[trigger] path_key(p)) == names_path(texts(out@), p),
        decreases entries@.len() - i,
    {
        let ghost before = texts(out@);
        assert(entries@.take(i + 1).drop_last() == entries@.take(i as int));
        if entries[i].is_blob {
            if let Some(name) = &entries[i].name {
                let path = join(entries[i].dir.as_str(), name.as_str());
                if seen.put(key_of(path.as_str())) {
                    out.push(path);
                    assert(texts(out@) =~= before.push(path@));
                    proof {
                        lemma_named_after_push(before, path@);
                    }
                } else {
                    assert(seen@.contains(path_key(path@)));
                    assert(names_path(before, path@));
                    assert forall|p: Seq<char>|
                        seen@.contains(#[trigger] path_key(p)) == names_path(texts(out@), p) by {
                        if path_key(p) == path_key(path@) {
                            assert(names_path(before, p) == names_path(before, path@));
                        }
                    }
                }
            }
        }
        i += 1;
    }
    assert(entries@.take(i as int) == entries@);
    out
}

/// The paths of `list` that are among `set`, or those that are not, in order.
pub open spec fn selected(
    list: Seq<Seq<char>>,
    set: Seq<Seq<char>>,
    among: bool,
) -> Seq<Seq<char>>
    decreases list.len(),
{
    if list.len() == 0 {
        Seq::empty()
    } else {
        let rest = selected(list.drop_last(), set, among);
        if names_path(set, list.last()) == among {
            rest.push(list.last())
        } else {
            rest
        }
    }
}

fn select_paths(list: &Vec<String>, set: &Vec<String>, among: bool) -> (r: Vec<String>)
    ensures
        texts(r@) == selected(texts(list@), texts(set@), among),
{
    let wanted = PathSet::of(set);
    let mut out: Vec<String> = Vec::new();
    let mut i: usize = 0;
    let ghost all = texts(list@);
    assert(texts(out@) =~= selected(all.take(0), texts(set@), among));
    while i < list.len()
        invariant
            i <= list@.len(),
            all == texts(list@),
            wanted.wf(),
            forall|p: Seq<char>|
                wanted@.contains(#[trigger] path_key(p)) == names_path(texts(set@), p),
            texts(out@) == selected(all.take(i as int), texts(set@), among),
        decreases list@.len() - i,
    {
        let ghost before = texts(out@);
        assert(all.take(i + 1).drop_last() == all.take(i as int));
        assert(all.take(i + 1).last() == list@[i as int]@);
        if wanted.has(&key_of(list[i].as_str())) == among {
            out.push(list[i].clone());
            assert(texts(out@) =~= before.push(list@[i as int]@));
        }
        i += 1;
    }
    assert(all.take(i as int) == all);
    out
}

/// The files that a restore reports as brought back: all of the checkpoint, or those
/// that were asked for by their own paths.
pub open spec fn restored_of(
    held: Seq<Seq<char>>,
    paths: Option<&Vec<String>>,
) -> Seq<Seq<char>> {
    match paths {
        Some(p) => selected(held, texts(p@), true),
        None => held,
    }
}

/// The report of a restore of the files `held` by a checkpoint, before anything is
/// removed. Where the work in the workspace could not be set aside, nothing is
/// restored: `stash` says why.
pub fn restore(
    held: &Vec<String>,
    paths: Option<&Vec<String>>,
    stash: Result<Option<String>, String>,
) -> (r: Result<RestoreReport, String>)
    ensures
        match stash {
            Err(e) => r matches Err(m) && m@ == e@,
            Ok(commit) => r matches Ok(report) && report@ == (ReportView {
                restored_files: restored_of(texts(held@), paths),
                removed_files: Seq::empty(),
                stash_commit: opt_text(commit),
            }),
        },
{
    match stash {
        Err(e) => Err(e),
        Ok(commit) => {
            let mut report = RestoreReport::default();
            report.stash_commit = commit;
            report.restored_files = match paths {
                Some(p) => select_paths(held, p, true),
                None => copy_texts(held),
            };
            Ok(report)
        },
    }
}

/// The paths of `list` that are covered by `set`: a path of `set`, or below one.
pub open spec fn covered(list: Seq<Seq<char>>, set: Seq<Seq<char>>) -> Seq<Seq<char>>
    decreases list.len(),
{
    if list.len() == 0 {
        Seq::empty()
    } else {
        let rest = covered(list.drop_last(), set);
        if covers_path(set, list.last()) {
            rest.push(list.last())
        } else {
            rest
        }
    }
}

/// The files that a restore writes: all of the checkpoint, or those that were asked
/// for by their own path or by that of a directory above them.
pub open spec fn written_of(
    held: Seq<Seq<char>>,
    paths: Option<&Vec<String>>,
) -> Seq<Seq<char>> {
    match paths {
        Some(p) => covered(held, texts(p@)),
        None => held,
    }
}

/// What a restore checks out.
pub enum CheckoutPlan {
    /// The whole checkpoint.
    All,
    /// These files of it.
    Files(Vec<String>),
    /// Nothing.
    Nothing,
}

/// The keys of the paths of a list.
fn keys_of_paths(list: &Vec<String>) -> (r: Vec<Key>)
    ensures
        r@.len() == list@.len(),
        forall|i: int| 0 <= i < r@.len() ==> (#[trigger] r@[i])@ == path_key(texts(list@)[i]),
{
    let mut out: Vec<Key> = Vec::new();
    let mut i: usize = 0;
    while i < list.len()
        invariant
            i <= list@.len(),
            out@.len() == i,
            forall|j: int| 0 <= j < i ==> (#[trigger] out@[j])@ == path_key(texts(list@)[j]),
        decreases list@.len() - i,
    {
        assert(texts(list@)[i as int] == list@[i as int]@);
        out.push(key_of(list[i].as_str()));
        i += 1;
    }
    out
}

fn covers_key(keys: &Vec<Key>, k: &Key) -> (r: bool)
    ensures
        r == exists|i: int| 0 <= i < keys@.len() && at_or_below(k@, (#[trigger] keys@[i])@),
{
    let mut i: usize = 0;
    while i < keys.len()
        invariant
            i <= keys@.len(),
            forall|j: int| 0 <= j < i ==> !at_or_below(k@, (#[trigger] keys@[j])@),
        decreases keys@.len() - i,
    {
        if lies_at_or_below(k, &keys[i]) {
            assert(at_or_below(k@, keys@[i as int]@));
            return true;
        }
        i += 1;
    }
    false
}

/// What a restore of the files `held` by a checkpoint checks out: everything, or what
/// was asked for.
pub fn checkout_plan(held: &Vec<String>, paths: Option<&Vec<String>>) -> (r: CheckoutPlan)
    ensures
        match paths {
            None => r is All,
            Some(_) => if written_of(texts(held@), paths).len() == 0 {
                r is Nothing
            } else {
                r matches CheckoutPlan::Files(files) && texts(files@) == written_of(
                    texts(held@),
                    paths,
                )
            },
        },
{
    match paths {
        None => CheckoutPlan::All,
        Some(p) => {
            let keys = keys_of_paths(p);
            let ghost set = texts(p@);
            let ghost all = texts(held@);
            let mut out: Vec<String> = Vec::new();
            let mut i: usize = 0;
            assert(texts(out@) =~= covered(all.take(0), set));
            while i < held.len()
                invariant
                    i <= held@.len(),
                    all == texts(held@),
                    set == texts(p@),
                    keys@.len() == set.len(),
                    forall|j: int|
                        0 <= j < keys@.len() ==> (#[trigger] keys@[j])@ == path_key(set[j]),
                    texts(out@) == covered(all.take(i as int), set),
                decreases held@.len() - i,
            {
                let ghost before = texts(out@);
                let ghost path = held@[i as int]@;
                assert(all.take(i + 1).drop_last() == all.take(i as int));
                assert(all.take(i + 1).last() == path);
                let k = key_of(held[i].as_str());
                let hit = covers_key(&keys, &k);
                assert(hit == covers_path(set, path)) by {
                    if hit {
                        let j = choose|j: int|
                            0 <= j < keys@.len() && at_or_below(k@, (#[trigger] keys@[j])@);
                        assert(at_or_below(path_key(path), path_key(set[j])));
                    }
                    if covers_path(set, path) {
                        let j = choose|j: int|
                            0 <= j < set.len() && at_or_below(
                                path_key(path),
                                path_key(#[trigger] set[j]),
                            );
                        assert(at_or_below(k@, keys@[j]@));
                    }
                }
                if hit {
                    out.push(held[i].clone());
                    assert(texts(out@) =~= before.push(path));
                }
                i += 1;
            }
            assert(all.take(i as int) == all);
            assert(texts(out@).len() == out@.len());
            if out.len() == 0 {
                CheckoutPlan::Nothing
            } else {
                CheckoutPlan::Files(out)
            }
        },
    }
}

/// The files that a restore removes: when everything is restored, those of the
/// workspace that the checkpoint does not have; otherwise none.
pub open spec fn removals_of(
    held: Seq<Seq<char>>,
    paths: Option<&Vec<String>>,
    existing: Seq<Seq<char>>,
) -> Seq<Seq<char>> {
    match paths {
        Some(_) => Seq::empty(),
        None => selected(existing, held, false),
    }
}

/// The files that are to be removed from the workspace, whose files outside the
/// excluded directories are `existing`.
pub fn removal_plan(
    held: &Vec<String>,
    paths: Option<&Vec<String>>,
    existing: &Vec<String>,
) -> (r: Vec<String>)
    ensures
        texts(r@) == removals_of(texts(held@), paths, texts(existing@)),
{
    match paths {
        Some(_) => {
            let r: Vec<String> = Vec::new();
            assert(texts(r@) =~= Seq::<Seq<char>>::empty());
            r
        },
        None => select_paths(existing, held, false),
    }
}

impl RestoreReport {
    /// Notes that the file at `path` was to be removed, and whether it was.
    pub fn note_removal(&mut self, path: &str, removed: bool)
        ensures
            final(self)@ == (ReportView {
                removed_files: if removed {
                    old(self)@.removed_files.push(path@)
                } else {
                    old(self)@.removed_files
                },
                ..old(self)@
            }),
    {
        let ghost before = self@;
        if removed {
            self.removed_files.push(path.to_string());
            assert(self@.removed_files =~= before.removed_files.push(path@));
        }
    }
}

// ---- laws ----

/// A selection holds exactly the paths of the list that are, or are not, among
/// the set.
pub proof fn law_selection_is_exact(
    list: Seq<Seq<char>>,
    set: Seq<Seq<char>>,
    among: bool,
    p: Seq<char>,
)
    ensures
        selected(list, set, among).contains(p) <==> list.contains(p) && names_path(set, p)
            == among,
    decreases list.len(),
{
    let all = selected(list, set, among);
    if list.len() > 0 {
        let front = list.drop_last();
        let rest = selected(front, set, among);
        law_selection_is_exact(front, set, among, p);
        if all.contains(p) {
            let k = choose|k: int| 0 <= k < all.len() && all[k] == p;
            if k < rest.len() {
                assert(rest[k] == p);
                assert(front.contains(p));
                let i = choose|i: int| 0 <= i < front.len() && front[i] == p;
                assert(list[i] == p);
            } else {
                assert(list[list.len() - 1] == p);
            }
        }
        if list.contains(p) && names_path(set, p) == among {
            let i = choose|i: int| 0 <= i < list.len() && list[i] == p;
            if i < front.len() {
                assert(front[i] == p);
                assert(rest.contains(p));
                let k = choose|k: int| 0 <= k < rest.len() && rest[k] == p;
                assert(all[k] == p);
            } else {
                assert(all[all.len() - 1] == p);
            }
        }
    }
}

/// A full restore leaves the workspace with the files of the checkpoint: every
/// one of them is restored, none of them is removed, and every other file of the
/// workspace is removed.
pub proof fn law_full_restore(held: Seq<Seq<char>>, existing: Seq<Seq<char>>, p: Seq<char>)
    ensures
        restored_of(held, None) == held,
        removals_of(held, None, existing).contains(p) <==> existing.contains(p) && !names_path(
            held,
            p,
        ),
        held.contains(p) ==> !removals_of(held, None, existing).contains(p),
{
    law_selection_is_exact(existing, held, false, p);
    if held.contains(p) {
        let i = choose|i: int| 0 <= i < held.len() && held[i] == p;
        assert(crate::paths::path_key(held[i]) == crate::paths::path_key(p));
        assert(names_path(held, p));
    }
}

/// What is covered is exactly what is in the list at or below a path of the set.
pub proof fn law_covered_is_exact(list: Seq<Seq<char>>, set: Seq<Seq<char>>, p: Seq<char>)
    ensures
        covered(list, set).contains(p) <==> list.contains(p) && covers_path(set, p),
    decreases list.len(),
{
    let all = covered(list, set);
    if list.len() > 0 {
        let front = list.drop_last();
        let rest = covered(front, set);
        law_covered_is_exact(front, set, p);
        if all.contains(p) {
            let k = choose|k: int| 0 <= k < all.len() && all[k] == p;
            if k < rest.len() {
                assert(rest[k] == p);
                assert(front.contains(p));
                let i = choose|i: int| 0 <= i < front.len() && front[i] == p;
                assert(list[i] == p);
            } else {
                assert(list[list.len() - 1] == p);
            }
        }
        if list.contains(p) && covers_path(set, p) {
            let i = choose|i: int| 0 <= i < list.len() && list[i] == p;
            if i < front.len() {
                assert(front[i] == p);
                assert(rest.contains(p));
                let k = choose|k: int| 0 <= k < rest.len() && rest[k] == p;
                assert(all[k] == p);
            } else {
                assert(all[all.len() - 1] == p);
            }
        }
    }
}

/// Every file that a restore reports as brought back is one that it writes, and a file
/// of the checkpoint that it writes without reporting it lies below a chosen path.
pub proof fn law_reported_files_are_written(
    held: Seq<Seq<char>>,
    paths: Option<&Vec<String>>,
    p: Seq<char>,
)
    ensures
        restored_of(held, paths).contains(p) ==> written_of(held, paths).contains(p),
        written_of(held, paths).contains(p) && !restored_of(held, paths).contains(p) ==> (
        paths matches Some(chosen) && covers_path(texts(chosen@), p) && !names_path(
            texts(chosen@),
            p,
        )),
{
    if let Some(chosen) = paths {
        let set = texts(chosen@);
        law_selection_is_exact(held, set, true, p);
        law_covered_is_exact(held, set, p);
        if names_path(set, p) {
            let i = choose|i: int| 0 <= i < set.len() && path_key(#[trigger] set[i]) == path_key(p);
            let k = path_key(p);
            assert(k.parts.subrange(0, k.parts.len() as int) =~= k.parts);
            assert(at_or_below(k, path_key(set[i])));
        }
    }
}

/// A restore of chosen paths reports exactly the chosen files of the checkpoint, and
/// removes nothing.
pub proof fn law_partial_restore(
    held: Seq<Seq<char>>,
    paths: &Vec<String>,
    existing: Seq<Seq<char>>,
    p: Seq<char>,
)
    ensures
        restored_of(held, Some(paths)).contains(p) <==> held.contains(p) && names_path(
            texts(paths@),
            p,
        ),
        removals_of(held, Some(paths), existing).len() == 0,
{
    law_selection_is_exact(held, texts(paths@), true, p);
}

/// Excluded files survive every restore: what a sweep did not record is never
/// removed, and a sweep that kept its invariant records nothing in an excluded
/// directory.
pub proof fn law_excluded_files_survive(
    held: Seq<Seq<char>>,
    paths: Option<&Vec<String>>,
    sweep: crate::paths::SweepView,
    p: Seq<char>,
)
    requires
        crate::paths::sweep_ok(sweep),
        crate::paths::path_excluded(p),
    ensures
        !removals_of(held, paths, sweep.found).contains(p),
{
    law_selection_is_exact(sweep.found, held, false, p);
    if sweep.found.contains(p) {
        let i = choose|i: int| 0 <= i < sweep.found.len() && sweep.found[i] == p;
        assert(!crate::paths::path_excluded(sweep.found[i]));
    }
}

/// The tree has a file at `path`: one of its entries is a file with a name that, in its
/// directory, gives this path.
pub open spec fn tree_has_file(entries: Seq<TreeEntry>, path: Seq<char>) -> bool {
    exists|i: int|
        0 <= i < entries.len() && (#[trigger] entries[i]).is_blob && (entries[i].name matches Some(
            n,
        ) && path == joined(entries[i].dir@, n@))
}

/// The files read from a tree are its files, wherever they lie: each of them is named,
/// nothing else is, and none is named twice.
pub proof fn law_tree_files_are_exact(entries: Seq<TreeEntry>)
    ensures
        forall|p: Seq<char>| #[trigger]
            tree_has_file(entries, p) ==> names_path(files_of(entries), p),
        forall|k: int|
            0 <= k < files_of(entries).len() ==> tree_has_file(
                entries,
                #[trigger] files_of(entries)[k],
            ),
        forall|a: int, b: int|
            0 <= a < b < files_of(entries).len() ==> path_key(#[trigger] files_of(entries)[a])
                != path_key(#[trigger] files_of(entries)[b]),
    decreases entries.len(),
{
    if entries.len() > 0 {
        let front = entries.drop_last();
        let e = entries.last();
        law_tree_files_are_exact(front);
        let rest = files_of(front);
        let all = files_of(entries);
        let at = entries.len() - 1;
        assert forall|p: Seq<char>| tree_has_file(front, p) implies #[trigger] tree_has_file(
            entries,
            p,
        ) by {
            let i = choose|i: int|
                0 <= i < front.len() && (#[trigger] front[i]).is_blob && (front[i].name matches Some(
                    n,
                ) && p == joined(front[i].dir@, n@));
            assert(entries[i] == front[i]);
        }
        if let Some(n) = e.name {
            let path = joined(e.dir@, n@);
            if e.is_blob {
                assert(entries[at].is_blob);
                assert(tree_has_file(entries, path));
                if !names_path(rest, path) {
                    lemma_named_after_push(rest, path);
                    assert forall|a: int, b: int| 0 <= a < b < all.len() implies path_key(
                        #[trigger] all[a],
                    ) != path_key(#[trigger] all[b]) by {
                        if b < rest.len() {
                            assert(path_key(rest[a]) != path_key(rest[b]));
                        } else {
                            assert(path_key(rest[a]) != path_key(path));
                        }
                    }
                }
            }
        }
        assert forall|p: Seq<char>| #[trigger] tree_has_file(entries, p) implies names_path(
            all,
            p,
        ) by {
            let i = choose|i: int|
                0 <= i < entries.len() && (#[trigger] entries[i]).is_blob && (
                entries[i].name matches Some(n) && p == joined(entries[i].dir@, n@));
            if i < at {
                assert(front[i] == entries[i]);
                assert(tree_has_file(front, p));
                assert(names_path(rest, p));
                if all.len() > rest.len() {
                    lemma_named_after_push(rest, all.last());
                    assert(all =~= rest.push(all.last()));
                }
            } else {
                assert(p == joined(e.dir@, e.name->0@));
                if all.len() > rest.len() {
                    lemma_named_after_push(rest, p);
                    assert(all =~= rest.push(p));
                }
            }
        }
        assert forall|k: int| 0 <= k < all.len() implies tree_has_file(
            entries,
            #[trigger] all[k],
        ) by {
            if k < rest.len() {
                assert(all[k] == rest[k]);
                assert(tree_has_file(front, rest[k]));
            }
        }
    }
}

/// What is selected are the paths of the list that pass, in their order, as often as
/// they stand there.
pub proof fn law_selection_keeps_order(list: Seq<Seq<char>>, set: Seq<Seq<char>>, among: bool)
    ensures
        selected(list, set, among) == list.filter(|p: Seq<char>| names_path(set, p) == among),
        covered(list, set) == list.filter(|p: Seq<char>| covers_path(set, p)),
    decreases list.len(),
{
    reveal(Seq::filter);
    if list.len() > 0 {
        law_selection_keeps_order(list.drop_last(), set, among);
    }
}

/// What is removed from two parts of a workspace is what is removed from the one and
/// then from the other.
pub proof fn law_removals_by_directory(
    held: Seq<Seq<char>>,
    a: Seq<Seq<char>>,
    b: Seq<Seq<char>>,
)
    ensures
        removals_of(held, None, a + b) == removals_of(held, None, a) + removals_of(held, None, b),
{
    law_selection_keeps_order(a, held, false);
    law_selection_keeps_order(b, held, false);
    law_selection_keeps_order(a + b, held, false);
    Seq::filter_distributes_over_add(a, b, |p: Seq<char>| names_path(held, p) == false);
}

/// Work is set aside unless the workspace is known to be as the latest checkpoint left
/// it, or there is none.
pub proof fn law_work_is_set_aside(
    latest: Seq<char>,
    clean: Option<bool>,
    commit: Seq<char>,
    reason: Seq<char>,
)
    ensures
        clean != Some(true) ==> stash_base(Some(latest), clean) == Some(latest),
        clean == Some(true) ==> stash_base(Some(latest), clean) is None,
        commit != latest ==> set_aside(latest, Ok(commit), Ok(())) == Ok::<
            Option<Seq<char>>,
            Seq<char>,
        >(Some(commit)),
        commit != latest ==> set_aside(latest, Ok(commit), Err(reason)) == Err::<
            Option<Seq<char>>,
            Seq<char>,
        >(reason),
        forall|written: Result<(), Seq<char>>| #[trigger]
            set_aside(latest, Err(reason), written) == Err::<Option<Seq<char>>, Seq<char>>(reason),
        forall|written: Result<(), Seq<char>>| #[trigger]
            set_aside(latest, Ok(latest), written) == Ok::<Option<Seq<char>>, Seq<char>>(None),
{
}

/// The files of a tree, entry by entry: a file that has a name is added at the end, unless
/// its path is named already; anything else adds nothing.
pub proof fn law_tree_entry_by_entry(entries: Seq<TreeEntry>, e: TreeEntry)
    ensures
        files_of(Seq::empty()) == Seq::<Seq<char>>::empty(),
        ({
            let rest = files_of(entries);
            let all = files_of(entries.push(e));
            &&& e.is_blob && (e.name matches Some(n) && !names_path(rest, joined(e.dir@, n@)))
                ==> all == rest.push(joined(e.dir@, e.name.unwrap()@))
            &&& e.is_blob && (e.name matches Some(n) && names_path(rest, joined(e.dir@, n@)))
                ==> all == rest
            &&& !e.is_blob || e.name is None ==> all == rest
        }),
{
    assert(entries.push(e).drop_last() =~= entries);
}

/// Without chosen paths a restore writes every file of the checkpoint; with them, those that
/// lie at or below one of them, in their order.
pub proof fn law_what_is_written(held: Seq<Seq<char>>, paths: &Vec<String>)
    ensures
        written_of(held, None) == held,
        written_of(held, Some(paths)) == held.filter(
            |p: Seq<char>| covers_path(texts(paths@), p),
        ),
        restored_of(held, Some(paths)) == held.filter(
            |p: Seq<char>| names_path(texts(paths@), p) == true,
        ),
{
    law_selection_keeps_order(held, texts(paths@), true);
}

/// A report is what it holds: the files that came back, those that were removed, and the
/// commit of what was set aside.
pub proof fn law_report_is_what_it_holds(r: RestoreReport)
    ensures
        r@.restored_files.len() == r.restored_files@.len(),
        forall|i: int|
            0 <= i < r.restored_files@.len() ==> #[trigger] r@.restored_files[i]
                == r.restored_files@[i]@,
        r@.removed_files.len() == r.removed_files@.len(),
        forall|i: int|
            0 <= i < r.removed_files@.len() ==> #[trigger] r@.removed_files[i]
                == r.removed_files@[i]@,
        r.stash_commit matches Some(c) ==> r@.stash_commit == Some(c@),
        r.stash_commit is None ==> r@.stash_commit is None,
{
}

/// What is said of building and writing a stash is told as it is.
pub proof fn law_stash_is_told(
    built: Result<String, String>,
    written: Result<(), String>,
    outcome: Result<Option<String>, String>,
)
    ensures
        built matches Ok(c) ==> built_text(built) == Ok::<Seq<char>, Seq<char>>(c@),
        built matches Err(e) ==> built_text(built) == Err::<Seq<char>, Seq<char>>(e@),
        written is Ok ==> written_text(written) is Ok,
        written matches Err(e) ==> written_text(written) == Err::<(), Seq<char>>(e@),
        outcome matches Ok(Some(c)) ==> stash_text(outcome) == Ok::<Option<Seq<char>>, Seq<char>>(
            Some(c@),
        ),
        outcome matches Ok(None) ==> stash_text(outcome) == Ok::<Option<Seq<char>>, Seq<char>>(
            None,
        ),
        outcome matches Err(e) ==> stash_text(outcome) == Err::<Option<Seq<char>>, Seq<char>>(e@),
{
}

} // verus!
