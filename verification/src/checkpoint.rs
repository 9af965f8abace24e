//! Checkpoints: what a snapshot records, the listing of a workspace's
//! checkpoints, and the pruning of old ones.

use vstd::prelude::*;
use vstd::string::*;

use crate::ids::{checkpoint_id, make_id};
use crate::ids::{id_of, ref_id};
use crate::text::{comes_before, copy_opt, copy_texts, decimal_text, starts_with, trim};
use crate::text::law_prefix;
use crate::text::{decimal, has_prefix, lemma_text_order, opt_str, opt_text, text_less, texts, trim_of};

verus! {

/// At most this many changed paths are listed with a checkpoint.
pub const MAX_LISTED_FILES: usize = 50;

/// Checkpoints are kept for this many days.
pub const DEFAULT_GC_RETENTION_DAYS: u64 = 30;

/// Old checkpoints are looked for at most once in this many seconds.
pub const GC_INTERVAL_SECS: u64 = 24 * 60 * 60;

/// One checkpoint of a workspace.
#[derive(Debug)]
pub struct CheckpointInfo {
    /// The ref-name suffix `<unix_ms>_<short_oid>`; its order is that of time.
    pub id: String,
    /// What a human or an agent called the checkpoint, if anything.
    pub label: Option<String>,
    pub commit: String,
    pub parent_commit: Option<String>,
    pub created_at_ms: u64,
    pub files_changed: u32,
    pub insertions: u32,
    pub deletions: u32,
    /// The first changed paths; `files_changed` is the authoritative total.
    pub changed_files: Vec<String>,
}

/// The content of a `CheckpointInfo`.
#[verifier::ext_equal]
pub struct InfoView {
    pub id: Seq<char>,
    pub label: Option<Seq<char>>,
    pub commit: Seq<char>,
    pub parent_commit: Option<Seq<char>>,
    pub created_at_ms: u64,
    pub files_changed: u32,
    pub insertions: u32,
    pub deletions: u32,
    pub changed_files: Seq<Seq<char>>,
}

impl View for CheckpointInfo {
    type V = InfoView;

    open spec fn view(&self) -> InfoView {
        InfoView {
            id: self.id@,
            label: opt_text(self.label),
            commit: self.commit@,
            parent_commit: opt_text(self.parent_commit),
            created_at_ms: self.created_at_ms,
            files_changed: self.files_changed,
            insertions: self.insertions,
            deletions: self.deletions,
            changed_files: texts(self.changed_files@),
        }
    }
}

impl Clone for CheckpointInfo {
    fn clone(&self) -> (r: Self)
        ensures
            r@ == self@,
    {
        CheckpointInfo {
            id: self.id.clone(),
            label: copy_opt(&self.label),
            commit: self.commit.clone(),
            parent_commit: copy_opt(&self.parent_commit),
            created_at_ms: self.created_at_ms,
            files_changed: self.files_changed,
            insertions: self.insertions,
            deletions: self.deletions,
            changed_files: copy_texts(&self.changed_files),
        }
    }
}

/// The contents of a list of checkpoints.
pub open spec fn infos(s: Seq<CheckpointInfo>) -> Seq<InfoView> {
    s.map_values(|c: CheckpointInfo| c@)
}

// ---- statistics of a commit ----

/// The two paths that a changed file has in a comparison of two trees.
#[derive(Debug)]
pub struct DeltaPaths {
    pub new_path: Option<String>,
    pub old_path: Option<String>,
}

/// The path of a changed file: the new one, or the old one where there is no new
/// one.
pub open spec fn path_of(new_path: Option<String>, old_path: Option<String>) -> Option<Seq<char>> {
    if new_path is Some {
        opt_text(new_path)
    } else {
        opt_text(old_path)
    }
}

/// What the comparison of a commit with its parent gave.
#[derive(Debug)]
pub struct DiffSummary {
    /// Files changed, lines inserted and lines deleted, where they were counted.
    pub totals: Option<(usize, usize, usize)>,
    pub deltas: Vec<DeltaPaths>,
}

/// How much a commit changed.
#[derive(Debug)]
pub struct CommitStats {
    pub files_changed: u32,
    pub insertions: u32,
    pub deletions: u32,
    pub changed_files: Vec<String>,
}

impl Default for CommitStats {
    fn default() -> (r: Self)
        ensures
            r.files_changed == 0,
            r.insertions == 0,
            r.deletions == 0,
            r.changed_files@.len() == 0,
    {
        CommitStats { files_changed: 0, insertions: 0, deletions: 0, changed_files: Vec::new() }
    }
}

/// The paths of the changed files that have one, in order.
pub open spec fn delta_paths(deltas: Seq<DeltaPaths>) -> Seq<Seq<char>>
    decreases deltas.len(),
{
    if deltas.len() == 0 {
        Seq::empty()
    } else {
        let rest = delta_paths(deltas.drop_last());
        match path_of(deltas.last().new_path, deltas.last().old_path) {
            Some(p) => rest.push(p),
            None => rest,
        }
    }
}

/// The first `n` elements, or all of them where there are fewer.
pub open spec fn at_most<A>(s: Seq<A>, n: int) -> Seq<A> {
    s.take(
        if n < s.len() {
            n
        } else {
            s.len() as int
        },
    )
}

/// The totals of a summary; zero where nothing was counted.
pub open spec fn totals_of(summary: Option<DiffSummary>) -> (u32, u32, u32) {
    match summary {
        Some(d) => match d.totals {
            Some(t) => (t.0 as u32, t.1 as u32, t.2 as u32),
            None => (0, 0, 0),
        },
        None => (0, 0, 0),
    }
}

/// The paths that are listed for a summary.
pub open spec fn listed_paths(summary: Option<DiffSummary>) -> Seq<Seq<char>> {
    match summary {
        Some(d) => at_most(delta_paths(d.deltas@), MAX_LISTED_FILES as int),
        None => Seq::empty(),
    }
}

/// The statistics of a commit, from the comparison with its parent.
pub fn compute_stats(summary: &Option<DiffSummary>) -> (r: CommitStats)
    ensures
        (r.files_changed, r.insertions, r.deletions) == totals_of(*summary),
        texts(r.changed_files@) == listed_paths(*summary),
        r.changed_files@.len() <= MAX_LISTED_FILES,
{
    let mut out = CommitStats::default();
    assert(texts(out.changed_files@) =~= Seq::<Seq<char>>::empty());
    match summary {
        None => {},
        Some(d) => {
            if let Some(t) = d.totals {
                out.files_changed = t.0 as u32;
                out.insertions = t.1 as u32;
                out.deletions = t.2 as u32;
            }
            let mut paths: Vec<String> = Vec::new();
            let mut i: usize = 0;
            assert(texts(paths@) =~= at_most(delta_paths(d.deltas@.take(0)), 50));
            while i < d.deltas.len()
                invariant
                    i <= d.deltas@.len(),
                    paths@.len() <= MAX_LISTED_FILES,
                    texts(paths@) == at_most(
                        delta_paths(d.deltas@.take(i as int)),
                        MAX_LISTED_FILES as int,
                    ),
                decreases d.deltas@.len() - i,
            {
                let ghost before = texts(paths@);
                let ghost all = delta_paths(d.deltas@.take(i as int));
                let ghost more = delta_paths(d.deltas@.take(i + 1));
                assert(d.deltas@.take(i + 1).drop_last() == d.deltas@.take(i as int));
                assert(before.len() == paths@.len());
                if paths.len() < MAX_LISTED_FILES {
                    let p = match &d.deltas[i].new_path {
                        Some(p) => Some(p),
                        None => match &d.deltas[i].old_path {
                            Some(p) => Some(p),
                            None => None,
                        },
                    };
                    assert(before =~= all);
                    if let Some(p) = p {
                        paths.push(p.clone());
                        assert(texts(paths@) =~= before.push(p@));
                        assert(more == all.push(p@));
                    }
                    assert(texts(paths@) =~= at_most(more, 50));
                } else {
                    assert(at_most(more, 50) =~= at_most(all, 50));
                }
                i += 1;
            }
            assert(d.deltas@.take(i as int) == d.deltas@);
            out.changed_files = paths;
        },
    }
    out
}

// ---- taking a snapshot ----

/// The message of the commit that a snapshot makes.
pub open spec fn message_of(label: Option<Seq<char>>, now_ms: u64) -> Seq<char> {
    match label {
        Some(l) => l,
        None => "snapshot @ "@ + decimal(now_ms as nat),
    }
}

/// The message of the commit that a snapshot makes: its label, or the time.
pub fn snapshot_message(label: Option<&str>, now_ms: u64) -> (r: String)
    ensures
        r@ == message_of(opt_str(label), now_ms),
{
    match label {
        Some(l) => l.to_string(),
        None => {
            let mut out = "snapshot @ ".to_string();
            out.append(decimal_text(now_ms).as_str());
            out
        },
    }
}

/// The message of the commit that sets work aside before a restore.
pub fn stash_message(now_ms: u64) -> (r: String)
    ensures
        r@ == "stash before restore @ "@ + decimal(now_ms as nat),
{
    let mut out = "stash before restore @ ".to_string();
    out.append(decimal_text(now_ms).as_str());
    out
}

/// The error of a snapshot of a workspace that does not exist.
pub fn missing_workspace(workspace: &str) -> (r: String)
    ensures
        r@ == "workspace does not exist: "@ + workspace@,
{
    let mut out = "workspace does not exist: ".to_string();
    out.append(workspace);
    out
}

/// The checkpoint that was just taken: its id carries the time `id_ms`.
pub fn snapshot(
    label: Option<String>,
    commit: &str,
    parent: Option<&str>,
    id_ms: u64,
    created_at_ms: u64,
    stats: CommitStats,
) -> (r: CheckpointInfo)
    ensures
        r@ == (InfoView {
            id: id_of(id_ms, commit@),
            label: opt_text(label),
            commit: commit@,
            parent_commit: opt_str(parent),
            created_at_ms,
            files_changed: stats.files_changed,
            insertions: stats.insertions,
            deletions: stats.deletions,
            changed_files: texts(stats.changed_files@),
        }),
{
    CheckpointInfo {
        id: make_id(id_ms, commit),
        label,
        commit: commit.to_string(),
        parent_commit: match parent {
            Some(p) => Some(p.to_string()),
            None => None,
        },
        created_at_ms,
        files_changed: stats.files_changed,
        insertions: stats.insertions,
        deletions: stats.deletions,
        changed_files: stats.changed_files,
    }
}

/// How the index of a snapshot is made: from nothing, with every file of the
/// workspace; or from the tree of the parent commit, with only the paths that
/// are known to have changed.
#[derive(Debug)]
pub enum IndexPlan {
    Full,
    Incremental { parent: String, paths: Vec<String> },
}

/// Decides how the index of a snapshot is made. Without a parent commit, or
/// without any known changed path, everything is indexed.
pub fn build_commit(parent: Option<&str>, dirty_paths: Option<&Vec<String>>) -> (r: IndexPlan)
    ensures
        match (parent, dirty_paths) {
            (Some(p), Some(d)) => if d@.len() > 0 {
                r matches IndexPlan::Incremental { parent, paths } && parent@ == p@ && texts(paths@)
                    == texts(d@)
            } else {
                r is Full
            },
            _ => r is Full,
        },
{
    match (parent, dirty_paths) {
        (Some(p), Some(d)) => {
            if d.len() > 0 {
                IndexPlan::Incremental { parent: p.to_string(), paths: copy_texts(d) }
            } else {
                IndexPlan::Full
            }
        },
        _ => IndexPlan::Full,
    }
}

/// The texts whose flag is not set.
pub open spec fn unflagged(paths: Seq<Seq<char>>, flags: Seq<bool>) -> Seq<Seq<char>>
    decreases paths.len(),
{
    if paths.len() == 0 {
        Seq::empty()
    } else if flags[paths.len() - 1] {
        unflagged(paths.drop_last(), flags)
    } else {
        unflagged(paths.drop_last(), flags).push(paths.last())
    }
}

/// Of the changed paths, those that are gone from the workspace; `present` says
/// of each path whether something is there.
pub fn deleted_paths(paths: &Vec<String>, present: &Vec<bool>) -> (r: Vec<String>)
    requires
        paths@.len() == present@.len(),
    ensures
        texts(r@) == unflagged(texts(paths@), present@),
{
    let mut out: Vec<String> = Vec::new();
    let mut i: usize = 0;
    let ghost all = texts(paths@);
    assert(texts(out@) =~= unflagged(all.take(0), present@));
    while i < paths.len()
        invariant
            i <= paths@.len(),
            paths@.len() == present@.len(),
            all == texts(paths@),
            texts(out@) == unflagged(all.take(i as int), present@),
        decreases paths@.len() - i,
    {
        let ghost before = texts(out@);
        assert(all.take(i + 1).drop_last() == all.take(i as int));
        if !present[i] {
            out.push(paths[i].clone());
            assert(texts(out@) =~= before.push(paths@[i as int]@));
        }
        i += 1;
    }
    assert(all.take(i as int) == all);
    out
}

/// A path is taken out of the index exactly when it is one of the changed paths
/// and nothing is there any more; an unchanged path is never touched.
pub proof fn law_only_changed_paths_are_dropped(
    paths: Seq<Seq<char>>,
    present: Seq<bool>,
    p: Seq<char>,
)
    requires
        paths.len() <= present.len(),
    ensures
        unflagged(paths, present).contains(p) <==> exists|i: int|
            0 <= i < paths.len() && #[trigger] paths[i] == p && !present[i],
    decreases paths.len(),
{
    let all = unflagged(paths, present);
    if paths.len() > 0 {
        let front = paths.drop_last();
        let rest = unflagged(front, present);
        law_only_changed_paths_are_dropped(front, present, p);
        if all.contains(p) {
            let k = choose|k: int| 0 <= k < all.len() && all[k] == p;
            if k < rest.len() {
                assert(rest[k] == p);
                assert(rest.contains(p));
                let i = choose|i: int|
                    0 <= i < front.len() && #[trigger] front[i] == p && !present[i];
                assert(paths[i] == p);
            } else {
                assert(paths[paths.len() - 1] == p);
            }
        }
        if exists|i: int| 0 <= i < paths.len() && #[trigger] paths[i] == p && !present[i] {
            let i = choose|i: int| 0 <= i < paths.len() && #[trigger] paths[i] == p && !present[i];
            if i < front.len() {
                assert(front[i] == p);
                assert(rest.contains(p));
                let k = choose|k: int| 0 <= k < rest.len() && rest[k] == p;
                assert(all[k] == p);
            } else {
                assert(all[all.len() - 1] == p);
            }
        }
    }
}

// ---- times of commits ----

/// The time of a commit as an unsigned number: a time before 1970 counts as a
/// very late one.
pub open spec fn stamp_of(seconds: i64) -> u64 {
    if seconds >= 0 {
        seconds as u64
    } else {
        (seconds + 0x1_0000_0000_0000_0000) as u64
    }
}

/// The time of a commit as an unsigned number.
pub fn stamp(seconds: i64) -> (r: u64)
    ensures
        r == stamp_of(seconds),
{
    if seconds >= 0 {
        seconds as u64
    } else {
        (seconds as i128 + 0x1_0000_0000_0000_0000) as u64
    }
}

/// A checkpoint ref with what it points at: the commit, where there is one, and
/// the time of the commit, where the commit can be read.
#[derive(Debug)]
pub struct RefStamp {
    pub name: Option<String>,
    pub target: Option<String>,
    pub seconds: Option<i64>,
}

impl RefStamp {
    /// The ref points at a commit that can be read.
    pub open spec fn is_dated(self) -> bool {
        self.target is Some && self.seconds is Some
    }

    /// The time of the commit.
    pub open spec fn time(self) -> u64 {
        stamp_of(self.seconds.unwrap())
    }
}

/// Position `i` holds the latest commit: no other is later, and of those with
/// the same time it is the last.
pub open spec fn is_latest(refs: Seq<RefStamp>, i: int) -> bool {
    &&& 0 <= i < refs.len()
    &&& refs[i].is_dated()
    &&& forall|j: int|
        0 <= j < refs.len() && (#[trigger] refs[j]).is_dated() ==> refs[j].time() <= refs[i].time()
    &&& forall|j: int|
        i < j < refs.len() && (#[trigger] refs[j]).is_dated() ==> refs[j].time() < refs[i].time()
}

/// `oid` is the latest commit that a ref points at, or missing where no ref points at
/// a commit that can be read.
pub open spec fn is_latest_commit(refs: Seq<RefStamp>, oid: Option<Seq<char>>) -> bool {
    match oid {
        Some(c) => exists|i: int| #[trigger] is_latest(refs, i) && refs[i].target.unwrap()@ == c,
        None => forall|i: int| 0 <= i < refs.len() ==> !(#[trigger] refs[i]).is_dated(),
    }
}

/// The latest commit that a checkpoint ref points at.
pub fn latest_commit_oid(refs: &Vec<RefStamp>) -> (r: Option<String>)
    ensures
        is_latest_commit(refs@, opt_text(r)),
{
    let mut best: Option<usize> = None;
    let mut best_time: u64 = 0;
    let mut i: usize = 0;
    while i < refs.len()
        invariant
            i <= refs@.len(),
            match best {
                Some(b) => is_latest(refs@.take(i as int), b as int) && best_time
                    == refs@[b as int].time(),
                None => forall|j: int| 0 <= j < i ==> !(#[trigger] refs@[j]).is_dated(),
            },
        decreases refs@.len() - i,
    {
        let ghost seen = refs@.take(i as int);
        let ghost more = refs@.take(i + 1);
        assert(forall|j: int| 0 <= j < i ==> seen[j] == #[trigger] more[j]);
        assert(forall|j: int| 0 <= j < i ==> refs@[j] == #[trigger] more[j]);
        assert(more[i as int] == refs@[i as int]);
        if refs[i].target.is_some() {
            if let Some(s) = refs[i].seconds {
                let when = stamp(s);
                if best.is_none() || when >= best_time {
                    best = Some(i);
                    best_time = when;
                    assert(is_latest(more, i as int));
                } else {
                    assert(is_latest(more, best.unwrap() as int));
                }
            }
        }
        i += 1;
    }
    assert(refs@.take(i as int) == refs@);
    match best {
        Some(b) => {
            assert(is_latest(refs@, b as int));
            copy_opt(&refs[b].target)
        },
        None => None,
    }
}

// ---- listing ----

/// A commit as far as the listing reads it.
#[derive(Debug)]
pub struct CommitRecord {
    pub message: Option<String>,
    pub seconds: i64,
    pub parent: Option<String>,
    pub stats: CommitStats,
}

/// A ref with what it points at.
#[derive(Debug)]
pub struct RefRecord {
    pub name: Option<String>,
    pub target: Option<String>,
    pub commit: Option<CommitRecord>,
}

/// The label that a commit message carries. The messages that are written for a
/// snapshot without a label, and for work that is set aside, carry none.
pub open spec fn label_of(message: Seq<char>) -> Option<Seq<char>> {
    if has_prefix(message, "snapshot @"@) || has_prefix(message, "stash before"@) {
        None
    } else {
        Some(trim_of(message))
    }
}

/// The label that a commit message carries.
pub fn message_label(message: &str) -> (r: Option<String>)
    ensures
        opt_text(r) == label_of(message@),
{
    if starts_with(message, "snapshot @") || starts_with(message, "stash before") {
        None
    } else {
        Some(trim(message))
    }
}

/// The message of a commit; empty where it cannot be read.
pub open spec fn text_or_empty(o: Option<String>) -> Seq<char> {
    match o {
        Some(s) => s@,
        None => Seq::empty(),
    }
}

/// The checkpoint that a ref stands for, where it stands for one and its commit
/// can be read.
pub open spec fn checkpoint_of(r: RefRecord) -> Option<InfoView> {
    match (r.name, r.target, r.commit) {
        (Some(name), Some(target), Some(c)) => match ref_id(name@) {
            Some(id) => Some(
                InfoView {
                    id,
                    label: label_of(text_or_empty(c.message)),
                    commit: target@,
                    parent_commit: opt_text(c.parent),
                    created_at_ms: (stamp_of(c.seconds) * 1000) as u64,
                    files_changed: c.stats.files_changed,
                    insertions: c.stats.insertions,
                    deletions: c.stats.deletions,
                    changed_files: texts(c.stats.changed_files@),
                },
            ),
            None => None,
        },
        _ => None,
    }
}

/// The time of the commit, in milliseconds, can be held.
pub open spec fn time_fits(r: RefRecord) -> bool {
    checkpoint_of(r) is Some ==> stamp_of(r.commit.unwrap().seconds) * 1000 <= u64::MAX
}

/// Whether the time of the commit, in milliseconds, can be held, where the ref stands
/// for a checkpoint.
pub fn has_valid_time(r: &RefRecord) -> (b: bool)
    ensures
        b == time_fits(*r),
{
    match (&r.name, &r.target, &r.commit) {
        (Some(name), Some(_), Some(c)) => match checkpoint_id(name.as_str()) {
            Some(_) => stamp(c.seconds) <= u64::MAX / 1000,
            None => true,
        },
        _ => true,
    }
}

/// The checkpoints that a list of refs stands for, in order.
pub open spec fn checkpoints_of(refs: Seq<RefRecord>) -> Seq<InfoView>
    decreases refs.len(),
{
    if refs.len() == 0 {
        Seq::empty()
    } else {
        let rest = checkpoints_of(refs.drop_last());
        match checkpoint_of(refs.last()) {
            Some(c) => rest.push(c),
            None => rest,
        }
    }
}

/// In the listing of `found`, position `i` of `found` comes before position `j`:
/// its id is the larger one, or the ids are equal and `i` is the earlier position.
pub open spec fn listed_before(found: Seq<InfoView>, i: int, j: int) -> bool {
    text_less(found[j].id, found[i].id) || (found[i].id == found[j].id && i < j)
}

/// `order` lists the positions of `found`, each once, newest first.
pub open spec fn is_newest_first(found: Seq<InfoView>, order: Seq<int>) -> bool {
    &&& order.len() == found.len()
    &&& forall|k: int| 0 <= k < order.len() ==> 0 <= #[trigger] order[k] < found.len()
    &&& forall|a: int, b: int|
        0 <= a < b < order.len() ==> listed_before(found, #[trigger] order[a], #[trigger] order[b])
}

/// `out` holds the elements of `found`, each once, newest first.
pub open spec fn is_listing(found: Seq<InfoView>, out: Seq<InfoView>) -> bool {
    exists|order: Seq<int>| #[trigger] is_listing_by(found, out, order)
}

/// `out` holds the elements of `found` in the order given by positions.
pub open spec fn is_listing_by(found: Seq<InfoView>, out: Seq<InfoView>, order: Seq<int>) -> bool {
    is_newest_first(found, order) && out =~= order.map_values(|i: int| found[i])
}

/// The checkpoint that a ref stands for.
fn read_checkpoint(r: &RefRecord) -> (c: Option<CheckpointInfo>)
    requires
        time_fits(*r),
    ensures
        match c {
            Some(c) => checkpoint_of(*r) == Some(c@),
            None => checkpoint_of(*r) is None,
        },
{
    match (&r.name, &r.target, &r.commit) {
        (Some(name), Some(target), Some(c)) => {
            match checkpoint_id(name.as_str()) {
                Some(id) => {
                    let label = match &c.message {
                        Some(m) => message_label(m.as_str()),
                        None => message_label(""),
                    };
                    proof {
                        reveal_strlit("");
                        assert(""@ =~= Seq::<char>::empty());
                    }
                    Some(
                        CheckpointInfo {
                            id,
                            label,
                            commit: target.clone(),
                            parent_commit: copy_opt(&c.parent),
                            created_at_ms: stamp(c.seconds) * 1000,
                            files_changed: c.stats.files_changed,
                            insertions: c.stats.insertions,
                            deletions: c.stats.deletions,
                            changed_files: copy_texts(&c.stats.changed_files),
                        },
                    )
                },
                None => None,
            }
        },
        _ => None,
    }
}

/// Puts a checkpoint into a listing, behind all those with the same or a larger
/// id.
fn insert_listed(out: &mut Vec<CheckpointInfo>, c: CheckpointInfo, found: Ghost<Seq<InfoView>>)
    requires
        is_listing(found@, infos(old(out)@)),
    ensures
        is_listing(found@.push(c@), infos(final(out)@)),
{
    let ghost f = found@;
    let ghost before = infos(out@);
    let ghost order = choose|order: Seq<int>| #[trigger] is_listing_by(f, before, order);
    let mut at: usize = out.len();
    while at > 0 && comes_before(out[at - 1].id.as_str(), c.id.as_str())
        invariant
            at <= out@.len(),
            before == infos(out@),
            forall|k: int| at <= k < out@.len() ==> text_less((#[trigger] before[k]).id, c@.id),
        decreases at,
    {
        assert(before[at - 1] == out@[at - 1]@);
        at -= 1;
    }
    let ghost g = f.push(c@);
    let ghost n = f.len() as int;
    let ghost cv = c@;
    out.insert(at, c);
    proof {
        let p = at as int;
        let more = order.insert(p, n);
        assert(infos(out@) =~= before.insert(p, cv));
        assert(before =~= order.map_values(|i: int| f[i]));
        assert forall|k: int| 0 <= k < more.len() implies 0 <= #[trigger] more[k] < g.len() by {
            if k < p {
                assert(more[k] == order[k]);
            } else if k > p {
                assert(more[k] == order[k - 1]);
            }
        }
        assert forall|a: int, b: int| 0 <= a < b < more.len() implies listed_before(
            g,
            #[trigger] more[a],
            #[trigger] more[b],
        ) by {
            if b < p {
                assert(more[a] == order[a] && more[b] == order[b]);
                assert(listed_before(f, order[a], order[b]));
            } else if a > p {
                assert(more[a] == order[a - 1] && more[b] == order[b - 1]);
                assert(listed_before(f, order[a - 1], order[b - 1]));
            } else if a < p && b > p {
                assert(more[a] == order[a] && more[b] == order[b - 1]);
                assert(listed_before(f, order[a], order[b - 1]));
            } else if a == p {
                assert(more[b] == order[b - 1]);
                assert(before[b - 1] == f[order[b - 1]]);
                assert(text_less(before[b - 1].id, cv.id));
            } else {
                assert(b == p && more[a] == order[a]);
                assert(before[a] == f[order[a]]);
                lemma_text_order(before[p - 1].id, cv.id, cv.id);
                lemma_text_order(cv.id, before[p - 1].id, before[a].id);
                if a < p - 1 {
                    assert(listed_before(f, order[a], order[p - 1]));
                    assert(before[p - 1] == f[order[p - 1]]);
                }
            }
        }
        assert(is_newest_first(g, more));
        assert(infos(out@) =~= more.map_values(|i: int| g[i])) by {
            assert forall|k: int| 0 <= k < more.len() implies #[trigger] infos(out@)[k]
                == g[more[k]] by {
                if k < p {
                    assert(before[k] == f[order[k]]);
                } else if k > p {
                    assert(before[k - 1] == f[order[k - 1]]);
                }
            }
        }
        assert(is_listing_by(g, infos(out@), more));
    }
}

/// The checkpoints that the given refs stand for, newest first. Refs that stand
/// for no checkpoint, or whose commit cannot be read, are left out.
pub fn list(refs: &Vec<RefRecord>) -> (r: Vec<CheckpointInfo>)
    requires
        forall|i: int| 0 <= i < refs@.len() ==> time_fits(#[trigger] refs@[i]),
    ensures
        is_listing(checkpoints_of(refs@), infos(r@)),
{
    let mut out: Vec<CheckpointInfo> = Vec::new();
    let mut i: usize = 0;
    proof {
        let none = Seq::<InfoView>::empty();
        assert(checkpoints_of(refs@.take(0)) =~= none);
        assert(infos(out@) =~= none);
        assert(is_listing_by(none, none, Seq::<int>::empty()));
    }
    while i < refs.len()
        invariant
            i <= refs@.len(),
            forall|i: int| 0 <= i < refs@.len() ==> time_fits(#[trigger] refs@[i]),
            is_listing(checkpoints_of(refs@.take(i as int)), infos(out@)),
        decreases refs@.len() - i,
    {
        assert(refs@.take(i + 1).drop_last() == refs@.take(i as int));
        if let Some(c) = read_checkpoint(&refs[i]) {
            insert_listed(&mut out, c, Ghost(checkpoints_of(refs@.take(i as int))));
        }
        i += 1;
    }
    assert(refs@.take(i as int) == refs@);
    out
}

// ---- pruning ----

/// The names of the refs that have one and whose commit is not later than
/// `cutoff`, in order.
pub open spec fn stale_names(refs: Seq<RefStamp>, cutoff: u64) -> Seq<Seq<char>>
    decreases refs.len(),
{
    if refs.len() == 0 {
        Seq::empty()
    } else {
        let rest = stale_names(refs.drop_last(), cutoff);
        if is_stale(refs.last(), cutoff) {
            rest.push(refs.last().name.unwrap()@)
        } else {
            rest
        }
    }
}

/// The ref has a name and its commit can be read and is not later than `cutoff`.
pub open spec fn is_stale(r: RefStamp, cutoff: u64) -> bool {
    r.name is Some && r.is_dated() && r.time() <= cutoff
}

/// The time at which a commit is exactly `max_age_secs` old; not before 1970.
pub open spec fn cutoff_of(now_secs: u64, max_age_secs: u64) -> u64 {
    if now_secs >= max_age_secs {
        (now_secs - max_age_secs) as u64
    } else {
        0
    }
}

/// The names of the refs that are to be deleted at `now_secs`: those that point
/// at a commit that is at least `max_age_secs` old.
pub fn gc_stale_refs(refs: &Vec<RefStamp>, now_secs: u64, max_age_secs: u64) -> (r: Vec<String>)
    ensures
        texts(r@) == stale_names(refs@, cutoff_of(now_secs, max_age_secs)),
{
    let cutoff: u64 = if now_secs >= max_age_secs { now_secs - max_age_secs } else { 0 };
    let mut out: Vec<String> = Vec::new();
    let mut i: usize = 0;
    assert(texts(out@) =~= stale_names(refs@.take(0), cutoff));
    while i < refs.len()
        invariant
            i <= refs@.len(),
            texts(out@) == stale_names(refs@.take(i as int), cutoff),
        decreases refs@.len() - i,
    {
        let ghost before = texts(out@);
        assert(refs@.take(i + 1).drop_last() == refs@.take(i as int));
        if refs[i].target.is_some() {
            if let (Some(name), Some(s)) = (&refs[i].name, refs[i].seconds) {
                if stamp(s) <= cutoff {
                    out.push(name.clone());
                    assert(texts(out@) =~= before.push(name@));
                }
            }
        }
        i += 1;
    }
    assert(refs@.take(i as int) == refs@);
    out
}

/// How many of the outcomes are successes.
pub open spec fn successes(outcomes: Seq<bool>) -> nat
    decreases outcomes.len(),
{
    if outcomes.len() == 0 {
        0
    } else {
        successes(outcomes.drop_last()) + (if outcomes.last() {
            1nat
        } else {
            0nat
        })
    }
}

/// There are no more successes among the first outcomes than among all.
proof fn lemma_successes(outcomes: Seq<bool>, n: int)
    requires
        0 <= n <= outcomes.len(),
    ensures
        successes(outcomes.take(n)) <= successes(outcomes),
    decreases outcomes.len(),
{
    if n == outcomes.len() {
        assert(outcomes.take(n) =~= outcomes);
    } else {
        lemma_successes(outcomes.drop_last(), n);
        assert(outcomes.drop_last().take(n) =~= outcomes.take(n));
    }
}

/// How many refs were deleted, given whether each deletion succeeded.
pub fn deleted_count(outcomes: &Vec<bool>) -> (r: u32)
    requires
        successes(outcomes@) <= u32::MAX,
    ensures
        r == successes(outcomes@),
{
    let mut n: u32 = 0;
    let mut i: usize = 0;
    while i < outcomes.len()
        invariant
            i <= outcomes@.len(),
            successes(outcomes@) <= u32::MAX,
            n == successes(outcomes@.take(i as int)),
        decreases outcomes@.len() - i,
    {
        assert(outcomes@.take(i + 1).drop_last() == outcomes@.take(i as int));
        proof {
            lemma_successes(outcomes@, i + 1);
        }
        if outcomes[i] {
            n += 1;
        }
        i += 1;
    }
    assert(outcomes@.take(i as int) == outcomes@);
    n
}

/// How long ago old checkpoints were last looked for.
#[derive(Debug, Clone, Copy, PartialEq, Eq, Structural)]
pub enum LastGc {
    /// Never, or it is not known when.
    Unknown,
    /// The recorded time lies in the future.
    InFuture,
    /// This many seconds ago.
    SecsAgo(u64),
}

/// Whether old checkpoints are to be looked for now: not within a day after the
/// last time.
pub fn maybe_gc(last: LastGc) -> (r: bool)
    ensures
        r == match last {
            LastGc::SecsAgo(s) => s >= GC_INTERVAL_SECS,
            _ => true,
        },
{
    match last {
        LastGc::SecsAgo(s) => s >= GC_INTERVAL_SECS,
        _ => true,
    }
}

/// How old a checkpoint has to be, in seconds, to be pruned on the usual round.
pub fn retention_secs() -> (r: u64)
    ensures
        r == DEFAULT_GC_RETENTION_DAYS * 24 * 60 * 60,
        r == 2_592_000,
{
    DEFAULT_GC_RETENTION_DAYS * 24 * 60 * 60
}

/// The message that says how many refs were pruned.
pub fn gc_message(removed: u32) -> (r: Option<String>)
    ensures
        opt_text(r) == (if removed > 0 {
            Some(
                "gloss gc: pruned "@ + decimal(removed as nat) + " refs older than "@ + decimal(30)
                    + "d"@,
            )
        } else {
            None
        }),
{
    if removed == 0 {
        return None;
    }
    let mut out = "gloss gc: pruned ".to_string();
    out.append(decimal_text(removed as u64).as_str());
    out.append(" refs older than ");
    out.append(decimal_text(DEFAULT_GC_RETENTION_DAYS).as_str());
    out.append("d");
    Some(out)
}

// ---- laws ----

/// A pruning pass names exactly the refs that are stale.
pub proof fn law_gc_names_exactly_the_stale(refs: Seq<RefStamp>, cutoff: u64, name: Seq<char>)
    ensures
        stale_names(refs, cutoff).contains(name) <==> exists|i: int|
            0 <= i < refs.len() && is_stale(#[trigger] refs[i], cutoff) && refs[i].name.unwrap()@
                == name,
    decreases refs.len(),
{
    let all = stale_names(refs, cutoff);
    if refs.len() > 0 {
        let front = refs.drop_last();
        let rest = stale_names(front, cutoff);
        law_gc_names_exactly_the_stale(front, cutoff, name);
        if all.contains(name) {
            let k = choose|k: int| 0 <= k < all.len() && all[k] == name;
            if k < rest.len() {
                assert(rest[k] == name);
                assert(rest.contains(name));
                let i = choose|i: int|
                    0 <= i < front.len() && is_stale(#[trigger] front[i], cutoff)
                        && front[i].name.unwrap()@ == name;
                assert(refs[i] == front[i]);
            } else {
                assert(is_stale(refs[refs.len() - 1], cutoff));
            }
        }
        if exists|i: int|
            0 <= i < refs.len() && is_stale(#[trigger] refs[i], cutoff) && refs[i].name.unwrap()@
                == name {
            let i = choose|i: int|
                0 <= i < refs.len() && is_stale(#[trigger] refs[i], cutoff)
                    && refs[i].name.unwrap()@ == name;
            if i < front.len() {
                assert(front[i] == refs[i]);
                assert(rest.contains(name));
                let k = choose|k: int| 0 <= k < rest.len() && rest[k] == name;
                assert(all[k] == name);
            } else {
                assert(all[all.len() - 1] == name);
            }
        }
    }
}

/// A ref is kept as long as its commit is younger than the limit, and pruned as
/// soon as it is as old as the limit; with a limit of zero, everything that is
/// not in the future is pruned. The time before 1970 that an age would reach
/// back to does not exist: with such a limit only a commit of the first second
/// of 1970 is pruned.
pub proof fn law_gc_by_age(r: RefStamp, now_secs: u64, max_age_secs: u64)
    requires
        r.name is Some,
        r.is_dated(),
    ensures
        max_age_secs <= now_secs ==> (is_stale(r, cutoff_of(now_secs, max_age_secs)) <==> r.time()
            + max_age_secs <= now_secs),
        max_age_secs > now_secs ==> (is_stale(r, cutoff_of(now_secs, max_age_secs)) <==> r.time()
            == 0),
        is_stale(r, cutoff_of(now_secs, 0)) <==> r.time() <= now_secs,
{
}

/// A label comes back from the message that was written for it, without white
/// space at its ends, unless it reads like a message of the engine itself; the
/// messages of the engine itself carry no label.
pub proof fn law_label_comes_back(label: Seq<char>, now_ms: u64)
    ensures
        !has_prefix(label, "snapshot @"@) && !has_prefix(label, "stash before"@) ==> label_of(
            message_of(Some(label), now_ms),
        ) == Some(trim_of(label)),
        label_of(message_of(None, now_ms)) is None,
        label_of("stash before restore @ "@ + decimal(now_ms as nat)) is None,
{
    reveal_strlit("snapshot @ ");
    reveal_strlit("snapshot @");
    reveal_strlit("stash before");
    reveal_strlit("stash before restore @ ");
    assert(message_of(None, now_ms).take("snapshot @"@.len() as int) =~= "snapshot @"@);
    assert(("stash before restore @ "@ + decimal(now_ms as nat)).take(
        "stash before"@.len() as int,
    ) =~= "stash before"@);
}

/// What a snapshot records is what the listing shows: the ref that carries the
/// id of a snapshot, on a commit with the message of the snapshot, stands for a
/// checkpoint with that id, that commit and that label.
pub proof fn law_snapshot_is_listed(
    r: RefRecord,
    label: Option<Seq<char>>,
    id_ms: u64,
    message_ms: u64,
)
    requires
        r.target is Some,
        r.name is Some,
        r.commit is Some,
        r.name.unwrap()@ == crate::ids::REF_PREFIX@ + id_of(id_ms, r.target.unwrap()@),
        r.commit.unwrap().message is Some,
        r.commit.unwrap().message.unwrap()@ == message_of(label, message_ms),
    ensures
        checkpoint_of(r) is Some,
        checkpoint_of(r).unwrap().id == id_of(id_ms, r.target.unwrap()@),
        checkpoint_of(r).unwrap().commit == r.target.unwrap()@,
        checkpoint_of(r).unwrap().label == (match label {
            Some(l) => label_of(l),
            None => None,
        }),
{
    crate::ids::law_made_id_is_listed(id_ms, r.target.unwrap()@);
    if label is None {
        law_label_comes_back(Seq::empty(), message_ms);
    }
}

/// No later entry of a listing has a larger id.
pub proof fn law_listing_is_newest_first(found: Seq<InfoView>, out: Seq<InfoView>, a: int, b: int)
    requires
        is_listing(found, out),
        0 <= a < b < out.len(),
    ensures
        !text_less(out[a].id, out[b].id),
{
    let order = choose|order: Seq<int>| #[trigger] is_listing_by(found, out, order);
    assert(out[a] == found[order[a]]);
    assert(out[b] == found[order[b]]);
    assert(listed_before(found, order[a], order[b]));
    lemma_text_order(out[a].id, out[b].id, out[a].id);
    lemma_text_order(out[b].id, out[a].id, out[b].id);
}

/// Of two checkpoints in a listing, the one that was taken at a later
/// millisecond stands first (until the time has fourteen digits).
pub proof fn law_later_snapshot_first(
    found: Seq<InfoView>,
    out: Seq<InfoView>,
    a: int,
    b: int,
    ms_a: u64,
    commit_a: Seq<char>,
    ms_b: u64,
    commit_b: Seq<char>,
)
    requires
        is_listing(found, out),
        0 <= a < out.len(),
        0 <= b < out.len(),
        out[a].id == id_of(ms_a, commit_a),
        out[b].id == id_of(ms_b, commit_b),
        ms_b < ms_a < 10_000_000_000_000,
    ensures
        a < b,
{
    crate::ids::law_ids_in_order_of_time(ms_b, commit_b, ms_a, commit_a);
    lemma_text_order(out[b].id, out[a].id, out[b].id);
    if b < a {
        law_listing_is_newest_first(found, out, b, a);
    }
}

/// The positions of an order: every position occurs.
proof fn lemma_order_covers(found: Seq<InfoView>, order: Seq<int>, i: int)
    requires
        is_newest_first(found, order),
        0 <= i < found.len(),
    ensures
        exists|k: int| 0 <= k < order.len() && #[trigger] order[k] == i,
{
    let n = found.len() as int;
    assert forall|a: int, b: int| 0 <= a < order.len() && 0 <= b < order.len() && a
        != b implies order[a] != order[b] by {
        let x = if a < b { a } else { b };
        let y = if a < b { b } else { a };
        assert(listed_before(found, order[x], order[y]));
        lemma_text_order(found[order[x]].id, found[order[x]].id, found[order[x]].id);
    }
    assert(order.no_duplicates());
    order.unique_seq_to_set();
    vstd::set_lib::lemma_int_range(0, n);
    let all = vstd::set_lib::set_int_range(0, n);
    assert(order.to_set().subset_of(all)) by {
        assert forall|x: int| order.to_set().contains(x) implies all.contains(x) by {
            let k = choose|k: int| 0 <= k < order.len() && order[k] == x;
            assert(0 <= order[k] < found.len());
        }
    }
    vstd::set_lib::lemma_subset_equality(order.to_set(), all);
    assert(all.contains(i));
    assert(order.to_set().contains(i));
}

/// There is only one listing: what `list` returns is determined by the refs.
pub proof fn law_listing_is_unique(found: Seq<InfoView>, x: Seq<InfoView>, y: Seq<InfoView>)
    requires
        is_listing(found, x),
        is_listing(found, y),
    ensures
        x == y,
{
    let p = choose|order: Seq<int>| #[trigger] is_listing_by(found, x, order);
    let q = choose|order: Seq<int>| #[trigger] is_listing_by(found, y, order);
    lemma_orders_agree(found, p, q, found.len() as int);
    assert(p =~= q);
}

proof fn lemma_orders_agree(found: Seq<InfoView>, p: Seq<int>, q: Seq<int>, n: int)
    requires
        is_newest_first(found, p),
        is_newest_first(found, q),
        0 <= n <= found.len(),
    ensures
        forall|k: int| 0 <= k < n ==> p[k] == q[k],
    decreases n,
{
    if n > 0 {
        lemma_orders_agree(found, p, q, n - 1);
        let k = n - 1;
        if p[k] != q[k] {
            lemma_order_covers(found, q, p[k]);
            lemma_order_covers(found, p, q[k]);
            let i = choose|i: int| 0 <= i < q.len() && #[trigger] q[i] == p[k];
            let j = choose|j: int| 0 <= j < p.len() && #[trigger] p[j] == q[k];
            let u = found[p[k]].id;
            let v = found[q[k]].id;
            lemma_text_order(u, v, u);
            lemma_text_order(v, u, v);
            if i < k {
                assert(p[i] == p[k]);
                assert(listed_before(found, p[i], p[k]));
            } else if j < k {
                assert(q[j] == q[k]);
                assert(listed_before(found, q[j], q[k]));
            } else {
                assert(listed_before(found, q[k], q[i]));
                assert(listed_before(found, p[k], p[j]));
            }
            assert(false);
        }
    }
}

/// Refs one after the other stand for their checkpoints one after the other.
proof fn lemma_checkpoints_concat(a: Seq<RefRecord>, b: Seq<RefRecord>)
    ensures
        checkpoints_of(a + b) == checkpoints_of(a) + checkpoints_of(b),
    decreases b.len(),
{
    if b.len() == 0 {
        assert(a + b =~= a);
        assert(checkpoints_of(a) + checkpoints_of(b) =~= checkpoints_of(a));
    } else {
        lemma_checkpoints_concat(a, b.drop_last());
        assert((a + b).drop_last() =~= a + b.drop_last());
        assert((a + b).last() == b.last());
        assert(checkpoints_of(a + b) =~= checkpoints_of(a) + checkpoints_of(b));
    }
}

/// Taking one checkpoint out takes one entry out of the listing, and keeps the others
/// in their order.
proof fn lemma_listing_without(found: Seq<InfoView>, pos: int, c: InfoView, new: Seq<InfoView>) -> (k:
    int)
    requires
        0 <= pos <= found.len(),
        is_listing(found.insert(pos, c), new),
    ensures
        0 <= k < new.len(),
        new[k] == c,
        is_listing(found, new.remove(k)),
{
    let more = found.insert(pos, c);
    let q = choose|order: Seq<int>| #[trigger] is_listing_by(more, new, order);
    lemma_order_covers(more, q, pos);
    let k = choose|k: int| 0 <= k < q.len() && #[trigger] q[k] == pos;
    assert(new[k] == more[q[k]]);
    assert forall|a: int| 0 <= a < q.len() && a != k implies #[trigger] q[a] != pos by {
        let x = if a < k { a } else { k };
        let y = if a < k { k } else { a };
        assert(listed_before(more, q[x], q[y]));
        lemma_text_order(more[q[x]].id, more[q[x]].id, more[q[x]].id);
    }
    let old_at = |i: int| if i < pos { i } else { i - 1 };
    let rest = q.remove(k);
    let order = rest.map_values(old_at);
    assert forall|a: int| 0 <= a < order.len() implies 0 <= #[trigger] order[a] < found.len()
        && found[order[a]] == more[rest[a]] by {
        let b = if a < k { a } else { a + 1 };
        assert(rest[a] == q[b] && q[b] != pos && 0 <= q[b] < more.len());
    }
    assert forall|a: int, b: int| 0 <= a < b < order.len() implies listed_before(
        found,
        #[trigger] order[a],
        #[trigger] order[b],
    ) by {
        let x = if a < k { a } else { a + 1 };
        let y = if b < k { b } else { b + 1 };
        assert(rest[a] == q[x] && rest[b] == q[y] && q[x] != pos && q[y] != pos);
        assert(listed_before(more, q[x], q[y]));
        assert(found[order[a]] == more[q[x]] && found[order[b]] == more[q[y]]);
    }
    assert(is_newest_first(found, order));
    assert(new.remove(k) =~= order.map_values(|i: int| found[i])) by {
        assert forall|a: int| 0 <= a < order.len() implies new.remove(k)[a] == found[order[a]] by {
            let b = if a < k { a } else { a + 1 };
            assert(new.remove(k)[a] == new[b]);
            assert(new[b] == more[q[b]]);
            assert(rest[a] == q[b]);
            assert(0 <= order[a] < found.len());
        }
    }
    assert(is_listing_by(found, new.remove(k), order));
    k
}

/// The ref and the commit that a snapshot left behind: the ref has the id of the
/// checkpoint and points at its commit, whose message, parent and counts are those of
/// the checkpoint.
pub open spec fn is_record_of(r: RefRecord, cp: InfoView, id_ms: u64, message_ms: u64) -> bool {
    &&& cp.id == id_of(id_ms, cp.commit)
    &&& r.name matches Some(n) && n@ == crate::ids::REF_PREFIX@ + cp.id
    &&& r.target matches Some(t) && t@ == cp.commit
    &&& r.commit matches Some(c) && {
        &&& opt_text(c.message) == Some(message_of(cp.label, message_ms))
        &&& opt_text(c.parent) == cp.parent_commit
        &&& c.stats.files_changed == cp.files_changed
        &&& c.stats.insertions == cp.insertions
        &&& c.stats.deletions == cp.deletions
        &&& texts(c.stats.changed_files@) == cp.changed_files
    }
}

/// A checkpoint as the listing shows it: all as the snapshot told it, but for the
/// time, which is that of the commit, and the label, which is read from its message.
pub open spec fn is_shown_as(entry: InfoView, cp: InfoView) -> bool {
    &&& entry.id == cp.id
    &&& entry.commit == cp.commit
    &&& entry.parent_commit == cp.parent_commit
    &&& entry.files_changed == cp.files_changed
    &&& entry.insertions == cp.insertions
    &&& entry.deletions == cp.deletions
    &&& entry.changed_files == cp.changed_files
    &&& entry.label == (match cp.label {
        Some(l) => label_of(l),
        None => None,
    })
}

/// A snapshot adds exactly one entry to the listing, itself, whether or not a file
/// changed; wherever among the refs its own is found, the other entries stay as they
/// are and in their order.
pub proof fn law_snapshot_adds_one_entry(
    refs: Seq<RefRecord>,
    at: int,
    r: RefRecord,
    cp: InfoView,
    id_ms: u64,
    message_ms: u64,
    old: Seq<InfoView>,
    new: Seq<InfoView>,
) -> (k: int)
    requires
        0 <= at <= refs.len(),
        is_record_of(r, cp, id_ms, message_ms),
        is_listing(checkpoints_of(refs), old),
        is_listing(checkpoints_of(refs.insert(at, r)), new),
    ensures
        0 <= k < new.len(),
        is_shown_as(new[k], cp),
        new.remove(k) == old,
        new.len() == old.len() + 1,
{
    law_snapshot_is_listed(r, cp.label, id_ms, message_ms);
    let c = checkpoint_of(r).unwrap();
    let before = refs.take(at);
    let after = refs.skip(at);
    let one = seq![r];
    assert(refs =~= before + after);
    assert(refs.insert(at, r) =~= before + (one + after));
    lemma_checkpoints_concat(before, after);
    lemma_checkpoints_concat(one, after);
    lemma_checkpoints_concat(before, one + after);
    assert(one.drop_last() =~= Seq::<RefRecord>::empty());
    assert(checkpoints_of(one.drop_last()) =~= Seq::<InfoView>::empty());
    assert(checkpoints_of(one) =~= seq![c]);
    let found = checkpoints_of(refs);
    let pos = checkpoints_of(before).len() as int;
    assert(checkpoints_of(refs.insert(at, r)) =~= found.insert(pos, c));
    let k = lemma_listing_without(found, pos, c, new);
    law_listing_is_unique(found, new.remove(k), old);
    k
}

/// A listing has the elements that were found, and no other.
proof fn lemma_listing_contains(found: Seq<InfoView>, out: Seq<InfoView>, x: InfoView)
    requires
        is_listing(found, out),
    ensures
        out.contains(x) == found.contains(x),
        out.len() == found.len(),
{
    let order = choose|order: Seq<int>| #[trigger] is_listing_by(found, out, order);
    if out.contains(x) {
        let k = choose|k: int| 0 <= k < out.len() && out[k] == x;
        assert(found[order[k]] == x && 0 <= order[k] < found.len());
    }
    if found.contains(x) {
        let i = choose|i: int| 0 <= i < found.len() && found[i] == x;
        lemma_order_covers(found, order, i);
        let k = choose|k: int| 0 <= k < order.len() && #[trigger] order[k] == i;
        assert(out[k] == x);
    }
}

/// The checkpoints that were found are those that some ref stands for.
proof fn lemma_found(refs: Seq<RefRecord>, x: InfoView)
    ensures
        checkpoints_of(refs).contains(x) == exists|i: int|
            0 <= i < refs.len() && checkpoint_of(#[trigger] refs[i]) == Some(x),
    decreases refs.len(),
{
    if refs.len() > 0 {
        let front = refs.drop_last();
        let rest = checkpoints_of(front);
        let all = checkpoints_of(refs);
        lemma_found(front, x);
        if rest.contains(x) {
            let k = choose|k: int| 0 <= k < rest.len() && rest[k] == x;
            assert(all[k] == x);
            let i = choose|i: int| 0 <= i < front.len() && checkpoint_of(#[trigger] front[i]) == Some(x);
            assert(checkpoint_of(refs[i]) == Some(x));
        }
        if checkpoint_of(refs.last()) == Some(x) {
            assert(all[all.len() - 1] == x);
            assert(checkpoint_of(refs[refs.len() - 1]) == Some(x));
        }
        if all.contains(x) {
            let k = choose|k: int| 0 <= k < all.len() && all[k] == x;
            if k < rest.len() {
                assert(rest[k] == x);
            }
        }
        if exists|i: int| 0 <= i < refs.len() && checkpoint_of(#[trigger] refs[i]) == Some(x) {
            let i = choose|i: int| 0 <= i < refs.len() && checkpoint_of(#[trigger] refs[i]) == Some(x);
            if i < front.len() {
                assert(checkpoint_of(front[i]) == Some(x));
            }
        }
    }
}

/// Two readings of the same refs: with their times, and for the listing.
pub open spec fn same_refs(stamps: Seq<RefStamp>, refs: Seq<RefRecord>) -> bool {
    &&& stamps.len() == refs.len()
    &&& forall|i: int|
        0 <= i < refs.len() ==> {
            &&& opt_text((#[trigger] stamps[i]).name) == opt_text(refs[i].name)
            &&& opt_text(stamps[i].target) == opt_text(refs[i].target)
            &&& stamps[i].seconds == (match refs[i].commit {
                Some(c) => Some(c.seconds),
                None => None,
            })
        }
}

/// The parent of a snapshot is the latest checkpoint: it has none exactly where the
/// listing is empty, and otherwise it is a listed commit that no other is later than,
/// where every ref with a commit that can be read stands for a checkpoint.
pub proof fn law_parent_is_latest_listed(
    stamps: Seq<RefStamp>,
    refs: Seq<RefRecord>,
    parent: Option<Seq<char>>,
    listing: Seq<InfoView>,
)
    requires
        same_refs(stamps, refs),
        is_latest_commit(stamps, parent),
        is_listing(checkpoints_of(refs), listing),
        forall|i: int|
            0 <= i < refs.len() && (#[trigger] stamps[i]).is_dated() ==> checkpoint_of(
                refs[i],
            ) is Some,
        forall|i: int| 0 <= i < refs.len() ==> time_fits(#[trigger] refs[i]),
    ensures
        parent is None <==> listing.len() == 0,
        parent matches Some(c) ==> exists|k: int|
            0 <= k < listing.len() && (#[trigger] listing[k]).commit == c && forall|j: int|
                0 <= j < listing.len() ==> (#[trigger] listing[j]).created_at_ms
                    <= listing[k].created_at_ms,
{
    let found = checkpoints_of(refs);
    assert forall|x: InfoView| listing.contains(x) implies exists|i: int|
        0 <= i < refs.len() && (#[trigger] stamps[i]).is_dated() && checkpoint_of(refs[i])
            == Some(x) by {
        lemma_listing_contains(found, listing, x);
        lemma_found(refs, x);
        let i = choose|i: int| 0 <= i < refs.len() && checkpoint_of(#[trigger] refs[i]) == Some(x);
        assert(stamps[i].is_dated());
    }
    match parent {
        None => {
            if listing.len() > 0 {
                assert(listing.contains(listing[0]));
            }
        },
        Some(c) => {
            let i = choose|i: int| #[trigger] is_latest(stamps, i) && stamps[i].target.unwrap()@ == c;
            assert(stamps[i].is_dated());
            let x = checkpoint_of(refs[i]).unwrap();
            lemma_found(refs, x);
            lemma_listing_contains(found, listing, x);
            assert(checkpoint_of(refs[i]) == Some(x));
            let k = choose|k: int| 0 <= k < listing.len() && listing[k] == x;
            assert(time_fits(refs[i]));
            assert forall|j: int| 0 <= j < listing.len() implies (
            #[trigger] listing[j]).created_at_ms <= listing[k].created_at_ms by {
                assert(listing.contains(listing[j]));
                let m = choose|m: int|
                    0 <= m < refs.len() && (#[trigger] stamps[m]).is_dated() && checkpoint_of(refs[m])
                        == Some(listing[j]);
                assert(time_fits(refs[m]));
                assert(stamps[m].time() <= stamps[i].time());
            }
            assert(listing[k].commit == c);
        },
    }
}

/// A ref is none of those named.
pub open spec fn is_unnamed(r: RefRecord, names: Seq<Seq<char>>) -> bool {
    match r.name {
        Some(n) => !names.contains(n@),
        None => true,
    }
}

/// The refs that are left after those with the given names were deleted.
pub open spec fn refs_without(refs: Seq<RefRecord>, names: Seq<Seq<char>>) -> Seq<RefRecord> {
    refs.filter(|r: RefRecord| is_unnamed(r, names))
}

/// A checkpoint is younger than the cutoff of a pruning pass.
pub open spec fn is_young(c: InfoView, cutoff: u64) -> bool {
    c.created_at_ms > cutoff * 1000
}

/// The checkpoints that are younger than the cutoff, in their order.
pub open spec fn young_ones(listing: Seq<InfoView>, cutoff: u64) -> Seq<InfoView> {
    listing.filter(|c: InfoView| is_young(c, cutoff))
}

/// The refs that are left stand for the checkpoints that are left.
proof fn lemma_checkpoints_left(refs: Seq<RefRecord>, names: Seq<Seq<char>>, cutoff: u64)
    requires
        forall|i: int|
            0 <= i < refs.len() && checkpoint_of(#[trigger] refs[i]) is Some ==> is_unnamed(
                refs[i],
                names,
            ) == is_young(checkpoint_of(refs[i]).unwrap(), cutoff),
    ensures
        checkpoints_of(refs_without(refs, names)) == young_ones(checkpoints_of(refs), cutoff),
    decreases refs.len(),
{
    reveal(Seq::filter);
    if refs.len() > 0 {
        let front = refs.drop_last();
        let last = refs.last();
        assert forall|i: int|
            0 <= i < front.len() && checkpoint_of(#[trigger] front[i]) is Some implies is_unnamed(
            front[i],
            names,
        ) == is_young(checkpoint_of(front[i]).unwrap(), cutoff) by {
            assert(front[i] == refs[i]);
        }
        lemma_checkpoints_left(front, names, cutoff);
        assert(refs[refs.len() - 1] == last);
        let left = refs_without(front, names);
        let found = checkpoints_of(front);
        assert(left.push(last).drop_last() =~= left);
        if let Some(c) = checkpoint_of(last) {
            assert(found.push(c).drop_last() =~= found);
        }
    }
}

/// Taking out an element that a filter drops does not change what it keeps.
proof fn lemma_filter_without(s: Seq<InfoView>, k: int, cutoff: u64)
    requires
        0 <= k < s.len(),
        !is_young(s[k], cutoff),
    ensures
        young_ones(s.remove(k), cutoff) == young_ones(s, cutoff),
{
    reveal(Seq::filter);
    let f = |c: InfoView| is_young(c, cutoff);
    let a = s.take(k);
    let x = seq![s[k]];
    let b = s.skip(k + 1);
    assert(s =~= a + (x + b));
    assert(s.remove(k) =~= a + b);
    Seq::filter_distributes_over_add(a, x + b, f);
    Seq::filter_distributes_over_add(x, b, f);
    Seq::filter_distributes_over_add(a, b, f);
    assert(x.drop_last() =~= Seq::<InfoView>::empty());
    assert(x.drop_last().filter(f) =~= Seq::<InfoView>::empty());
    assert(x.filter(f) =~= Seq::<InfoView>::empty());
    assert(x.filter(f) + b.filter(f) =~= b.filter(f));
}

/// A filter that drops nothing keeps all.
proof fn lemma_all_young(s: Seq<InfoView>, cutoff: u64)
    requires
        forall|i: int| 0 <= i < s.len() ==> is_young(#[trigger] s[i], cutoff),
    ensures
        young_ones(s, cutoff) == s,
    decreases s.len(),
{
    reveal(Seq::filter);
    if s.len() > 0 {
        let front = s.drop_last();
        assert forall|i: int| 0 <= i < front.len() implies is_young(#[trigger] front[i], cutoff) by {
            assert(front[i] == s[i]);
        }
        lemma_all_young(front, cutoff);
        assert(is_young(s[s.len() - 1], cutoff));
        assert(front.push(s.last()) =~= s);
    }
}

/// The listing of the young ones is the listing without the others.
proof fn lemma_young_listing(found: Seq<InfoView>, old: Seq<InfoView>, cutoff: u64)
    requires
        is_listing(found, old),
    ensures
        is_listing(young_ones(found, cutoff), young_ones(old, cutoff)),
    decreases found.len(),
{
    if forall|i: int| 0 <= i < found.len() ==> is_young(#[trigger] found[i], cutoff) {
        lemma_all_young(found, cutoff);
        assert forall|k: int| 0 <= k < old.len() implies is_young(#[trigger] old[k], cutoff) by {
            lemma_listing_contains(found, old, old[k]);
            assert(old.contains(old[k]));
            let i = choose|i: int| 0 <= i < found.len() && found[i] == old[k];
            assert(is_young(found[i], cutoff));
        }
        lemma_all_young(old, cutoff);
    } else {
        let i = choose|i: int| 0 <= i < found.len() && !is_young(#[trigger] found[i], cutoff);
        let rest = found.remove(i);
        assert(rest.insert(i, found[i]) =~= found);
        let k = lemma_listing_without(rest, i, found[i], old);
        lemma_young_listing(rest, old.remove(k), cutoff);
        lemma_filter_without(found, i, cutoff);
        lemma_filter_without(old, k, cutoff);
    }
}

/// Pruning takes the stale checkpoints out of the listing and no other: where the refs
/// that a pass names were deleted, the listing is what it was without the checkpoints
/// that are not younger than the cutoff, the others in their order. No two refs have
/// the same name.
pub proof fn law_pruning_leaves_the_young(
    stamps: Seq<RefStamp>,
    refs: Seq<RefRecord>,
    cutoff: u64,
    old: Seq<InfoView>,
    new: Seq<InfoView>,
)
    requires
        same_refs(stamps, refs),
        forall|i: int, j: int|
            0 <= i < j < refs.len() && (#[trigger] refs[i]).name is Some && (
            #[trigger] refs[j]).name is Some ==> refs[i].name.unwrap()@ != refs[j].name.unwrap()@,
        forall|i: int| 0 <= i < refs.len() ==> time_fits(#[trigger] refs[i]),
        is_listing(checkpoints_of(refs), old),
        is_listing(checkpoints_of(refs_without(refs, stale_names(stamps, cutoff))), new),
    ensures
        new == young_ones(old, cutoff),
{
    let names = stale_names(stamps, cutoff);
    assert forall|i: int|
        0 <= i < refs.len() && checkpoint_of(#[trigger] refs[i]) is Some implies is_unnamed(
        refs[i],
        names,
    ) == is_young(checkpoint_of(refs[i]).unwrap(), cutoff) by {
        let n = refs[i].name.unwrap()@;
        law_gc_names_exactly_the_stale(stamps, cutoff, n);
        assert(time_fits(refs[i]));
        assert(opt_text(stamps[i].name) == opt_text(refs[i].name));
        if names.contains(n) {
            let j = choose|j: int|
                0 <= j < stamps.len() && is_stale(#[trigger] stamps[j], cutoff)
                    && stamps[j].name.unwrap()@ == n;
            assert(opt_text(stamps[j].name) == opt_text(refs[j].name));
            if j < i {
                assert(refs[j].name.unwrap()@ != refs[i].name.unwrap()@);
            } else if i < j {
                assert(refs[i].name.unwrap()@ != refs[j].name.unwrap()@);
            }
        } else {
            assert(!is_stale(stamps[i], cutoff));
        }
    }
    lemma_checkpoints_left(refs, names, cutoff);
    lemma_young_listing(checkpoints_of(refs), old, cutoff);
    law_listing_is_unique(young_ones(checkpoints_of(refs), cutoff), new, young_ones(old, cutoff));
}

// ---- finding a checkpoint ----

/// The ids that begin with `prefix`, in the order of the checkpoints.
pub open spec fn matching_ids(items: Seq<CheckpointInfo>, prefix: Seq<char>) -> Seq<Seq<char>>
    decreases items.len(),
{
    if items.len() == 0 {
        Seq::empty()
    } else {
        let rest = matching_ids(items.drop_last(), prefix);
        if has_prefix(items.last().id@, prefix) {
            rest.push(items.last().id@)
        } else {
            rest
        }
    }
}

/// The id that `prefix` stands for, or why it stands for none.
pub open spec fn resolved(items: Seq<CheckpointInfo>, prefix: Seq<char>) -> Result<
    Seq<char>,
    Seq<char>,
> {
    let found = matching_ids(items, prefix);
    if found.len() == 0 {
        Err("no checkpoint matches `"@ + prefix + "`"@)
    } else if found.len() == 1 {
        Ok(found[0])
    } else {
        Err(
            "ambiguous prefix `"@ + prefix + "` matches "@ + decimal(found.len())
                + " checkpoints"@,
        )
    }
}

/// The id that `prefix` stands for: it has to be the beginning of exactly one.
pub fn resolve_id(items: &Vec<CheckpointInfo>, prefix: &str) -> (r: Result<String, String>)
    ensures
        match r {
            Ok(id) => resolved(items@, prefix@) == Ok::<Seq<char>, Seq<char>>(id@),
            Err(e) => resolved(items@, prefix@) == Err::<Seq<char>, Seq<char>>(e@),
        },
{
    let mut found: Vec<String> = Vec::new();
    let mut i: usize = 0;
    assert(matching_ids(items@.take(0), prefix@) =~= texts(found@));
    while i < items.len()
        invariant
            i <= items@.len(),
            texts(found@) == matching_ids(items@.take(i as int), prefix@),
        decreases items@.len() - i,
    {
        let ghost before = texts(found@);
        assert(items@.take(i + 1).drop_last() == items@.take(i as int));
        if starts_with(items[i].id.as_str(), prefix) {
            found.push(items[i].id.clone());
            assert(texts(found@) =~= before.push(items@[i as int].id@));
        }
        i += 1;
    }
    assert(items@.take(i as int) == items@);
    let ghost ids = texts(found@);
    assert(ids.len() == found@.len());
    if found.len() == 0 {
        let mut m = "no checkpoint matches `".to_string();
        m.append(prefix);
        m.append("`");
        Err(m)
    } else if found.len() == 1 {
        assert(ids[0] == found@[0]@);
        Ok(found[0].clone())
    } else {
        let mut m = "ambiguous prefix `".to_string();
        m.append(prefix);
        m.append("` matches ");
        m.append(decimal_text(found.len() as u64).as_str());
        m.append(" checkpoints");
        Err(m)
    }
}

/// The number of ids that begin with `prefix` is at most that of the checkpoints;
/// each of them is the id of a checkpoint.
proof fn lemma_matching(items: Seq<CheckpointInfo>, prefix: Seq<char>)
    ensures
        forall|k: int|
            0 <= k < matching_ids(items, prefix).len() ==> has_prefix(
                #[trigger] matching_ids(items, prefix)[k],
                prefix,
            ) && exists|i: int|
                0 <= i < items.len() && #[trigger] items[i].id@ == matching_ids(items, prefix)[k],
        (forall|i: int| 0 <= i < items.len() ==> !has_prefix(#[trigger] items[i].id@, prefix))
            ==> matching_ids(items, prefix).len() == 0,
    decreases items.len(),
{
    if items.len() > 0 {
        let front = items.drop_last();
        lemma_matching(front, prefix);
        let all = matching_ids(items, prefix);
        let rest = matching_ids(front, prefix);
        assert forall|k: int| 0 <= k < all.len() implies has_prefix(#[trigger] all[k], prefix)
            && exists|i: int| 0 <= i < items.len() && #[trigger] items[i].id@ == all[k] by {
            if k < rest.len() {
                assert(all[k] == rest[k]);
                let i = choose|i: int| 0 <= i < front.len() && #[trigger] front[i].id@ == rest[k];
                assert(items[i].id@ == all[k]);
            } else {
                assert(items[items.len() - 1].id@ == all[k]);
            }
        }
        if forall|i: int| 0 <= i < items.len() ==> !has_prefix(#[trigger] items[i].id@, prefix) {
            assert forall|i: int| 0 <= i < front.len() implies !has_prefix(
                #[trigger] front[i].id@,
                prefix,
            ) by {
                assert(front[i] == items[i]);
            }
            assert(!has_prefix(items[items.len() - 1].id@, prefix));
        }
    }
}

/// A beginning that one id has, and no other, stands for that id.
pub proof fn law_unique_prefix_resolves(items: Seq<CheckpointInfo>, prefix: Seq<char>, at: int)
    requires
        0 <= at < items.len(),
        has_prefix(items[at].id@, prefix),
        forall|i: int|
            0 <= i < items.len() && i != at ==> !has_prefix(#[trigger] items[i].id@, prefix),
    ensures
        resolved(items, prefix) == Ok::<Seq<char>, Seq<char>>(items[at].id@),
    decreases items.len(),
{
    let front = items.drop_last();
    assert forall|i: int| 0 <= i < front.len() && i != at implies !has_prefix(
        #[trigger] front[i].id@,
        prefix,
    ) by {
        assert(front[i] == items[i]);
    }
    if at == items.len() - 1 {
        lemma_matching(front, prefix);
        assert(matching_ids(items, prefix) =~= seq![items[at].id@]);
    } else {
        assert(front[at] == items[at]);
        law_unique_prefix_resolves(front, prefix, at);
        assert(!has_prefix(items[items.len() - 1].id@, prefix));
    }
}

/// The number of ids that begin with `prefix`, where two of them do.
proof fn lemma_two_match(items: Seq<CheckpointInfo>, prefix: Seq<char>, a: int, b: int)
    requires
        0 <= a < b < items.len(),
        has_prefix(items[a].id@, prefix),
        has_prefix(items[b].id@, prefix),
    ensures
        matching_ids(items, prefix).len() >= 2,
    decreases items.len(),
{
    let front = items.drop_last();
    if b < front.len() {
        assert(front[a] == items[a] && front[b] == items[b]);
        lemma_two_match(front, prefix, a, b);
    } else {
        assert(front[a] == items[a]);
        lemma_one_matches(front, prefix, a);
    }
}

proof fn lemma_one_matches(items: Seq<CheckpointInfo>, prefix: Seq<char>, a: int)
    requires
        0 <= a < items.len(),
        has_prefix(items[a].id@, prefix),
    ensures
        matching_ids(items, prefix).len() >= 1,
    decreases items.len(),
{
    if a < items.len() - 1 {
        assert(items.drop_last()[a] == items[a]);
        lemma_one_matches(items.drop_last(), prefix, a);
    }
}

/// A beginning that no id has, or that two have, stands for none.
pub proof fn law_other_prefix_is_refused(items: Seq<CheckpointInfo>, prefix: Seq<char>)
    requires
        (forall|i: int| 0 <= i < items.len() ==> !has_prefix(#[trigger] items[i].id@, prefix))
            || exists|a: int, b: int|
            0 <= a < b < items.len() && has_prefix(#[trigger] items[a].id@, prefix) && has_prefix(
                #[trigger] items[b].id@,
                prefix,
            ),
    ensures
        resolved(items, prefix) is Err,
{
    lemma_matching(items, prefix);
    if exists|a: int, b: int|
        0 <= a < b < items.len() && has_prefix(#[trigger] items[a].id@, prefix) && has_prefix(
            #[trigger] items[b].id@,
            prefix,
        ) {
        let (a, b) = choose|a: int, b: int|
            0 <= a < b < items.len() && has_prefix(#[trigger] items[a].id@, prefix) && has_prefix(
                #[trigger] items[b].id@,
                prefix,
            );
        lemma_two_match(items, prefix, a, b);
    }
}

/// What a beginning stands for is the id of a checkpoint, and begins with it.
pub proof fn law_resolved_is_listed(items: Seq<CheckpointInfo>, prefix: Seq<char>)
    requires
        resolved(items, prefix) is Ok,
    ensures
        has_prefix(resolved(items, prefix)->Ok_0, prefix),
        exists|i: int|
            0 <= i < items.len() && #[trigger] items[i].id@ == resolved(items, prefix)->Ok_0,
{
    lemma_matching(items, prefix);
    assert(has_prefix(matching_ids(items, prefix)[0], prefix));
}

// ---- laws of the records ----

/// What is known of a checkpoint is what it was made with.
pub proof fn law_checkpoint_is_what_it_holds(c: CheckpointInfo)
    ensures
        c@.id == c.id@,
        c@.commit == c.commit@,
        c@.created_at_ms == c.created_at_ms,
        c@.files_changed == c.files_changed,
        c@.insertions == c.insertions,
        c@.deletions == c.deletions,
        c.label matches Some(l) ==> c@.label == Some(l@),
        c.label is None ==> c@.label is None,
        c.parent_commit matches Some(p) ==> c@.parent_commit == Some(p@),
        c.parent_commit is None ==> c@.parent_commit is None,
        c@.changed_files.len() == c.changed_files@.len(),
        forall|i: int|
            0 <= i < c.changed_files@.len() ==> #[trigger] c@.changed_files[i]
                == c.changed_files@[i]@,
{
}

/// The paths of changed files: a file is listed under its new path, or under its old one
/// where it has no new one; one without either is left out, and so is no other.
pub proof fn law_changed_paths(deltas: Seq<DeltaPaths>, d: DeltaPaths)
    ensures
        delta_paths(Seq::empty()) == Seq::<Seq<char>>::empty(),
        d.new_path matches Some(p) ==> delta_paths(deltas.push(d)) == delta_paths(deltas).push(p@),
        d.new_path is None ==> (d.old_path matches Some(p) ==> delta_paths(deltas.push(d))
            == delta_paths(deltas).push(p@)),
        d.new_path is None && d.old_path is None ==> delta_paths(deltas.push(d)) == delta_paths(
            deltas,
        ),
{
    assert(deltas.push(d).drop_last() =~= deltas);
}

/// With a checkpoint the first fifty paths are listed, or all of them where there are no
/// more; the counts are those of the comparison, and zero where there is none.
pub proof fn law_statistics(s: DiffSummary)
    ensures
        delta_paths(s.deltas@).len() <= 50 ==> listed_paths(Some(s)) == delta_paths(s.deltas@),
        delta_paths(s.deltas@).len() > 50 ==> listed_paths(Some(s)) == delta_paths(s.deltas@).take(
            50,
        ),
        listed_paths(None).len() == 0,
        s.totals matches Some(t) ==> t.0 <= u32::MAX && t.1 <= u32::MAX && t.2 <= u32::MAX ==> ({
            let n = totals_of(Some(s));
            n.0 == t.0 && n.1 == t.1 && n.2 == t.2
        }),
        s.totals is None ==> totals_of(Some(s)) == (0u32, 0u32, 0u32),
        totals_of(None) == (0u32, 0u32, 0u32),
{
    let all = delta_paths(s.deltas@);
    if all.len() <= 50 {
        assert(all.take(all.len() as int) =~= all);
    }
}

/// Of a list of paths those stay, in their order, that are gone.
pub proof fn law_gone_paths_in_order(paths: Seq<Seq<char>>, flags: Seq<bool>, p: Seq<char>)
    requires
        paths.len() == flags.len(),
    ensures
        unflagged(Seq::empty(), Seq::empty()) == Seq::<Seq<char>>::empty(),
        unflagged(paths.push(p), flags.push(true)) == unflagged(paths, flags),
        unflagged(paths.push(p), flags.push(false)) == unflagged(paths, flags).push(p),
{
    assert(paths.push(p).drop_last() =~= paths);
    lemma_flags(paths, flags, flags.push(true));
    lemma_flags(paths, flags, flags.push(false));
}

proof fn lemma_flags(paths: Seq<Seq<char>>, a: Seq<bool>, b: Seq<bool>)
    requires
        paths.len() <= a.len(),
        paths.len() <= b.len(),
        forall|i: int| 0 <= i < paths.len() ==> a[i] == b[i],
    ensures
        unflagged(paths, a) == unflagged(paths, b),
    decreases paths.len(),
{
    if paths.len() > 0 {
        lemma_flags(paths.drop_last(), a, b);
    }
}

/// The time of a commit is the number of its seconds; one before 1970 is that number and
/// 2^64.
pub proof fn law_stamps(seconds: i64)
    ensures
        seconds >= 0 ==> stamp_of(seconds) == seconds,
        seconds < 0 ==> stamp_of(seconds) as int == seconds + 0x1_0000_0000_0000_0000,
{
}

/// The latest commit is one that a ref points at and whose time can be read, none is later,
/// and of those with the same time none stands behind it; without such a commit there is
/// none.
pub proof fn law_latest_commit(refs: Seq<RefStamp>, oid: Option<Seq<char>>)
    requires
        is_latest_commit(refs, oid),
    ensures
        oid is None <==> forall|j: int|
            0 <= j < refs.len() ==> !((#[trigger] refs[j]).target is Some && refs[j].seconds is Some),
        oid matches Some(c) ==> exists|i: int|
            0 <= i < refs.len() && (#[trigger] refs[i]).target is Some && refs[i].seconds is Some
                && refs[i].target.unwrap()@ == c && forall|j: int|
                0 <= j < refs.len() && (#[trigger] refs[j]).target is Some
                    && refs[j].seconds is Some ==> {
                    &&& stamp_of(refs[j].seconds.unwrap()) <= stamp_of(refs[i].seconds.unwrap())
                    &&& j > i ==> stamp_of(refs[j].seconds.unwrap()) < stamp_of(
                        refs[i].seconds.unwrap(),
                    )
                },
{
    match oid {
        Some(c) => {
            let i = choose|i: int| #[trigger] is_latest(refs, i) && refs[i].target.unwrap()@ == c;
            assert(refs[i].is_dated());
            assert forall|j: int|
                0 <= j < refs.len() && (#[trigger] refs[j]).target is Some
                    && refs[j].seconds is Some implies {
                &&& stamp_of(refs[j].seconds.unwrap()) <= stamp_of(refs[i].seconds.unwrap())
                &&& j > i ==> stamp_of(refs[j].seconds.unwrap()) < stamp_of(
                    refs[i].seconds.unwrap(),
                )
            } by {
                assert(refs[j].is_dated());
            }
        },
        None => {
            assert forall|j: int| 0 <= j < refs.len() implies !((#[trigger] refs[j]).target is Some
                && refs[j].seconds is Some) by {
                assert(!refs[j].is_dated());
            }
        },
    }
}

/// A ref stands for a checkpoint exactly where it has the name of one and points at a
/// commit that can be read; the checkpoint is then what the ref and the commit say.
pub proof fn law_checkpoint_of_a_ref(r: RefRecord)
    ensures
        checkpoint_of(r) is Some <==> r.name is Some && r.target is Some && r.commit is Some
            && ref_id(r.name.unwrap()@) is Some,
        checkpoint_of(r) matches Some(cp) ==> {
            let c = r.commit.unwrap();
            &&& ref_id(r.name.unwrap()@) == Some(cp.id)
            &&& cp.commit == r.target.unwrap()@
            &&& c.message matches Some(m) ==> cp.label == label_of(m@)
            &&& c.message is None ==> cp.label == Some(Seq::<char>::empty())
            &&& c.parent matches Some(p) ==> cp.parent_commit == Some(p@)
            &&& c.parent is None ==> cp.parent_commit is None
            &&& 0 <= c.seconds <= 18_446_744_073_709_551 ==> cp.created_at_ms == c.seconds * 1000
            &&& cp.files_changed == c.stats.files_changed
            &&& cp.insertions == c.stats.insertions
            &&& cp.deletions == c.stats.deletions
            &&& cp.changed_files == texts(c.stats.changed_files@)
        },
{
    reveal_strlit("snapshot @");
    reveal_strlit("stash before");
    let e = Seq::<char>::empty();
    assert(!has_prefix(e, "snapshot @"@) && !has_prefix(e, "stash before"@));
    assert(trim_of(e) =~= e);
}

/// Every ref that stands for a checkpoint is in the listing, the listing has nothing else,
/// and one entry for each such ref.
pub proof fn law_every_checkpoint_is_listed(refs: Seq<RefRecord>, out: Seq<InfoView>, more: RefRecord)
    requires
        is_listing(checkpoints_of(refs), out),
    ensures
        forall|i: int|
            0 <= i < refs.len() && checkpoint_of(#[trigger] refs[i]) is Some ==> out.contains(
                checkpoint_of(refs[i]).unwrap(),
            ),
        forall|k: int|
            0 <= k < out.len() ==> exists|i: int|
                0 <= i < refs.len() && checkpoint_of(#[trigger] refs[i]) == Some(#[trigger] out[k]),
        out.len() == checkpoints_of(refs).len(),
        checkpoints_of(refs.push(more)).len() == checkpoints_of(refs).len() + (if checkpoint_of(
            more,
        ) is Some {
            1int
        } else {
            0int
        }),
{
    let found = checkpoints_of(refs);
    assert(refs.push(more).drop_last() =~= refs);
    assert forall|i: int| 0 <= i < refs.len() && checkpoint_of(#[trigger] refs[i]) is Some implies
        out.contains(checkpoint_of(refs[i]).unwrap()) by {
        let x = checkpoint_of(refs[i]).unwrap();
        lemma_found(refs, x);
        lemma_listing_contains(found, out, x);
    }
    assert forall|k: int| 0 <= k < out.len() implies exists|i: int|
        0 <= i < refs.len() && checkpoint_of(#[trigger] refs[i]) == Some(#[trigger] out[k]) by {
        let x = out[k];
        lemma_listing_contains(found, out, x);
        assert(out.contains(x));
        lemma_found(refs, x);
    }
    if out.len() > 0 {
        lemma_listing_contains(found, out, out[0]);
    } else if found.len() > 0 {
        lemma_listing_contains(found, out, found[0]);
    }
}

/// A ref is pruned exactly where it has a name, points at a commit that can be read, and
/// that commit is as old as the limit; pruned refs are named in their order.
pub proof fn law_pruned_refs(refs: Seq<RefStamp>, r: RefStamp, now_secs: u64, max_age_secs: u64)
    requires
        max_age_secs <= now_secs,
    ensures
        ({
            let cutoff = cutoff_of(now_secs, max_age_secs);
            let old = r.name is Some && r.target is Some && r.seconds is Some && stamp_of(
                r.seconds.unwrap(),
            ) + max_age_secs <= now_secs;
            &&& stale_names(Seq::empty(), cutoff) == Seq::<Seq<char>>::empty()
            &&& old ==> stale_names(refs.push(r), cutoff) == stale_names(refs, cutoff).push(
                r.name.unwrap()@,
            )
            &&& !old ==> stale_names(refs.push(r), cutoff) == stale_names(refs, cutoff)
        }),
{
    assert(refs.push(r).drop_last() =~= refs);
}

/// Each success is counted, and nothing else.
pub proof fn law_successes(outcomes: Seq<bool>)
    ensures
        successes(Seq::empty()) == 0,
        successes(outcomes.push(true)) == successes(outcomes) + 1,
        successes(outcomes.push(false)) == successes(outcomes),
{
    assert(outcomes.push(true).drop_last() =~= outcomes);
    assert(outcomes.push(false).drop_last() =~= outcomes);
}

/// A message is a label as long as it is not one that the engine writes itself.
pub proof fn law_engine_messages_are_no_labels(rest: Seq<char>, message: Seq<char>)
    ensures
        label_of("snapshot @"@ + rest) is None,
        label_of("stash before"@ + rest) is None,
        (forall|t: Seq<char>| message != #[trigger] ("snapshot @"@ + t)) && (forall|t: Seq<char>|
            message != #[trigger] ("stash before"@ + t)) ==> label_of(message) == Some(
            trim_of(message),
        ),
{
    law_prefix(rest, "snapshot @"@);
    law_prefix(rest, "stash before"@);
    law_prefix(message, "snapshot @"@);
    law_prefix(message, "stash before"@);
}

/// The ids that begin with a text are found in the order of the checkpoints, all of them
/// and no other.
pub proof fn law_matching_ids(items: Seq<CheckpointInfo>, c: CheckpointInfo, prefix: Seq<char>)
    ensures
        matching_ids(Seq::empty(), prefix) == Seq::<Seq<char>>::empty(),
        (exists|t: Seq<char>| c.id@ == #[trigger] (prefix + t)) ==> matching_ids(
            items.push(c),
            prefix,
        ) == matching_ids(items, prefix).push(c.id@),
        !(exists|t: Seq<char>| c.id@ == #[trigger] (prefix + t)) ==> matching_ids(
            items.push(c),
            prefix,
        ) == matching_ids(items, prefix),
{
    assert(items.push(c).drop_last() =~= items);
    law_prefix(c.id@, prefix);
}

/// Why a text stands for no checkpoint is said with the text and, where it stands for more
/// than one, with their number.
pub proof fn law_refusals_are_explained(items: Seq<CheckpointInfo>, prefix: Seq<char>)
    ensures
        matching_ids(items, prefix).len() == 0 <==> resolved(items, prefix) == Err::<
            Seq<char>,
            Seq<char>,
        >("no checkpoint matches `"@ + prefix + "`"@),
        matching_ids(items, prefix).len() == 1 <==> resolved(items, prefix) is Ok,
        matching_ids(items, prefix).len() > 1 ==> resolved(items, prefix) == Err::<
            Seq<char>,
            Seq<char>,
        >(
            "ambiguous prefix `"@ + prefix + "` matches "@ + decimal(
                matching_ids(items, prefix).len(),
            ) + " checkpoints"@,
        ),
{
    reveal_strlit("no checkpoint matches `");
    reveal_strlit("ambiguous prefix `");
    let n = matching_ids(items, prefix).len();
    if n > 1 {
        let a = "no checkpoint matches `"@ + prefix + "`"@;
        let b = "ambiguous prefix `"@ + prefix + "` matches "@ + decimal(n) + " checkpoints"@;
        assert(a[0] == 'n' && b[0] == 'a');
    }
}

/// Old checkpoints are looked for once a day, and are those of thirty days and more.
pub proof fn law_pruning_rounds()
    ensures
        GC_INTERVAL_SECS == 86_400,
        DEFAULT_GC_RETENTION_DAYS == 30,
        MAX_LISTED_FILES == 50,
{
}

/// The time of a ref can be held where it stands for no checkpoint, or where the seconds of
/// its commit are not negative and can be told in milliseconds.
pub proof fn law_times_that_fit(r: RefRecord)
    ensures
        checkpoint_of(r) is None ==> time_fits(r),
        checkpoint_of(r) is Some ==> (time_fits(r) <==> 0 <= r.commit.unwrap().seconds
            <= 18_446_744_073_709_551),
{
}

} // verus!
