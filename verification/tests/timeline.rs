//! Scenarios over a workspace that is kept in memory: what the library decides is
//! applied to a map from paths to contents.

use std::collections::BTreeMap;

use gloss::checkpoint::{
    build_commit, deleted_count, deleted_paths, CommitRecord, CommitStats, IndexPlan, RefRecord,
    RefStamp,
};
use gloss::diff::{DeltaRecord, DeltaStatus};
use gloss::ids::{ref_name, stash_ref_name};
use gloss::paths::{should_skip_path, DirEntry, EntryKind, FileMeta, Sweep};
use gloss::restore::{
    checkout_plan, removal_plan, stash_outcome, stash_parent, stash_start, stash_uncommitted,
    tracked_files, CheckoutPlan, TreeEntry,
};
use gloss::{diff, gc_stale_refs, list, restore, snapshot, FileStatus, RestoreReport};

type Files = BTreeMap<String, Vec<u8>>;

fn write(w: &mut Files, path: &str, text: &str) {
    w.insert(path.to_string(), text.as_bytes().to_vec());
}

fn read(w: &Files, path: &str) -> String {
    String::from_utf8(w[path].clone()).unwrap()
}

fn meta(bytes: &Vec<u8>) -> Option<FileMeta> {
    Some(FileMeta { is_symlink: false, is_file: true, len: bytes.len() as u64 })
}

/// The contents that a full snapshot of the workspace records.
fn record(w: &Files) -> Files {
    w.iter()
        .filter(|(p, b)| !should_skip_path(p, meta(b)))
        .map(|(p, b)| (p.clone(), b.clone()))
        .collect()
}

/// The contents that a snapshot records when the changed paths are known.
fn record_changed(parent: &Files, w: &Files, changed: &Vec<String>) -> Files {
    match build_commit(Some("parent"), Some(changed)) {
        IndexPlan::Full => record(w),
        IndexPlan::Incremental { parent: commit, paths } => {
            assert_eq!(commit, "parent");
            let mut tree = parent.clone();
            for p in &paths {
                if let Some(b) = w.get(p) {
                    if !should_skip_path(p, meta(b)) {
                        tree.insert(p.clone(), b.clone());
                    }
                }
            }
            let present: Vec<bool> = paths.iter().map(|p| w.contains_key(p)).collect();
            for p in deleted_paths(&paths, &present) {
                tree.remove(&p);
            }
            tree
        }
    }
}

/// The entries of a directory, files first.
fn list_dir(w: &Files, dir: &str) -> Vec<DirEntry> {
    let start = if dir.is_empty() { String::new() } else { format!("{}/", dir) };
    let mut files: Vec<DirEntry> = Vec::new();
    let mut dirs: Vec<String> = Vec::new();
    for (p, b) in w {
        if let Some(rest) = p.strip_prefix(start.as_str()) {
            match rest.split_once('/') {
                None => files.push(DirEntry {
                    name: rest.to_string(),
                    kind: EntryKind::File,
                    len: Some(b.len() as u64),
                }),
                Some((d, _)) => {
                    if !dirs.contains(&d.to_string()) {
                        dirs.push(d.to_string());
                    }
                }
            }
        }
    }
    for d in dirs {
        files.push(DirEntry { name: d, kind: EntryKind::Dir, len: None });
    }
    files
}

fn sweep(w: &Files) -> Vec<String> {
    let mut s = Sweep::new();
    s.enter("", &list_dir(w, ""));
    while let Some(dir) = s.next_dir() {
        let entries = list_dir(w, &dir);
        s.enter(&dir, &entries);
    }
    s.into_found()
}

fn tree_entries(tree: &Files) -> Vec<TreeEntry> {
    tree.keys()
        .map(|p| match p.rsplit_once('/') {
            Some((dir, name)) => TreeEntry {
                dir: format!("{}/", dir),
                is_blob: true,
                name: Some(name.to_string()),
            },
            None => TreeEntry { dir: String::new(), is_blob: true, name: Some(p.clone()) },
        })
        .collect()
}

fn restore_files(
    w: &mut Files,
    tree: &Files,
    paths: Option<&Vec<String>>,
    stash: Result<Option<String>, String>,
) -> Result<RestoreReport, String> {
    let held = tracked_files(&tree_entries(tree));
    let mut report = restore(&held, paths, stash)?;
    let written = match checkout_plan(&held, paths) {
        CheckoutPlan::All => held.clone(),
        CheckoutPlan::Files(files) => files,
        CheckoutPlan::Nothing => Vec::new(),
    };
    for p in &written {
        w.insert(p.clone(), tree[p].clone());
    }
    for p in removal_plan(&held, paths, &sweep(w)) {
        let removed = w.remove(&p).is_some();
        report.note_removal(&p, removed);
    }
    Ok(report)
}

fn no_stats() -> CommitStats {
    CommitStats::default()
}

fn ref_record(id: &str, message: &str, seconds: i64) -> RefRecord {
    RefRecord {
        name: Some(ref_name(id)),
        target: Some("c0ffee00".to_string()),
        commit: Some(CommitRecord {
            message: Some(message.to_string()),
            seconds,
            parent: None,
            stats: no_stats(),
        }),
    }
}

#[test]
fn snapshot_then_restore_roundtrips_file_contents() {
    let mut w = Files::new();
    write(&mut w, "a.txt", "hello");
    write(&mut w, "sub/b.txt", "world");
    let cp = record(&w);

    write(&mut w, "a.txt", "MUTATED");
    write(&mut w, "c.txt", "added");
    w.remove("sub/b.txt");

    let report = restore_files(&mut w, &cp, None, Ok(None)).unwrap();
    assert!(report.restored_files.iter().any(|f| f == "a.txt"));
    assert!(report.restored_files.iter().any(|f| f.ends_with("b.txt")));
    assert_eq!(report.removed_files, vec!["c.txt".to_string()]);
    assert_eq!(read(&w, "a.txt"), "hello");
    assert_eq!(read(&w, "sub/b.txt"), "world");
    assert!(!w.contains_key("c.txt"));
    assert_eq!(record(&w), cp);
}

#[test]
fn list_returns_newest_first_with_labels() {
    let a = snapshot(Some("first".to_string()), "aaaaaaaa11", None, 1000, 1000, no_stats());
    let b = snapshot(Some("second".to_string()), "bbbbbbbb22", None, 1002, 1002, no_stats());
    let refs = vec![ref_record(&a.id, "first", 1), ref_record(&b.id, "second", 1)];
    let snaps = list(&refs);
    assert_eq!(snaps.len(), 2);
    assert_eq!(snaps[0].id, b.id, "newest must be first");
    assert_eq!(snaps[0].label.as_deref(), Some("second"));
    assert_eq!(snaps[1].label.as_deref(), Some("first"));
}

#[test]
fn incremental_snapshot_preserves_unrelated_files() {
    let mut w = Files::new();
    write(&mut w, "touched.txt", "v1");
    write(&mut w, "untouched.txt", "STAYS");
    write(&mut w, "sub/deep.txt", "DEEP");
    let first = record(&w);

    write(&mut w, "touched.txt", "v2");
    let cp = record_changed(&first, &w, &vec!["touched.txt".to_string()]);
    assert_eq!(cp, record(&w));

    write(&mut w, "touched.txt", "AFTER");
    write(&mut w, "untouched.txt", "AFTER");
    write(&mut w, "sub/deep.txt", "AFTER");
    restore_files(&mut w, &cp, None, Ok(None)).unwrap();
    assert_eq!(read(&w, "touched.txt"), "v2");
    assert_eq!(read(&w, "untouched.txt"), "STAYS");
    assert_eq!(read(&w, "sub/deep.txt"), "DEEP");
}

#[test]
fn incremental_snapshot_drops_deleted_files() {
    let mut w = Files::new();
    write(&mut w, "a", "1");
    write(&mut w, "b", "2");
    let first = record(&w);
    w.remove("a");
    let cp = record_changed(&first, &w, &vec!["a".to_string()]);
    assert_eq!(cp, record(&w));
    assert!(!cp.contains_key("a"));
}

#[test]
fn excluded_dirs_survive_restore() {
    let mut w = Files::new();
    w.insert("node_modules/junk/big.bin".to_string(), vec![0u8; 1024]);
    write(&mut w, "keep.txt", "yes");
    let cp = record(&w);
    assert_eq!(cp.len(), 1);

    write(&mut w, "keep.txt", "no");
    write(&mut w, "node_modules/junk/sentinel", "alive");
    restore_files(&mut w, &cp, None, Ok(None)).unwrap();
    assert_eq!(read(&w, "keep.txt"), "yes");
    assert!(w.contains_key("node_modules/junk/sentinel"));
}

#[test]
fn a_file_named_like_an_excluded_directory_is_recorded() {
    let mut w = Files::new();
    write(&mut w, "build", "a script");
    write(&mut w, "sub/dist", "data");
    write(&mut w, ".git", "gitdir: elsewhere");
    let cp = record(&w);
    assert_eq!(cp.len(), 2);
    write(&mut w, "build", "changed");
    w.remove("sub/dist");
    write(&mut w, "target", "new");
    let aside = record(&w);
    let report = restore_files(&mut w, &cp, None, Ok(Some("0c".to_string()))).unwrap();
    assert_eq!(read(&w, "build"), "a script");
    assert_eq!(read(&w, "sub/dist"), "data");
    assert_eq!(read(&w, ".git"), "gitdir: elsewhere");
    assert_eq!(report.removed_files, vec!["target".to_string()]);
    assert_eq!(read(&aside, "build"), "changed");
    assert_eq!(read(&aside, "target"), "new");
}

#[test]
fn partial_restore_touches_nothing_else() {
    let mut w = Files::new();
    write(&mut w, "a", "1");
    write(&mut w, "b", "1");
    let cp = record(&w);
    write(&mut w, "a", "2");
    write(&mut w, "b", "2");
    write(&mut w, "c", "2");
    let report = restore_files(&mut w, &cp, Some(&vec!["./a/".to_string(), "b".to_string()]), Ok(None)).unwrap();
    assert_eq!(report.restored_files, vec!["b".to_string()]);
    assert!(report.removed_files.is_empty());
    assert_eq!(read(&w, "a"), "2");
    assert_eq!(read(&w, "b"), "1");
    assert_eq!(read(&w, "c"), "2");
}

#[test]
fn partial_restore_writes_below_a_chosen_directory() {
    let mut w = Files::new();
    write(&mut w, "sub/a", "1");
    write(&mut w, "sub/deep/b", "1");
    write(&mut w, "subway", "1");
    let cp = record(&w);
    for p in ["sub/a", "sub/deep/b", "subway", "sub/new"] {
        write(&mut w, p, "2");
    }
    let report = restore_files(&mut w, &cp, Some(&vec!["sub".to_string()]), Ok(None)).unwrap();
    assert!(report.restored_files.is_empty() && report.removed_files.is_empty());
    assert_eq!(read(&w, "sub/a"), "1");
    assert_eq!(read(&w, "sub/deep/b"), "1");
    assert_eq!(read(&w, "subway"), "2");
    assert_eq!(read(&w, "sub/new"), "2");
}

#[test]
fn diff_returns_unified_patch_per_file() {
    let patch = "@@ -1 +1,2 @@\n alpha\n+beta\n";
    let diffs = diff(&vec![DeltaRecord {
        has_patch: true,
        new_path: Some("a.txt".to_string()),
        old_path: Some("a.txt".to_string()),
        status: DeltaStatus::Modified,
        line_stats: Some((1, 1, 0)),
        patch: Some(patch.as_bytes().to_vec()),
    }]);
    assert_eq!(diffs.len(), 1);
    assert_eq!(diffs[0].path, "a.txt");
    assert!(diffs[0].patch.contains("+beta"));
}

#[test]
fn restore_stashes_uncommitted_handedits() {
    let mut w = Files::new();
    write(&mut w, "a.txt", "v1");
    let cp = record(&w);
    write(&mut w, "a.txt", "v2");
    let latest = "1111111111".to_string();

    write(&mut w, "a.txt", "user_edit");
    write(&mut w, "manual.txt", "by_hand");
    let aside = record(&w);
    let parent = stash_parent(Some(latest), Some(false)).unwrap();
    let built: Result<String, String> = Ok("2222222222".to_string());
    assert_eq!(stash_uncommitted(&parent, &built), Some("2222222222".to_string()));
    let stash = stash_outcome(&parent, built, Ok(()));

    let report = restore_files(&mut w, &cp, None, stash).unwrap();
    assert!(report.stash_commit.is_some(), "hand-edits should be stashed");
    assert_eq!(read(&w, "a.txt"), "v1");
    assert!(!w.contains_key("manual.txt"));
    assert_eq!(read(&aside, "a.txt"), "user_edit");
    assert_eq!(read(&aside, "manual.txt"), "by_hand");
}

#[test]
fn nothing_is_set_aside_without_reason() {
    let oid = || "1111111111".to_string();
    assert_eq!(stash_start(false, Some(oid())), None);
    assert_eq!(stash_start(true, None), None);
    assert_eq!(stash_start(true, Some(oid())), Some(oid()));
    assert_eq!(stash_parent(None, Some(false)), None);
    assert_eq!(stash_parent(Some(oid()), Some(true)), None);
    assert_eq!(stash_parent(Some(oid()), None), Some(oid()));
    assert_eq!(stash_uncommitted(&oid(), &Err("no".to_string())), None);
    assert_eq!(stash_uncommitted(&oid(), &Ok(oid())), None);
    assert_eq!(stash_outcome(&oid(), Ok(oid()), Ok(())), Ok(None));
    assert_eq!(stash_ref_name(17), "refs/gloss-stash/17");
}

#[test]
fn nothing_is_restored_when_nothing_can_be_set_aside() {
    let mut w = Files::new();
    write(&mut w, "a.txt", "v1");
    let cp = record(&w);
    write(&mut w, "a.txt", "user_edit");
    write(&mut w, "manual.txt", "by_hand");
    let before = w.clone();

    let unbuilt = stash_outcome("1111", Err("commit: disk full".to_string()), Ok(()));
    assert_eq!(unbuilt, Err("commit: disk full".to_string()));
    let unheld = stash_outcome("1111", Ok("2222".to_string()), Err("locked".to_string()));
    assert_eq!(unheld, Err("locked".to_string()));
    for stash in [unbuilt, unheld] {
        let expected = stash.clone().unwrap_err();
        match restore_files(&mut w, &cp, None, stash) {
            Err(e) => assert_eq!(e, expected),
            Ok(_) => panic!("restored"),
        }
        assert_eq!(w, before);
    }
}

#[test]
fn a_snapshot_adds_one_entry() {
    let older = vec![ref_record("1_a", "one", 1), ref_record("3_c", "three", 3)];
    let before: Vec<String> = list(&older).iter().map(|c| c.id.clone()).collect();
    let cp = snapshot(Some("two".to_string()), "c0ffee00", None, 2, 2, no_stats());
    let refs = vec![ref_record("1_a", "one", 1), ref_record(&cp.id, "two", 2), ref_record("3_c", "three", 3)];
    let mut after: Vec<String> = list(&refs).iter().map(|c| c.id.clone()).collect();
    let at = after.iter().position(|id| *id == cp.id).unwrap();
    assert_eq!(list(&refs)[at].label.as_deref(), Some("two"));
    after.remove(at);
    assert_eq!(after, before);
}

#[test]
fn the_first_checkpoint_shows_its_files_as_added() {
    let added = |path: &str| DeltaRecord {
        has_patch: true,
        new_path: Some(path.to_string()),
        old_path: Some(path.to_string()),
        status: DeltaStatus::Added,
        line_stats: Some((0, 1, 0)),
        patch: Some(b"+x\n".to_vec()),
    };
    let out = diff(&vec![added("b"), added("a"), added("sub/c")]);
    let paths: Vec<&str> = out.iter().map(|f| f.path.as_str()).collect();
    assert_eq!(paths, vec!["a", "b", "sub/c"]);
    assert!(out.iter().all(|f| f.status == FileStatus::Added && f.deletions == 0));
}

#[test]
fn gc_prunes_only_old_commits() {
    let now: u64 = 1_700_000_000;
    let stamp = |id: &str, seconds: i64| RefStamp {
        name: Some(ref_name(id)),
        target: Some("c0ffee00".to_string()),
        seconds: Some(seconds),
    };
    let refs = vec![stamp("1_a", now as i64), stamp("2_b", now as i64 - 1)];
    let removed = gc_stale_refs(&refs, now, 0);
    assert_eq!(removed, vec!["refs/gloss/1_a".to_string(), "refs/gloss/2_b".to_string()]);
    assert_eq!(deleted_count(&vec![true, true]), 2);
    let left = |refs: Vec<RefRecord>, names: &Vec<String>| -> Vec<RefRecord> {
        refs.into_iter().filter(|r| !names.contains(r.name.as_ref().unwrap())).collect()
    };
    let records = vec![ref_record("1_a", "one", now as i64), ref_record("2_b", "two", now as i64 - 1)];
    assert_eq!(list(&records).len(), 2);
    assert!(list(&left(records, &removed)).is_empty());

    let fresh = vec![stamp("3_c", now as i64)];
    let removed_again = gc_stale_refs(&fresh, now, 3600);
    assert!(removed_again.is_empty(), "fresh refs must survive GC");
    assert_eq!(list(&left(vec![ref_record("3_c", "three", now as i64)], &removed_again)).len(), 1);

    let mixed = vec![stamp("4_d", now as i64), stamp("5_e", now as i64 - 7200), stamp("6_f", now as i64)];
    let records = vec![
        ref_record("4_d", "d", now as i64),
        ref_record("5_e", "e", now as i64 - 7200),
        ref_record("6_f", "f", now as i64),
    ];
    let after = list(&left(records, &gc_stale_refs(&mixed, now, 3600)));
    let ids: Vec<&str> = after.iter().map(|c| c.id.as_str()).collect();
    assert_eq!(ids, vec!["6_f", "4_d"]);
}

#[test]
fn sweep_visits_entries_in_order() {
    let mut w = Files::new();
    for p in ["a", "m/x", "m/deep/y", "target/z", "z", "m/.git/HEAD"] {
        write(&mut w, p, "1");
    }
    assert_eq!(sweep(&w), vec!["a", "z", "m/x", "m/deep/y"]);
}

#[test]
fn sweep_leaves_out_links_large_files_and_unreadable_ones() {
    let mut s = Sweep::new();
    let entry = |name: &str, kind: EntryKind, len: Option<u64>| DirEntry {
        name: name.to_string(),
        kind,
        len,
    };
    s.enter(
        "",
        &vec![
            entry("link", EntryKind::Symlink, Some(1)),
            entry("big", EntryKind::File, Some(50 * 1024 * 1024 + 1)),
            entry("edge", EntryKind::File, Some(50 * 1024 * 1024)),
            entry("unread", EntryKind::File, None),
            entry("pipe", EntryKind::Other, Some(0)),
            entry("node_modules", EntryKind::Dir, None),
        ],
    );
    assert_eq!(s.next_dir(), None);
    assert_eq!(s.into_found(), vec!["edge"]);
}
