use gloss::checkpoint::{
    build_commit, compute_stats, deleted_count, deleted_paths, gc_message, has_valid_time, latest_commit_oid,
    maybe_gc, message_label, missing_workspace, resolve_id, retention_secs, snapshot_message, stamp,
    stash_message, CommitRecord, CommitStats, DeltaPaths, DiffSummary, IndexPlan, LastGc, RefRecord,
    RefStamp,
};
use gloss::hash::{fnv_update, repo_dir, workspace_id, FNV_OFFSET};
use gloss::ids::{checkpoint_id, make_id, ref_glob, ref_name, stash_ref_name};
use gloss::paths::{
    index_verdict, is_excluded_dir, join, key_of, lies_at_or_below, path_segments, same_path,
    should_skip_path, FileMeta, PathSet,
};
use gloss::restore::{
    checkout_plan, checkpoint_target, removal_plan, repo_layout, restore, tracked_files, CheckoutPlan,
    RefLookup, RepoLayout, RestoreReport, TreeEntry,
};
use gloss::{gc_stale_refs, list, snapshot, CheckpointInfo, DEFAULT_GC_RETENTION_DAYS};

fn s(t: &str) -> String {
    t.to_string()
}

fn info(id: &str) -> CheckpointInfo {
    snapshot(None, id, None, 0, 0, CommitStats::default())
}

fn with_id(id: &str) -> CheckpointInfo {
    let mut c = info("x");
    c.id = s(id);
    c
}

#[test]
fn workspace_ids_are_fnv() {
    assert_eq!(workspace_id(""), "cbf29ce484222325");
    assert_eq!(workspace_id("/"), "af63a24c860189fe");
    assert_eq!(workspace_id("/home/me/project"), "6afe337369685c16");
    assert_eq!(repo_dir("/home/me/project"), "workspaces/6afe337369685c16");
    assert_eq!(fnv_update(fnv_update(FNV_OFFSET, "/home"), "/me/project"), 0x6afe337369685c16);
}

#[test]
fn ids_carry_time_and_commit() {
    assert_eq!(make_id(1_700_000_000_123, "0123456789abcdef"), "1700000000123_01234567");
    assert_eq!(make_id(7, "abc"), "0000000000007_abc");
    assert_eq!(ref_name("1_a"), "refs/gloss/1_a");
    assert_eq!(ref_glob(), "refs/gloss/*");
    assert_eq!(stash_ref_name(5), "refs/gloss-stash/5");
}

#[test]
fn ids_sort_by_time() {
    let early = make_id(999_999_999_999, "ffffffff");
    let late = make_id(1_000_000_000_000, "00000000");
    assert!(early < late);
}

#[test]
fn refs_that_are_no_checkpoints_are_passed_over() {
    assert_eq!(checkpoint_id("refs/gloss/12_ab"), Some(s("12_ab")));
    assert_eq!(checkpoint_id("refs/gloss/+12_ab_c"), Some(s("+12_ab_c")));
    assert_eq!(checkpoint_id("refs/gloss/12"), None);
    assert_eq!(checkpoint_id("refs/gloss/_ab"), None);
    assert_eq!(checkpoint_id("refs/gloss/1x_ab"), None);
    assert_eq!(checkpoint_id("refs/gloss/18446744073709551616_ab"), None);
    assert_eq!(checkpoint_id("refs/gloss/18446744073709551615_ab"), Some(s("18446744073709551615_ab")));
    assert_eq!(checkpoint_id("refs/heads/12_ab"), None);
    assert_eq!(checkpoint_id(&stash_ref_name(12)), None);
}

#[test]
fn made_ids_are_listed() {
    let id = make_id(1_700_000_000_123, "0123456789abcdef");
    assert_eq!(checkpoint_id(&ref_name(&id)), Some(id));
}

#[test]
fn messages_and_labels() {
    assert_eq!(snapshot_message(Some("before refactor"), 5), "before refactor");
    assert_eq!(snapshot_message(None, 5), "snapshot @ 5");
    assert_eq!(stash_message(5), "stash before restore @ 5");
    assert_eq!(missing_workspace("/nope"), "workspace does not exist: /nope");
    assert_eq!(message_label("before refactor"), Some(s("before refactor")));
    assert_eq!(message_label("  padded \n"), Some(s("padded")));
    assert_eq!(message_label(""), Some(s("")));
    assert_eq!(message_label(&snapshot_message(None, 5)), None);
    assert_eq!(message_label(&stash_message(5)), None);
    assert_eq!(message_label("snapshot @ home"), None);
}

#[test]
fn snapshot_tells_what_was_recorded() {
    let stats = CommitStats {
        files_changed: 3,
        insertions: 10,
        deletions: 4,
        changed_files: vec![s("a"), s("b"), s("c")],
    };
    let cp = snapshot(Some(s("l")), "0123456789", Some("99"), 42, 43, stats);
    assert_eq!(cp.id, "0000000000042_01234567");
    assert_eq!(cp.label, Some(s("l")));
    assert_eq!(cp.commit, "0123456789");
    assert_eq!(cp.parent_commit, Some(s("99")));
    assert_eq!(cp.created_at_ms, 43);
    assert_eq!((cp.files_changed, cp.insertions, cp.deletions), (3, 10, 4));
    assert_eq!(cp.changed_files, vec!["a", "b", "c"]);
    let copy = cp.clone();
    assert_eq!(copy.id, cp.id);
    assert_eq!(copy.changed_files, cp.changed_files);
}

#[test]
fn stats_list_the_first_fifty_paths() {
    let none = compute_stats(&None);
    assert_eq!((none.files_changed, none.insertions, none.deletions), (0, 0, 0));
    assert!(none.changed_files.is_empty());

    let deltas: Vec<DeltaPaths> = (0..60)
        .map(|i| DeltaPaths { new_path: Some(format!("f{i}")), old_path: None })
        .collect();
    let many = compute_stats(&Some(DiffSummary { totals: Some((60, 7, 8)), deltas }));
    assert_eq!((many.files_changed, many.insertions, many.deletions), (60, 7, 8));
    assert_eq!(many.changed_files.len(), 50);
    assert_eq!(many.changed_files[49], "f49");

    let odd = compute_stats(&Some(DiffSummary {
        totals: None,
        deltas: vec![
            DeltaPaths { new_path: None, old_path: Some(s("gone")) },
            DeltaPaths { new_path: None, old_path: None },
            DeltaPaths { new_path: Some(s("new")), old_path: Some(s("old")) },
        ],
    }));
    assert_eq!(odd.files_changed, 0);
    assert_eq!(odd.changed_files, vec!["gone", "new"]);
}

#[test]
fn index_is_made_in_full_unless_changes_are_known() {
    let dirty = vec![s("a")];
    let none: Vec<String> = Vec::new();
    assert!(matches!(build_commit(None, None), IndexPlan::Full));
    assert!(matches!(build_commit(None, Some(&dirty)), IndexPlan::Full));
    assert!(matches!(build_commit(Some("p"), None), IndexPlan::Full));
    assert!(matches!(build_commit(Some("p"), Some(&none)), IndexPlan::Full));
    match build_commit(Some("p"), Some(&dirty)) {
        IndexPlan::Incremental { parent, paths } => {
            assert_eq!(parent, "p");
            assert_eq!(paths, dirty);
        }
        IndexPlan::Full => panic!("not incremental"),
    }
    assert_eq!(deleted_paths(&vec![s("a"), s("b"), s("c")], &vec![false, true, false]), vec!["a", "c"]);
}

fn dated(target: &str, seconds: i64) -> RefStamp {
    RefStamp { name: None, target: Some(s(target)), seconds: Some(seconds) }
}

#[test]
fn latest_commit_is_the_last_of_the_newest() {
    assert_eq!(latest_commit_oid(&Vec::new()), None);
    let refs = vec![
        dated("a", 5),
        dated("b", 9),
        dated("c", 9),
        dated("d", 2),
        RefStamp { name: None, target: None, seconds: Some(99) },
        RefStamp { name: None, target: Some(s("e")), seconds: None },
    ];
    assert_eq!(latest_commit_oid(&refs), Some(s("c")));
    assert_eq!(stamp(-1), u64::MAX);
    assert_eq!(latest_commit_oid(&vec![dated("old", -1), dated("new", 5)]), Some(s("old")));
}

fn record(name: &str, message: Option<&str>, seconds: i64) -> RefRecord {
    RefRecord {
        name: Some(s(name)),
        target: Some(s("0a")),
        commit: Some(CommitRecord {
            message: message.map(|m| s(m)),
            seconds,
            parent: Some(s("0b")),
            stats: CommitStats { files_changed: 1, insertions: 2, deletions: 3, changed_files: vec![s("f")] },
        }),
    }
}

#[test]
fn listing_is_by_id_and_passes_over_the_rest() {
    let mut nameless = record("refs/gloss/9_z", None, 1);
    nameless.name = None;
    let mut aimless = record("refs/gloss/8_z", None, 1);
    aimless.target = None;
    let mut lost = record("refs/gloss/7_z", None, 1);
    lost.commit = None;
    let refs = vec![
        record("refs/gloss/1_a", Some("one"), 10),
        nameless,
        record("refs/gloss/3_c", None, 30),
        aimless,
        record("refs/gloss/2_b", Some("snapshot @ 1"), 20),
        lost,
        record("refs/gloss-stash/4", Some("x"), 40),
        record("refs/gloss/5", Some("x"), 50),
    ];
    let out = list(&refs);
    let ids: Vec<&str> = out.iter().map(|c| c.id.as_str()).collect();
    assert_eq!(ids, vec!["3_c", "2_b", "1_a"]);
    assert_eq!(out[0].label, Some(s("")));
    assert_eq!(out[1].label, None);
    assert_eq!(out[2].label, Some(s("one")));
    assert_eq!(out[2].created_at_ms, 10_000);
    assert_eq!(out[2].commit, "0a");
    assert_eq!(out[2].parent_commit, Some(s("0b")));
    assert_eq!((out[2].files_changed, out[2].insertions, out[2].deletions), (1, 2, 3));
    assert_eq!(out[2].changed_files, vec!["f"]);
    assert!(list(&Vec::new()).is_empty());
}

#[test]
fn times_have_to_fit() {
    assert!(has_valid_time(&record("refs/gloss/1_a", None, 18_446_744_073_709_551)));
    assert!(!has_valid_time(&record("refs/gloss/1_a", None, 18_446_744_073_709_552)));
    assert!(!has_valid_time(&record("refs/gloss/1_a", None, -1)));
    assert!(has_valid_time(&record("refs/gloss/x", None, -1)));
}

#[test]
fn pruning_goes_by_age() {
    let refs = vec![
        RefStamp { name: Some(s("old")), target: Some(s("a")), seconds: Some(100) },
        RefStamp { name: Some(s("edge")), target: Some(s("b")), seconds: Some(900) },
        RefStamp { name: Some(s("new")), target: Some(s("c")), seconds: Some(901) },
        RefStamp { name: None, target: Some(s("d")), seconds: Some(1) },
        RefStamp { name: Some(s("lost")), target: Some(s("e")), seconds: None },
        RefStamp { name: Some(s("aimless")), target: None, seconds: Some(1) },
    ];
    assert_eq!(gc_stale_refs(&refs, 1000, 100), vec!["old", "edge"]);
    assert!(gc_stale_refs(&refs, 50, 100).is_empty());
    assert_eq!(deleted_count(&vec![true, false, true]), 2);
    assert_eq!(DEFAULT_GC_RETENTION_DAYS, 30);
    assert_eq!(retention_secs(), 2_592_000);
    assert_eq!(gc_message(0), None);
    assert_eq!(gc_message(12), Some(s("gloss gc: pruned 12 refs older than 30d")));
}

#[test]
fn pruning_is_done_once_a_day() {
    assert!(maybe_gc(LastGc::Unknown));
    assert!(maybe_gc(LastGc::InFuture));
    assert!(!maybe_gc(LastGc::SecsAgo(86_399)));
    assert!(maybe_gc(LastGc::SecsAgo(86_400)));
}

#[test]
fn prefixes_resolve_when_unique() {
    let items = vec![with_id("12_ab"), with_id("12_cd"), with_id("3_ef")];
    assert_eq!(resolve_id(&items, "3"), Ok(s("3_ef")));
    assert_eq!(resolve_id(&items, "12_c"), Ok(s("12_cd")));
    assert_eq!(resolve_id(&items, "12_ab"), Ok(s("12_ab")));
    assert_eq!(resolve_id(&items, "9"), Err(s("no checkpoint matches `9`")));
    assert_eq!(resolve_id(&items, "12"), Err(s("ambiguous prefix `12` matches 2 checkpoints")));
    assert_eq!(resolve_id(&items, ""), Err(s("ambiguous prefix `` matches 3 checkpoints")));
    assert_eq!(resolve_id(&vec![with_id("1_a")], ""), Ok(s("1_a")));
}

#[test]
fn excluded_names() {
    for name in [
        ".git", "node_modules", "target", "__pycache__", "dist", "build", ".next", ".venv", "venv", ".tox",
        ".cache",
    ] {
        assert!(is_excluded_dir(name));
    }
    assert!(!is_excluded_dir("src"));
    assert!(!is_excluded_dir("Target"));
    assert!(!is_excluded_dir(""));
}

#[test]
fn skipping_goes_by_name_kind_and_size() {
    let file = |len: u64| Some(FileMeta { is_symlink: false, is_file: true, len });
    let link = Some(FileMeta { is_symlink: true, is_file: false, len: 1 });
    let dir = Some(FileMeta { is_symlink: false, is_file: false, len: 1 << 40 });
    assert!(!should_skip_path("src/main.rs", file(10)));
    assert!(!should_skip_path("src/main.rs", None));
    assert!(should_skip_path("a/node_modules/b.js", file(10)));
    assert!(should_skip_path("target", None));
    assert!(should_skip_path("target", dir));
    assert!(!should_skip_path("target", file(1)));
    assert!(!should_skip_path("src/build", file(1)));
    assert!(should_skip_path("build/src", file(1)));
    assert!(should_skip_path("sub/.git", file(1)));
    assert!(!should_skip_path("targets/x", file(1)));
    assert!(should_skip_path("link", link));
    assert!(!should_skip_path("dir", dir));
    assert!(!should_skip_path("big", file(50 * 1024 * 1024)));
    assert!(should_skip_path("big", file(50 * 1024 * 1024 + 1)));
    assert_eq!(index_verdict("a/dist/b", None), 1);
    assert_eq!(index_verdict("a/b", None), 0);
}

#[test]
fn paths_are_compared_by_their_parts() {
    assert_eq!(path_segments("a/b//c"), vec!["a", "b", "", "c"]);
    assert!(same_path("a/b", "a//b/"));
    assert!(same_path("a/./b", "a/b"));
    assert!(!same_path("./a", "a"));
    assert!(!same_path("/a", "a"));
    assert!(!same_path("a/../b", "b"));
    let mut set = PathSet::of(&vec![s("x"), s("a//b"), s("/r"), s("m"), s("b"), s("x/")]);
    for p in ["x", "a/b", "/r", "m/", "b"] {
        assert!(set.has(&key_of(p)));
    }
    for p in ["a", "a/b/c", "r", "", "./x", "z"] {
        assert!(!set.has(&key_of(p)));
    }
    assert!(!set.put(key_of("a/./b")));
    assert!(set.put(key_of("z")) && !set.put(key_of("z//")));
    assert!(lies_at_or_below(&key_of("a/b/c"), &key_of("a/b")));
    assert!(lies_at_or_below(&key_of("a/b"), &key_of("a//b/")));
    assert!(!lies_at_or_below(&key_of("a/bc"), &key_of("a/b")));
    assert!(!lies_at_or_below(&key_of("a"), &key_of("a/b")));
    assert!(!lies_at_or_below(&key_of("/a/b"), &key_of("a")));
    assert_eq!(join("", "a"), "a");
    assert_eq!(join("d", "a"), "d/a");
    assert_eq!(join("d/", "a"), "d/a");
    assert_eq!(join("d", "/a"), "/a");
}

#[test]
fn repository_layouts() {
    assert_eq!(repo_layout(true, true), RepoLayout::Bare);
    assert_eq!(repo_layout(true, false), RepoLayout::Bare);
    assert_eq!(repo_layout(false, true), RepoLayout::Legacy);
    assert_eq!(repo_layout(false, false), RepoLayout::Fresh);
}

#[test]
fn looking_up_a_checkpoint() {
    assert_eq!(checkpoint_target("9_z", RefLookup::Missing), Err(s("checkpoint not found: 9_z")));
    assert_eq!(checkpoint_target("9_z", RefLookup::NoTarget), Err(s("ref has no target")));
    assert_eq!(checkpoint_target("9_z", RefLookup::Target(s("0a"))), Ok(s("0a")));
}

#[test]
fn files_of_a_tree() {
    let entry = |dir: &str, is_blob: bool, name: Option<&str>| TreeEntry {
        dir: s(dir),
        is_blob,
        name: name.map(|n| s(n)),
    };
    let entries = vec![
        entry("", true, Some("a")),
        entry("", false, Some("sub")),
        entry("sub/", true, Some("b")),
        entry("sub/", true, None),
        entry("", true, Some("a")),
    ];
    assert_eq!(tracked_files(&entries), vec!["a", "sub/b"]);
}

#[test]
fn full_and_partial_restores() {
    let held = vec![s("a"), s("b")];
    let report = restore(&held, None, Ok(Some(s("0c")))).unwrap();
    assert_eq!(report.restored_files, held);
    assert_eq!(report.stash_commit, Some(s("0c")));
    assert_eq!(removal_plan(&held, None, &vec![s("a"), s("x"), s("y")]), vec!["x", "y"]);

    let asked = vec![s("b"), s("nope")];
    let part = restore(&held, Some(&asked), Ok(None)).unwrap();
    assert!(matches!(restore(&held, None, Err(s("no"))), Err(e) if e == "no"));
    assert_eq!(part.restored_files, vec!["b"]);
    assert!(removal_plan(&held, Some(&asked), &vec![s("x")]).is_empty());

    let held = vec![s("a"), s("sub/b"), s("sub/deep/c"), s("subway")];
    assert!(matches!(checkout_plan(&held, None), CheckoutPlan::All));
    assert!(matches!(checkout_plan(&held, Some(&Vec::new())), CheckoutPlan::Nothing));
    assert!(matches!(checkout_plan(&held, Some(&vec![s("nope")])), CheckoutPlan::Nothing));
    match checkout_plan(&held, Some(&vec![s("sub"), s("a")])) {
        CheckoutPlan::Files(files) => assert_eq!(files, vec!["a", "sub/b", "sub/deep/c"]),
        _ => panic!("no files"),
    }
    let below = restore(&held, Some(&vec![s("sub"), s("a")]), Ok(None)).unwrap();
    assert_eq!(below.restored_files, vec!["a"]);

    let mut report = RestoreReport::default();
    assert!(report.restored_files.is_empty() && report.removed_files.is_empty());
    assert_eq!(report.stash_commit, None);
    report.note_removal("x", true);
    report.note_removal("y", false);
    assert_eq!(report.removed_files, vec!["x"]);
    assert_eq!(report.clone().removed_files, vec!["x"]);
}
