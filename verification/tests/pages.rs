use gloss::checkpoint::CommitStats;
use gloss::cli::{
    diff_output, diff_target, error_output, list_output, print_file_diff, restore_output,
    review_running, serve_port, snap_output,
};
use gloss::diff::{cut_patch, file_diff, file_status, status_name, DeltaRecord, DeltaStatus};
use gloss::style::CSS;
use gloss::text::{
    can_cut, comes_before, decimal_text, hex_text, lines, padded_left, padded_right, parse_u64, trim, trim_end,
};
use gloss::web::{
    bind_candidates, esc, format_ts, local_addr, local_url, patch_line_class, port_for,
    render_file_diff, render_page, restore_redirect, selected_id, serve_banner, urlencode,
};
use gloss::{diff, snapshot, CheckpointInfo, FileDiff, FileStatus, RestoreReport};

fn s(t: &str) -> String {
    t.to_string()
}

fn cp(id: &str, label: Option<&str>, created_at_ms: u64) -> CheckpointInfo {
    let stats = CommitStats { files_changed: 3, insertions: 10, deletions: 2, changed_files: Vec::new() };
    let mut c = snapshot(label.map(|l| s(l)), "abc", None, 0, created_at_ms, stats);
    c.id = s(id);
    c
}

fn file(path: &str, status: FileStatus, patch: &str, truncated: bool) -> FileDiff {
    FileDiff { path: s(path), status, additions: 2, deletions: 1, patch: s(patch), truncated }
}

fn delta(path: &str, patch: Option<&[u8]>) -> DeltaRecord {
    DeltaRecord {
        has_patch: true,
        new_path: Some(s(path)),
        old_path: None,
        status: DeltaStatus::Added,
        line_stats: Some((0, 5, 6)),
        patch: patch.map(|p| p.to_vec()),
    }
}

#[test]
fn ports_depend_on_workspace_and_label() {
    assert_eq!(port_for("/home/me/project", None), 7454);
    assert_eq!(port_for("/home/me/project", Some("demo")), 7788);
    assert_eq!(port_for("/home/me/project", Some("")), 7455);
    assert_eq!(port_for("/", None), 7958);
    assert_eq!(serve_port(Some(80), "/", None), 80);
    assert_eq!(serve_port(None, "/", Some("demo")), 7508);
}

#[test]
fn ports_are_tried_in_turn() {
    let tried = bind_candidates(7454);
    assert_eq!(tried.len(), 20);
    assert_eq!(tried[0], 7454);
    assert_eq!(tried[19], 7473);
    assert_eq!(bind_candidates(65530)[5], 65535);
    assert_eq!(bind_candidates(65530)[19], 65535);
    assert_eq!(local_addr(7454), "127.0.0.1:7454");
    assert_eq!(local_url(7454), "http://127.0.0.1:7454");
    assert_eq!(
        serve_banner("/ws", Some("demo"), "127.0.0.1:1"),
        "gloss [demo] http://127.0.0.1:1\nworkspace: /ws\n"
    );
    assert_eq!(serve_banner("/ws", None, "127.0.0.1:1"), "gloss http://127.0.0.1:1\nworkspace: /ws\n");
}

#[test]
fn escaping() {
    assert_eq!(esc("a<b>&\"c\"'é"), "a&lt;b&gt;&amp;&quot;c&quot;&#39;é");
    assert_eq!(urlencode("a b/é-_.~Z9"), "a%20b%2F%C3%A9-_.~Z9");
    assert_eq!(esc(""), "");
    assert_ne!(esc("&lt;"), esc("<"));
    assert_eq!(urlencode("%"), "%25");
}

#[test]
fn ages() {
    let now = 1_000_000;
    assert_eq!(format_ts(now * 1000, now), "0s ago");
    assert_eq!(format_ts((now + 100) * 1000, now), "0s ago");
    assert_eq!(format_ts((now - 59) * 1000 + 999, now), "59s ago");
    assert_eq!(format_ts((now - 60) * 1000, now), "1m ago");
    assert_eq!(format_ts((now - 3599) * 1000, now), "59m ago");
    assert_eq!(format_ts((now - 3600) * 1000, now), "1h ago");
    assert_eq!(format_ts((now - 86399) * 1000, now), "23h ago");
    assert_eq!(format_ts((now - 86400) * 1000, now), "1d ago");
}

#[test]
fn line_classes() {
    for (line, class) in [
        ("+++ b/x", "header"),
        ("--- a/x", "header"),
        ("@@ -1 +1 @@", "hunk"),
        ("+x", "add"),
        ("-x", "del"),
        ("diff --git", "header"),
        ("index 12", "header"),
        ("new file mode", "header"),
        ("deleted file mode", "header"),
        ("different", "ctx"),
        (" x", "ctx"),
        ("", "ctx"),
    ] {
        assert_eq!(patch_line_class(line), class);
    }
}

#[test]
fn files_as_html() {
    assert_eq!(
        render_file_diff(&file("a<b", FileStatus::Added, "+x<\n y", true)),
        "<details open class=\"file\"><summary><span class=\"status added\">added</span> <span class=\"path\">a&lt;b</span> <span class=\"stats\"><span class=\"add\">+2</span> <span class=\"del\">-1</span></span> <span class=\"trunc\">(truncated)</span></summary><pre class=\"patch\"><span class=\"add\">+x&lt;</span>\n<span class=\"ctx\"> y</span>\n</pre></details>"
    );
    assert!(render_file_diff(&file("a", FileStatus::Renamed, "", false))
        .ends_with("</summary><div class=\"nodiff\">(no textual diff: binary, rename-only, or empty)</div></details>"));
}

#[test]
fn pages_without_checkpoints() {
    let page = render_page("/w&s", None, &[], None, None, None, 0, "codex");
    assert!(page.starts_with("<!doctype html><html><head><meta charset=\"utf-8\"><title>gloss</title><style>"));
    assert!(page.contains(CSS));
    assert!(page.ends_with(
        "</style></head><body><header><h1>gloss</h1><div class=\"ws\">/w&amp;s</div></header><div class=\"layout\"><aside><h2>checkpoints</h2><p class=\"empty\">no checkpoints yet — run <code>gloss snap</code></p></aside><main><p class=\"empty\">Take your first snapshot:<br><code>gloss snap \"before-codex\"</code></p></main></div></body></html>"
    ));
}

#[test]
fn pages_with_checkpoints() {
    let cps = vec![cp("0000000000042_01234567", Some("<l>"), 0), cp("1_a", None, 0)];
    let ds = vec![file("a", FileStatus::Added, "", false)];
    let page = render_page("/ws", Some("de\"mo"), &cps, Some("1_a"), Some(&ds), Some("done & dusted"), 90, "codex");
    assert!(page.contains("<title>de&quot;mo · gloss</title>"));
    assert!(page.contains("<header><h1>gloss</h1><span class=\"badge\">de&quot;mo</span><div class=\"ws\">/ws</div></header><div class=\"flash\">done &amp; dusted</div><div class=\"layout\">"));
    assert!(page.contains("<li class=\"cp\"><a href=\"/?id=0000000000042_01234567\"><div class=\"cp-label\">&lt;l&gt;</div><div class=\"cp-meta\">1m ago · 3 files · <span class=\"add\">+10</span> <span class=\"del\">-2</span></div><div class=\"cp-id\">0000000000042_012345</div></a><form method=\"POST\" action=\"/restore/0000000000042_01234567\" onsubmit=\"return confirm('Restore workspace to this checkpoint? Current state will be auto-stashed.')\"><button class=\"restore\" title=\"Restore workspace to this checkpoint\">↶ restore</button></form></li>"));
    assert!(page.contains("<li class=\"cp active\"><a href=\"/?id=1_a\"><div class=\"cp-label\">(auto)</div>"));
    assert!(page.contains("<main><div class=\"diff-summary\">1 file</div><details"));
    let two = vec![ds[0].clone(), ds[0].clone()];
    assert!(render_page("/ws", None, &cps, None, Some(&two), None, 0, "codex").contains(">2 files</div>"));
    assert!(render_page("/ws", None, &cps, None, Some(&[]), None, 0, "codex")
        .contains("<main><p class=\"empty\">(no changes in this checkpoint)</p></main>"));
    assert!(render_page("/ws", None, &cps, None, None, None, 0, "codex")
        .contains("<main><p class=\"empty\">Select a checkpoint on the left.</p></main>"));
}

#[test]
fn selection_and_redirect() {
    let cps = vec![cp("2_b", None, 0), cp("1_a", None, 0)];
    assert_eq!(selected_id(Some(s("x")), &cps), Some(s("x")));
    assert_eq!(selected_id(None, &cps), Some(s("2_b")));
    assert_eq!(selected_id(None, &[]), None);
    let mut report = RestoreReport::default();
    report.restored_files = vec![s("a")];
    assert_eq!(
        restore_redirect("1_a", &report),
        "/?id=1_a&msg=restored%201%20files%2C%20removed%200%20files"
    );
    report.stash_commit = Some(s("0123456789"));
    assert_eq!(
        restore_redirect("1 a", &report),
        "/?id=1%20a&msg=restored%201%20files%2C%20removed%200%20files%20%28pre-restore%20stashed%20at%2001234567%29"
    );
}

#[test]
fn statuses() {
    for (d, f, name) in [
        (DeltaStatus::Added, FileStatus::Added, "added"),
        (DeltaStatus::Deleted, FileStatus::Deleted, "deleted"),
        (DeltaStatus::Renamed, FileStatus::Renamed, "renamed"),
        (DeltaStatus::Copied, FileStatus::Copied, "copied"),
        (DeltaStatus::Modified, FileStatus::Modified, "modified"),
        (DeltaStatus::Typechange, FileStatus::Modified, "modified"),
        (DeltaStatus::Conflicted, FileStatus::Modified, "modified"),
    ] {
        assert_eq!(file_status(d), f);
        assert_eq!(status_name(f), name);
    }
}

#[test]
fn differences_of_files() {
    let f = file_diff(&delta("a", Some("+é\n".as_bytes()))).unwrap();
    assert_eq!((f.path.as_str(), f.additions, f.deletions), ("a", 5, 6));
    assert_eq!(f.patch, "+é\n");
    assert!(!f.truncated);
    assert_eq!(file_diff(&delta("a", Some(&[0xff, 0xfe]))).unwrap().patch, "");
    assert_eq!(file_diff(&delta("a", None)).unwrap().patch, "");
    assert!(file_diff(&delta("", None)).is_none());
    let mut d = delta("a", None);
    d.has_patch = false;
    assert!(file_diff(&d).is_none());
    d.has_patch = true;
    d.new_path = None;
    assert!(file_diff(&d).is_none());
    d.old_path = Some(s("old"));
    d.line_stats = None;
    let f = file_diff(&d).unwrap();
    assert_eq!((f.path.as_str(), f.additions, f.deletions), ("old", 0, 0));
}

#[test]
fn differences_are_sorted_and_unique() {
    let out = diff(&vec![delta("b", Some(b"1")), delta("a", Some(b"2")), delta("B", None), delta("b", Some(b"3"))]);
    let seen: Vec<(&str, &str)> = out.iter().map(|f| (f.path.as_str(), f.patch.as_str())).collect();
    assert_eq!(seen, vec![("B", ""), ("a", "2"), ("b", "3")]);
    assert!(diff(&Vec::new()).is_empty());
}

#[test]
fn long_patches_are_cut() {
    let cap = 64 * 1024;
    let exact = "x".repeat(cap);
    assert_eq!(cut_patch(&exact), (exact.clone(), false));
    let long = "x".repeat(cap + 1);
    assert_eq!(cut_patch(&long), (exact, true));
    let wide = format!("{}é{}", "x".repeat(cap - 1), "y".repeat(10));
    assert_eq!(cut_patch(&wide), ("x".repeat(cap - 1), true));
    let fits = format!("{}é{}", "x".repeat(cap - 2), "y".repeat(10));
    assert_eq!(cut_patch(&fits), (format!("{}é", "x".repeat(cap - 2)), true));
    let wider = format!("{}\u{1f600}", "x".repeat(cap - 3));
    assert_eq!(cut_patch(&wider), ("x".repeat(cap - 3), true));
    let f = file_diff(&delta("a", Some(long.as_bytes()))).unwrap();
    assert!(f.truncated);
    assert_eq!(f.patch.len(), cap);
}

#[test]
fn commands_print_checkpoints() {
    assert_eq!(snap_output(&cp("1_a", None, 0)), "1_a  (3 files, +10 -2)\n");
    assert_eq!(snap_output(&cp("1_a", Some("x"), 0)), "1_a  (3 files, +10 -2)\n  label: x\n");
    let items = vec![cp("2_b", Some("two"), 40_000), cp("1_a", None, 0)];
    assert_eq!(
        list_output(&items, 20, 60),
        "2_b  20s ago    3 files  +10    -2      two\n1_a  1m ago    3 files  +10    -2      -\n"
    );
    assert_eq!(list_output(&items, 1, 60), "2_b  20s ago    3 files  +10    -2      two\n");
    assert_eq!(list_output(&items, 0, 60), "");
    assert_eq!(list_output(&Vec::new(), 20, 60), "(no checkpoints)\n");
    assert_eq!(diff_target(&items, None), Ok(s("2_b")));
    assert_eq!(diff_target(&items, Some("1_")), Ok(s("1_a")));
    assert_eq!(diff_target(&items, Some("3")), Err(s("no checkpoint matches `3`")));
    assert_eq!(diff_target(&Vec::new(), None), Err(s("no checkpoints yet — run `gloss snap` first")));
}

#[test]
fn commands_print_differences() {
    let fd = file("a.txt", FileStatus::Modified, "--- a\n+++ b\n@@ -1 @@\n-x\n+y\n z\n", true);
    assert_eq!(
        print_file_diff(&fd, false),
        "\n── a.txt ──  modified  +2 -1  (truncated)\n--- a\n+++ b\n@@ -1 @@\n-x\n+y\n z\n"
    );
    assert_eq!(
        print_file_diff(&fd, true),
        "\n\x1b[1m\x1b[36m── a.txt ──\x1b[0m  \x1b[2mmodified  +2 -1  (truncated)\x1b[0m\n\x1b[1m--- a\x1b[0m\n\x1b[1m+++ b\x1b[0m\n\x1b[36m@@ -1 @@\x1b[0m\n\x1b[31m-x\x1b[0m\n\x1b[32m+y\x1b[0m\n z\n"
    );
    let binary = file("b", FileStatus::Deleted, "", false);
    assert_eq!(
        print_file_diff(&binary, false),
        "\n── b ──  deleted  +2 -1\n(no textual diff: binary or rename-only)\n"
    );
    assert_eq!(
        print_file_diff(&binary, true),
        "\n\x1b[1m\x1b[36m── b ──\x1b[0m  \x1b[2mdeleted  +2 -1\x1b[0m\n\x1b[2m(no textual diff: binary or rename-only)\x1b[0m\n"
    );
    assert_eq!(diff_output(&Vec::new(), true), "(no changes)\n");
    let both = format!("{}{}", print_file_diff(&fd, false), print_file_diff(&binary, false));
    assert_eq!(diff_output(&vec![fd, binary], false), both);
}

#[test]
fn commands_print_the_rest() {
    let mut report = RestoreReport::default();
    report.removed_files = vec![s("c")];
    assert_eq!(restore_output(&report), "restored 0 files, removed 1 files\n");
    report.stash_commit = Some(s("0123456789"));
    assert_eq!(
        restore_output(&report),
        "restored 0 files, removed 1 files\npre-restore working-tree captured at stash commit 0123456789\n"
    );
    assert_eq!(review_running(true, 7454), Some(s("gloss already running at http://127.0.0.1:7454\n")));
    assert_eq!(review_running(false, 7454), None);
    assert_eq!(error_output("no"), "error: no\n");
}

#[test]
fn texts() {
    assert_eq!(decimal_text(0), "0");
    assert_eq!(decimal_text(u64::MAX), "18446744073709551615");
    assert_eq!(hex_text(0xab, 4), "00ab");
    assert_eq!(padded_left("7", ' ', 3), "  7");
    assert_eq!(padded_left("1234", ' ', 3), "1234");
    assert_eq!(padded_right("é", ' ', 3), "é  ");
    assert_eq!(trim("\u{a0} a b \u{3000}\n"), "a b");
    assert_eq!(trim_end(" a \n"), " a");
    assert_eq!(lines("a\r\nb\n\nc"), vec!["a", "b", "", "c"]);
    assert_eq!(lines("a\n"), vec!["a"]);
    assert!(lines("").is_empty());
    assert_eq!(lines("a\r"), vec!["a\r"]);
    assert_eq!(parse_u64("007"), Some(7));
    assert_eq!(parse_u64("+7"), Some(7));
    assert_eq!(parse_u64("-7"), None);
    assert_eq!(parse_u64(""), None);
    assert_eq!(parse_u64("+"), None);
    assert!(comes_before("B", "a") && !comes_before("a", "B"));
    assert!(can_cut("abcd", 2) && can_cut("ab", 9) && can_cut("é", 2) && !can_cut("é", 1));
    assert!(comes_before("a", "aa") && !comes_before("a", "a"));
}
