use gloss::checkpoint::{CheckpointInfo, CommitStats};
use gloss::json::{compact, parse, Json};
use gloss::mcp::{
    call_tool, diff_reply, diff_target, handle_method, list_reply, read_line, read_request,
    resolve_prefix, response, response_line, restore_reply, review_reply, snap_reply, text_result,
    tools_manifest, Action, Request, RunningUis, ToolCall, BAD_PARAMS, FAILED, NOT_CONFIRMED,
    NOT_FOUND,
};
use gloss::web::port_for;
use gloss::{snapshot, FileDiff, FileStatus, RestoreReport};

fn s(t: &str) -> String {
    t.to_string()
}

fn json(t: &str) -> Json {
    parse(t).unwrap()
}

fn cp(id: &str, label: Option<&str>, counts: (u32, u32, u32)) -> CheckpointInfo {
    let stats = CommitStats {
        files_changed: counts.0,
        insertions: counts.1,
        deletions: counts.2,
        changed_files: Vec::new(),
    };
    let mut c = snapshot(label.map(|l| s(l)), "abc", None, 0, 0, stats);
    c.id = s(id);
    c
}

fn file(path: &str, patch: &str, truncated: bool) -> FileDiff {
    FileDiff {
        path: s(path),
        status: FileStatus::Modified,
        additions: 2,
        deletions: 1,
        patch: s(patch),
        truncated,
    }
}

/// The text of a result that carries one.
fn text(j: Json) -> String {
    let content = match j.take("content") {
        Some(Json::Array(mut a)) => {
            assert_eq!(a.len(), 1);
            a.remove(0)
        }
        _ => panic!("no content"),
    };
    assert_eq!(content.get_str("type"), Some("text"));
    s(content.get_str("text").unwrap())
}

fn reply(a: Action) -> Result<String, (i32, String)> {
    match a {
        Action::Reply(Ok(j)) => Ok(compact(j)),
        Action::Reply(Err(e)) => Err(e),
        Action::Tool(_) => panic!("a tool call"),
    }
}

#[test]
fn lines_that_get_no_answer() {
    assert!(matches!(read_line("", "Codex"), Request::Ignored));
    assert!(matches!(read_line(" \t ", "Codex"), Request::Ignored));
    assert!(matches!(
        read_line(r#"{"jsonrpc":"2.0","method":"notifications/initialized"}"#, "Codex"),
        Request::Ignored
    ));
    assert!(matches!(read_line("[1,2]", "Codex"), Request::Ignored));
    match read_line("{", "Codex") {
        Request::Malformed(m) => {
            assert_eq!(m, "[gloss mcp] bad json: EOF while parsing an object at line 1 column 1")
        }
        _ => panic!("read"),
    }
}

#[test]
fn requests_carry_their_id() {
    match read_line(r#"{"jsonrpc":"2.0","id":7,"method":"ping"}"#, "Codex") {
        Request::Call { id, action } => {
            assert_eq!(compact(id), "7");
            assert_eq!(reply(action), Ok(s("{}")));
        }
        _ => panic!("ignored"),
    }
    match read_request(json(r#"{"id":null}"#), "Codex") {
        Request::Call { id, action } => {
            assert_eq!(compact(id), "null");
            assert_eq!(reply(action), Err((NOT_FOUND, s("method not found: "))));
        }
        _ => panic!("ignored"),
    }
    match read_request(json(r#"{"id":"a","method":5}"#), "Codex") {
        Request::Call { action, .. } => {
            assert_eq!(reply(action), Err((NOT_FOUND, s("method not found: "))));
        }
        _ => panic!("ignored"),
    }
}

#[test]
fn methods() {
    let none = Json::Null;
    assert_eq!(
        reply(handle_method("initialize", &none, "Codex")),
        Ok(s(r#"{"capabilities":{"tools":{}},"protocolVersion":"2024-11-05","serverInfo":{"name":"gloss","version":"0.1.0"}}"#))
    );
    assert_eq!(reply(handle_method("ping", &none, "Codex")), Ok(s("{}")));
    assert_eq!(
        reply(handle_method("resources/list", &none, "Codex")),
        Err((-32601, s("method not found: resources/list")))
    );
    assert_eq!(reply(handle_method("tools/call", &none, "Codex")), Err((-32602, s("missing tool name"))));
    assert_eq!(
        reply(handle_method("tools/call", &json(r#"{"name":3}"#), "Codex")),
        Err((BAD_PARAMS, s("missing tool name")))
    );
    assert_eq!(
        reply(handle_method("tools/call", &json(r#"{"name":"zap"}"#), "Codex")),
        Err((NOT_FOUND, s("unknown tool: zap")))
    );
    assert!(matches!(
        handle_method("tools/call", &json(r#"{"name":"list_checkpoints"}"#), "Codex"),
        Action::Tool(ToolCall::List { limit: 20 })
    ));
}

#[test]
fn manifest_names_the_tools() {
    let tools = tools_manifest("Codex");
    let names: Vec<&str> = tools.iter().map(|t| t.get_str("name").unwrap()).collect();
    assert_eq!(names, vec!["checkpoint", "list_checkpoints", "diff", "restore", "start_review"]);
    for t in &tools {
        assert!(t.get_str("description").unwrap().len() > 20);
        assert_eq!(t.get("inputSchema").unwrap().get_str("type"), Some("object"));
    }
    assert_eq!(
        tools[4].get_str("description"),
        Some("Start a browser-based review UI for the current workspace and return its URL. Use this when the user says 'open the review', 'show me the diffs in browser', '启动 review', or similar. Each `label` gets its own deterministic port so multiple Codex sessions can run side by side without colliding. Idempotent — calling twice with the same label returns the same URL.")
    );
    let schema = |at: usize| compact(tools_manifest("Codex").remove(at).take("inputSchema").unwrap());
    assert_eq!(
        schema(1),
        r#"{"properties":{"limit":{"default":20,"maximum":200,"minimum":1,"type":"integer"}},"type":"object"}"#
    );
    assert_eq!(
        schema(2),
        r#"{"properties":{"id":{"description":"Checkpoint id or unique prefix. Omit for the latest checkpoint.","type":"string"}},"type":"object"}"#
    );
    assert!(schema(3).contains(r#""required":["id","confirm"]"#));
    assert!(matches!(handle_method("tools/list", &Json::Null, "Codex"), Action::Reply(Ok(_))));
    let listed = reply(handle_method("tools/list", &Json::Null, "Codex")).unwrap();
    assert!(listed.starts_with(r#"{"tools":[{"description":"Take a gloss checkpoint"#));
}

#[test]
fn tool_calls() {
    match call_tool("checkpoint", &json(r#"{"label":"x"}"#)) {
        Ok(ToolCall::Snap { label }) => assert_eq!(label, Some(s("x"))),
        _ => panic!("no snap"),
    }
    match call_tool("checkpoint", &json(r#"{"label":5}"#)) {
        Ok(ToolCall::Snap { label }) => assert_eq!(label, None),
        _ => panic!("no snap"),
    }
    let limit = |t: &str| match call_tool("list_checkpoints", &json(t)) {
        Ok(ToolCall::List { limit }) => limit,
        _ => panic!("no list"),
    };
    assert_eq!(limit(r#"{"limit":3}"#), 3);
    assert_eq!(limit(r#"{"limit":-3}"#), 20);
    assert_eq!(limit(r#"{"limit":1.5}"#), 20);
    assert_eq!(limit(r#"{"limit":"3"}"#), 20);
    assert_eq!(limit("null"), 20);
    match call_tool("diff", &json("{}")) {
        Ok(ToolCall::Diff { id }) => assert_eq!(id, None),
        _ => panic!("no diff"),
    }
    match call_tool("start_review", &json(r#"{"label":"demo"}"#)) {
        Ok(ToolCall::StartReview { label }) => assert_eq!(label, Some(s("demo"))),
        _ => panic!("no review"),
    }
    assert!(matches!(call_tool("", &json("{}")), Err((NOT_FOUND, m)) if m == "unknown tool: "));
    assert!(matches!(call_tool("snap", &json("{}")), Err((-32601, m)) if m == "unknown tool: snap"));
}

#[test]
fn restores_have_to_be_confirmed() {
    let refused = |t: &str| match call_tool("restore", &json(t)) {
        Err(e) => e,
        Ok(_) => panic!("accepted"),
    };
    for t in [
        r#"{"id":"1_a"}"#,
        r#"{"id":"1_a","confirm":false}"#,
        r#"{"id":"1_a","confirm":"true"}"#,
        r#"{"id":"1_a","confirm":1}"#,
        r#"{"id":"1_a","confirm":null}"#,
        "[]",
    ] {
        assert_eq!(refused(t), (FAILED, s(NOT_CONFIRMED)));
    }
    assert_eq!(refused(r#"{"confirm":true}"#), (-32602, s("missing `id`")));
    assert_eq!(refused(r#"{"confirm":true,"id":1}"#), (BAD_PARAMS, s("missing `id`")));
    match call_tool("restore", &json(r#"{"id":"1_a","confirm":true}"#)) {
        Ok(ToolCall::Restore { target }) => assert_eq!(target, "1_a"),
        _ => panic!("refused"),
    }
}

#[test]
fn later_of_two_equal_keys_counts() {
    match call_tool("restore", &json(r#"{"id":"1_a","confirm":true,"confirm":false}"#)) {
        Err(e) => assert_eq!(e.0, FAILED),
        Ok(_) => panic!("accepted"),
    }
    let twice = Json::Object(vec![(s("k"), Json::Bool(true)), (s("k"), Json::Bool(false))]);
    assert_eq!(twice.get("k").unwrap().as_bool(), Some(false));
    assert_eq!(compact(twice), r#"{"k":false}"#);
}

#[test]
fn snap_replies() {
    let ok = snap_reply(&Ok(cp("1_a", None, (3, 10, 2)))).unwrap_or(Json::Null);
    assert_eq!(text(ok), "checkpoint 1_a captured\n  files: 3  +10 -2");
    let labelled = snap_reply(&Ok(cp("1_a", Some("x"), (0, 0, 0)))).unwrap_or(Json::Null);
    assert_eq!(text(labelled), "checkpoint 1_a captured\n  files: 0  +0 -0\n  label: x");
    assert!(matches!(snap_reply(&Err(s("no"))), Err((-32000, m)) if m == "no"));
}

#[test]
fn list_replies() {
    let mut items = vec![cp("2_b", Some("two"), (1, 12345, 123456)), cp("1_a", None, (1000, 0, 7))];
    items[0].created_at_ms = 3_600_000;
    assert_eq!(text(list_reply(&Vec::new(), 20, 0)), "(no checkpoints yet)");
    assert_eq!(
        text(list_reply(&items, 20, 7200)),
        "2_b  1h ago    1 files  +12345 -123456  two\n1_a  2h ago  1000 files  +0     -7      (auto)"
    );
    assert_eq!(text(list_reply(&items, 1, 3605)), "2_b  5s ago    1 files  +12345 -123456  two");
    assert_eq!(text(list_reply(&items, 0, 0)), "");
    let blank = vec![cp("1_a", Some(""), (0, 0, 0))];
    assert_eq!(text(list_reply(&blank, 1, 60)), "1_a  1m ago    0 files  +0     -0");
}

#[test]
fn diff_targets() {
    let items = vec![cp("2_b", None, (0, 0, 0)), cp("1_a", None, (0, 0, 0))];
    assert_eq!(diff_target(&items, None), Ok(s("2_b")));
    assert_eq!(diff_target(&items, Some("1")), Ok(s("1_a")));
    assert_eq!(diff_target(&items, Some("9")), Err((-32000, s("no checkpoint matches `9`"))));
    assert_eq!(diff_target(&Vec::new(), None), Err((-32000, s("no checkpoints yet"))));
    assert_eq!(
        resolve_prefix(&items, ""),
        Err((-32000, s("ambiguous prefix `` matches 2 checkpoints")))
    );
}

#[test]
fn diff_replies() {
    let none = diff_reply("1_a", &Ok(Vec::new())).unwrap_or(Json::Null);
    assert_eq!(text(none), "checkpoint 1_a has no changes");
    let ds = vec![file("a", "+x\n", false), file("b", "", true), file("c", "-y", true)];
    assert_eq!(
        text(diff_reply("1_a", &Ok(ds)).unwrap_or(Json::Null)),
        "checkpoint 1_a (3 files)\n\n── a ── (modified, +2 -1)\n+x\n\n── b ── (modified, +2 -1) [TRUNCATED]\n(binary or rename-only)\n\n── c ── (modified, +2 -1) [TRUNCATED]\n-y"
    );
    assert!(matches!(diff_reply("1_a", &Err(s("lost"))), Err((FAILED, m)) if m == "lost"));
}

#[test]
fn restore_replies() {
    let mut report = RestoreReport::default();
    report.restored_files = vec![s("a"), s("b")];
    report.removed_files = vec![s("c")];
    let plain = restore_reply(&Ok(report.clone())).unwrap_or(Json::Null);
    assert_eq!(text(plain), "restored 2 files, removed 1 files");
    report.stash_commit = Some(s("0123456789"));
    assert_eq!(
        text(restore_reply(&Ok(report.clone())).unwrap_or(Json::Null)),
        "restored 2 files, removed 1 files\npre-restore working tree captured at stash commit 01234567"
    );
    report.stash_commit = Some(s("0123"));
    assert!(text(restore_reply(&Ok(report)).unwrap_or(Json::Null)).ends_with(" 0123"));
    assert!(matches!(restore_reply(&Err(s("no"))), Err((FAILED, m)) if m == "no"));
}

#[test]
fn reviews_are_started_once() {
    let mut running = RunningUis::new();
    let ws = "/home/me/project";
    assert_eq!(running.start_review(ws, Some("demo")), (7788, true));
    assert_eq!(running.start_review(ws, Some("demo")), (7788, false));
    assert_eq!(running.start_review(ws, None), (7454, true));
    assert_eq!(running.start_review(ws, None), (7454, false));
    assert_eq!(running.start_review(ws, Some("")), (7455, true));
    assert_eq!(running.start_review(ws, Some("")), (7455, false));
    assert_eq!(running.start_review(ws, None), (7454, false));
    assert_eq!(port_for(ws, Some("")), 7455);
    assert_eq!(text(review_reply(None, 7454)), "review UI is open at http://127.0.0.1:7454");
    assert_eq!(
        text(review_reply(Some("demo"), 7788)),
        "review UI for `demo` is open at http://127.0.0.1:7788"
    );
}

#[test]
fn responses() {
    assert_eq!(
        response_line(json("7"), Ok(text_result("a\n\"b\""))),
        r#"{"id":7,"jsonrpc":"2.0","result":{"content":[{"text":"a\n\"b\"","type":"text"}]}}"#
    );
    assert_eq!(
        response_line(json("\"x\""), Err((-32601, s("no\nway")))),
        r#"{"error":{"code":-32601,"message":"no\nway"},"id":"x","jsonrpc":"2.0"}"#
    );
    let r = response(Json::Null, Ok(Json::Bool(true)));
    assert_eq!(r.get("result").unwrap().as_bool(), Some(true));
    assert!(r.get("error").is_none());
    assert_eq!(r.get_str("jsonrpc"), Some("2.0"));
    assert!(matches!(r.get("id"), Some(Json::Null)));
}
