use gloss::hooks::{
    ensure_hook, ensure_hooks, has_event_lists, hook_contains, hooked_settings, read_settings,
    remove_hooks, settings_text, strip_hook, unhooked_settings, PROMPT_HOOK_CMD, SESSION_HOOK_CMD,
};
use gloss::install::{
    command_outcome, install, mcp_listed, print_report, register_mcp, settings_file,
    slash_command_file, slash_command_stale, uninstall, unregister_mcp, CliStep, CommandEnd,
    InstallReport, Listing, StepOutcomes, StepStatus, SLASH_CMD_BODY,
};
use gloss::json::{compact, parse, Json};

fn s(t: &str) -> String {
    t.to_string()
}

fn fields(text: &str) -> Vec<(String, Json)> {
    match parse(text) {
        Ok(Json::Object(f)) => f,
        _ => panic!("not an object"),
    }
}

fn items(text: &str) -> Vec<Json> {
    match parse(text) {
        Ok(Json::Array(a)) => a,
        _ => panic!("not an array"),
    }
}

fn again(text: &str) -> String {
    compact(parse(text).unwrap())
}

#[test]
fn finds_hooks_by_marker() {
    let list = r#"[{"hooks":[{"type":"command","command":"x gloss snap y"}]}]"#;
    assert!(hook_contains(&items(list), "gloss snap"));
    assert!(!hook_contains(&items(list), "gloss review"));
    assert!(!hook_contains(&items(r#"[{"hooks":"gloss snap"},{"other":1},3]"#), "gloss snap"));
    assert!(!hook_contains(&items(r#"[{"hooks":[{"command":7},{"cmd":"gloss snap"}]}]"#), "gloss snap"));
    assert!(!hook_contains(&items("[]"), "gloss snap"));
}

#[test]
fn adds_a_hook_as_an_entry_of_its_own() {
    let mut f = fields("{}");
    assert!(ensure_hook(&mut f, "E", "run m", "m"));
    assert_eq!(
        compact(Json::Object(f)),
        r#"{"E":[{"hooks":[{"command":"run m","type":"command"}]}]}"#
    );

    let mut f = fields(r#"{"E":[{"hooks":[{"command":"mine"}]}],"F":1}"#);
    assert!(ensure_hook(&mut f, "E", "run gloss", "gloss"));
    assert!(!ensure_hook(&mut f, "E", "run gloss", "gloss"));
    assert_eq!(
        compact(Json::Object(f)),
        r#"{"E":[{"hooks":[{"command":"mine"}]},{"hooks":[{"command":"run gloss","type":"command"}]}],"F":1}"#
    );
}

#[test]
fn removes_hooks_by_marker() {
    let mut f = fields(
        r#"{"E":[{"hooks":[{"command":"a gloss b"},{"command":"mine"}],"matcher":"*"},{"hooks":[{"command":"gloss"}]},{"note":1}]}"#,
    );
    assert!(strip_hook(&mut f, "E", "gloss"));
    assert!(!strip_hook(&mut f, "E", "gloss"));
    assert_eq!(
        compact(Json::Object(f)),
        r#"{"E":[{"hooks":[{"command":"mine"}],"matcher":"*"},{"note":1}]}"#
    );

    let mut f = fields(r#"{"E":[{"hooks":[{"command":"gloss"}]}],"F":[]}"#);
    assert!(strip_hook(&mut f, "E", "gloss"));
    assert_eq!(compact(Json::Object(f)), r#"{"F":[]}"#);

    let mut f = fields(r#"{"E":"gloss","F":[],"G":[{"hooks":[]}]}"#);
    assert!(!strip_hook(&mut f, "E", "gloss"));
    assert!(!strip_hook(&mut f, "F", "gloss"));
    assert!(!strip_hook(&mut f, "G", "gloss"));
    assert!(!strip_hook(&mut f, "H", "gloss"));
    assert_eq!(compact(Json::Object(f)), r#"{"E":"gloss"}"#);
}

#[test]
fn installing_twice_is_installing_once() {
    let start = r#"{"model":"m","hooks":{"Stop":[{"hooks":[{"command":"bell"}]}]}}"#;
    let (first, session, prompt) = match ensure_hooks(parse(start).unwrap()) {
        Ok(t) => t,
        Err(e) => panic!("{}", e),
    };
    assert!(session && prompt);
    let once = compact(first);
    assert!(once.contains("gloss review") && once.contains("gloss snap") && once.contains("bell"));
    let (second, session, prompt) = match ensure_hooks(parse(&once).unwrap()) {
        Ok(t) => t,
        Err(e) => panic!("{}", e),
    };
    assert!(!session && !prompt);
    assert_eq!(compact(second), once);
}

#[test]
fn uninstalling_gives_the_settings_back() {
    let start = r#"{"hooks":{"SessionStart":[{"hooks":[{"command":"bell"}]}]},"model":"m"}"#;
    let (first, _, _) = match ensure_hooks(parse(start).unwrap()) {
        Ok(t) => t,
        Err(e) => panic!("{}", e),
    };
    let (back, session, prompt) = remove_hooks(first).unwrap();
    assert!(session && prompt);
    let back = compact(back);
    assert_eq!(back, start);
    let (same, session, prompt) = remove_hooks(parse(&back).unwrap()).unwrap();
    assert!(!session && !prompt);
    assert_eq!(compact(same), start);
}

#[test]
fn settings_that_cannot_take_hooks() {
    let err = |t: &str| match ensure_hooks(parse(t).unwrap()) {
        Err(e) => e,
        Ok(_) => panic!("accepted"),
    };
    assert_eq!(err("[1]"), "settings.json root is not an object");
    assert_eq!(err(r#"{"hooks":null}"#), "settings.json `hooks` is not an object");
    assert!(!has_event_lists(&parse(r#"{"hooks":{"SessionStart":{}}}"#).unwrap()));
    assert!(!has_event_lists(&parse(r#"{"hooks":{"UserPromptSubmit":1}}"#).unwrap()));
    assert!(has_event_lists(&parse(r#"{"hooks":{"Stop":1,"SessionStart":[]}}"#).unwrap()));
    assert!(has_event_lists(&parse("3").unwrap()));
    assert!(remove_hooks(parse("[1]").unwrap()).is_none());
    assert!(remove_hooks(parse("{}").unwrap()).is_none());
    assert!(remove_hooks(parse(r#"{"hooks":[]}"#).unwrap()).is_none());
}

#[test]
fn settings_files_from_text_to_text() {
    let edit = hooked_settings(None, "p").unwrap().unwrap();
    assert!(edit.session && edit.prompt);
    let expected = format!(
        r#"{{"hooks":{{"SessionStart":[{{"hooks":[{{"command":{},"type":"command"}}]}}],"UserPromptSubmit":[{{"hooks":[{{"command":{},"type":"command"}}]}}]}}}}"#,
        quoted(SESSION_HOOK_CMD),
        quoted(PROMPT_HOOK_CMD),
    );
    assert_eq!(again(&edit.text), expected);
    assert!(edit.text.starts_with("{\n  \"hooks\": {\n    \"SessionStart\": [\n"));

    let second = hooked_settings(Some(&edit.text), "p").unwrap().unwrap();
    assert!(!second.session && !second.prompt);
    assert_eq!(second.text, edit.text);

    let gone = unhooked_settings(Some(&edit.text), "p").unwrap().unwrap();
    assert!(gone.session && gone.prompt);
    assert_eq!(gone.text, "{\n  \"hooks\": {}\n}");

    assert!(hooked_settings(Some(r#"{"hooks":{"SessionStart":1}}"#), "p").unwrap().is_none());
    assert!(unhooked_settings(None, "p").unwrap().is_none());
    assert!(unhooked_settings(Some(" \n"), "p").unwrap().is_none());
    let bad = match hooked_settings(Some("{"), "/home/me/x.json") {
        Err(e) => e,
        Ok(_) => panic!("parsed"),
    };
    assert_eq!(bad, "parse /home/me/x.json: EOF while parsing an object at line 1 column 1");
    let bad = match unhooked_settings(Some("nope"), "f") {
        Err(e) => e,
        Ok(_) => panic!("parsed"),
    };
    assert_eq!(bad, "parse f: expected ident at line 1 column 2");
}

fn quoted(t: &str) -> String {
    compact(Json::Str(t.to_string()))
}

#[test]
fn blank_settings_are_empty() {
    for t in [None, Some(""), Some(" \t\r\n")] {
        assert_eq!(compact(read_settings(t, "p").unwrap()), "{}");
    }
    assert_eq!(compact(read_settings(Some(" [1] "), "p").unwrap()), "[1]");
    assert_eq!(settings_text(parse("[1]").unwrap()), Ok(s("[\n  1\n]")));
}

#[test]
fn listings_of_servers() {
    let out = "Checking...\r\ngloss-dev: x\r\ngloss: gloss mcp - ok\r\n";
    assert!(mcp_listed(out, "gloss"));
    assert!(!mcp_listed("gloss-dev: x\n  gloss: y\n", "gloss"));
    assert!(!mcp_listed("", "gloss"));
}

fn done(step: CliStep) -> Result<bool, String> {
    match step {
        CliStep::Done(r) => r,
        CliStep::Run => panic!("to be run"),
    }
}

#[test]
fn registration_is_decided_by_the_listing() {
    let listed = Listing::Printed(s("gloss: gloss mcp\n"));
    let unlisted = Listing::Printed(s("other: x\n"));
    assert_eq!(done(register_mcp("codex", &listed)), Ok(false));
    assert!(matches!(register_mcp("codex", &unlisted), CliStep::Run));
    assert!(matches!(unregister_mcp("codex", &listed), CliStep::Run));
    assert_eq!(done(unregister_mcp("codex", &unlisted)), Ok(false));
    assert_eq!(
        done(register_mcp("codex", &Listing::NoCommand)),
        Err(s("`codex` CLI not on PATH; run `codex mcp add --scope user gloss -- gloss mcp` manually"))
    );
    assert_eq!(done(unregister_mcp("codex", &Listing::NoCommand)), Err(s("`codex` CLI not on PATH")));
    let broken = Listing::NotStarted(s("denied"));
    assert_eq!(done(register_mcp("codex", &broken)), Err(s("spawn codex: denied")));
    assert_eq!(done(unregister_mcp("codex", &broken)), Err(s("spawn codex: denied")));
}

#[test]
fn outcomes_of_commands() {
    assert_eq!(command_outcome("codex", "mcp add", &CommandEnd::Succeeded), Ok(true));
    assert_eq!(
        command_outcome("codex", "mcp add", &CommandEnd::NotStarted(s("denied"))),
        Err(s("spawn codex: denied"))
    );
    assert_eq!(
        command_outcome("codex", "mcp remove", &CommandEnd::Failed(s("exit status: 2"))),
        Err(s("`codex mcp remove` exited exit status: 2"))
    );
}

#[test]
fn slash_command_is_written_when_it_differs() {
    assert!(slash_command_stale(None));
    assert!(slash_command_stale(Some("other")));
    assert!(!slash_command_stale(Some(SLASH_CMD_BODY)));
    assert!(SLASH_CMD_BODY.contains("gloss review \"$ARGUMENTS\""));
    assert_eq!(settings_file("codex"), ".codex/settings.json");
    assert_eq!(slash_command_file("codex"), ".codex/commands/gloss.md");
}

#[test]
fn reports_on_installation() {
    let report = install(Some(StepOutcomes {
        mcp: Ok(true),
        hooks: Ok((true, false)),
        slash_command: Err(s("denied")),
    }))
    .unwrap_or_default();
    assert_eq!(
        print_report("install", &report, "Codex"),
        "gloss install:\n  ✓ MCP server                 added\n  ✓ SessionStart hook          added\n  · UserPromptSubmit hook      already present\n  ✗ /gloss command             failed: denied\n\nrestart Codex for changes to take effect.\n"
    );
    assert_eq!(report.mcp.icon(), "✓");
    assert_eq!(report.mcp.note(), "added");
    assert_eq!(report.prompt_hook.note(), "already present");
    assert_eq!(report.slash_command.note(), "failed: denied");

    let report = uninstall(Some(StepOutcomes {
        mcp: Ok(false),
        hooks: Err(s("bad file")),
        slash_command: Ok(true),
    }))
    .unwrap_or_default();
    assert_eq!(
        print_report("uninstall", &report, "Codex"),
        "gloss uninstall:\n  · MCP server                 not present\n  ✗ SessionStart hook          failed: bad file\n  ✗ UserPromptSubmit hook      failed: bad file\n  ✓ /gloss command             removed\n\nrestart Codex for changes to take effect.\n"
    );

    assert!(matches!(install(None), Err(e) if e == "cannot find home dir"));
    assert!(matches!(uninstall(None), Err(e) if e == "cannot find home dir"));
    assert!(matches!(InstallReport::default().mcp, StepStatus::Skipped));
    assert!(matches!(StepStatus::default(), StepStatus::Skipped));
}
