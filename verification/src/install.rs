//! Wiring the tool into a coding agent, and out again: the registration as a server,
//! the slash command, and the report on each step. The agent is known by the name of
//! its command, which is also that of its directory under the home directory.

use vstd::prelude::*;
use vstd::string::*;

use crate::text::{lines, padded_right, same_text, starts_with};
use crate::text::{
    law_lines, law_prefix, lemma_shows_next, lemma_shows_nothing, lemma_shows_still, shows,
};
use crate::text::{has_prefix, lines_of, opt_str, pad_right, texts};

verus! {

/// The text of the slash command.
pub const SLASH_CMD_BODY: &'static str = r#"---
argument-hint: [label]
description: Open the gloss review browser tab for the current workspace.
allowed-tools: Bash
---

Run the following command using the Bash tool with `run_in_background: true`:

```
gloss review "$ARGUMENTS"
```

If `$ARGUMENTS` is empty, omit it — `gloss review` will pick a label
automatically from the workspace path.

The command:
- Computes a deterministic port from (workspace, label) so the same project +
  label always opens the same URL.
- If a server is already running on that port, just opens the browser
  (idempotent).
- Otherwise starts the server and opens the browser.

After running, briefly tell the user the URL.
"#;

// ---- registration as a server ----

/// The settings file of the agent, in the home directory.
pub fn settings_file(agent: &str) -> (r: String)
    ensures
        r@ == "."@ + agent@ + "/settings.json"@,
{
    let mut out = ".".to_string();
    out.append(agent);
    out.append("/settings.json");
    out
}

/// The file of the slash command, in the home directory.
pub fn slash_command_file(agent: &str) -> (r: String)
    ensures
        r@ == "."@ + agent@ + "/commands/gloss.md"@,
{
    let mut out = ".".to_string();
    out.append(agent);
    out.append("/commands/gloss.md");
    out
}

/// What the command of the agent says about the servers it knows.
pub enum Listing {
    /// There is no such command.
    NoCommand,
    /// It could not be started, for the reason given.
    NotStarted(String),
    /// What it printed.
    Printed(String),
}

/// What to do about the registration: nothing more, with the outcome given, or run
/// the command that changes it.
pub enum CliStep {
    Done(Result<bool, String>),
    Run,
}

/// How a run of the command of the agent ended.
pub enum CommandEnd {
    /// It could not be started, for the reason given.
    NotStarted(String),
    /// It failed, with the status given.
    Failed(String),
    Succeeded,
}

/// A step is over, with the outcome given.
pub open spec fn step_done(step: CliStep, outcome: Result<bool, Seq<char>>) -> bool {
    step matches CliStep::Done(r) && same_outcome(r, outcome)
}

/// Two outcomes are the same.
pub open spec fn same_outcome(r: Result<bool, String>, outcome: Result<bool, Seq<char>>) -> bool {
    match outcome {
        Ok(b) => r == Ok::<bool, String>(b),
        Err(e) => r matches Err(m) && m@ == e,
    }
}

/// A line of the listing names the server.
pub open spec fn lists_server(listing: Seq<char>, name: Seq<char>) -> bool {
    exists|i: int|
        0 <= i < lines_of(listing).len() && has_prefix(
            #[trigger] lines_of(listing)[i],
            name + ":"@,
        )
}

/// Whether a line of the listing names the server.
pub fn mcp_listed(listing: &str, name: &str) -> (r: bool)
    ensures
        r == lists_server(listing@, name@),
{
    let mut start = name.to_string();
    start.append(":");
    let all = lines(listing);
    let mut i: usize = 0;
    while i < all.len()
        invariant
            i <= all@.len(),
            texts(all@) == lines_of(listing@),
            start@ == name@ + ":"@,
            forall|k: int|
                0 <= k < i ==> !has_prefix(#[trigger] lines_of(listing@)[k], start@),
        decreases all@.len() - i,
    {
        assert(texts(all@)[i as int] == all@[i as int]@);
        if starts_with(all[i].as_str(), start.as_str()) {
            assert(has_prefix(lines_of(listing@)[i as int], start@));
            return true;
        }
        i += 1;
    }
    false
}

/// What is said of a command that could not be started.
pub open spec fn spawn_error(agent: Seq<char>, e: Seq<char>) -> Seq<char> {
    "spawn "@ + agent + ": "@ + e
}

fn not_started(agent: &str, e: &str) -> (r: String)
    ensures
        r@ == spawn_error(agent@, e@),
{
    let mut m = "spawn ".to_string();
    m.append(agent);
    m.append(": ");
    m.append(e);
    m
}

/// What to do about registering the server with the agent, known by the name of its
/// command: nothing where it is listed already.
pub fn register_mcp(agent: &str, listing: &Listing) -> (r: CliStep)
    ensures
        match *listing {
            Listing::NoCommand => step_done(
                r,
                Err(
                    "`"@ + agent@ + "` CLI not on PATH; run `"@ + agent@
                        + " mcp add --scope user gloss -- gloss mcp` manually"@,
                ),
            ),
            Listing::NotStarted(e) => step_done(r, Err(spawn_error(agent@, e@))),
            Listing::Printed(t) => if lists_server(t@, "gloss"@) {
                step_done(r, Ok(false))
            } else {
                r is Run
            },
        },
{
    match listing {
        Listing::NoCommand => {
            let mut m = "`".to_string();
            m.append(agent);
            m.append("` CLI not on PATH; run `");
            m.append(agent);
            m.append(" mcp add --scope user gloss -- gloss mcp` manually");
            CliStep::Done(Err(m))
        },
        Listing::NotStarted(e) => CliStep::Done(Err(not_started(agent, e.as_str()))),
        Listing::Printed(t) => if mcp_listed(t.as_str(), "gloss") {
            CliStep::Done(Ok(false))
        } else {
            CliStep::Run
        },
    }
}

/// What to do about taking the registration back: nothing where the server is not
/// listed.
pub fn unregister_mcp(agent: &str, listing: &Listing) -> (r: CliStep)
    ensures
        match *listing {
            Listing::NoCommand => step_done(r, Err("`"@ + agent@ + "` CLI not on PATH"@)),
            Listing::NotStarted(e) => step_done(r, Err(spawn_error(agent@, e@))),
            Listing::Printed(t) => if lists_server(t@, "gloss"@) {
                r is Run
            } else {
                step_done(r, Ok(false))
            },
        },
{
    match listing {
        Listing::NoCommand => {
            let mut m = "`".to_string();
            m.append(agent);
            m.append("` CLI not on PATH");
            CliStep::Done(Err(m))
        },
        Listing::NotStarted(e) => CliStep::Done(Err(not_started(agent, e.as_str()))),
        Listing::Printed(t) => if mcp_listed(t.as_str(), "gloss") {
            CliStep::Run
        } else {
            CliStep::Done(Ok(false))
        },
    }
}

/// The outcome of a run of the command of the agent; `action` says what for.
pub open spec fn outcome_of(
    agent: Seq<char>,
    action: Seq<char>,
    end: CommandEnd,
) -> Result<bool, Seq<char>> {
    match end {
        CommandEnd::NotStarted(e) => Err(spawn_error(agent, e@)),
        CommandEnd::Failed(status) => Err(
            "`"@ + agent + " "@ + action + "` exited "@ + status@,
        ),
        CommandEnd::Succeeded => Ok(true),
    }
}

/// The outcome of the run that registers the server (the action `mcp add`) or takes
/// the registration back (`mcp remove`).
pub fn command_outcome(agent: &str, action: &str, end: &CommandEnd) -> (r: Result<bool, String>)
    ensures
        same_outcome(r, outcome_of(agent@, action@, *end)),
{
    match end {
        CommandEnd::NotStarted(e) => Err(not_started(agent, e.as_str())),
        CommandEnd::Failed(status) => {
            let mut m = "`".to_string();
            m.append(agent);
            m.append(" ");
            m.append(action);
            m.append("` exited ");
            m.append(status.as_str());
            Err(m)
        },
        CommandEnd::Succeeded => Ok(true),
    }
}

/// Whether the slash command has to be written: not where the file could be read
/// and holds its text already.
pub fn slash_command_stale(existing: Option<&str>) -> (r: bool)
    ensures
        r == (opt_str(existing) != Some(SLASH_CMD_BODY@)),
{
    match existing {
        Some(text) => !same_text(text, SLASH_CMD_BODY),
        None => true,
    }
}

// ---- report ----

/// What became of a step.
pub enum StepStatus {
    /// There was nothing to do.
    Skipped,
    /// The step was done.
    Added,
    /// The step failed, for the reason given.
    Failed(String),
}

/// The content of a step's status.
pub enum StepView {
    Skipped,
    Added,
    Failed(Seq<char>),
}

impl View for StepStatus {
    type V = StepView;

    open spec fn view(&self) -> StepView {
        match *self {
            StepStatus::Skipped => StepView::Skipped,
            StepStatus::Added => StepView::Added,
            StepStatus::Failed(e) => StepView::Failed(e@),
        }
    }
}

impl Default for StepStatus {
    fn default() -> (r: Self)
        ensures
            r is Skipped,
    {
        StepStatus::Skipped
    }
}

/// The mark in front of a step.
pub open spec fn icon_of(s: StepView) -> Seq<char> {
    match s {
        StepView::Added => "✓"@,
        StepView::Skipped => "·"@,
        StepView::Failed(_) => "✗"@,
    }
}

/// What is said of a step: `done` where it was done, `skip` where there was nothing
/// to do.
pub open spec fn note_of(s: StepView, done: Seq<char>, skip: Seq<char>) -> Seq<char> {
    match s {
        StepView::Added => done,
        StepView::Skipped => skip,
        StepView::Failed(e) => "failed: "@ + e,
    }
}

impl StepStatus {
    /// The mark in front of the step.
    pub fn icon(&self) -> (r: &'static str)
        ensures
            r@ == icon_of(self@),
    {
        match self {
            StepStatus::Added => "✓",
            StepStatus::Skipped => "·",
            StepStatus::Failed(_) => "✗",
        }
    }

    fn note_with(&self, done: &str, skip: &str) -> (r: String)
        ensures
            r@ == note_of(self@, done@, skip@),
    {
        match self {
            StepStatus::Added => done.to_string(),
            StepStatus::Skipped => skip.to_string(),
            StepStatus::Failed(e) => {
                let mut m = "failed: ".to_string();
                m.append(e.as_str());
                m
            },
        }
    }

    /// What is said of the step when installing.
    pub fn note(&self) -> (r: String)
        ensures
            r@ == note_of(self@, "added"@, "already present"@),
    {
        self.note_with("added", "already present")
    }
}

/// What became of each step of installing or uninstalling.
pub struct InstallReport {
    pub mcp: StepStatus,
    pub session_hook: StepStatus,
    pub prompt_hook: StepStatus,
    pub slash_command: StepStatus,
}

impl Default for InstallReport {
    fn default() -> (r: Self)
        ensures
            r.mcp is Skipped,
            r.session_hook is Skipped,
            r.prompt_hook is Skipped,
            r.slash_command is Skipped,
    {
        InstallReport {
            mcp: StepStatus::Skipped,
            session_hook: StepStatus::Skipped,
            prompt_hook: StepStatus::Skipped,
            slash_command: StepStatus::Skipped,
        }
    }
}

/// The outcomes of the steps: whether something was changed, or why it failed. The
/// two hooks stand in one file, so they fail together.
pub struct StepOutcomes {
    pub mcp: Result<bool, String>,
    pub hooks: Result<(bool, bool), String>,
    pub slash_command: Result<bool, String>,
}

/// The status of a step that changed something or not.
pub open spec fn change_status(changed: bool) -> StepView {
    if changed {
        StepView::Added
    } else {
        StepView::Skipped
    }
}

/// The status of a step by its outcome.
pub open spec fn status_of(outcome: Result<bool, String>) -> StepView {
    match outcome {
        Ok(b) => change_status(b),
        Err(e) => StepView::Failed(e@),
    }
}

/// A report tells each outcome.
pub open spec fn reports(report: InstallReport, o: StepOutcomes) -> bool {
    &&& report.mcp@ == status_of(o.mcp)
    &&& report.slash_command@ == status_of(o.slash_command)
    &&& match o.hooks {
        Ok((s, p)) => report.session_hook@ == change_status(s) && report.prompt_hook@
            == change_status(p),
        Err(e) => report.session_hook@ == StepView::Failed(e@) && report.prompt_hook@
            == StepView::Failed(e@),
    }
}

fn changed(b: bool) -> (r: StepStatus)
    ensures
        r@ == change_status(b),
{
    if b {
        StepStatus::Added
    } else {
        StepStatus::Skipped
    }
}

fn status(outcome: Result<bool, String>) -> (r: StepStatus)
    ensures
        r@ == status_of(outcome),
{
    match outcome {
        Ok(b) => changed(b),
        Err(e) => StepStatus::Failed(e),
    }
}

/// The report on installing, from the outcomes of the steps; they are missing where
/// there is no home directory to install into.
pub fn install(outcomes: Option<StepOutcomes>) -> (r: Result<InstallReport, String>)
    ensures
        match outcomes {
            None => r matches Err(e) && e@ == "cannot find home dir"@,
            Some(o) => r matches Ok(report) && reports(report, o),
        },
{
    match outcomes {
        None => Err("cannot find home dir".to_string()),
        Some(o) => {
            let (session_hook, prompt_hook) = match o.hooks {
                Ok((s, p)) => (changed(s), changed(p)),
                Err(e) => (StepStatus::Failed(e.clone()), StepStatus::Failed(e)),
            };
            Ok(
                InstallReport {
                    mcp: status(o.mcp),
                    session_hook,
                    prompt_hook,
                    slash_command: status(o.slash_command),
                },
            )
        },
    }
}

/// The report on uninstalling, from the outcomes of the steps; they are missing
/// where there is no home directory. A step that removed something counts as done.
pub fn uninstall(outcomes: Option<StepOutcomes>) -> (r: Result<InstallReport, String>)
    ensures
        match outcomes {
            None => r matches Err(e) && e@ == "cannot find home dir"@,
            Some(o) => r matches Ok(report) && reports(report, o),
        },
{
    install(outcomes)
}

/// The line on one step.
pub open spec fn row_of(
    name: Seq<char>,
    s: StepView,
    done: Seq<char>,
    skip: Seq<char>,
) -> Seq<char> {
    "  "@ + icon_of(s) + " "@ + pad_right(name, ' ', 26) + " "@ + note_of(s, done, skip) + "\n"@
}

/// The report in words.
pub open spec fn report_text(
    label: Seq<char>,
    report: InstallReport,
    agent: Seq<char>,
) -> Seq<char> {
    let done = if label == "uninstall"@ {
        "removed"@
    } else {
        "added"@
    };
    let skip = if label == "uninstall"@ {
        "not present"@
    } else {
        "already present"@
    };
    "gloss "@ + label + ":\n"@ + row_of("MCP server"@, report.mcp@, done, skip) + row_of(
        "SessionStart hook"@,
        report.session_hook@,
        done,
        skip,
    ) + row_of("UserPromptSubmit hook"@, report.prompt_hook@, done, skip) + row_of(
        "/gloss command"@,
        report.slash_command@,
        done,
        skip,
    ) + "\nrestart "@ + agent + " for changes to take effect.\n"@
}

fn row(name: &str, s: &StepStatus, done: &str, skip: &str) -> (r: String)
    ensures
        r@ == row_of(name@, s@, done@, skip@),
{
    let mut out = "  ".to_string();
    out.append(s.icon());
    out.append(" ");
    out.append(padded_right(name, ' ', 26).as_str());
    out.append(" ");
    out.append(s.note_with(done, skip).as_str());
    out.append("\n");
    out
}

/// The report in words, to be printed; `label` says whether it is on `install` or
/// on `uninstall`, and `agent` is what the agent is called.
pub fn print_report(label: &str, report: &InstallReport, agent: &str) -> (r: String)
    ensures
        r@ == report_text(label@, *report, agent@),
{
    let uninstalled = same_text(label, "uninstall");
    let done = if uninstalled {
        "removed"
    } else {
        "added"
    };
    let skip = if uninstalled {
        "not present"
    } else {
        "already present"
    };
    let mut out = "gloss ".to_string();
    out.append(label);
    out.append(":\n");
    out.append(row("MCP server", &report.mcp, done, skip).as_str());
    out.append(row("SessionStart hook", &report.session_hook, done, skip).as_str());
    out.append(row("UserPromptSubmit hook", &report.prompt_hook, done, skip).as_str());
    out.append(row("/gloss command", &report.slash_command, done, skip).as_str());
    out.append("\nrestart ");
    out.append(agent);
    out.append(" for changes to take effect.\n");
    out
}

// ---- laws ----

/// A listing names a server where one of its lines begins with the name and a colon: the
/// first line, or one of those behind it.
pub proof fn law_servers_by_line(line: Seq<char>, rest: Seq<char>, name: Seq<char>)
    requires
        !line.contains('\n'),
        line.len() == 0 || line.last() != '\r',
    ensures
        !lists_server(Seq::empty(), name),
        lists_server(line + seq!['\n'] + rest, name) <==> lists_server(rest, name) || exists|
            t: Seq<char>,
        |
            line == #[trigger] (name + seq![':'] + t),
{
    reveal_strlit(":");
    assert(":"@ =~= seq![':']);
    law_lines(line, rest);
    let all = lines_of(line + seq!['\n'] + rest);
    let more = lines_of(rest);
    let start = name + ":"@;
    assert(all[0] == line);
    law_prefix(line, start);
    if lists_server(rest, name) {
        let i = choose|i: int| 0 <= i < more.len() && has_prefix(#[trigger] more[i], start);
        assert(all[i + 1] == more[i]);
    }
    if lists_server(line + seq!['\n'] + rest, name) {
        let i = choose|i: int| 0 <= i < all.len() && has_prefix(#[trigger] all[i], start);
        if i > 0 {
            assert(all[i] == more[i - 1]);
        }
    }
}

/// A step is over with an outcome where it says so, and the outcome is the same.
pub proof fn law_steps_that_are_done(step: CliStep, changed: bool, why: Seq<char>)
    ensures
        step_done(step, Ok(changed)) <==> step == CliStep::Done(Ok(changed)),
        step_done(step, Err(why)) <==> (step matches CliStep::Done(Err(m)) && m@ == why),
{
}

/// A run of the command of the agent changed something where it succeeded, and only
/// there; otherwise its outcome says what failed, and why.
pub proof fn law_outcomes_of_runs(agent: Seq<char>, action: Seq<char>, end: CommandEnd)
    ensures
        end is Succeeded <==> outcome_of(agent, action, end) is Ok,
        outcome_of(agent, action, end) matches Ok(b) ==> b,
        end matches CommandEnd::NotStarted(e) ==> outcome_of(agent, action, end) == Err::<
            bool,
            Seq<char>,
        >("spawn "@ + agent + ": "@ + e@),
        end matches CommandEnd::Failed(status) ==> outcome_of(agent, action, end) == Err::<
            bool,
            Seq<char>,
        >("`"@ + agent + " "@ + action + "` exited "@ + status@),
{
}

/// A report tells of each step what became of it: done where something was changed,
/// skipped where nothing was, and failed with the reason where it failed.
pub proof fn law_report_tells_outcomes(report: InstallReport, o: StepOutcomes)
    requires
        reports(report, o),
    ensures
        report.mcp@ is Added <==> o.mcp == Ok::<bool, String>(true),
        report.mcp@ is Skipped <==> o.mcp == Ok::<bool, String>(false),
        o.mcp matches Err(e) ==> report.mcp@ == StepView::Failed(e@),
        report.slash_command@ is Added <==> o.slash_command == Ok::<bool, String>(true),
        report.slash_command@ is Skipped <==> o.slash_command == Ok::<bool, String>(false),
        o.slash_command matches Err(e) ==> report.slash_command@ == StepView::Failed(e@),
        report.session_hook@ is Added <==> (o.hooks matches Ok(h) && h.0),
        report.session_hook@ is Skipped <==> (o.hooks matches Ok(h) && !h.0),
        report.prompt_hook@ is Added <==> (o.hooks matches Ok(h) && h.1),
        report.prompt_hook@ is Skipped <==> (o.hooks matches Ok(h) && !h.1),
        o.hooks matches Err(e) ==> report.session_hook@ == StepView::Failed(e@)
            && report.prompt_hook@ == StepView::Failed(e@),
{
}

/// The line on a step has its mark, its name and what is said of it; a step that failed is
/// named with the reason.
pub proof fn law_rows(name: Seq<char>, s: StepView, done: Seq<char>, skip: Seq<char>, e: Seq<char>)
    ensures
        shows(
            row_of(name, s, done, skip),
            seq![
                icon_of(s),
                pad_right(name, ' ', 26),
                note_of(s, done, skip),
                "\n"@,
            ],
        ),
        icon_of(StepView::Added) == "✓"@,
        icon_of(StepView::Skipped) == "·"@,
        icon_of(StepView::Failed(e)) == "✗"@,
        note_of(StepView::Added, done, skip) == done,
        note_of(StepView::Skipped, done, skip) == skip,
        note_of(StepView::Failed(e), done, skip) == "failed: "@ + e,
{
    let t_0 = Seq::<char>::empty();
    let p_0 = Seq::<Seq<char>>::empty();
    lemma_shows_nothing(t_0);
    lemma_shows_still(t_0, "  "@, p_0);
    let p_1 = p_0;
    assert(t_0 + "  "@ =~= "  "@);
    let t_1 = "  "@;
    lemma_shows_next(t_1, icon_of(s), p_1);
    let p_2 = p_1.push(icon_of(s));
    let t_2 = t_1 + icon_of(s);
    lemma_shows_still(t_2, " "@, p_2);
    let p_3 = p_2;
    let t_3 = t_2 + " "@;
    lemma_shows_next(t_3, pad_right(name, ' ', 26), p_3);
    let p_4 = p_3.push(pad_right(name, ' ', 26));
    let t_4 = t_3 + pad_right(name, ' ', 26);
    lemma_shows_still(t_4, " "@, p_4);
    let p_5 = p_4;
    let t_5 = t_4 + " "@;
    lemma_shows_next(t_5, note_of(s, done, skip), p_5);
    let p_6 = p_5.push(note_of(s, done, skip));
    let t_6 = t_5 + note_of(s, done, skip);
    lemma_shows_next(t_6, "\n"@, p_6);
    let p_7 = p_6.push("\n"@);
    let t_7 = t_6 + "\n"@;
    assert(seq![
        icon_of(s),
        pad_right(name, ' ', 26),
        note_of(s, done, skip),
        "\n"@,
    ] =~= p_7);
}

/// The report in words has the four steps, in order, and speaks of what was added or, on
/// uninstalling, of what was removed.
pub proof fn law_report_has_every_step(
    label: Seq<char>,
    report: InstallReport,
    agent: Seq<char>,
)
    ensures
        ({
            let done = if label == "uninstall"@ {
                "removed"@
            } else {
                "added"@
            };
            let skip = if label == "uninstall"@ {
                "not present"@
            } else {
                "already present"@
            };
            shows(
                report_text(label, report, agent),
                seq![
                    "gloss "@,
                    label,
                    ":\n"@,
                    row_of("MCP server"@, report.mcp@, done, skip),
                    row_of("SessionStart hook"@, report.session_hook@, done, skip),
                    row_of("UserPromptSubmit hook"@, report.prompt_hook@, done, skip),
                    row_of("/gloss command"@, report.slash_command@, done, skip),
                    "\nrestart "@,
                    agent,
                    " for changes to take effect.\n"@,
                ],
            )
        }),
{
    let done = if label == "uninstall"@ {
        "removed"@
    } else {
        "added"@
    };
    let skip = if label == "uninstall"@ {
        "not present"@
    } else {
        "already present"@
    };
    let t_0 = Seq::<char>::empty();
    let p_0 = Seq::<Seq<char>>::empty();
    lemma_shows_nothing(t_0);
    lemma_shows_next(t_0, "gloss "@, p_0);
    let p_1 = p_0.push("gloss "@);
    assert(t_0 + "gloss "@ =~= "gloss "@);
    let t_1 = "gloss "@;
    lemma_shows_next(t_1, label, p_1);
    let p_2 = p_1.push(label);
    let t_2 = t_1 + label;
    lemma_shows_next(t_2, ":\n"@, p_2);
    let p_3 = p_2.push(":\n"@);
    let t_3 = t_2 + ":\n"@;
    lemma_shows_next(t_3, row_of("MCP server"@, report.mcp@, done, skip), p_3);
    let p_4 = p_3.push(row_of("MCP server"@, report.mcp@, done, skip));
    let t_4 = t_3 + row_of("MCP server"@, report.mcp@, done, skip);
    lemma_shows_next(t_4, row_of("SessionStart hook"@, report.session_hook@, done, skip), p_4);
    let p_5 = p_4.push(row_of("SessionStart hook"@, report.session_hook@, done, skip));
    let t_5 = t_4 + row_of("SessionStart hook"@, report.session_hook@, done, skip);
    lemma_shows_next(t_5, row_of("UserPromptSubmit hook"@, report.prompt_hook@, done, skip), p_5);
    let p_6 = p_5.push(row_of("UserPromptSubmit hook"@, report.prompt_hook@, done, skip));
    let t_6 = t_5 + row_of("UserPromptSubmit hook"@, report.prompt_hook@, done, skip);
    lemma_shows_next(t_6, row_of("/gloss command"@, report.slash_command@, done, skip), p_6);
    let p_7 = p_6.push(row_of("/gloss command"@, report.slash_command@, done, skip));
    let t_7 = t_6 + row_of("/gloss command"@, report.slash_command@, done, skip);
    lemma_shows_next(t_7, "\nrestart "@, p_7);
    let p_8 = p_7.push("\nrestart "@);
    let t_8 = t_7 + "\nrestart "@;
    lemma_shows_next(t_8, agent, p_8);
    let p_9 = p_8.push(agent);
    let t_9 = t_8 + agent;
    lemma_shows_next(t_9, " for changes to take effect.\n"@, p_9);
    let p_10 = p_9.push(" for changes to take effect.\n"@);
    let t_10 = t_9 + " for changes to take effect.\n"@;
    assert(seq![
        "gloss "@,
        label,
        ":\n"@,
        row_of("MCP server"@, report.mcp@, done, skip),
        row_of("SessionStart hook"@, report.session_hook@, done, skip),
        row_of("UserPromptSubmit hook"@, report.prompt_hook@, done, skip),
        row_of("/gloss command"@, report.slash_command@, done, skip),
        "\nrestart "@,
        agent,
        " for changes to take effect.\n"@,
    ] =~= p_10);
}

/// The status of a step is what it holds.
pub proof fn law_status_is_what_it_holds(e: String)
    ensures
        StepStatus::Skipped@ is Skipped,
        StepStatus::Added@ is Added,
        StepStatus::Failed(e)@ == StepView::Failed(e@),
{
}

} // verus!
