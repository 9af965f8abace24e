//! The command line: what each command prints.

use vstd::prelude::*;
use vstd::string::*;

use crate::checkpoint::{resolve_id, CheckpointInfo};
use crate::checkpoint::{at_most, resolved};
use crate::diff::{status_name, FileDiff};
use crate::diff::status_word;
use crate::restore::RestoreReport;
use crate::text::{decimal_text, lines, padded_left, padded_right, starts_with};
use crate::text::{decimal, has_prefix, lines_of, opt_str, pad_left, pad_right, texts};
use crate::text::{
    law_prefix, lemma_shows_both, lemma_shows_next, lemma_shows_nothing, lemma_shows_still, shows,
};
use crate::web::lemma_begins;
use crate::web::{format_ts, local_url, port_for};
use crate::web::{age_of, port_of, url_of};

verus! {

/// What `snap` prints.
pub open spec fn snap_output_of(cp: CheckpointInfo) -> Seq<char> {
    cp.id@ + "  ("@ + decimal(cp.files_changed as nat) + " files, +"@ + decimal(
        cp.insertions as nat,
    ) + " -"@ + decimal(cp.deletions as nat) + ")\n"@ + (match cp.label {
        Some(l) => "  label: "@ + l@ + "\n"@,
        None => ""@,
    })
}

/// What `snap` prints.
pub fn snap_output(cp: &CheckpointInfo) -> (r: String)
    ensures
        r@ == snap_output_of(*cp),
{
    let label = match &cp.label {
        Some(l) => {
            let mut t = "  label: ".to_string();
            t.append(l.as_str());
            t.append("\n");
            t
        },
        None => "".to_string(),
    };
    let mut out = cp.id.clone();
    out.append("  (");
    out.append(decimal_text(cp.files_changed as u64).as_str());
    out.append(" files, +");
    out.append(decimal_text(cp.insertions as u64).as_str());
    out.append(" -");
    out.append(decimal_text(cp.deletions as u64).as_str());
    out.append(")\n");
    out.append(label.as_str());
    out
}

/// The line on a checkpoint.
pub open spec fn list_line(cp: CheckpointInfo, now_secs: u64) -> Seq<char> {
    cp.id@ + "  "@ + age_of(cp.created_at_ms, now_secs) + "  "@ + pad_left(
        decimal(cp.files_changed as nat),
        ' ',
        3,
    ) + " files  +"@ + pad_right(decimal(cp.insertions as nat), ' ', 5) + " -"@ + pad_right(
        decimal(cp.deletions as nat),
        ' ',
        5,
    ) + "  "@ + (match cp.label {
        Some(l) => l@,
        None => "-"@,
    }) + "\n"@
}

/// The lines on checkpoints.
pub open spec fn list_lines(items: Seq<CheckpointInfo>, now_secs: u64) -> Seq<char>
    decreases items.len(),
{
    if items.len() == 0 {
        Seq::empty()
    } else {
        list_lines(items.drop_last(), now_secs) + list_line(items.last(), now_secs)
    }
}

/// What `list` prints.
pub open spec fn list_output_of(
    items: Seq<CheckpointInfo>,
    limit: usize,
    now_secs: u64,
) -> Seq<char> {
    if items.len() == 0 {
        "(no checkpoints)\n"@
    } else {
        list_lines(at_most(items, limit as int), now_secs)
    }
}

/// What `list` prints, from the checkpoints of the workspace.
pub fn list_output(items: &Vec<CheckpointInfo>, limit: usize, now_secs: u64) -> (r: String)
    ensures
        r@ == list_output_of(items@, limit, now_secs),
{
    if items.len() == 0 {
        return "(no checkpoints)\n".to_string();
    }
    let n: usize = if limit < items.len() {
        limit
    } else {
        items.len()
    };
    let mut out = String::new();
    let mut i: usize = 0;
    assert(list_lines(items@.take(0), now_secs) =~= out@);
    while i < n
        invariant
            i <= n <= items@.len(),
            out@ == list_lines(items@.take(i as int), now_secs),
        decreases n - i,
    {
        let cp = &items[i];
        let label = match &cp.label {
            Some(l) => l.as_str(),
            None => "-",
        };
        assert(items@.take(i + 1).drop_last() == items@.take(i as int));
        let mut line = cp.id.clone();
        line.append("  ");
        line.append(format_ts(cp.created_at_ms, now_secs).as_str());
        line.append("  ");
        line.append(padded_left(decimal_text(cp.files_changed as u64).as_str(), ' ', 3).as_str());
        line.append(" files  +");
        line.append(padded_right(decimal_text(cp.insertions as u64).as_str(), ' ', 5).as_str());
        line.append(" -");
        line.append(padded_right(decimal_text(cp.deletions as u64).as_str(), ' ', 5).as_str());
        line.append("  ");
        line.append(label);
        line.append("\n");
        out.append(line.as_str());
        i += 1;
    }
    assert(items@.take(n as int) == at_most(items@, limit as int));
    out
}

/// The checkpoint that `diff` is to show: the one asked for, or the latest.
pub open spec fn diff_target_of(items: Seq<CheckpointInfo>, id: Option<Seq<char>>) -> Result<
    Seq<char>,
    Seq<char>,
> {
    match id {
        Some(prefix) => resolved(items, prefix),
        None => if items.len() == 0 {
            Err("no checkpoints yet — run `gloss snap` first"@)
        } else {
            Ok(items[0].id@)
        },
    }
}

/// The checkpoint that `diff` is to show: the one asked for, or the latest.
pub fn diff_target(items: &Vec<CheckpointInfo>, id: Option<&str>) -> (r: Result<String, String>)
    ensures
        match r {
            Ok(t) => diff_target_of(items@, opt_str(id)) == Ok::<Seq<char>, Seq<char>>(t@),
            Err(e) => diff_target_of(items@, opt_str(id)) == Err::<Seq<char>, Seq<char>>(e@),
        },
{
    match id {
        Some(prefix) => resolve_id(items, prefix),
        None => if items.len() == 0 {
            Err("no checkpoints yet — run `gloss snap` first".to_string())
        } else {
            Ok(items[0].id.clone())
        },
    }
}

/// The terminal code `code` where colours are wanted.
pub open spec fn paint(color: bool, code: Seq<char>) -> Seq<char> {
    if color {
        code
    } else {
        ""@
    }
}

fn painted(color: bool, code: &'static str) -> (r: &'static str)
    ensures
        r@ == paint(color, code@),
{
    if color {
        code
    } else {
        ""
    }
}

/// Back to the plain style.
pub const RESET: &'static str = "\x1b[0m";

/// Bold.
pub const BOLD: &'static str = "\x1b[1m";

/// Cyan.
pub const CYAN: &'static str = "\x1b[36m";

/// Green.
pub const GREEN: &'static str = "\x1b[32m";

/// Red.
pub const RED: &'static str = "\x1b[31m";

/// Faint.
pub const DIM: &'static str = "\x1b[2m";

/// The style of a line of a patch; nothing for one that is printed plain.
pub open spec fn line_style(line: Seq<char>) -> Option<Seq<char>> {
    if has_prefix(line, "+++"@) || has_prefix(line, "---"@) {
        Some(BOLD@)
    } else if has_prefix(line, "+"@) {
        Some(GREEN@)
    } else if has_prefix(line, "-"@) {
        Some(RED@)
    } else if has_prefix(line, "@@"@) {
        Some(CYAN@)
    } else {
        None
    }
}

/// A line of a patch as it is printed.
pub open spec fn patch_line(line: Seq<char>, color: bool) -> Seq<char> {
    match line_style(line) {
        Some(style) => paint(color, style) + line + paint(color, RESET@) + "\n"@,
        None => line + "\n"@,
    }
}

/// The lines of a patch as they are printed.
pub open spec fn patch_lines(ls: Seq<Seq<char>>, color: bool) -> Seq<char>
    decreases ls.len(),
{
    if ls.len() == 0 {
        Seq::empty()
    } else {
        patch_lines(ls.drop_last(), color) + patch_line(ls.last(), color)
    }
}

/// The line above the patch of a file.
pub open spec fn file_heading(fd: FileDiff, color: bool) -> Seq<char> {
    "\n"@ + paint(color, BOLD@) + paint(color, CYAN@) + "── "@ + fd.path@ + " ──"@ + paint(
        color,
        RESET@,
    ) + "  "@ + paint(color, DIM@) + status_word(fd.status) + "  +"@ + decimal(
        fd.additions as nat,
    ) + " -"@ + decimal(fd.deletions as nat) + (if fd.truncated {
        "  (truncated)"@
    } else {
        ""@
    }) + paint(color, RESET@) + "\n"@
}

/// A changed file as it is printed.
pub open spec fn file_output(fd: FileDiff, color: bool) -> Seq<char> {
    file_heading(fd, color) + (if fd.patch@.len() == 0 {
        paint(color, DIM@) + "(no textual diff: binary or rename-only)"@ + paint(color, RESET@)
            + "\n"@
    } else {
        patch_lines(lines_of(fd.patch@), color)
    })
}

fn style_of(line: &str) -> (r: Option<&'static str>)
    ensures
        opt_str(r) == line_style(line@),
{
    if starts_with(line, "+++") || starts_with(line, "---") {
        Some(BOLD)
    } else if starts_with(line, "+") {
        Some(GREEN)
    } else if starts_with(line, "-") {
        Some(RED)
    } else if starts_with(line, "@@") {
        Some(CYAN)
    } else {
        None
    }
}

fn patch_body(patch: &str, color: bool) -> (r: String)
    ensures
        r@ == patch_lines(lines_of(patch@), color),
{
    let all = lines(patch);
    let ghost ls = lines_of(patch@);
    let mut out = String::new();
    let mut i: usize = 0;
    assert(patch_lines(ls.take(0), color) =~= out@);
    while i < all.len()
        invariant
            i <= all@.len(),
            texts(all@) == ls,
            ls.len() == all@.len(),
            out@ == patch_lines(ls.take(i as int), color),
        decreases all@.len() - i,
    {
        assert(texts(all@)[i as int] == all@[i as int]@);
        assert(ls.take(i + 1).drop_last() == ls.take(i as int));
        let line = all[i].as_str();
        let row = match style_of(line) {
            Some(style) => {
                let mut t = painted(color, style).to_string();
                t.append(line);
                t.append(painted(color, RESET));
                t.append("\n");
                t
            },
            None => {
                let mut t = line.to_string();
                t.append("\n");
                t
            },
        };
        out.append(row.as_str());
        i += 1;
    }
    assert(ls.take(i as int) == ls);
    out
}

/// A changed file as it is printed, in colours or without.
pub fn print_file_diff(fd: &FileDiff, color: bool) -> (r: String)
    ensures
        r@ == file_output(*fd, color),
{
    let reset = painted(color, RESET);
    let body = if fd.patch.as_str().is_empty() {
        let mut t = painted(color, DIM).to_string();
        t.append("(no textual diff: binary or rename-only)");
        t.append(reset);
        t.append("\n");
        t
    } else {
        patch_body(fd.patch.as_str(), color)
    };
    let mut out = "\n".to_string();
    out.append(painted(color, BOLD));
    out.append(painted(color, CYAN));
    out.append("── ");
    out.append(fd.path.as_str());
    out.append(" ──");
    out.append(reset);
    out.append("  ");
    out.append(painted(color, DIM));
    out.append(status_name(fd.status));
    out.append("  +");
    out.append(decimal_text(fd.additions as u64).as_str());
    out.append(" -");
    out.append(decimal_text(fd.deletions as u64).as_str());
    out.append(
        if fd.truncated {
            "  (truncated)"
        } else {
            ""
        },
    );
    out.append(reset);
    out.append("\n");
    out.append(body.as_str());
    out
}

/// Changed files as they are printed.
pub open spec fn files_output(ds: Seq<FileDiff>, color: bool) -> Seq<char>
    decreases ds.len(),
{
    if ds.len() == 0 {
        Seq::empty()
    } else {
        files_output(ds.drop_last(), color) + file_output(ds.last(), color)
    }
}

/// What `diff` prints.
pub fn diff_output(ds: &Vec<FileDiff>, color: bool) -> (r: String)
    ensures
        r@ == (if ds@.len() == 0 {
            "(no changes)\n"@
        } else {
            files_output(ds@, color)
        }),
{
    if ds.len() == 0 {
        return "(no changes)\n".to_string();
    }
    let mut out = String::new();
    let mut i: usize = 0;
    assert(files_output(ds@.take(0), color) =~= out@);
    while i < ds.len()
        invariant
            i <= ds@.len(),
            out@ == files_output(ds@.take(i as int), color),
        decreases ds@.len() - i,
    {
        assert(ds@.take(i + 1).drop_last() == ds@.take(i as int));
        out.append(print_file_diff(&ds[i], color).as_str());
        i += 1;
    }
    assert(ds@.take(i as int) == ds@);
    out
}

/// What `restore` prints.
pub open spec fn restore_output_of(report: RestoreReport) -> Seq<char> {
    "restored "@ + decimal(report.restored_files@.len()) + " files, removed "@ + decimal(
        report.removed_files@.len(),
    ) + " files\n"@ + (match report.stash_commit {
        Some(s) => "pre-restore working-tree captured at stash commit "@ + s@ + "\n"@,
        None => ""@,
    })
}

/// What `restore` prints.
pub fn restore_output(report: &RestoreReport) -> (r: String)
    ensures
        r@ == restore_output_of(*report),
{
    let stash = match &report.stash_commit {
        Some(s) => {
            let mut t = "pre-restore working-tree captured at stash commit ".to_string();
            t.append(s.as_str());
            t.append("\n");
            t
        },
        None => "".to_string(),
    };
    let mut out = "restored ".to_string();
    out.append(decimal_text(report.restored_files.len() as u64).as_str());
    out.append(" files, removed ");
    out.append(decimal_text(report.removed_files.len() as u64).as_str());
    out.append(" files\n");
    out.append(stash.as_str());
    out
}

/// The port that `serve` tries first: the one asked for, or that of the workspace and
/// the label.
pub fn serve_port(asked: Option<u16>, workspace: &str, label: Option<&str>) -> (r: u16)
    ensures
        r == (match asked {
            Some(p) => p as int,
            None => port_of(workspace@, opt_str(label)),
        }),
{
    match asked {
        Some(p) => p,
        None => port_for(workspace, label),
    }
}

/// What `review` prints where something answers on the port of the review already;
/// nothing where a server is to be started.
pub fn review_running(answered: bool, port: u16) -> (r: Option<String>)
    ensures
        match r {
            Some(s) => answered && s@ == "gloss already running at "@ + url_of(port) + "\n"@,
            None => !answered,
        },
{
    if answered {
        let mut out = "gloss already running at ".to_string();
        out.append(local_url(port).as_str());
        out.append("\n");
        Some(out)
    } else {
        None
    }
}

/// What a command that failed prints, on the error stream.
pub fn error_output(e: &str) -> (r: String)
    ensures
        r@ == "error: "@ + e@ + "\n"@,
{
    let mut out = "error: ".to_string();
    out.append(e);
    out.append("\n");
    out
}

// ---- laws ----

/// What `snap` prints has the id of the checkpoint, its counts and its label, in this
/// order.
pub proof fn law_snap_is_printed(cp: CheckpointInfo)
    ensures
        ({
            let said = seq![
                cp.id@,
                "  ("@,
                decimal(cp.files_changed as nat),
                " files, +"@,
                decimal(cp.insertions as nat),
                " -"@,
                decimal(cp.deletions as nat),
                ")\n"@,
            ];
            shows(
                snap_output_of(cp),
                if cp.label is Some {
                    said + seq!["  label: "@, cp.label.unwrap()@, "\n"@]
                } else {
                    said
                },
            )
        }),
{
    let t_0 = Seq::<char>::empty();
    let p_0 = Seq::<Seq<char>>::empty();
    lemma_shows_nothing(t_0);
    lemma_shows_next(t_0, cp.id@, p_0);
    let p_1 = p_0.push(cp.id@);
    assert(t_0 + cp.id@ =~= cp.id@);
    let t_1 = cp.id@;
    lemma_shows_next(t_1, "  ("@, p_1);
    let p_2 = p_1.push("  ("@);
    let t_2 = t_1 + "  ("@;
    lemma_shows_next(t_2, decimal(cp.files_changed as nat), p_2);
    let p_3 = p_2.push(decimal(cp.files_changed as nat));
    let t_3 = t_2 + decimal(cp.files_changed as nat);
    lemma_shows_next(t_3, " files, +"@, p_3);
    let p_4 = p_3.push(" files, +"@);
    let t_4 = t_3 + " files, +"@;
    lemma_shows_next(t_4, decimal(cp.insertions as nat), p_4);
    let p_5 = p_4.push(decimal(cp.insertions as nat));
    let t_5 = t_4 + decimal(cp.insertions as nat);
    lemma_shows_next(t_5, " -"@, p_5);
    let p_6 = p_5.push(" -"@);
    let t_6 = t_5 + " -"@;
    lemma_shows_next(t_6, decimal(cp.deletions as nat), p_6);
    let p_7 = p_6.push(decimal(cp.deletions as nat));
    let t_7 = t_6 + decimal(cp.deletions as nat);
    lemma_shows_next(t_7, ")\n"@, p_7);
    let p_8 = p_7.push(")\n"@);
    let t_8 = t_7 + ")\n"@;
    let said = seq![
        cp.id@,
        "  ("@,
        decimal(cp.files_changed as nat),
        " files, +"@,
        decimal(cp.insertions as nat),
        " -"@,
        decimal(cp.deletions as nat),
        ")\n"@,
    ];
    assert(said =~= p_8);
    match cp.label {
        Some(l) => {
            let lit = "  label: "@;
            lemma_shows_next(t_8, lit, p_8);
            lemma_shows_next(t_8 + lit, l@, p_8.push(lit));
            lemma_shows_next(t_8 + lit + l@, "\n"@, p_8.push(lit).push(l@));
            assert(said + seq![lit, l@, "\n"@] =~= p_8.push(lit).push(l@).push("\n"@));
            assert(t_8 + (lit + l@ + "\n"@) =~= t_8 + lit + l@ + "\n"@);
        },
        None => {
            lemma_shows_still(t_8, ""@, p_8);
        },
    }
}

/// The line on a checkpoint has its id, its age, its counts and its label, in this order.
pub proof fn law_line_describes_checkpoint(cp: CheckpointInfo, now_secs: u64)
    ensures
        ({
            let label = if cp.label is Some {
                cp.label.unwrap()@
            } else {
                "-"@
            };
            shows(
                list_line(cp, now_secs),
                seq![
                    cp.id@,
                    age_of(cp.created_at_ms, now_secs),
                    pad_left(decimal(cp.files_changed as nat), ' ', 3),
                    " files  +"@,
                    pad_right(decimal(cp.insertions as nat), ' ', 5),
                    " -"@,
                    pad_right(decimal(cp.deletions as nat), ' ', 5),
                    label,
                    "\n"@,
                ],
            )
        }),
{
    let label = if cp.label is Some {
        cp.label.unwrap()@
    } else {
        "-"@
    };
    let t_0 = Seq::<char>::empty();
    let p_0 = Seq::<Seq<char>>::empty();
    lemma_shows_nothing(t_0);
    lemma_shows_next(t_0, cp.id@, p_0);
    let p_1 = p_0.push(cp.id@);
    assert(t_0 + cp.id@ =~= cp.id@);
    let t_1 = cp.id@;
    lemma_shows_still(t_1, "  "@, p_1);
    let p_2 = p_1;
    let t_2 = t_1 + "  "@;
    lemma_shows_next(t_2, age_of(cp.created_at_ms, now_secs), p_2);
    let p_3 = p_2.push(age_of(cp.created_at_ms, now_secs));
    let t_3 = t_2 + age_of(cp.created_at_ms, now_secs);
    lemma_shows_still(t_3, "  "@, p_3);
    let p_4 = p_3;
    let t_4 = t_3 + "  "@;
    lemma_shows_next(t_4, pad_left(decimal(cp.files_changed as nat), ' ', 3), p_4);
    let p_5 = p_4.push(pad_left(decimal(cp.files_changed as nat), ' ', 3));
    let t_5 = t_4 + pad_left(decimal(cp.files_changed as nat), ' ', 3);
    lemma_shows_next(t_5, " files  +"@, p_5);
    let p_6 = p_5.push(" files  +"@);
    let t_6 = t_5 + " files  +"@;
    lemma_shows_next(t_6, pad_right(decimal(cp.insertions as nat), ' ', 5), p_6);
    let p_7 = p_6.push(pad_right(decimal(cp.insertions as nat), ' ', 5));
    let t_7 = t_6 + pad_right(decimal(cp.insertions as nat), ' ', 5);
    lemma_shows_next(t_7, " -"@, p_7);
    let p_8 = p_7.push(" -"@);
    let t_8 = t_7 + " -"@;
    lemma_shows_next(t_8, pad_right(decimal(cp.deletions as nat), ' ', 5), p_8);
    let p_9 = p_8.push(pad_right(decimal(cp.deletions as nat), ' ', 5));
    let t_9 = t_8 + pad_right(decimal(cp.deletions as nat), ' ', 5);
    lemma_shows_still(t_9, "  "@, p_9);
    let p_10 = p_9;
    let t_10 = t_9 + "  "@;
    lemma_shows_next(t_10, label, p_10);
    let p_11 = p_10.push(label);
    let t_11 = t_10 + label;
    lemma_shows_next(t_11, "\n"@, p_11);
    let p_12 = p_11.push("\n"@);
    let t_12 = t_11 + "\n"@;
    assert(seq![
        cp.id@,
        age_of(cp.created_at_ms, now_secs),
        pad_left(decimal(cp.files_changed as nat), ' ', 3),
        " files  +"@,
        pad_right(decimal(cp.insertions as nat), ' ', 5),
        " -"@,
        pad_right(decimal(cp.deletions as nat), ' ', 5),
        label,
        "\n"@,
    ] =~= p_12);
}

/// `list` prints a line for each of the first checkpoints, in their order, as many as are
/// asked for, and nothing else.
pub proof fn law_list_is_of_the_first(
    items: Seq<CheckpointInfo>,
    cp: CheckpointInfo,
    limit: usize,
    now_secs: u64,
)
    ensures
        list_lines(Seq::empty(), now_secs) == Seq::<char>::empty(),
        list_lines(items.push(cp), now_secs) == list_lines(items, now_secs) + list_line(
            cp,
            now_secs,
        ),
        items.len() > 0 && limit <= items.len() ==> list_output_of(items, limit, now_secs)
            == list_lines(items.take(limit as int), now_secs),
        items.len() > 0 && limit >= items.len() ==> list_output_of(items, limit, now_secs)
            == list_lines(items, now_secs),
        list_output_of(Seq::empty(), limit, now_secs) == "(no checkpoints)\n"@,
{
    assert(items.push(cp).drop_last() =~= items);
    if limit <= items.len() {
        assert(at_most(items, limit as int) =~= items.take(limit as int));
    }
    if limit >= items.len() {
        assert(at_most(items, limit as int) =~= items);
    }
}

/// `diff` shows the checkpoint that its id stands for, and otherwise the first of the
/// listing; without any checkpoint it is refused.
pub proof fn law_diff_shows_what_is_asked(items: Seq<CheckpointInfo>, prefix: Seq<char>)
    ensures
        diff_target_of(items, Some(prefix)) == resolved(items, prefix),
        items.len() > 0 ==> diff_target_of(items, None) == Ok::<Seq<char>, Seq<char>>(
            items[0].id@,
        ),
        items.len() == 0 ==> diff_target_of(items, None) == Err::<Seq<char>, Seq<char>>(
            "no checkpoints yet — run `gloss snap` first"@,
        ),
{
}

/// The style of a line of a patch goes by how it begins: bold for a heading, green for an
/// added line, red for a deleted one, cyan for a hunk, and none for any other.
pub proof fn law_line_styles(rest: Seq<char>)
    ensures
        line_style("+++"@ + rest) == Some("\x1b[1m"@),
        line_style("---"@ + rest) == Some("\x1b[1m"@),
        line_style("@@"@ + rest) == Some("\x1b[36m"@),
        !has_prefix(rest, "++"@) ==> line_style("+"@ + rest) == Some("\x1b[32m"@),
        !has_prefix(rest, "--"@) ==> line_style("-"@ + rest) == Some("\x1b[31m"@),
        rest.len() == 0 || (rest[0] != '+' && rest[0] != '-' && rest[0] != '@') ==> line_style(rest)
            is None,
{
    reveal_strlit("+++");
    reveal_strlit("---");
    reveal_strlit("@@");
    reveal_strlit("+");
    reveal_strlit("-");
    reveal_strlit("++");
    reveal_strlit("--");
    law_prefix(rest, "+++"@);
    law_prefix(rest, "---"@);
    law_prefix(rest, "@@"@);
    law_prefix(rest, "+"@);
    law_prefix(rest, "-"@);
    lemma_begins(rest);
    lemma_begins("@@"@ + rest);
    lemma_begins("+"@ + rest);
    lemma_begins("-"@ + rest);
    if has_prefix("+"@ + rest, "+++"@) {
        let s = "+"@ + rest;
        assert(s.take(3)[1] == '+' && s.take(3)[2] == '+');
        assert(rest.take(2) =~= "++"@);
    }
    if has_prefix("-"@ + rest, "---"@) {
        let s = "-"@ + rest;
        assert(s.take(3)[1] == '-' && s.take(3)[2] == '-');
        assert(rest.take(2) =~= "--"@);
    }
}

/// A line of a patch is printed as it is, with an end of line; where colours are wanted and
/// it has a style, the style stands before it and is taken back behind it.
pub proof fn law_lines_are_printed(ls: Seq<Seq<char>>, line: Seq<char>, color: bool)
    ensures
        patch_line(line, false) == line + "\n"@,
        line_style(line) is None ==> patch_line(line, color) == line + "\n"@,
        line_style(line) matches Some(style) ==> patch_line(line, true) == style + line
            + "\x1b[0m"@ + "\n"@,
        patch_lines(Seq::empty(), color) == Seq::<char>::empty(),
        patch_lines(ls.push(line), color) == patch_lines(ls, color) + patch_line(line, color),
        shows(patch_lines(ls, color), ls),
    decreases ls.len(),
{
    assert(ls.push(line).drop_last() =~= ls);
    reveal_strlit("");
    assert(""@ =~= Seq::<char>::empty());
    assert(""@ + line + ""@ + "\n"@ =~= line + "\n"@);
    if ls.len() == 0 {
        lemma_shows_nothing(patch_lines(ls, color));
        assert(ls =~= Seq::<Seq<char>>::empty());
    } else {
        let front = ls.drop_last();
        let last = ls.last();
        law_lines_are_printed(front, last, color);
        let a = patch_lines(front, color);
        assert(ls =~= front.push(last));
        match line_style(last) {
            Some(style) => {
                let on = paint(color, style);
                let off = paint(color, RESET@);
                lemma_shows_still(a, on, front);
                lemma_shows_next(a + on, last, front);
                lemma_shows_still(a + on + last, off, ls);
                lemma_shows_still(a + on + last + off, "\n"@, ls);
                assert(a + (on + last + off + "\n"@) =~= a + on + last + off + "\n"@);
            },
            None => {
                lemma_shows_next(a, last, front);
                lemma_shows_still(a + last, "\n"@, ls);
                assert(a + (last + "\n"@) =~= a + last + "\n"@);
            },
        }
    }
}

/// What is printed of a changed file has its path, what happened to it, its counts, whether
/// the patch was cut, and every line of the patch, in this order.
pub proof fn law_file_is_printed(fd: FileDiff, color: bool)
    ensures
        ({
            let heading = seq![
                fd.path@,
                status_word(fd.status),
                "  +"@,
                decimal(fd.additions as nat),
                " -"@,
                decimal(fd.deletions as nat),
            ];
            let cut = if fd.truncated {
                heading.push("  (truncated)"@)
            } else {
                heading
            };
            shows(
                file_output(fd, color),
                if fd.patch@.len() == 0 {
                    cut.push("(no textual diff: binary or rename-only)"@)
                } else {
                    cut + lines_of(fd.patch@)
                },
            )
        }),
{
    let t_0 = Seq::<char>::empty();
    let p_0 = Seq::<Seq<char>>::empty();
    lemma_shows_nothing(t_0);
    lemma_shows_still(t_0, "\n"@, p_0);
    let p_1 = p_0;
    assert(t_0 + "\n"@ =~= "\n"@);
    let t_1 = "\n"@;
    lemma_shows_still(t_1, paint(color, BOLD@), p_1);
    let p_2 = p_1;
    let t_2 = t_1 + paint(color, BOLD@);
    lemma_shows_still(t_2, paint(color, CYAN@), p_2);
    let p_3 = p_2;
    let t_3 = t_2 + paint(color, CYAN@);
    lemma_shows_still(t_3, "── "@, p_3);
    let p_4 = p_3;
    let t_4 = t_3 + "── "@;
    lemma_shows_next(t_4, fd.path@, p_4);
    let p_5 = p_4.push(fd.path@);
    let t_5 = t_4 + fd.path@;
    lemma_shows_still(t_5, " ──"@, p_5);
    let p_6 = p_5;
    let t_6 = t_5 + " ──"@;
    lemma_shows_still(t_6, paint(color, RESET@), p_6);
    let p_7 = p_6;
    let t_7 = t_6 + paint(color, RESET@);
    lemma_shows_still(t_7, "  "@, p_7);
    let p_8 = p_7;
    let t_8 = t_7 + "  "@;
    lemma_shows_still(t_8, paint(color, DIM@), p_8);
    let p_9 = p_8;
    let t_9 = t_8 + paint(color, DIM@);
    lemma_shows_next(t_9, status_word(fd.status), p_9);
    let p_10 = p_9.push(status_word(fd.status));
    let t_10 = t_9 + status_word(fd.status);
    lemma_shows_next(t_10, "  +"@, p_10);
    let p_11 = p_10.push("  +"@);
    let t_11 = t_10 + "  +"@;
    lemma_shows_next(t_11, decimal(fd.additions as nat), p_11);
    let p_12 = p_11.push(decimal(fd.additions as nat));
    let t_12 = t_11 + decimal(fd.additions as nat);
    lemma_shows_next(t_12, " -"@, p_12);
    let p_13 = p_12.push(" -"@);
    let t_13 = t_12 + " -"@;
    lemma_shows_next(t_13, decimal(fd.deletions as nat), p_13);
    let p_14 = p_13.push(decimal(fd.deletions as nat));
    let t_14 = t_13 + decimal(fd.deletions as nat);
    let heading = seq![
        fd.path@,
        status_word(fd.status),
        "  +"@,
        decimal(fd.additions as nat),
        " -"@,
        decimal(fd.deletions as nat),
    ];
    assert(heading =~= p_14);
    let mark = if fd.truncated {
        "  (truncated)"@
    } else {
        ""@
    };
    let cut = if fd.truncated {
        p_14.push(mark)
    } else {
        p_14
    };
    lemma_shows_next(t_14, mark, p_14);
    lemma_shows_still(t_14, mark, p_14);
    lemma_shows_still(t_14 + mark, paint(color, RESET@), cut);
    lemma_shows_still(t_14 + mark + paint(color, RESET@), "\n"@, cut);
    let top = file_heading(fd, color);
    if fd.patch@.len() == 0 {
        let on = paint(color, DIM@);
        let off = paint(color, RESET@);
        let no = "(no textual diff: binary or rename-only)"@;
        lemma_shows_still(top, on, cut);
        lemma_shows_next(top + on, no, cut);
        lemma_shows_still(top + on + no, off, cut.push(no));
        lemma_shows_still(top + on + no + off, "\n"@, cut.push(no));
        assert(top + (on + no + off + "\n"@) =~= top + on + no + off + "\n"@);
    } else {
        let ls = lines_of(fd.patch@);
        law_lines_are_printed(ls, Seq::empty(), color);
        lemma_shows_both(top, patch_lines(ls, color), cut, ls);
    }
}

/// Every changed file is printed, in order: nothing for none, and one more for one more.
pub proof fn law_every_file_is_printed(ds: Seq<FileDiff>, fd: FileDiff, color: bool)
    ensures
        files_output(Seq::empty(), color) == Seq::<char>::empty(),
        files_output(ds.push(fd), color) == files_output(ds, color) + file_output(fd, color),
{
    assert(ds.push(fd).drop_last() =~= ds);
}

/// What `restore` prints has both counts, and the id of the stash, where there is one.
pub proof fn law_restore_is_printed(report: RestoreReport)
    ensures
        ({
            let said = seq![
                "restored "@,
                decimal(report.restored_files@.len()),
                " files, removed "@,
                decimal(report.removed_files@.len()),
                " files\n"@,
            ];
            shows(
                restore_output_of(report),
                if report.stash_commit is Some {
                    said + seq![
                        "pre-restore working-tree captured at stash commit "@,
                        report.stash_commit.unwrap()@,
                        "\n"@,
                    ]
                } else {
                    said
                },
            )
        }),
{
    let t_0 = Seq::<char>::empty();
    let p_0 = Seq::<Seq<char>>::empty();
    lemma_shows_nothing(t_0);
    lemma_shows_next(t_0, "restored "@, p_0);
    let p_1 = p_0.push("restored "@);
    assert(t_0 + "restored "@ =~= "restored "@);
    let t_1 = "restored "@;
    lemma_shows_next(t_1, decimal(report.restored_files@.len()), p_1);
    let p_2 = p_1.push(decimal(report.restored_files@.len()));
    let t_2 = t_1 + decimal(report.restored_files@.len());
    lemma_shows_next(t_2, " files, removed "@, p_2);
    let p_3 = p_2.push(" files, removed "@);
    let t_3 = t_2 + " files, removed "@;
    lemma_shows_next(t_3, decimal(report.removed_files@.len()), p_3);
    let p_4 = p_3.push(decimal(report.removed_files@.len()));
    let t_4 = t_3 + decimal(report.removed_files@.len());
    lemma_shows_next(t_4, " files\n"@, p_4);
    let p_5 = p_4.push(" files\n"@);
    let t_5 = t_4 + " files\n"@;
    let said = seq![
        "restored "@,
        decimal(report.restored_files@.len()),
        " files, removed "@,
        decimal(report.removed_files@.len()),
        " files\n"@,
    ];
    assert(said =~= p_5);
    match report.stash_commit {
        Some(s) => {
            let lit = "pre-restore working-tree captured at stash commit "@;
            lemma_shows_next(t_5, lit, p_5);
            lemma_shows_next(t_5 + lit, s@, p_5.push(lit));
            lemma_shows_next(t_5 + lit + s@, "\n"@, p_5.push(lit).push(s@));
            assert(said + seq![lit, s@, "\n"@] =~= p_5.push(lit).push(s@).push("\n"@));
            assert(t_5 + (lit + s@ + "\n"@) =~= t_5 + lit + s@ + "\n"@);
        },
        None => {
            lemma_shows_still(t_5, ""@, p_5);
        },
    }
}

/// Terminal codes are printed where colours are wanted, and nothing in their place where not.
pub proof fn law_colours(color: bool, code: Seq<char>)
    ensures
        color ==> paint(color, code) == code,
        !color ==> paint(color, code) == Seq::<char>::empty(),
        RESET@ == "\x1b[0m"@,
        DIM@ == "\x1b[2m"@,
{
    reveal_strlit("");
    assert(""@ =~= Seq::<char>::empty());
}

} // verus!
