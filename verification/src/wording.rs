//! The wording of what is said, printed and shown, piece by piece: each text is its pieces,
//! one behind the other, and nothing else.

use vstd::prelude::*;
use vstd::string::*;

use crate::checkpoint::{CheckpointInfo, InfoView};
use crate::cli::{
    file_heading, file_output, list_line, paint, patch_lines, restore_output_of, snap_output_of,
};
use crate::diff::{status_word, DiffView, FileDiff};
use crate::install::{icon_of, note_of, report_text, row_of, InstallReport, StepView};
use crate::mcp::{file_text, list_row, restore_text, review_text, snap_text};
use crate::restore::RestoreReport;
use crate::style::CSS;
use crate::text::{decimal, leading_text, lines_of, pad_left, pad_right};
use crate::web::{
    age_of, aside_html, checkpoint_html, checkpoints_html, diff_html, diffs_html, escaped,
    flash_html, head_html, line_class, line_html, lines_html, main_html, page_html, patch_html,
    restore_note, summary_html, url_of,
};

verus! {

/// A list with one piece more is as long as both, one behind the other.
proof fn lemma_piece_more(pieces: Seq<Seq<char>>, piece: Seq<char>)
    ensures
        pieces.push(piece).flatten() == pieces.flatten() + piece,
    decreases pieces.len(),
{
    let more = pieces.push(piece);
    if pieces.len() == 0 {
        more.lemma_flatten_one_element();
        assert(pieces.flatten() + piece =~= piece);
    } else {
        lemma_piece_more(pieces.drop_first(), piece);
        assert(more.drop_first() =~= pieces.drop_first().push(piece));
        let a = pieces.first();
        let b = pieces.drop_first().flatten();
        assert(a + (b + piece) =~= a + b + piece);
    }
}

/// What an agent is told of a new checkpoint.
pub proof fn law_snap_wording(cp: CheckpointInfo)
    ensures
        ({
            let label = if cp.label is Some {
                "\n  label: "@ + cp.label.unwrap()@
            } else {
                ""@
            };
            snap_text(cp) == seq![
                "checkpoint "@,
                cp.id@,
                " captured\n  files: "@,
                decimal(cp.files_changed as nat),
                "  +"@,
                decimal(cp.insertions as nat),
                " -"@,
                decimal(cp.deletions as nat),
                label,
            ].flatten()
        }),
{
    let label = if cp.label is Some {
        "\n  label: "@ + cp.label.unwrap()@
    } else {
        ""@
    };
    let p0 = Seq::<Seq<char>>::empty();
    lemma_piece_more(p0, "checkpoint "@);
    let p1 = p0.push("checkpoint "@);
    lemma_piece_more(p1, cp.id@);
    let p2 = p1.push(cp.id@);
    lemma_piece_more(p2, " captured\n  files: "@);
    let p3 = p2.push(" captured\n  files: "@);
    lemma_piece_more(p3, decimal(cp.files_changed as nat));
    let p4 = p3.push(decimal(cp.files_changed as nat));
    lemma_piece_more(p4, "  +"@);
    let p5 = p4.push("  +"@);
    lemma_piece_more(p5, decimal(cp.insertions as nat));
    let p6 = p5.push(decimal(cp.insertions as nat));
    lemma_piece_more(p6, " -"@);
    let p7 = p6.push(" -"@);
    lemma_piece_more(p7, decimal(cp.deletions as nat));
    let p8 = p7.push(decimal(cp.deletions as nat));
    lemma_piece_more(p8, label);
    let p9 = p8.push(label);
    assert(seq![
        "checkpoint "@,
        cp.id@,
        " captured\n  files: "@,
        decimal(cp.files_changed as nat),
        "  +"@,
        decimal(cp.insertions as nat),
        " -"@,
        decimal(cp.deletions as nat),
        label,
    ] =~= p9);
    assert(p0.flatten() =~= Seq::<char>::empty());
    assert(p0.flatten() + "checkpoint "@ =~= "checkpoint "@);
}

/// The line on a checkpoint that an agent is given.
pub proof fn law_row_wording(cp: CheckpointInfo, now_secs: u64)
    ensures
        ({
            let label = if cp.label is Some {
                cp.label.unwrap()@
            } else {
                "(auto)"@
            };
            list_row(cp, now_secs) == seq![
                cp.id@,
                "  "@,
                age_of(cp.created_at_ms, now_secs),
                "  "@,
                pad_left(decimal(cp.files_changed as nat), ' ', 3),
                " files  +"@,
                pad_right(decimal(cp.insertions as nat), ' ', 5),
                " -"@,
                pad_right(decimal(cp.deletions as nat), ' ', 5),
                "  "@,
                label,
                "\n"@,
            ].flatten()
        }),
{
    let label = if cp.label is Some {
        cp.label.unwrap()@
    } else {
        "(auto)"@
    };
    let p0 = Seq::<Seq<char>>::empty();
    lemma_piece_more(p0, cp.id@);
    let p1 = p0.push(cp.id@);
    lemma_piece_more(p1, "  "@);
    let p2 = p1.push("  "@);
    lemma_piece_more(p2, age_of(cp.created_at_ms, now_secs));
    let p3 = p2.push(age_of(cp.created_at_ms, now_secs));
    lemma_piece_more(p3, "  "@);
    let p4 = p3.push("  "@);
    lemma_piece_more(p4, pad_left(decimal(cp.files_changed as nat), ' ', 3));
    let p5 = p4.push(pad_left(decimal(cp.files_changed as nat), ' ', 3));
    lemma_piece_more(p5, " files  +"@);
    let p6 = p5.push(" files  +"@);
    lemma_piece_more(p6, pad_right(decimal(cp.insertions as nat), ' ', 5));
    let p7 = p6.push(pad_right(decimal(cp.insertions as nat), ' ', 5));
    lemma_piece_more(p7, " -"@);
    let p8 = p7.push(" -"@);
    lemma_piece_more(p8, pad_right(decimal(cp.deletions as nat), ' ', 5));
    let p9 = p8.push(pad_right(decimal(cp.deletions as nat), ' ', 5));
    lemma_piece_more(p9, "  "@);
    let p10 = p9.push("  "@);
    lemma_piece_more(p10, label);
    let p11 = p10.push(label);
    lemma_piece_more(p11, "\n"@);
    let p12 = p11.push("\n"@);
    assert(seq![
        cp.id@,
        "  "@,
        age_of(cp.created_at_ms, now_secs),
        "  "@,
        pad_left(decimal(cp.files_changed as nat), ' ', 3),
        " files  +"@,
        pad_right(decimal(cp.insertions as nat), ' ', 5),
        " -"@,
        pad_right(decimal(cp.deletions as nat), ' ', 5),
        "  "@,
        label,
        "\n"@,
    ] =~= p12);
    assert(p0.flatten() =~= Seq::<char>::empty());
    assert(p0.flatten() + cp.id@ =~= cp.id@);
}

/// The line on a checkpoint that is printed.
pub proof fn law_line_wording(cp: CheckpointInfo, now_secs: u64)
    ensures
        ({
            let label = if cp.label is Some {
                cp.label.unwrap()@
            } else {
                "-"@
            };
            list_line(cp, now_secs) == seq![
                cp.id@,
                "  "@,
                age_of(cp.created_at_ms, now_secs),
                "  "@,
                pad_left(decimal(cp.files_changed as nat), ' ', 3),
                " files  +"@,
                pad_right(decimal(cp.insertions as nat), ' ', 5),
                " -"@,
                pad_right(decimal(cp.deletions as nat), ' ', 5),
                "  "@,
                label,
                "\n"@,
            ].flatten()
        }),
{
    let label = if cp.label is Some {
        cp.label.unwrap()@
    } else {
        "-"@
    };
    let p0 = Seq::<Seq<char>>::empty();
    lemma_piece_more(p0, cp.id@);
    let p1 = p0.push(cp.id@);
    lemma_piece_more(p1, "  "@);
    let p2 = p1.push("  "@);
    lemma_piece_more(p2, age_of(cp.created_at_ms, now_secs));
    let p3 = p2.push(age_of(cp.created_at_ms, now_secs));
    lemma_piece_more(p3, "  "@);
    let p4 = p3.push("  "@);
    lemma_piece_more(p4, pad_left(decimal(cp.files_changed as nat), ' ', 3));
    let p5 = p4.push(pad_left(decimal(cp.files_changed as nat), ' ', 3));
    lemma_piece_more(p5, " files  +"@);
    let p6 = p5.push(" files  +"@);
    lemma_piece_more(p6, pad_right(decimal(cp.insertions as nat), ' ', 5));
    let p7 = p6.push(pad_right(decimal(cp.insertions as nat), ' ', 5));
    lemma_piece_more(p7, " -"@);
    let p8 = p7.push(" -"@);
    lemma_piece_more(p8, pad_right(decimal(cp.deletions as nat), ' ', 5));
    let p9 = p8.push(pad_right(decimal(cp.deletions as nat), ' ', 5));
    lemma_piece_more(p9, "  "@);
    let p10 = p9.push("  "@);
    lemma_piece_more(p10, label);
    let p11 = p10.push(label);
    lemma_piece_more(p11, "\n"@);
    let p12 = p11.push("\n"@);
    assert(seq![
        cp.id@,
        "  "@,
        age_of(cp.created_at_ms, now_secs),
        "  "@,
        pad_left(decimal(cp.files_changed as nat), ' ', 3),
        " files  +"@,
        pad_right(decimal(cp.insertions as nat), ' ', 5),
        " -"@,
        pad_right(decimal(cp.deletions as nat), ' ', 5),
        "  "@,
        label,
        "\n"@,
    ] =~= p12);
    assert(p0.flatten() =~= Seq::<char>::empty());
    assert(p0.flatten() + cp.id@ =~= cp.id@);
}

/// What an agent is told of a changed file: the patch with an end of line, and an empty line.
pub proof fn law_file_wording(fd: FileDiff)
    ensures
        ({
            let mark = if fd.truncated {
                " [TRUNCATED]"@
            } else {
                ""@
            };
            let body = if fd.patch@.len() == 0 {
                "(binary or rename-only)\n\n"@
            } else if fd.patch@.last() == '\n' {
                fd.patch@ + ""@ + "\n"@
            } else {
                fd.patch@ + "\n"@ + "\n"@
            };
            file_text(fd) == seq![
                "── "@,
                fd.path@,
                " ── ("@,
                status_word(fd.status),
                ", +"@,
                decimal(fd.additions as nat),
                " -"@,
                decimal(fd.deletions as nat),
                ")"@,
                mark,
                "\n"@,
                body,
            ].flatten()
        }),
{
    let mark = if fd.truncated {
        " [TRUNCATED]"@
    } else {
        ""@
    };
    let body = if fd.patch@.len() == 0 {
        "(binary or rename-only)\n\n"@
    } else if fd.patch@.last() == '\n' {
        fd.patch@ + ""@ + "\n"@
    } else {
        fd.patch@ + "\n"@ + "\n"@
    };
    let p0 = Seq::<Seq<char>>::empty();
    lemma_piece_more(p0, "── "@);
    let p1 = p0.push("── "@);
    lemma_piece_more(p1, fd.path@);
    let p2 = p1.push(fd.path@);
    lemma_piece_more(p2, " ── ("@);
    let p3 = p2.push(" ── ("@);
    lemma_piece_more(p3, status_word(fd.status));
    let p4 = p3.push(status_word(fd.status));
    lemma_piece_more(p4, ", +"@);
    let p5 = p4.push(", +"@);
    lemma_piece_more(p5, decimal(fd.additions as nat));
    let p6 = p5.push(decimal(fd.additions as nat));
    lemma_piece_more(p6, " -"@);
    let p7 = p6.push(" -"@);
    lemma_piece_more(p7, decimal(fd.deletions as nat));
    let p8 = p7.push(decimal(fd.deletions as nat));
    lemma_piece_more(p8, ")"@);
    let p9 = p8.push(")"@);
    lemma_piece_more(p9, mark);
    let p10 = p9.push(mark);
    lemma_piece_more(p10, "\n"@);
    let p11 = p10.push("\n"@);
    lemma_piece_more(p11, body);
    let p12 = p11.push(body);
    assert(seq![
        "── "@,
        fd.path@,
        " ── ("@,
        status_word(fd.status),
        ", +"@,
        decimal(fd.additions as nat),
        " -"@,
        decimal(fd.deletions as nat),
        ")"@,
        mark,
        "\n"@,
        body,
    ] =~= p12);
    assert(p0.flatten() =~= Seq::<char>::empty());
    assert(p0.flatten() + "── "@ =~= "── "@);
}

/// What an agent is told of a restore.
pub proof fn law_restore_wording(report: RestoreReport)
    ensures
        ({
            let stash = if report.stash_commit is Some {
                "\npre-restore working tree captured at stash commit "@ + leading_text(
                    report.stash_commit.unwrap()@,
                    8,
                )
            } else {
                ""@
            };
            restore_text(report) == seq![
                "restored "@,
                decimal(report.restored_files@.len()),
                " files, removed "@,
                decimal(report.removed_files@.len()),
                " files"@,
                stash,
            ].flatten()
        }),
{
    let stash = if report.stash_commit is Some {
        "\npre-restore working tree captured at stash commit "@ + leading_text(
            report.stash_commit.unwrap()@,
            8,
        )
    } else {
        ""@
    };
    let p0 = Seq::<Seq<char>>::empty();
    lemma_piece_more(p0, "restored "@);
    let p1 = p0.push("restored "@);
    lemma_piece_more(p1, decimal(report.restored_files@.len()));
    let p2 = p1.push(decimal(report.restored_files@.len()));
    lemma_piece_more(p2, " files, removed "@);
    let p3 = p2.push(" files, removed "@);
    lemma_piece_more(p3, decimal(report.removed_files@.len()));
    let p4 = p3.push(decimal(report.removed_files@.len()));
    lemma_piece_more(p4, " files"@);
    let p5 = p4.push(" files"@);
    lemma_piece_more(p5, stash);
    let p6 = p5.push(stash);
    assert(seq![
        "restored "@,
        decimal(report.restored_files@.len()),
        " files, removed "@,
        decimal(report.removed_files@.len()),
        " files"@,
        stash,
    ] =~= p6);
    assert(p0.flatten() =~= Seq::<char>::empty());
    assert(p0.flatten() + "restored "@ =~= "restored "@);
}

/// What an agent is told of a review with a label.
pub proof fn law_labelled_review_wording(label: Seq<char>, port: u16)
    ensures
        ({
            review_text(Some(label), port) == seq![
                "review UI for `"@,
                label,
                "` is open at "@,
                url_of(port),
            ].flatten()
        }),
{
    let p0 = Seq::<Seq<char>>::empty();
    lemma_piece_more(p0, "review UI for `"@);
    let p1 = p0.push("review UI for `"@);
    lemma_piece_more(p1, label);
    let p2 = p1.push(label);
    lemma_piece_more(p2, "` is open at "@);
    let p3 = p2.push("` is open at "@);
    lemma_piece_more(p3, url_of(port));
    let p4 = p3.push(url_of(port));
    assert(seq![
        "review UI for `"@,
        label,
        "` is open at "@,
        url_of(port),
    ] =~= p4);
    assert(p0.flatten() =~= Seq::<char>::empty());
    assert(p0.flatten() + "review UI for `"@ =~= "review UI for `"@);
}

/// What an agent is told of a review without one.
pub proof fn law_review_wording(port: u16)
    ensures
        ({
            review_text(None, port) == seq![
                "review UI is open at "@,
                url_of(port),
            ].flatten()
        }),
{
    let p0 = Seq::<Seq<char>>::empty();
    lemma_piece_more(p0, "review UI is open at "@);
    let p1 = p0.push("review UI is open at "@);
    lemma_piece_more(p1, url_of(port));
    let p2 = p1.push(url_of(port));
    assert(seq![
        "review UI is open at "@,
        url_of(port),
    ] =~= p2);
    assert(p0.flatten() =~= Seq::<char>::empty());
    assert(p0.flatten() + "review UI is open at "@ =~= "review UI is open at "@);
}

/// What `snap` prints.
pub proof fn law_snap_output_wording(cp: CheckpointInfo)
    ensures
        ({
            let label = if cp.label is Some {
                "  label: "@ + cp.label.unwrap()@ + "\n"@
            } else {
                ""@
            };
            snap_output_of(cp) == seq![
                cp.id@,
                "  ("@,
                decimal(cp.files_changed as nat),
                " files, +"@,
                decimal(cp.insertions as nat),
                " -"@,
                decimal(cp.deletions as nat),
                ")\n"@,
                label,
            ].flatten()
        }),
{
    let label = if cp.label is Some {
        "  label: "@ + cp.label.unwrap()@ + "\n"@
    } else {
        ""@
    };
    let p0 = Seq::<Seq<char>>::empty();
    lemma_piece_more(p0, cp.id@);
    let p1 = p0.push(cp.id@);
    lemma_piece_more(p1, "  ("@);
    let p2 = p1.push("  ("@);
    lemma_piece_more(p2, decimal(cp.files_changed as nat));
    let p3 = p2.push(decimal(cp.files_changed as nat));
    lemma_piece_more(p3, " files, +"@);
    let p4 = p3.push(" files, +"@);
    lemma_piece_more(p4, decimal(cp.insertions as nat));
    let p5 = p4.push(decimal(cp.insertions as nat));
    lemma_piece_more(p5, " -"@);
    let p6 = p5.push(" -"@);
    lemma_piece_more(p6, decimal(cp.deletions as nat));
    let p7 = p6.push(decimal(cp.deletions as nat));
    lemma_piece_more(p7, ")\n"@);
    let p8 = p7.push(")\n"@);
    lemma_piece_more(p8, label);
    let p9 = p8.push(label);
    assert(seq![
        cp.id@,
        "  ("@,
        decimal(cp.files_changed as nat),
        " files, +"@,
        decimal(cp.insertions as nat),
        " -"@,
        decimal(cp.deletions as nat),
        ")\n"@,
        label,
    ] =~= p9);
    assert(p0.flatten() =~= Seq::<char>::empty());
    assert(p0.flatten() + cp.id@ =~= cp.id@);
}

/// The line above the patch of a file, as it is printed.
pub proof fn law_heading_wording(fd: FileDiff, color: bool)
    ensures
        ({
            let mark = if fd.truncated {
                "  (truncated)"@
            } else {
                ""@
            };
            file_heading(fd, color) == seq![
                "\n"@,
                paint(color, "\x1b[1m"@),
                paint(color, "\x1b[36m"@),
                "── "@,
                fd.path@,
                " ──"@,
                paint(color, "\x1b[0m"@),
                "  "@,
                paint(color, "\x1b[2m"@),
                status_word(fd.status),
                "  +"@,
                decimal(fd.additions as nat),
                " -"@,
                decimal(fd.deletions as nat),
                mark,
                paint(color, "\x1b[0m"@),
                "\n"@,
            ].flatten()
        }),
{
    let mark = if fd.truncated {
        "  (truncated)"@
    } else {
        ""@
    };
    let p0 = Seq::<Seq<char>>::empty();
    lemma_piece_more(p0, "\n"@);
    let p1 = p0.push("\n"@);
    lemma_piece_more(p1, paint(color, "\x1b[1m"@));
    let p2 = p1.push(paint(color, "\x1b[1m"@));
    lemma_piece_more(p2, paint(color, "\x1b[36m"@));
    let p3 = p2.push(paint(color, "\x1b[36m"@));
    lemma_piece_more(p3, "── "@);
    let p4 = p3.push("── "@);
    lemma_piece_more(p4, fd.path@);
    let p5 = p4.push(fd.path@);
    lemma_piece_more(p5, " ──"@);
    let p6 = p5.push(" ──"@);
    lemma_piece_more(p6, paint(color, "\x1b[0m"@));
    let p7 = p6.push(paint(color, "\x1b[0m"@));
    lemma_piece_more(p7, "  "@);
    let p8 = p7.push("  "@);
    lemma_piece_more(p8, paint(color, "\x1b[2m"@));
    let p9 = p8.push(paint(color, "\x1b[2m"@));
    lemma_piece_more(p9, status_word(fd.status));
    let p10 = p9.push(status_word(fd.status));
    lemma_piece_more(p10, "  +"@);
    let p11 = p10.push("  +"@);
    lemma_piece_more(p11, decimal(fd.additions as nat));
    let p12 = p11.push(decimal(fd.additions as nat));
    lemma_piece_more(p12, " -"@);
    let p13 = p12.push(" -"@);
    lemma_piece_more(p13, decimal(fd.deletions as nat));
    let p14 = p13.push(decimal(fd.deletions as nat));
    lemma_piece_more(p14, mark);
    let p15 = p14.push(mark);
    lemma_piece_more(p15, paint(color, "\x1b[0m"@));
    let p16 = p15.push(paint(color, "\x1b[0m"@));
    lemma_piece_more(p16, "\n"@);
    let p17 = p16.push("\n"@);
    assert(seq![
        "\n"@,
        paint(color, "\x1b[1m"@),
        paint(color, "\x1b[36m"@),
        "── "@,
        fd.path@,
        " ──"@,
        paint(color, "\x1b[0m"@),
        "  "@,
        paint(color, "\x1b[2m"@),
        status_word(fd.status),
        "  +"@,
        decimal(fd.additions as nat),
        " -"@,
        decimal(fd.deletions as nat),
        mark,
        paint(color, "\x1b[0m"@),
        "\n"@,
    ] =~= p17);
    assert(p0.flatten() =~= Seq::<char>::empty());
    assert(p0.flatten() + "\n"@ =~= "\n"@);
}

/// What `restore` prints.
pub proof fn law_restore_output_wording(report: RestoreReport)
    ensures
        ({
            let stash = if report.stash_commit is Some {
                "pre-restore working-tree captured at stash commit "@ + report.stash_commit.unwrap()@
                    + "\n"@
            } else {
                ""@
            };
            restore_output_of(report) == seq![
                "restored "@,
                decimal(report.restored_files@.len()),
                " files, removed "@,
                decimal(report.removed_files@.len()),
                " files\n"@,
                stash,
            ].flatten()
        }),
{
    let stash = if report.stash_commit is Some {
        "pre-restore working-tree captured at stash commit "@ + report.stash_commit.unwrap()@
            + "\n"@
    } else {
        ""@
    };
    let p0 = Seq::<Seq<char>>::empty();
    lemma_piece_more(p0, "restored "@);
    let p1 = p0.push("restored "@);
    lemma_piece_more(p1, decimal(report.restored_files@.len()));
    let p2 = p1.push(decimal(report.restored_files@.len()));
    lemma_piece_more(p2, " files, removed "@);
    let p3 = p2.push(" files, removed "@);
    lemma_piece_more(p3, decimal(report.removed_files@.len()));
    let p4 = p3.push(decimal(report.removed_files@.len()));
    lemma_piece_more(p4, " files\n"@);
    let p5 = p4.push(" files\n"@);
    lemma_piece_more(p5, stash);
    let p6 = p5.push(stash);
    assert(seq![
        "restored "@,
        decimal(report.restored_files@.len()),
        " files, removed "@,
        decimal(report.removed_files@.len()),
        " files\n"@,
        stash,
    ] =~= p6);
    assert(p0.flatten() =~= Seq::<char>::empty());
    assert(p0.flatten() + "restored "@ =~= "restored "@);
}

/// The line on a step of installing.
pub proof fn law_step_wording(name: Seq<char>, s: StepView, done: Seq<char>, skip: Seq<char>)
    ensures
        ({
            row_of(name, s, done, skip) == seq![
                "  "@,
                icon_of(s),
                " "@,
                pad_right(name, ' ', 26),
                " "@,
                note_of(s, done, skip),
                "\n"@,
            ].flatten()
        }),
{
    let p0 = Seq::<Seq<char>>::empty();
    lemma_piece_more(p0, "  "@);
    let p1 = p0.push("  "@);
    lemma_piece_more(p1, icon_of(s));
    let p2 = p1.push(icon_of(s));
    lemma_piece_more(p2, " "@);
    let p3 = p2.push(" "@);
    lemma_piece_more(p3, pad_right(name, ' ', 26));
    let p4 = p3.push(pad_right(name, ' ', 26));
    lemma_piece_more(p4, " "@);
    let p5 = p4.push(" "@);
    lemma_piece_more(p5, note_of(s, done, skip));
    let p6 = p5.push(note_of(s, done, skip));
    lemma_piece_more(p6, "\n"@);
    let p7 = p6.push("\n"@);
    assert(seq![
        "  "@,
        icon_of(s),
        " "@,
        pad_right(name, ' ', 26),
        " "@,
        note_of(s, done, skip),
        "\n"@,
    ] =~= p7);
    assert(p0.flatten() =~= Seq::<char>::empty());
    assert(p0.flatten() + "  "@ =~= "  "@);
}

/// The report on installing or uninstalling.
pub proof fn law_report_wording(label: Seq<char>, report: InstallReport, agent: Seq<char>)
    ensures
        ({
            let done = if label == "uninstall"@ {
                "removed"@
            } else {
                "added"@
            };
            let skip = if label == "uninstall"@ {
                "not present"@
            } else {
                "already present"@
            };
            report_text(label, report, agent) == seq![
                "gloss "@,
                label,
                ":\n"@,
                row_of("MCP server"@, report.mcp@, done, skip),
                row_of("SessionStart hook"@, report.session_hook@, done, skip),
                row_of("UserPromptSubmit hook"@, report.prompt_hook@, done, skip),
                row_of("/gloss command"@, report.slash_command@, done, skip),
                "\nrestart "@,
                agent,
                " for changes to take effect.\n"@,
            ].flatten()
        }),
{
    let done = if label == "uninstall"@ {
        "removed"@
    } else {
        "added"@
    };
    let skip = if label == "uninstall"@ {
        "not present"@
    } else {
        "already present"@
    };
    let p0 = Seq::<Seq<char>>::empty();
    lemma_piece_more(p0, "gloss "@);
    let p1 = p0.push("gloss "@);
    lemma_piece_more(p1, label);
    let p2 = p1.push(label);
    lemma_piece_more(p2, ":\n"@);
    let p3 = p2.push(":\n"@);
    lemma_piece_more(p3, row_of("MCP server"@, report.mcp@, done, skip));
    let p4 = p3.push(row_of("MCP server"@, report.mcp@, done, skip));
    lemma_piece_more(p4, row_of("SessionStart hook"@, report.session_hook@, done, skip));
    let p5 = p4.push(row_of("SessionStart hook"@, report.session_hook@, done, skip));
    lemma_piece_more(p5, row_of("UserPromptSubmit hook"@, report.prompt_hook@, done, skip));
    let p6 = p5.push(row_of("UserPromptSubmit hook"@, report.prompt_hook@, done, skip));
    lemma_piece_more(p6, row_of("/gloss command"@, report.slash_command@, done, skip));
    let p7 = p6.push(row_of("/gloss command"@, report.slash_command@, done, skip));
    lemma_piece_more(p7, "\nrestart "@);
    let p8 = p7.push("\nrestart "@);
    lemma_piece_more(p8, agent);
    let p9 = p8.push(agent);
    lemma_piece_more(p9, " for changes to take effect.\n"@);
    let p10 = p9.push(" for changes to take effect.\n"@);
    assert(seq![
        "gloss "@,
        label,
        ":\n"@,
        row_of("MCP server"@, report.mcp@, done, skip),
        row_of("SessionStart hook"@, report.session_hook@, done, skip),
        row_of("UserPromptSubmit hook"@, report.prompt_hook@, done, skip),
        row_of("/gloss command"@, report.slash_command@, done, skip),
        "\nrestart "@,
        agent,
        " for changes to take effect.\n"@,
    ] =~= p10);
    assert(p0.flatten() =~= Seq::<char>::empty());
    assert(p0.flatten() + "gloss "@ =~= "gloss "@);
}

/// A line of a patch on the page.
pub proof fn law_line_markup(line: Seq<char>)
    ensures
        ({
            line_html(line) == seq![
                "<span class=\""@,
                line_class(line),
                "\">"@,
                escaped(line),
                "</span>\n"@,
            ].flatten()
        }),
{
    let p0 = Seq::<Seq<char>>::empty();
    lemma_piece_more(p0, "<span class=\""@);
    let p1 = p0.push("<span class=\""@);
    lemma_piece_more(p1, line_class(line));
    let p2 = p1.push(line_class(line));
    lemma_piece_more(p2, "\">"@);
    let p3 = p2.push("\">"@);
    lemma_piece_more(p3, escaped(line));
    let p4 = p3.push(escaped(line));
    lemma_piece_more(p4, "</span>\n"@);
    let p5 = p4.push("</span>\n"@);
    assert(seq![
        "<span class=\""@,
        line_class(line),
        "\">"@,
        escaped(line),
        "</span>\n"@,
    ] =~= p5);
    assert(p0.flatten() =~= Seq::<char>::empty());
    assert(p0.flatten() + "<span class=\""@ =~= "<span class=\""@);
}

/// The text of a patch on the page.
pub proof fn law_patch_markup(patch: Seq<char>)
    ensures
        patch.len() == 0 ==> patch_html(patch)
            == "<div class=\"nodiff\">(no textual diff: binary, rename-only, or empty)</div>"@,
        patch.len() > 0 ==> patch_html(patch) == seq![
            "<pre class=\"patch\">"@,
            lines_html(lines_of(patch)),
            "</pre>"@,
        ].flatten(),
{
    let p0 = Seq::<Seq<char>>::empty();
    let p1 = p0.push("<pre class=\"patch\">"@);
    let p2 = p1.push(lines_html(lines_of(patch)));
    let p3 = p2.push("</pre>"@);
    lemma_piece_more(p0, "<pre class=\"patch\">"@);
    lemma_piece_more(p1, lines_html(lines_of(patch)));
    lemma_piece_more(p2, "</pre>"@);
    assert(seq![
        "<pre class=\"patch\">"@,
        lines_html(lines_of(patch)),
        "</pre>"@,
    ] =~= p3);
    assert(p0.flatten() =~= Seq::<char>::empty());
    assert(p0.flatten() + "<pre class=\"patch\">"@ =~= "<pre class=\"patch\">"@);
}

/// The heading of a file's difference on the page.
pub proof fn law_summary_markup(d: DiffView)
    ensures
        ({
            let mark = if d.truncated {
                " <span class=\"trunc\">(truncated)</span>"@
            } else {
                ""@
            };
            summary_html(d) == seq![
                "<details open class=\"file\"><summary><span class=\"status "@,
                status_word(d.status),
                "\">"@,
                status_word(d.status),
                "</span> <span class=\"path\">"@,
                escaped(d.path),
                "</span> <span class=\"stats\"><span class=\"add\">+"@,
                decimal(d.additions as nat),
                "</span> <span class=\"del\">-"@,
                decimal(d.deletions as nat),
                "</span></span>"@,
                mark,
                "</summary>"@,
            ].flatten()
        }),
{
    let mark = if d.truncated {
        " <span class=\"trunc\">(truncated)</span>"@
    } else {
        ""@
    };
    let p0 = Seq::<Seq<char>>::empty();
    lemma_piece_more(p0, "<details open class=\"file\"><summary><span class=\"status "@);
    let p1 = p0.push("<details open class=\"file\"><summary><span class=\"status "@);
    lemma_piece_more(p1, status_word(d.status));
    let p2 = p1.push(status_word(d.status));
    lemma_piece_more(p2, "\">"@);
    let p3 = p2.push("\">"@);
    lemma_piece_more(p3, status_word(d.status));
    let p4 = p3.push(status_word(d.status));
    lemma_piece_more(p4, "</span> <span class=\"path\">"@);
    let p5 = p4.push("</span> <span class=\"path\">"@);
    lemma_piece_more(p5, escaped(d.path));
    let p6 = p5.push(escaped(d.path));
    lemma_piece_more(p6, "</span> <span class=\"stats\"><span class=\"add\">+"@);
    let p7 = p6.push("</span> <span class=\"stats\"><span class=\"add\">+"@);
    lemma_piece_more(p7, decimal(d.additions as nat));
    let p8 = p7.push(decimal(d.additions as nat));
    lemma_piece_more(p8, "</span> <span class=\"del\">-"@);
    let p9 = p8.push("</span> <span class=\"del\">-"@);
    lemma_piece_more(p9, decimal(d.deletions as nat));
    let p10 = p9.push(decimal(d.deletions as nat));
    lemma_piece_more(p10, "</span></span>"@);
    let p11 = p10.push("</span></span>"@);
    lemma_piece_more(p11, mark);
    let p12 = p11.push(mark);
    lemma_piece_more(p12, "</summary>"@);
    let p13 = p12.push("</summary>"@);
    assert(seq![
        "<details open class=\"file\"><summary><span class=\"status "@,
        status_word(d.status),
        "\">"@,
        status_word(d.status),
        "</span> <span class=\"path\">"@,
        escaped(d.path),
        "</span> <span class=\"stats\"><span class=\"add\">+"@,
        decimal(d.additions as nat),
        "</span> <span class=\"del\">-"@,
        decimal(d.deletions as nat),
        "</span></span>"@,
        mark,
        "</summary>"@,
    ] =~= p13);
    assert(p0.flatten() =~= Seq::<char>::empty());
    assert(p0.flatten() + "<details open class=\"file\"><summary><span class=\"status "@ =~= "<details open class=\"file\"><summary><span class=\"status "@);
}

/// The difference of a file on the page.
pub proof fn law_difference_markup(d: DiffView)
    ensures
        ({
            diff_html(d) == seq![
                summary_html(d),
                patch_html(d.patch),
                "</details>"@,
            ].flatten()
        }),
{
    let p0 = Seq::<Seq<char>>::empty();
    lemma_piece_more(p0, summary_html(d));
    let p1 = p0.push(summary_html(d));
    lemma_piece_more(p1, patch_html(d.patch));
    let p2 = p1.push(patch_html(d.patch));
    lemma_piece_more(p2, "</details>"@);
    let p3 = p2.push("</details>"@);
    assert(seq![
        summary_html(d),
        patch_html(d.patch),
        "</details>"@,
    ] =~= p3);
    assert(p0.flatten() =~= Seq::<char>::empty());
    assert(p0.flatten() + summary_html(d) =~= summary_html(d));
}

/// The head of the page.
pub proof fn law_head_markup(workspace: Seq<char>, label: Option<Seq<char>>)
    ensures
        ({
            let title = if label is Some {
                label.unwrap() + " · gloss"@
            } else {
                "gloss"@
            };
            let badge = if label is Some {
                "<span class=\"badge\">"@ + escaped(label.unwrap()) + "</span>"@
            } else {
                ""@
            };
            head_html(workspace, label) == seq![
                "<!doctype html><html><head><meta charset=\"utf-8\"><title>"@,
                escaped(title),
                "</title>"@,
                "<style>"@,
                CSS@,
                "</style></head><body>"@,
                "<header><h1>gloss</h1>"@,
                badge,
                "<div class=\"ws\">"@,
                escaped(workspace),
                "</div></header>"@,
            ].flatten()
        }),
{
    let title = if label is Some {
        label.unwrap() + " · gloss"@
    } else {
        "gloss"@
    };
    let badge = if label is Some {
        "<span class=\"badge\">"@ + escaped(label.unwrap()) + "</span>"@
    } else {
        ""@
    };
    let p0 = Seq::<Seq<char>>::empty();
    lemma_piece_more(p0, "<!doctype html><html><head><meta charset=\"utf-8\"><title>"@);
    let p1 = p0.push("<!doctype html><html><head><meta charset=\"utf-8\"><title>"@);
    lemma_piece_more(p1, escaped(title));
    let p2 = p1.push(escaped(title));
    lemma_piece_more(p2, "</title>"@);
    let p3 = p2.push("</title>"@);
    lemma_piece_more(p3, "<style>"@);
    let p4 = p3.push("<style>"@);
    lemma_piece_more(p4, CSS@);
    let p5 = p4.push(CSS@);
    lemma_piece_more(p5, "</style></head><body>"@);
    let p6 = p5.push("</style></head><body>"@);
    lemma_piece_more(p6, "<header><h1>gloss</h1>"@);
    let p7 = p6.push("<header><h1>gloss</h1>"@);
    lemma_piece_more(p7, badge);
    let p8 = p7.push(badge);
    lemma_piece_more(p8, "<div class=\"ws\">"@);
    let p9 = p8.push("<div class=\"ws\">"@);
    lemma_piece_more(p9, escaped(workspace));
    let p10 = p9.push(escaped(workspace));
    lemma_piece_more(p10, "</div></header>"@);
    let p11 = p10.push("</div></header>"@);
    assert(seq![
        "<!doctype html><html><head><meta charset=\"utf-8\"><title>"@,
        escaped(title),
        "</title>"@,
        "<style>"@,
        CSS@,
        "</style></head><body>"@,
        "<header><h1>gloss</h1>"@,
        badge,
        "<div class=\"ws\">"@,
        escaped(workspace),
        "</div></header>"@,
    ] =~= p11);
    assert(p0.flatten() =~= Seq::<char>::empty());
    assert(p0.flatten() + "<!doctype html><html><head><meta charset=\"utf-8\"><title>"@ =~= "<!doctype html><html><head><meta charset=\"utf-8\"><title>"@);
}

/// A checkpoint in the list at the side of the page.
pub proof fn law_checkpoint_markup(c: InfoView, selected: Option<Seq<char>>, now_secs: u64)
    ensures
        ({
            let class = if selected == Some(c.id) {
                "cp active"@
            } else {
                "cp"@
            };
            let label = if c.label is Some {
                c.label.unwrap()
            } else {
                "(auto)"@
            };
            checkpoint_html(c, selected, now_secs) == seq![
                "<li class=\""@,
                class,
                "\"><a href=\"/?id="@,
                escaped(c.id),
                "\"><div class=\"cp-label\">"@,
                escaped(label),
                "</div><div class=\"cp-meta\">"@,
                escaped(age_of(c.created_at_ms, now_secs)),
                " · "@,
                decimal(c.files_changed as nat),
                " files · <span class=\"add\">+"@,
                decimal(c.insertions as nat),
                "</span> <span class=\"del\">-"@,
                decimal(c.deletions as nat),
                "</span></div><div class=\"cp-id\">"@,
                escaped(leading_text(c.id, 20)),
                "</div></a><form method=\"POST\" action=\"/restore/"@,
                escaped(c.id),
                "\" onsubmit=\"return confirm('Restore workspace to this checkpoint? Current state will be auto-stashed.')\"><button class=\"restore\" title=\"Restore workspace to this checkpoint\">↶ restore</button></form></li>"@,
            ].flatten()
        }),
{
    let class = if selected == Some(c.id) {
        "cp active"@
    } else {
        "cp"@
    };
    let label = if c.label is Some {
        c.label.unwrap()
    } else {
        "(auto)"@
    };
    let p0 = Seq::<Seq<char>>::empty();
    lemma_piece_more(p0, "<li class=\""@);
    let p1 = p0.push("<li class=\""@);
    lemma_piece_more(p1, class);
    let p2 = p1.push(class);
    lemma_piece_more(p2, "\"><a href=\"/?id="@);
    let p3 = p2.push("\"><a href=\"/?id="@);
    lemma_piece_more(p3, escaped(c.id));
    let p4 = p3.push(escaped(c.id));
    lemma_piece_more(p4, "\"><div class=\"cp-label\">"@);
    let p5 = p4.push("\"><div class=\"cp-label\">"@);
    lemma_piece_more(p5, escaped(label));
    let p6 = p5.push(escaped(label));
    lemma_piece_more(p6, "</div><div class=\"cp-meta\">"@);
    let p7 = p6.push("</div><div class=\"cp-meta\">"@);
    lemma_piece_more(p7, escaped(age_of(c.created_at_ms, now_secs)));
    let p8 = p7.push(escaped(age_of(c.created_at_ms, now_secs)));
    lemma_piece_more(p8, " · "@);
    let p9 = p8.push(" · "@);
    lemma_piece_more(p9, decimal(c.files_changed as nat));
    let p10 = p9.push(decimal(c.files_changed as nat));
    lemma_piece_more(p10, " files · <span class=\"add\">+"@);
    let p11 = p10.push(" files · <span class=\"add\">+"@);
    lemma_piece_more(p11, decimal(c.insertions as nat));
    let p12 = p11.push(decimal(c.insertions as nat));
    lemma_piece_more(p12, "</span> <span class=\"del\">-"@);
    let p13 = p12.push("</span> <span class=\"del\">-"@);
    lemma_piece_more(p13, decimal(c.deletions as nat));
    let p14 = p13.push(decimal(c.deletions as nat));
    lemma_piece_more(p14, "</span></div><div class=\"cp-id\">"@);
    let p15 = p14.push("</span></div><div class=\"cp-id\">"@);
    lemma_piece_more(p15, escaped(leading_text(c.id, 20)));
    let p16 = p15.push(escaped(leading_text(c.id, 20)));
    lemma_piece_more(p16, "</div></a><form method=\"POST\" action=\"/restore/"@);
    let p17 = p16.push("</div></a><form method=\"POST\" action=\"/restore/"@);
    lemma_piece_more(p17, escaped(c.id));
    let p18 = p17.push(escaped(c.id));
    lemma_piece_more(p18, "\" onsubmit=\"return confirm('Restore workspace to this checkpoint? Current state will be auto-stashed.')\"><button class=\"restore\" title=\"Restore workspace to this checkpoint\">↶ restore</button></form></li>"@);
    let p19 = p18.push("\" onsubmit=\"return confirm('Restore workspace to this checkpoint? Current state will be auto-stashed.')\"><button class=\"restore\" title=\"Restore workspace to this checkpoint\">↶ restore</button></form></li>"@);
    assert(seq![
        "<li class=\""@,
        class,
        "\"><a href=\"/?id="@,
        escaped(c.id),
        "\"><div class=\"cp-label\">"@,
        escaped(label),
        "</div><div class=\"cp-meta\">"@,
        escaped(age_of(c.created_at_ms, now_secs)),
        " · "@,
        decimal(c.files_changed as nat),
        " files · <span class=\"add\">+"@,
        decimal(c.insertions as nat),
        "</span> <span class=\"del\">-"@,
        decimal(c.deletions as nat),
        "</span></div><div class=\"cp-id\">"@,
        escaped(leading_text(c.id, 20)),
        "</div></a><form method=\"POST\" action=\"/restore/"@,
        escaped(c.id),
        "\" onsubmit=\"return confirm('Restore workspace to this checkpoint? Current state will be auto-stashed.')\"><button class=\"restore\" title=\"Restore workspace to this checkpoint\">↶ restore</button></form></li>"@,
    ] =~= p19);
    assert(p0.flatten() =~= Seq::<char>::empty());
    assert(p0.flatten() + "<li class=\""@ =~= "<li class=\""@);
}

/// The note at the top of the page.
pub proof fn law_note_markup(m: Seq<char>)
    ensures
        ({
            flash_html(Some(m)) == seq![
                "<div class=\"flash\">"@,
                escaped(m),
                "</div>"@,
            ].flatten()
        }),
{
    let p0 = Seq::<Seq<char>>::empty();
    lemma_piece_more(p0, "<div class=\"flash\">"@);
    let p1 = p0.push("<div class=\"flash\">"@);
    lemma_piece_more(p1, escaped(m));
    let p2 = p1.push(escaped(m));
    lemma_piece_more(p2, "</div>"@);
    let p3 = p2.push("</div>"@);
    assert(seq![
        "<div class=\"flash\">"@,
        escaped(m),
        "</div>"@,
    ] =~= p3);
    assert(p0.flatten() =~= Seq::<char>::empty());
    assert(p0.flatten() + "<div class=\"flash\">"@ =~= "<div class=\"flash\">"@);
}

/// The page.
pub proof fn law_page_markup(
    workspace: Seq<char>,
    label: Option<Seq<char>>,
    cs: Seq<CheckpointInfo>,
    selected: Option<Seq<char>>,
    ds: Option<Seq<FileDiff>>,
    flash: Option<Seq<char>>,
    now_secs: u64,
    agent: Seq<char>,
)
    ensures
        ({
            page_html(workspace, label, cs, selected, ds, flash, now_secs, agent) == seq![
                head_html(workspace, label),
                flash_html(flash),
                "<div class=\"layout\">"@,
                aside_html(cs, selected, now_secs),
                main_html(cs, ds, agent),
                "</div></body></html>"@,
            ].flatten()
        }),
{
    let p0 = Seq::<Seq<char>>::empty();
    lemma_piece_more(p0, head_html(workspace, label));
    let p1 = p0.push(head_html(workspace, label));
    lemma_piece_more(p1, flash_html(flash));
    let p2 = p1.push(flash_html(flash));
    lemma_piece_more(p2, "<div class=\"layout\">"@);
    let p3 = p2.push("<div class=\"layout\">"@);
    lemma_piece_more(p3, aside_html(cs, selected, now_secs));
    let p4 = p3.push(aside_html(cs, selected, now_secs));
    lemma_piece_more(p4, main_html(cs, ds, agent));
    let p5 = p4.push(main_html(cs, ds, agent));
    lemma_piece_more(p5, "</div></body></html>"@);
    let p6 = p5.push("</div></body></html>"@);
    assert(seq![
        head_html(workspace, label),
        flash_html(flash),
        "<div class=\"layout\">"@,
        aside_html(cs, selected, now_secs),
        main_html(cs, ds, agent),
        "</div></body></html>"@,
    ] =~= p6);
    assert(p0.flatten() =~= Seq::<char>::empty());
    assert(p0.flatten() + head_html(workspace, label) =~= head_html(workspace, label));
}

/// What is said of a restore on the page.
pub proof fn law_restore_note_wording(restored: nat, removed: nat, stash: Option<Seq<char>>)
    ensures
        ({
            let aside = if stash is Some {
                " (pre-restore stashed at "@ + leading_text(stash.unwrap(), 8) + ")"@
            } else {
                ""@
            };
            restore_note(restored, removed, stash) == seq![
                "restored "@,
                decimal(restored),
                " files, removed "@,
                decimal(removed),
                " files"@,
                aside,
            ].flatten()
        }),
{
    let aside = if stash is Some {
        " (pre-restore stashed at "@ + leading_text(stash.unwrap(), 8) + ")"@
    } else {
        ""@
    };
    let p0 = Seq::<Seq<char>>::empty();
    lemma_piece_more(p0, "restored "@);
    let p1 = p0.push("restored "@);
    lemma_piece_more(p1, decimal(restored));
    let p2 = p1.push(decimal(restored));
    lemma_piece_more(p2, " files, removed "@);
    let p3 = p2.push(" files, removed "@);
    lemma_piece_more(p3, decimal(removed));
    let p4 = p3.push(decimal(removed));
    lemma_piece_more(p4, " files"@);
    let p5 = p4.push(" files"@);
    lemma_piece_more(p5, aside);
    let p6 = p5.push(aside);
    assert(seq![
        "restored "@,
        decimal(restored),
        " files, removed "@,
        decimal(removed),
        " files"@,
        aside,
    ] =~= p6);
    assert(p0.flatten() =~= Seq::<char>::empty());
    assert(p0.flatten() + "restored "@ =~= "restored "@);
}

/// The list of checkpoints at the side of the page, and the differences in its main part,
/// with what stands around them.
pub proof fn law_lists_markup(
    cs: Seq<CheckpointInfo>,
    selected: Option<Seq<char>>,
    now_secs: u64,
    ds: Seq<FileDiff>,
    agent: Seq<char>,
)
    requires
        cs.len() > 0,
        ds.len() > 0,
    ensures
        aside_html(cs, selected, now_secs) == seq![
            "<aside><h2>checkpoints</h2><ul class=\"cps\">"@,
            checkpoints_html(cs, selected, now_secs),
            "</ul></aside>"@,
        ].flatten(),
        main_html(cs, Some(ds), agent) == seq![
            "<main><div class=\"diff-summary\">"@,
            decimal(ds.len()),
            " file"@,
            if ds.len() == 1 {
                ""@
            } else {
                "s"@
            },
            "</div>"@,
            diffs_html(ds),
            "</main>"@,
        ].flatten(),
{
    let a1 = "<aside><h2>checkpoints</h2><ul class=\"cps\">"@;
    let a2 = checkpoints_html(cs, selected, now_secs);
    let a3 = "</ul></aside>"@;
    let p0 = Seq::<Seq<char>>::empty();
    assert(p0.flatten() =~= Seq::<char>::empty());
    lemma_piece_more(p0, a1);
    lemma_piece_more(p0.push(a1), a2);
    lemma_piece_more(p0.push(a1).push(a2), a3);
    assert(p0.flatten() + a1 =~= a1);
    assert(seq![a1, a2, a3] =~= p0.push(a1).push(a2).push(a3));
    let s = if ds.len() == 1 {
        ""@
    } else {
        "s"@
    };
    let m1 = "<main><div class=\"diff-summary\">"@;
    let q1 = p0.push(m1);
    let q2 = q1.push(decimal(ds.len()));
    let q3 = q2.push(" file"@);
    let q4 = q3.push(s);
    let q5 = q4.push("</div>"@);
    let q6 = q5.push(diffs_html(ds));
    let q7 = q6.push("</main>"@);
    lemma_piece_more(p0, m1);
    lemma_piece_more(q1, decimal(ds.len()));
    lemma_piece_more(q2, " file"@);
    lemma_piece_more(q3, s);
    lemma_piece_more(q4, "</div>"@);
    lemma_piece_more(q5, diffs_html(ds));
    lemma_piece_more(q6, "</main>"@);
    assert(p0.flatten() + m1 =~= m1);
    assert(seq![
        m1,
        decimal(ds.len()),
        " file"@,
        s,
        "</div>"@,
        diffs_html(ds),
        "</main>"@,
    ] =~= q7);
}

/// A changed file as it is printed: its heading, and the lines of its patch, or that there are
/// none.
pub proof fn law_file_output_wording(fd: FileDiff, color: bool)
    ensures
        fd.patch@.len() == 0 ==> file_output(fd, color) == seq![
            file_heading(fd, color),
            paint(color, "\x1b[2m"@) + "(no textual diff: binary or rename-only)"@ + paint(
                color,
                "\x1b[0m"@,
            ) + "\n"@,
        ].flatten(),
        fd.patch@.len() > 0 ==> file_output(fd, color) == seq![
            file_heading(fd, color),
            patch_lines(lines_of(fd.patch@), color),
        ].flatten(),
{
    let p0 = Seq::<Seq<char>>::empty();
    let top = file_heading(fd, color);
    let none = paint(color, "\x1b[2m"@) + "(no textual diff: binary or rename-only)"@ + paint(
        color,
        "\x1b[0m"@,
    ) + "\n"@;
    let some = patch_lines(lines_of(fd.patch@), color);
    assert(p0.flatten() =~= Seq::<char>::empty());
    lemma_piece_more(p0, top);
    lemma_piece_more(p0.push(top), none);
    lemma_piece_more(p0.push(top), some);
    assert(p0.flatten() + top =~= top);
    assert(seq![top, none] =~= p0.push(top).push(none));
    assert(seq![top, some] =~= p0.push(top).push(some));
}

} // verus!
