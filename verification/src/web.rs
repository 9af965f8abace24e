//! The review pages: their ports, their HTML, and the answer to a restore.

use vstd::prelude::*;
use vstd::string::*;
use vstd::utf8::*;

use crate::checkpoint::CheckpointInfo;
use crate::checkpoint::InfoView;
use crate::diff::{status_name, FileDiff};
use crate::diff::{status_word, DiffView};
use crate::hash::{fnv_update, FNV_OFFSET};
use crate::hash::{fnv_from, law_hash_goes_on};
use crate::ids::lemma_encode_concat;
use crate::restore::RestoreReport;
use crate::style::CSS;
use crate::text::{chars_of, decimal_text, first_bytes, lines, same_text, starts_with};
use crate::text::{
    cuts_at, decimal, has_prefix, hex_digit_upper, leading_text, lines_of, opt_str, opt_text, texts,
};
use crate::text::{
    has_substring, law_prefix, law_substring, lemma_shows_behind, lemma_shows_both,
    lemma_shows_next, lemma_shows_nothing, lemma_shows_still, shows,
};

verus! {

// ---- ports ----

/// The first port for reviews.
pub const FIRST_PORT: u16 = 7400;

/// How many ports there are for reviews.
pub const PORT_COUNT: u64 = 600;

/// How many ports are tried from the preferred one on.
pub const PORT_TRIES: u16 = 20;

/// The hash of a workspace and an optional label.
pub open spec fn session_hash(workspace: Seq<char>, label: Option<Seq<char>>) -> u64 {
    let h = fnv_from(FNV_OFFSET, encode_utf8(workspace));
    match label {
        Some(l) => fnv_from(h ^ 1, encode_utf8(l)),
        None => h,
    }
}

/// The port for a workspace and an optional label.
pub open spec fn port_of(workspace: Seq<char>, label: Option<Seq<char>>) -> int {
    FIRST_PORT + session_hash(workspace, label) % PORT_COUNT
}

/// The port on which the workspace with the given canonical path, under an
/// optional label, is shown for review; from 7400 to 7999.
pub fn port_for(workspace: &str, label: Option<&str>) -> (r: u16)
    ensures
        r == port_of(workspace@, opt_str(label)),
        7400 <= r <= 7999,
{
    let mut h: u64 = fnv_update(FNV_OFFSET, workspace);
    if let Some(l) = label {
        h = fnv_update(h ^ 1, l);
    }
    FIRST_PORT + (h % PORT_COUNT) as u16
}

/// The port that is tried after `offset` failures: the next one, but none above
/// the largest.
pub open spec fn candidate_of(preferred: u16, offset: int) -> u16 {
    if preferred + offset <= u16::MAX {
        (preferred + offset) as u16
    } else {
        u16::MAX
    }
}

/// The ports to try in turn, before any free one is taken.
pub fn bind_candidates(preferred: u16) -> (r: Vec<u16>)
    ensures
        r@ == Seq::new(PORT_TRIES as nat, |i: int| candidate_of(preferred, i)),
{
    let mut out: Vec<u16> = Vec::new();
    let mut offset: u16 = 0;
    while offset < PORT_TRIES
        invariant
            offset <= PORT_TRIES,
            out@ == Seq::new(offset as nat, |i: int| candidate_of(preferred, i)),
        decreases PORT_TRIES - offset,
    {
        let port: u16 = if preferred <= u16::MAX - offset {
            preferred + offset
        } else {
            u16::MAX
        };
        out.push(port);
        offset += 1;
        assert(out@ =~= Seq::new(offset as nat, |i: int| candidate_of(preferred, i)));
    }
    out
}

/// The local address with the given port.
pub fn local_addr(port: u16) -> (r: String)
    ensures
        r@ == "127.0.0.1:"@ + decimal(port as nat),
{
    let mut out = "127.0.0.1:".to_string();
    out.append(decimal_text(port as u64).as_str());
    out
}

/// The address of the review on the given port.
pub open spec fn url_of(port: u16) -> Seq<char> {
    "http://127.0.0.1:"@ + decimal(port as nat)
}

/// The address of the review on the given port.
pub fn local_url(port: u16) -> (r: String)
    ensures
        r@ == url_of(port),
{
    let mut out = "http://127.0.0.1:".to_string();
    out.append(decimal_text(port as u64).as_str());
    out
}

/// What is printed when a review starts.
pub fn serve_banner(workspace: &str, label: Option<&str>, addr: &str) -> (r: String)
    ensures
        r@ == (match label {
            Some(l) => "gloss ["@ + l@ + "] http://"@ + addr@,
            None => "gloss http://"@ + addr@,
        }) + "\nworkspace: "@ + workspace@ + "\n"@,
{
    let mut out = match label {
        Some(l) => {
            let mut s = "gloss [".to_string();
            s.append(l);
            s.append("] http://");
            s
        },
        None => "gloss http://".to_string(),
    };
    out.append(addr);
    out.append("\nworkspace: ");
    out.append(workspace);
    out.append("\n");
    out
}

// ---- encodings ----

/// A character as HTML text.
pub open spec fn esc_char(c: char) -> Seq<char> {
    if c == '&' {
        "&amp;"@
    } else if c == '<' {
        "&lt;"@
    } else if c == '>' {
        "&gt;"@
    } else if c == '"' {
        "&quot;"@
    } else if c == '\'' {
        "&#39;"@
    } else {
        seq![c]
    }
}

/// A text as HTML text.
pub open spec fn escaped(s: Seq<char>) -> Seq<char>
    decreases s.len(),
{
    if s.len() == 0 {
        Seq::empty()
    } else {
        escaped(s.drop_last()) + esc_char(s.last())
    }
}

/// `s` as HTML text.
pub fn esc(s: &str) -> (r: String)
    ensures
        r@ == escaped(s@),
{
    let chars = chars_of(s);
    let mut out = String::new();
    let mut i: usize = 0;
    while i < chars.len()
        invariant
            i <= chars@.len(),
            out@ == escaped(chars@.take(i as int)),
        decreases chars@.len() - i,
    {
        let c = chars[i];
        let ghost before = out@;
        assert(chars@.take(i + 1).drop_last() == chars@.take(i as int));
        if c == '&' {
            out.append("&amp;");
        } else if c == '<' {
            out.append("&lt;");
        } else if c == '>' {
            out.append("&gt;");
        } else if c == '"' {
            out.append("&quot;");
        } else if c == '\'' {
            out.append("&#39;");
        } else {
            out.push(c);
            assert(before.push(c) =~= before + seq![c]);
        }
        i += 1;
    }
    assert(chars@.take(i as int) == chars@);
    out
}

/// The byte stands for itself in a URL.
pub open spec fn is_unreserved(b: u8) -> bool {
    ||| 65 <= b <= 90
    ||| 97 <= b <= 122
    ||| 48 <= b <= 57
    ||| b == 45
    ||| b == 95
    ||| b == 46
    ||| b == 126
}

/// A byte as it is written in a URL.
pub open spec fn url_byte(b: u8) -> Seq<char> {
    if is_unreserved(b) {
        seq![b as char]
    } else {
        seq!['%', hex_digit_upper(b as int / 16), hex_digit_upper(b as int % 16)]
    }
}

/// Bytes as they are written in a URL.
pub open spec fn url_encoded(bytes: Seq<u8>) -> Seq<char>
    decreases bytes.len(),
{
    if bytes.len() == 0 {
        Seq::empty()
    } else {
        url_encoded(bytes.drop_last()) + url_byte(bytes.last())
    }
}

fn upper_hex(d: u8) -> (r: char)
    requires
        d < 16,
    ensures
        r == hex_digit_upper(d as int),
{
    let c: u8 = if d < 10 { 48 + d } else { 55 + d };
    c as char
}

/// `s` as part of a URL.
pub fn urlencode(s: &str) -> (r: String)
    ensures
        r@ == url_encoded(encode_utf8(s@)),
{
    let bytes = s.as_bytes();
    let mut out = String::new();
    let mut i: usize = 0;
    while i < bytes.len()
        invariant
            i <= bytes@.len(),
            out@ == url_encoded(bytes@.take(i as int)),
        decreases bytes@.len() - i,
    {
        let b = bytes[i];
        let ghost before = out@;
        assert(bytes@.take(i + 1).drop_last() == bytes@.take(i as int));
        if (65 <= b && b <= 90) || (97 <= b && b <= 122) || (48 <= b && b <= 57) || b == 45 || b == 95
            || b == 46 || b == 126 {
            out.push(b as char);
        } else {
            out.push('%');
            out.push(upper_hex(b / 16));
            out.push(upper_hex(b % 16));
        }
        assert(out@ =~= before + url_byte(b));
        i += 1;
    }
    assert(bytes@.take(i as int) == bytes@);
    out
}

// ---- ages ----

/// How long ago `ms` milliseconds after 1970 was, at `now_secs`.
pub open spec fn age_of(ms: u64, now_secs: u64) -> Seq<char> {
    let delta = now_secs - ms / 1000;
    if delta < 0 {
        decimal(0) + "s ago"@
    } else if delta < 60 {
        decimal(delta as nat) + "s ago"@
    } else if delta < 3600 {
        decimal((delta / 60) as nat) + "m ago"@
    } else if delta < 86400 {
        decimal((delta / 3600) as nat) + "h ago"@
    } else {
        decimal((delta / 86400) as nat) + "d ago"@
    }
}

/// How long ago `ms` milliseconds after 1970 was, at `now_secs`.
pub fn format_ts(ms: u64, now_secs: u64) -> (r: String)
    ensures
        r@ == age_of(ms, now_secs),
{
    let secs: u64 = ms / 1000;
    let delta: u64 = if now_secs >= secs { now_secs - secs } else { 0 };
    if delta < 60 {
        let mut out = decimal_text(delta);
        out.append("s ago");
        out
    } else if delta < 3600 {
        let mut out = decimal_text(delta / 60);
        out.append("m ago");
        out
    } else if delta < 86400 {
        let mut out = decimal_text(delta / 3600);
        out.append("h ago");
        out
    } else {
        let mut out = decimal_text(delta / 86400);
        out.append("d ago");
        out
    }
}

// ---- the difference of a file ----

/// The class of a line of a patch.
pub open spec fn line_class(line: Seq<char>) -> Seq<char> {
    if has_prefix(line, "+++"@) || has_prefix(line, "---"@) {
        "header"@
    } else if has_prefix(line, "@@"@) {
        "hunk"@
    } else if has_prefix(line, "+"@) {
        "add"@
    } else if has_prefix(line, "-"@) {
        "del"@
    } else if has_prefix(line, "diff "@) || has_prefix(line, "index "@) || has_prefix(
        line,
        "new file"@,
    ) || has_prefix(line, "deleted file"@) {
        "header"@
    } else {
        "ctx"@
    }
}

/// The class of a line of a patch.
pub fn patch_line_class(line: &str) -> (r: &'static str)
    ensures
        r@ == line_class(line@),
{
    if starts_with(line, "+++") || starts_with(line, "---") {
        "header"
    } else if starts_with(line, "@@") {
        "hunk"
    } else if starts_with(line, "+") {
        "add"
    } else if starts_with(line, "-") {
        "del"
    } else if starts_with(line, "diff ") || starts_with(line, "index ") || starts_with(
        line,
        "new file",
    ) || starts_with(line, "deleted file") {
        "header"
    } else {
        "ctx"
    }
}

/// A line of a patch as HTML.
pub open spec fn line_html(line: Seq<char>) -> Seq<char> {
    "<span class=\""@ + line_class(line) + "\">"@ + escaped(line) + "</span>\n"@
}

/// The lines of a patch as HTML.
pub open spec fn lines_html(ls: Seq<Seq<char>>) -> Seq<char>
    decreases ls.len(),
{
    if ls.len() == 0 {
        Seq::empty()
    } else {
        lines_html(ls.drop_last()) + line_html(ls.last())
    }
}

/// The text of a patch as HTML.
pub open spec fn patch_html(patch: Seq<char>) -> Seq<char> {
    if patch.len() == 0 {
        "<div class=\"nodiff\">(no textual diff: binary, rename-only, or empty)</div>"@
    } else {
        "<pre class=\"patch\">"@ + lines_html(lines_of(patch)) + "</pre>"@
    }
}

/// The heading of a file's difference as HTML.
pub open spec fn summary_html(d: DiffView) -> Seq<char> {
    "<details open class=\"file\"><summary><span class=\"status "@ + status_word(d.status) + "\">"@
        + status_word(d.status) + "</span> <span class=\"path\">"@ + escaped(d.path)
        + "</span> <span class=\"stats\"><span class=\"add\">+"@ + decimal(d.additions as nat)
        + "</span> <span class=\"del\">-"@ + decimal(d.deletions as nat) + "</span></span>"@ + (
    if d.truncated {
        " <span class=\"trunc\">(truncated)</span>"@
    } else {
        ""@
    }) + "</summary>"@
}

/// The difference of a file as HTML.
pub open spec fn diff_html(d: DiffView) -> Seq<char> {
    summary_html(d) + patch_html(d.patch) + "</details>"@
}

fn render_line(line: &str) -> (r: String)
    ensures
        r@ == line_html(line@),
{
    let mut s = "<span class=\"".to_string();
    s.append(patch_line_class(line));
    s.append("\">");
    s.append(esc(line).as_str());
    s.append("</span>\n");
    s
}

fn render_patch(patch: &str) -> (r: String)
    ensures
        r@ == patch_html(patch@),
{
    if patch.is_empty() {
        return "<div class=\"nodiff\">(no textual diff: binary, rename-only, or empty)</div>".to_string();
    }
    let ls = lines(patch);
    let ghost all = texts(ls@);
    let ghost start = "<pre class=\"patch\">"@;
    let mut s = "<pre class=\"patch\">".to_string();
    let mut i: usize = 0;
    assert(start + lines_html(all.take(0)) =~= start);
    while i < ls.len()
        invariant
            i <= ls@.len(),
            all == texts(ls@),
            s@ == start + lines_html(all.take(i as int)),
        decreases ls@.len() - i,
    {
        let ghost before = lines_html(all.take(i as int));
        s.append(render_line(ls[i].as_str()).as_str());
        assert(all.take(i + 1).drop_last() == all.take(i as int));
        assert(all.take(i + 1).last() == ls@[i as int]@);
        assert(start + before + line_html(ls@[i as int]@) =~= start + (before + line_html(
            ls@[i as int]@,
        )));
        i += 1;
    }
    assert(all.take(i as int) == all);
    s.append("</pre>");
    s
}

/// The difference of a file as HTML.
pub fn render_file_diff(fd: &FileDiff) -> (r: String)
    ensures
        r@ == diff_html(fd@),
{
    let word = status_name(fd.status);
    let mut s = "<details open class=\"file\"><summary><span class=\"status ".to_string();
    s.append(word);
    s.append("\">");
    s.append(word);
    s.append("</span> <span class=\"path\">");
    s.append(esc(fd.path.as_str()).as_str());
    s.append("</span> <span class=\"stats\"><span class=\"add\">+");
    s.append(decimal_text(fd.additions as u64).as_str());
    s.append("</span> <span class=\"del\">-");
    s.append(decimal_text(fd.deletions as u64).as_str());
    s.append("</span></span>");
    s.append(
        if fd.truncated {
            " <span class=\"trunc\">(truncated)</span>"
        } else {
            ""
        },
    );
    s.append("</summary>");
    s.append(render_patch(fd.patch.as_str()).as_str());
    s.append("</details>");
    s
}

// ---- the page ----

/// The head of the page.
pub open spec fn head_html(workspace: Seq<char>, label: Option<Seq<char>>) -> Seq<char> {
    let title = match label {
        Some(l) => l + " · gloss"@,
        None => "gloss"@,
    };
    let badge = match label {
        Some(l) => "<span class=\"badge\">"@ + escaped(l) + "</span>"@,
        None => ""@,
    };
    "<!doctype html><html><head><meta charset=\"utf-8\"><title>"@ + escaped(title) + "</title>"@
        + "<style>"@ + CSS@ + "</style></head><body>"@ + "<header><h1>gloss</h1>"@ + badge
        + "<div class=\"ws\">"@ + escaped(workspace) + "</div></header>"@
}

fn render_head(workspace: &str, label: Option<&str>) -> (r: String)
    ensures
        r@ == head_html(workspace@, opt_str(label)),
{
    let title = match label {
        Some(l) => {
            let mut t = l.to_string();
            t.append(" · gloss");
            t
        },
        None => "gloss".to_string(),
    };
    let badge = match label {
        Some(l) => {
            let mut b = "<span class=\"badge\">".to_string();
            b.append(esc(l).as_str());
            b.append("</span>");
            b
        },
        None => "".to_string(),
    };
    let mut out = "<!doctype html><html><head><meta charset=\"utf-8\"><title>".to_string();
    out.append(esc(title.as_str()).as_str());
    out.append("</title>");
    out.append("<style>");
    out.append(CSS);
    out.append("</style></head><body>");
    out.append("<header><h1>gloss</h1>");
    out.append(badge.as_str());
    out.append("<div class=\"ws\">");
    out.append(esc(workspace).as_str());
    out.append("</div></header>");
    out
}

/// A checkpoint in the list at the side of the page.
pub open spec fn checkpoint_html(
    c: InfoView,
    selected: Option<Seq<char>>,
    now_secs: u64,
) -> Seq<char> {
    let class = if selected == Some(c.id) {
        "cp active"@
    } else {
        "cp"@
    };
    let label = match c.label {
        Some(l) => l,
        None => "(auto)"@,
    };
    "<li class=\""@ + class + "\"><a href=\"/?id="@ + escaped(c.id)
        + "\"><div class=\"cp-label\">"@ + escaped(label) + "</div><div class=\"cp-meta\">"@
        + escaped(age_of(c.created_at_ms, now_secs)) + " · "@ + decimal(c.files_changed as nat)
        + " files · <span class=\"add\">+"@ + decimal(c.insertions as nat)
        + "</span> <span class=\"del\">-"@ + decimal(c.deletions as nat)
        + "</span></div><div class=\"cp-id\">"@ + escaped(leading_text(c.id, 20))
        + "</div></a><form method=\"POST\" action=\"/restore/"@ + escaped(c.id)
        + "\" onsubmit=\"return confirm('Restore workspace to this checkpoint? Current state will be auto-stashed.')\"><button class=\"restore\" title=\"Restore workspace to this checkpoint\">↶ restore</button></form></li>"@
}

fn render_checkpoint(c: &CheckpointInfo, selected: Option<&str>, now_secs: u64) -> (r: String)
    requires
        cuts_at(c@.id, 20),
    ensures
        r@ == checkpoint_html(c@, opt_str(selected), now_secs),
{
    let active = match selected {
        Some(s) => same_text(s, c.id.as_str()),
        None => false,
    };
    let label: &str = match &c.label {
        Some(l) => l.as_str(),
        None => "(auto)",
    };
    let id = esc(c.id.as_str());
    let mut out = "<li class=\"".to_string();
    out.append(
        if active {
            "cp active"
        } else {
            "cp"
        },
    );
    out.append("\"><a href=\"/?id=");
    out.append(id.as_str());
    out.append("\"><div class=\"cp-label\">");
    out.append(esc(label).as_str());
    out.append("</div><div class=\"cp-meta\">");
    out.append(esc(format_ts(c.created_at_ms, now_secs).as_str()).as_str());
    out.append(" · ");
    out.append(decimal_text(c.files_changed as u64).as_str());
    out.append(" files · <span class=\"add\">+");
    out.append(decimal_text(c.insertions as u64).as_str());
    out.append("</span> <span class=\"del\">-");
    out.append(decimal_text(c.deletions as u64).as_str());
    out.append("</span></div><div class=\"cp-id\">");
    out.append(esc(first_bytes(c.id.as_str(), 20)).as_str());
    out.append("</div></a><form method=\"POST\" action=\"/restore/");
    out.append(id.as_str());
    out.append(
        "\" onsubmit=\"return confirm('Restore workspace to this checkpoint? Current state will be auto-stashed.')\"><button class=\"restore\" title=\"Restore workspace to this checkpoint\">↶ restore</button></form></li>",
    );
    out
}

/// Checkpoints in the list at the side of the page.
pub open spec fn checkpoints_html(
    cs: Seq<CheckpointInfo>,
    selected: Option<Seq<char>>,
    now_secs: u64,
) -> Seq<char>
    decreases cs.len(),
{
    if cs.len() == 0 {
        Seq::empty()
    } else {
        checkpoints_html(cs.drop_last(), selected, now_secs) + checkpoint_html(
            cs.last()@,
            selected,
            now_secs,
        )
    }
}

/// The side of the page.
pub open spec fn aside_html(
    cs: Seq<CheckpointInfo>,
    selected: Option<Seq<char>>,
    now_secs: u64,
) -> Seq<char> {
    if cs.len() == 0 {
        "<aside><h2>checkpoints</h2><p class=\"empty\">no checkpoints yet — run <code>gloss snap</code></p></aside>"@
    } else {
        "<aside><h2>checkpoints</h2><ul class=\"cps\">"@ + checkpoints_html(cs, selected, now_secs)
            + "</ul></aside>"@
    }
}

fn render_aside(cs: &[CheckpointInfo], selected: Option<&str>, now_secs: u64) -> (r: String)
    requires
        forall|i: int| 0 <= i < cs@.len() ==> cuts_at((#[trigger] cs@[i])@.id, 20),
    ensures
        r@ == aside_html(cs@, opt_str(selected), now_secs),
{
    if cs.len() == 0 {
        return "<aside><h2>checkpoints</h2><p class=\"empty\">no checkpoints yet — run <code>gloss snap</code></p></aside>".to_string();
    }
    let ghost start = "<aside><h2>checkpoints</h2><ul class=\"cps\">"@;
    let ghost sel = opt_str(selected);
    let mut out = "<aside><h2>checkpoints</h2><ul class=\"cps\">".to_string();
    let mut i: usize = 0;
    assert(start + checkpoints_html(cs@.take(0), sel, now_secs) =~= start);
    while i < cs.len()
        invariant
            i <= cs@.len(),
            forall|i: int| 0 <= i < cs@.len() ==> cuts_at((#[trigger] cs@[i])@.id, 20),
            sel == opt_str(selected),
            out@ == start + checkpoints_html(cs@.take(i as int), sel, now_secs),
        decreases cs@.len() - i,
    {
        let ghost before = checkpoints_html(cs@.take(i as int), sel, now_secs);
        let ghost one = checkpoint_html(cs@[i as int]@, sel, now_secs);
        out.append(render_checkpoint(&cs[i], selected, now_secs).as_str());
        assert(cs@.take(i + 1).drop_last() == cs@.take(i as int));
        assert(start + before + one =~= start + (before + one));
        i += 1;
    }
    assert(cs@.take(i as int) == cs@);
    out.append("</ul></aside>");
    out
}

/// Differences as HTML.
pub open spec fn diffs_html(ds: Seq<FileDiff>) -> Seq<char>
    decreases ds.len(),
{
    if ds.len() == 0 {
        Seq::empty()
    } else {
        diffs_html(ds.drop_last()) + diff_html(ds.last()@)
    }
}

/// The main part of the page; `agent` is what the coding agent is called.
pub open spec fn main_html(
    cs: Seq<CheckpointInfo>,
    ds: Option<Seq<FileDiff>>,
    agent: Seq<char>,
) -> Seq<char> {
    match ds {
        Some(ds) => if ds.len() == 0 {
            "<main><p class=\"empty\">(no changes in this checkpoint)</p></main>"@
        } else {
            "<main><div class=\"diff-summary\">"@ + decimal(ds.len()) + " file"@ + (if ds.len()
                == 1 {
                ""@
            } else {
                "s"@
            }) + "</div>"@ + diffs_html(ds) + "</main>"@
        },
        None => if cs.len() == 0 {
            "<main><p class=\"empty\">Take your first snapshot:<br><code>gloss snap \"before-"@
                + escaped(agent) + "\"</code></p></main>"@
        } else {
            "<main><p class=\"empty\">Select a checkpoint on the left.</p></main>"@
        },
    }
}

/// The content of an optional slice.
pub open spec fn opt_slice(ds: Option<&[FileDiff]>) -> Option<Seq<FileDiff>> {
    match ds {
        Some(ds) => Some(ds@),
        None => None,
    }
}

fn render_main(cs: &[CheckpointInfo], ds: Option<&[FileDiff]>, agent: &str) -> (r: String)
    ensures
        r@ == main_html(cs@, opt_slice(ds), agent@),
{
    match ds {
        Some(ds) => {
            if ds.len() == 0 {
                return "<main><p class=\"empty\">(no changes in this checkpoint)</p></main>".to_string();
            }
            let mut out = "<main><div class=\"diff-summary\">".to_string();
            out.append(decimal_text(ds.len() as u64).as_str());
            out.append(" file");
            out.append(
                if ds.len() == 1 {
                    ""
                } else {
                    "s"
                },
            );
            out.append("</div>");
            let ghost start = out@;
            let mut i: usize = 0;
            assert(start + diffs_html(ds@.take(0)) =~= start);
            while i < ds.len()
                invariant
                    i <= ds@.len(),
                    out@ == start + diffs_html(ds@.take(i as int)),
                decreases ds@.len() - i,
            {
                let ghost before = diffs_html(ds@.take(i as int));
                out.append(render_file_diff(&ds[i]).as_str());
                assert(ds@.take(i + 1).drop_last() == ds@.take(i as int));
                assert(start + before + diff_html(ds@[i as int]@) =~= start + (before + diff_html(
                    ds@[i as int]@,
                )));
                i += 1;
            }
            assert(ds@.take(i as int) == ds@);
            out.append("</main>");
            out
        },
        None => {
            if cs.len() == 0 {
                let mut out =
                    "<main><p class=\"empty\">Take your first snapshot:<br><code>gloss snap \"before-".to_string();
                out.append(esc(agent).as_str());
                out.append("\"</code></p></main>");
                out
            } else {
                "<main><p class=\"empty\">Select a checkpoint on the left.</p></main>".to_string()
            }
        },
    }
}

/// The note at the top of the page.
pub open spec fn flash_html(flash: Option<Seq<char>>) -> Seq<char> {
    match flash {
        Some(m) => "<div class=\"flash\">"@ + escaped(m) + "</div>"@,
        None => ""@,
    }
}

/// The review page.
pub open spec fn page_html(
    workspace: Seq<char>,
    label: Option<Seq<char>>,
    cs: Seq<CheckpointInfo>,
    selected: Option<Seq<char>>,
    ds: Option<Seq<FileDiff>>,
    flash: Option<Seq<char>>,
    now_secs: u64,
    agent: Seq<char>,
) -> Seq<char> {
    head_html(workspace, label) + flash_html(flash) + "<div class=\"layout\">"@ + aside_html(
        cs,
        selected,
        now_secs,
    ) + main_html(cs, ds, agent) + "</div></body></html>"@
}

/// The review page of a workspace: its checkpoints, of which one may be selected,
/// and the differences of the selected one. An id has to be such that its first
/// twenty bytes can be shown. `agent` is what the coding agent is called.
pub fn render_page(
    workspace: &str,
    label: Option<&str>,
    checkpoints: &[CheckpointInfo],
    selected: Option<&str>,
    diffs: Option<&[FileDiff]>,
    flash: Option<&str>,
    now_secs: u64,
    agent: &str,
) -> (r: String)
    requires
        forall|i: int|
            0 <= i < checkpoints@.len() ==> cuts_at((#[trigger] checkpoints@[i])@.id, 20),
    ensures
        r@ == page_html(
            workspace@,
            opt_str(label),
            checkpoints@,
            opt_str(selected),
            opt_slice(diffs),
            opt_str(flash),
            now_secs,
            agent@,
        ),
{
    let note = match flash {
        Some(m) => {
            let mut s = "<div class=\"flash\">".to_string();
            s.append(esc(m).as_str());
            s.append("</div>");
            s
        },
        None => "".to_string(),
    };
    let mut out = render_head(workspace, label);
    out.append(note.as_str());
    out.append("<div class=\"layout\">");
    out.append(render_aside(checkpoints, selected, now_secs).as_str());
    out.append(render_main(checkpoints, diffs, agent).as_str());
    out.append("</div></body></html>");
    out
}

/// The checkpoint that the page shows: the one that was asked for, or else the
/// first.
pub fn selected_id(asked: Option<String>, checkpoints: &[CheckpointInfo]) -> (r: Option<String>)
    ensures
        opt_text(r) == (match asked {
            Some(id) => Some(id@),
            None => if checkpoints@.len() > 0 {
                Some(checkpoints@[0]@.id)
            } else {
                None
            },
        }),
{
    match asked {
        Some(id) => Some(id),
        None => {
            if checkpoints.len() > 0 {
                Some(checkpoints[0].id.clone())
            } else {
                None
            }
        },
    }
}

/// What is said of a restore on the page. The id of the commit that was set aside
/// is shortened to eight bytes.
pub open spec fn restore_note(
    restored: nat,
    removed: nat,
    stash: Option<Seq<char>>,
) -> Seq<char> {
    "restored "@ + decimal(restored) + " files, removed "@ + decimal(removed) + " files"@ + (
    match stash {
        Some(s) => " (pre-restore stashed at "@ + leading_text(s, 8) + ")"@,
        None => ""@,
    })
}

/// Where the browser is sent after a restore to the checkpoint `id`.
pub fn restore_redirect(id: &str, report: &RestoreReport) -> (r: String)
    requires
        report@.stash_commit matches Some(s) ==> cuts_at(s, 8),
    ensures
        r@ == "/?id="@ + url_encoded(encode_utf8(id@)) + "&msg="@ + url_encoded(
            encode_utf8(
                restore_note(
                    report@.restored_files.len(),
                    report@.removed_files.len(),
                    report@.stash_commit,
                ),
            ),
        ),
{
    let stash = match &report.stash_commit {
        Some(s) => {
            let mut t = " (pre-restore stashed at ".to_string();
            t.append(first_bytes(s.as_str(), 8));
            t.append(")");
            t
        },
        None => "".to_string(),
    };
    let mut msg = "restored ".to_string();
    msg.append(decimal_text(report.restored_files.len() as u64).as_str());
    msg.append(" files, removed ");
    msg.append(decimal_text(report.removed_files.len() as u64).as_str());
    msg.append(" files");
    msg.append(stash.as_str());
    let mut out = "/?id=".to_string();
    out.append(urlencode(id).as_str());
    out.append("&msg=");
    out.append(urlencode(msg.as_str()).as_str());
    out
}

// ---- laws ----

/// The characters that mean something in HTML.
pub open spec fn is_markup(c: char) -> bool {
    c == '<' || c == '>' || c == '"' || c == '\''
}

/// The five entities, letter by letter.
proof fn lemma_entities()
    ensures
        "&amp;"@ =~= seq!['&', 'a', 'm', 'p', ';'],
        "&lt;"@ =~= seq!['&', 'l', 't', ';'],
        "&gt;"@ =~= seq!['&', 'g', 't', ';'],
        "&quot;"@ =~= seq!['&', 'q', 'u', 'o', 't', ';'],
        "&#39;"@ =~= seq!['&', '#', '3', '9', ';'],
{
    reveal_strlit("&amp;");
    reveal_strlit("&lt;");
    reveal_strlit("&gt;");
    reveal_strlit("&quot;");
    reveal_strlit("&#39;");
}

/// Escaped text cannot open or close a tag or an attribute: it holds none of the
/// characters that would.
pub proof fn law_escaped_text_is_inert(s: Seq<char>)
    ensures
        forall|i: int| 0 <= i < escaped(s).len() ==> !is_markup(#[trigger] escaped(s)[i]),
    decreases s.len(),
{
    if s.len() > 0 {
        law_escaped_text_is_inert(s.drop_last());
        lemma_entities();
        let front = escaped(s.drop_last());
        let tail = esc_char(s.last());
        assert forall|i: int| 0 <= i < tail.len() implies !is_markup(#[trigger] tail[i]) by {}
        assert forall|i: int| 0 <= i < escaped(s).len() implies !is_markup(
            #[trigger] escaped(s)[i],
        ) by {
            if i < front.len() {
                assert(escaped(s)[i] == front[i]);
            } else {
                assert(escaped(s)[i] == tail[i - front.len()]);
            }
        }
    }
}

/// The first character of a text is escaped first.
proof fn lemma_escaped_front(s: Seq<char>)
    requires
        s.len() > 0,
    ensures
        escaped(s) == esc_char(s[0]) + escaped(s.drop_first()),
    decreases s.len(),
{
    if s.len() == 1 {
        assert(s.drop_last() =~= Seq::<char>::empty());
        assert(s.drop_first() =~= Seq::<char>::empty());
        assert(escaped(s.drop_last()) =~= Seq::<char>::empty());
        assert(escaped(s) =~= esc_char(s[0]));
    } else {
        lemma_escaped_front(s.drop_last());
        assert(s.drop_last().drop_first() =~= s.drop_first().drop_last());
        assert(escaped(s) =~= esc_char(s[0]) + (escaped(s.drop_first().drop_last()) + esc_char(
            s.last(),
        )));
    }
}

/// Different texts are escaped differently: nothing is lost.
pub proof fn law_escaping_loses_nothing(a: Seq<char>, b: Seq<char>)
    requires
        escaped(a) == escaped(b),
    ensures
        a == b,
    decreases a.len(),
{
    lemma_entities();
    if a.len() > 0 {
        lemma_escaped_front(a);
    }
    if b.len() > 0 {
        lemma_escaped_front(b);
    }
    if a.len() == 0 || b.len() == 0 {
        if a.len() > 0 {
            assert(escaped(a).len() > 0);
        }
        if b.len() > 0 {
            assert(escaped(b).len() > 0);
        }
        assert(a =~= b);
    } else {
        let x = esc_char(a[0]);
        let y = esc_char(b[0]);
        let e = escaped(a);
        assert(x[0] == e[0] && y[0] == e[0]);
        if x.len() > 1 && y.len() > 1 {
            assert(x[1] == e[1] && y[1] == e[1]);
        }
        assert(a[0] == b[0]);
        assert(e.skip(x.len() as int) =~= escaped(a.drop_first()));
        assert(e.skip(x.len() as int) =~= escaped(b.drop_first()));
        law_escaping_loses_nothing(a.drop_first(), b.drop_first());
        assert(a =~= seq![a[0]] + a.drop_first());
        assert(b =~= seq![b[0]] + b.drop_first());
    }
}

/// The value of a hexadecimal digit.
pub open spec fn hex_value(c: char) -> int {
    if c as int >= 65 {
        c as int - 55
    } else {
        c as int - 48
    }
}

/// The bytes that the text of a URL stands for.
pub open spec fn url_decoded(s: Seq<char>) -> Seq<u8>
    decreases s.len(),
{
    if s.len() == 0 {
        Seq::empty()
    } else if s[0] == '%' && s.len() >= 3 {
        seq![(hex_value(s[1]) * 16 + hex_value(s[2])) as u8] + url_decoded(s.skip(3))
    } else {
        seq![s[0] as u8] + url_decoded(s.drop_first())
    }
}

proof fn lemma_url_front(b: Seq<u8>)
    requires
        b.len() > 0,
    ensures
        url_encoded(b) == url_byte(b[0]) + url_encoded(b.drop_first()),
    decreases b.len(),
{
    if b.len() == 1 {
        assert(b.drop_last() =~= Seq::<u8>::empty());
        assert(b.drop_first() =~= Seq::<u8>::empty());
        assert(url_encoded(b.drop_last()) =~= Seq::<char>::empty());
        assert(url_encoded(b) =~= url_byte(b[0]));
    } else {
        lemma_url_front(b.drop_last());
        assert(b.drop_last().drop_first() =~= b.drop_first().drop_last());
        assert(url_encoded(b) =~= url_byte(b[0]) + (url_encoded(b.drop_first().drop_last())
            + url_byte(b.last())));
    }
}

/// What is written into a URL comes out of it again, byte by byte.
pub proof fn law_url_encoding_comes_back(b: Seq<u8>)
    ensures
        url_decoded(url_encoded(b)) == b,
    decreases b.len(),
{
    if b.len() > 0 {
        lemma_url_front(b);
        law_url_encoding_comes_back(b.drop_first());
        let e = url_encoded(b);
        let rest = url_encoded(b.drop_first());
        let x = b[0];
        if is_unreserved(x) {
            assert(e.drop_first() =~= rest);
            assert(e[0] == x as char);
        } else {
            assert(e.skip(3) =~= rest);
            let hi = x as int / 16;
            let lo = x as int % 16;
            assert(hex_value(hex_digit_upper(hi)) == hi);
            assert(hex_value(hex_digit_upper(lo)) == lo);
            assert(hi * 16 + lo == x);
        }
        assert(b =~= seq![x] + b.drop_first());
    } else {
        assert(b =~= Seq::<u8>::empty());
    }
}

/// The text of a URL is made of unreserved characters and percent signs alone:
/// it holds nothing that separates the parts of a URL.
pub proof fn law_url_text_is_plain(b: Seq<u8>)
    ensures
        forall|i: int|
            0 <= i < url_encoded(b).len() ==> (#[trigger] url_encoded(b)[i]) as int <= 255 && (
            url_encoded(b)[i] == '%' || is_unreserved(url_encoded(b)[i] as u8)),
    decreases b.len(),
{
    if b.len() > 0 {
        law_url_text_is_plain(b.drop_last());
        let front = url_encoded(b.drop_last());
        let tail = url_byte(b.last());
        assert forall|i: int| 0 <= i < url_encoded(b).len() implies (
        #[trigger] url_encoded(b)[i]) as int <= 255 && (url_encoded(b)[i] == '%' || is_unreserved(
            url_encoded(b)[i] as u8,
        )) by {
            if i < front.len() {
                assert(url_encoded(b)[i] == front[i]);
            } else {
                assert(url_encoded(b)[i] == tail[i - front.len()]);
            }
        }
    }
}

/// The ports that are tried are at the preferred port or above it, never
/// decreasing, and the preferred one is tried first.
pub proof fn law_ports_are_tried_upwards(preferred: u16, i: int, j: int)
    requires
        0 <= i <= j < PORT_TRIES,
    ensures
        candidate_of(preferred, 0) == preferred,
        preferred <= candidate_of(preferred, i) <= candidate_of(preferred, j),
        preferred + j <= 65535 ==> candidate_of(preferred, j) == preferred + j,
        preferred + j > 65535 ==> candidate_of(preferred, j) == 65535,
        PORT_TRIES == 20,
{
}

/// The HTML of differences, one behind the other: nothing for none, for a list and one
/// more that of the list and that of the one, and for two lists that of both.
pub proof fn law_differences_follow(ds: Seq<FileDiff>, d: FileDiff, more: Seq<FileDiff>)
    ensures
        diffs_html(Seq::empty()) == Seq::<char>::empty(),
        diffs_html(ds.push(d)) == diffs_html(ds) + diff_html(d@),
        diffs_html(ds + more) == diffs_html(ds) + diffs_html(more),
    decreases more.len(),
{
    assert(ds.push(d).drop_last() =~= ds);
    if more.len() == 0 {
        assert(ds + more =~= ds);
        assert(diffs_html(ds) + Seq::<char>::empty() =~= diffs_html(ds));
    } else {
        law_differences_follow(ds, d, more.drop_last());
        assert((ds + more).drop_last() =~= ds + more.drop_last());
        let a = diffs_html(ds);
        let b = diffs_html(more.drop_last());
        let c = diff_html(more.last()@);
        assert(a + b + c =~= a + (b + c));
    }
}

/// The HTML of each difference, in order.
pub open spec fn each_diff(ds: Seq<FileDiff>) -> Seq<Seq<char>> {
    Seq::new(ds.len(), |i: int| diff_html(ds[i]@))
}

proof fn lemma_diffs_shown(ds: Seq<FileDiff>)
    ensures
        shows(diffs_html(ds), each_diff(ds)),
    decreases ds.len(),
{
    if ds.len() == 0 {
        assert(each_diff(ds) =~= Seq::<Seq<char>>::empty());
        lemma_shows_nothing(diffs_html(ds));
    } else {
        let front = ds.drop_last();
        lemma_diffs_shown(front);
        lemma_shows_next(diffs_html(front), diff_html(ds.last()@), each_diff(front));
        assert(each_diff(ds) =~= each_diff(front).push(diff_html(ds.last()@)));
    }
}

/// Every difference stands in the main part of the page, and in the page, in the order in
/// which they are given; before them it says how many there are.
pub proof fn law_every_difference_is_on_the_page(
    workspace: Seq<char>,
    label: Option<Seq<char>>,
    cs: Seq<CheckpointInfo>,
    selected: Option<Seq<char>>,
    ds: Seq<FileDiff>,
    flash: Option<Seq<char>>,
    now_secs: u64,
    agent: Seq<char>,
)
    ensures
        shows(main_html(cs, Some(ds), agent), Seq::new(ds.len(), |i: int| diff_html(ds[i]@))),
        shows(
            page_html(workspace, label, cs, selected, Some(ds), flash, now_secs, agent),
            Seq::new(ds.len(), |i: int| diff_html(ds[i]@)),
        ),
        ds.len() > 0 ==> shows(main_html(cs, Some(ds), agent), seq![decimal(ds.len())] + each_diff(ds)),
        ds.len() == 0 ==> main_html(cs, Some(ds), agent)
            == "<main><p class=\"empty\">(no changes in this checkpoint)</p></main>"@,
{
    let all = Seq::new(ds.len(), |i: int| diff_html(ds[i]@));
    let main = main_html(cs, Some(ds), agent);
    assert(all =~= each_diff(ds));
    if ds.len() == 0 {
        assert(all =~= Seq::<Seq<char>>::empty());
        lemma_shows_nothing(main);
    } else {
        let end = if ds.len() == 1 {
            ""@
        } else {
            "s"@
        };
        let start = "<main><div class=\"diff-summary\">"@;
        let front = start + decimal(ds.len()) + " file"@ + end + "</div>"@;
        let none = Seq::<Seq<char>>::empty();
        let one = none.push(decimal(ds.len()));
        lemma_shows_nothing(start);
        lemma_shows_next(start, decimal(ds.len()), none);
        lemma_shows_still(start + decimal(ds.len()), " file"@, one);
        lemma_shows_still(start + decimal(ds.len()) + " file"@, end, one);
        lemma_shows_still(start + decimal(ds.len()) + " file"@ + end, "</div>"@, one);
        lemma_diffs_shown(ds);
        lemma_shows_behind(front, diffs_html(ds), all);
        lemma_shows_still(front + diffs_html(ds), "</main>"@, all);
        lemma_shows_both(front, diffs_html(ds), one, all);
        lemma_shows_still(front + diffs_html(ds), "</main>"@, one + all);
        assert(seq![decimal(ds.len())] =~= one);
    }
    let before = head_html(workspace, label) + flash_html(flash) + "<div class=\"layout\">"@
        + aside_html(cs, selected, now_secs);
    lemma_shows_behind(before, main, all);
    lemma_shows_still(before + main, "</div></body></html>"@, all);
}

/// The lines of a patch stand in its HTML, each one escaped and in order.
pub proof fn law_every_line_is_shown(ls: Seq<Seq<char>>, line: Seq<char>)
    ensures
        lines_html(Seq::empty()) == Seq::<char>::empty(),
        lines_html(ls.push(line)) == lines_html(ls) + line_html(line),
        shows(lines_html(ls), Seq::new(ls.len(), |i: int| escaped(ls[i]))),
        shows(line_html(line), seq![line_class(line), escaped(line)]),
    decreases ls.len(),
{
    assert(ls.push(line).drop_last() =~= ls);
    let a = "<span class=\""@;
    let none = Seq::<Seq<char>>::empty();
    let one = none.push(line_class(line));
    lemma_shows_nothing(a);
    lemma_shows_next(a, line_class(line), none);
    lemma_shows_still(a + line_class(line), "\">"@, one);
    lemma_shows_next(a + line_class(line) + "\">"@, escaped(line), one);
    let two = one.push(escaped(line));
    lemma_shows_still(a + line_class(line) + "\">"@ + escaped(line), "</span>\n"@, two);
    assert(seq![line_class(line), escaped(line)] =~= two);
    let all = Seq::new(ls.len(), |i: int| escaped(ls[i]));
    if ls.len() == 0 {
        assert(all =~= none);
        lemma_shows_nothing(lines_html(ls));
    } else {
        let front = ls.drop_last();
        let last = ls.last();
        law_every_line_is_shown(front, last);
        let pieces = Seq::new(front.len(), |i: int| escaped(front[i]));
        let b = lines_html(front) + a + line_class(last) + "\">"@;
        lemma_shows_still(lines_html(front), a, pieces);
        lemma_shows_still(lines_html(front) + a, line_class(last), pieces);
        lemma_shows_still(lines_html(front) + a + line_class(last), "\">"@, pieces);
        lemma_shows_next(b, escaped(last), pieces);
        lemma_shows_still(b + escaped(last), "</span>\n"@, pieces.push(escaped(last)));
        assert(b + escaped(last) + "</span>\n"@ =~= lines_html(front) + line_html(last));
        assert(all =~= pieces.push(escaped(last)));
    }
}

/// The HTML of a difference holds what happened to the file, its path, its counts, a note
/// where the patch was cut, and the lines of the patch, in this order.
pub proof fn law_difference_is_shown(d: DiffView)
    ensures
        ({
            let heading = seq![
                status_word(d.status),
                status_word(d.status),
                escaped(d.path),
                "</span> <span class=\"stats\"><span class=\"add\">+"@,
                decimal(d.additions as nat),
                "</span> <span class=\"del\">-"@,
                decimal(d.deletions as nat),
            ];
            let cut = if d.truncated {
                heading.push(" <span class=\"trunc\">(truncated)</span>"@)
            } else {
                heading
            };
            let lines = lines_of(d.patch);
            shows(
                diff_html(d),
                if d.patch.len() == 0 {
                    cut.push(
                        "<div class=\"nodiff\">(no textual diff: binary, rename-only, or empty)</div>"@,
                    )
                } else {
                    cut + Seq::new(lines.len(), |i: int| escaped(lines[i]))
                },
            )
        }),
{
    let t_0 = Seq::<char>::empty();
    let p_0 = Seq::<Seq<char>>::empty();
    lemma_shows_nothing(t_0);
    lemma_shows_still(t_0, "<details open class=\"file\"><summary><span class=\"status "@, p_0);
    let p_1 = p_0;
    assert(t_0 + "<details open class=\"file\"><summary><span class=\"status "@ =~= "<details open class=\"file\"><summary><span class=\"status "@);
    let t_1 = "<details open class=\"file\"><summary><span class=\"status "@;
    lemma_shows_next(t_1, status_word(d.status), p_1);
    let p_2 = p_1.push(status_word(d.status));
    let t_2 = t_1 + status_word(d.status);
    lemma_shows_still(t_2, "\">"@, p_2);
    let p_3 = p_2;
    let t_3 = t_2 + "\">"@;
    lemma_shows_next(t_3, status_word(d.status), p_3);
    let p_4 = p_3.push(status_word(d.status));
    let t_4 = t_3 + status_word(d.status);
    lemma_shows_still(t_4, "</span> <span class=\"path\">"@, p_4);
    let p_5 = p_4;
    let t_5 = t_4 + "</span> <span class=\"path\">"@;
    lemma_shows_next(t_5, escaped(d.path), p_5);
    let p_6 = p_5.push(escaped(d.path));
    let t_6 = t_5 + escaped(d.path);
    lemma_shows_next(t_6, "</span> <span class=\"stats\"><span class=\"add\">+"@, p_6);
    let p_7 = p_6.push("</span> <span class=\"stats\"><span class=\"add\">+"@);
    let t_7 = t_6 + "</span> <span class=\"stats\"><span class=\"add\">+"@;
    lemma_shows_next(t_7, decimal(d.additions as nat), p_7);
    let p_8 = p_7.push(decimal(d.additions as nat));
    let t_8 = t_7 + decimal(d.additions as nat);
    lemma_shows_next(t_8, "</span> <span class=\"del\">-"@, p_8);
    let p_9 = p_8.push("</span> <span class=\"del\">-"@);
    let t_9 = t_8 + "</span> <span class=\"del\">-"@;
    lemma_shows_next(t_9, decimal(d.deletions as nat), p_9);
    let p_10 = p_9.push(decimal(d.deletions as nat));
    let t_10 = t_9 + decimal(d.deletions as nat);
    lemma_shows_still(t_10, "</span></span>"@, p_10);
    let p_11 = p_10;
    let t_11 = t_10 + "</span></span>"@;
    let heading = seq![
        status_word(d.status),
        status_word(d.status),
        escaped(d.path),
        "</span> <span class=\"stats\"><span class=\"add\">+"@,
        decimal(d.additions as nat),
        "</span> <span class=\"del\">-"@,
        decimal(d.deletions as nat),
    ];
    assert(heading =~= p_11);
    let mark = if d.truncated {
        " <span class=\"trunc\">(truncated)</span>"@
    } else {
        ""@
    };
    let cut = if d.truncated {
        p_11.push(mark)
    } else {
        p_11
    };
    lemma_shows_next(t_11, mark, p_11);
    lemma_shows_still(t_11, mark, p_11);
    lemma_shows_still(t_11 + mark, "</summary>"@, cut);
    let top = summary_html(d);
    assert(top == t_11 + mark + "</summary>"@);
    if d.patch.len() == 0 {
        let no = "<div class=\"nodiff\">(no textual diff: binary, rename-only, or empty)</div>"@;
        lemma_shows_next(top, no, cut);
        lemma_shows_still(top + no, "</details>"@, cut.push(no));
    } else {
        let lines = lines_of(d.patch);
        let shown = Seq::new(lines.len(), |i: int| escaped(lines[i]));
        law_every_line_is_shown(lines, Seq::empty());
        let pre = "<pre class=\"patch\">"@;
        lemma_shows_behind(pre, lines_html(lines), shown);
        lemma_shows_still(pre + lines_html(lines), "</pre>"@, shown);
        lemma_shows_both(top, patch_html(d.patch), cut, shown);
        lemma_shows_still(top + patch_html(d.patch), "</details>"@, cut + shown);
    }
}

/// The class of a line of a patch goes by how it begins: three plus or minus signs make a
/// heading, two at signs a hunk, any other plus sign an added line and any other minus
/// sign a deleted one. The lines that git puts before a patch are headings too, and what
/// begins otherwise is context.
pub proof fn law_line_classes(rest: Seq<char>)
    ensures
        line_class("+++"@ + rest) == "header"@,
        line_class("---"@ + rest) == "header"@,
        line_class("@@"@ + rest) == "hunk"@,
        !has_prefix(rest, "++"@) ==> line_class("+"@ + rest) == "add"@,
        !has_prefix(rest, "--"@) ==> line_class("-"@ + rest) == "del"@,
        line_class("diff "@ + rest) == "header"@,
        line_class("index "@ + rest) == "header"@,
        line_class("new file"@ + rest) == "header"@,
        line_class("deleted file"@ + rest) == "header"@,
        line_class(" "@ + rest) == "ctx"@,
        rest.len() == 0 || !seq!['+', '-', '@', 'd', 'i', 'n'].contains(rest[0]) ==> line_class(rest)
            == "ctx"@,
{
    reveal_strlit("+++");
    reveal_strlit("---");
    reveal_strlit("@@");
    reveal_strlit("+");
    reveal_strlit("-");
    reveal_strlit("++");
    reveal_strlit("--");
    reveal_strlit("diff ");
    reveal_strlit("index ");
    reveal_strlit("new file");
    reveal_strlit("deleted file");
    reveal_strlit(" ");
    law_prefix(rest, "+++"@);
    law_prefix(rest, "---"@);
    law_prefix(rest, "@@"@);
    law_prefix(rest, "+"@);
    law_prefix(rest, "-"@);
    law_prefix(rest, "diff "@);
    law_prefix(rest, "index "@);
    law_prefix(rest, "new file"@);
    law_prefix(rest, "deleted file"@);
    lemma_begins(rest);
    lemma_begins("@@"@ + rest);
    lemma_begins("+"@ + rest);
    lemma_begins("-"@ + rest);
    lemma_begins("diff "@ + rest);
    lemma_begins("index "@ + rest);
    lemma_begins("new file"@ + rest);
    lemma_begins("deleted file"@ + rest);
    lemma_begins(" "@ + rest);
    let marks = seq!['+', '-', '@', 'd', 'i', 'n'];
    assert(marks[0] == '+' && marks[1] == '-' && marks[2] == '@' && marks[3] == 'd' && marks[4]
        == 'i' && marks[5] == 'n');
    assert(marks.contains(marks[0]) && marks.contains(marks[1]) && marks.contains(marks[2])
        && marks.contains(marks[3]) && marks.contains(marks[4]) && marks.contains(marks[5]));
    if has_prefix("+"@ + rest, "+++"@) {
        let s = "+"@ + rest;
        assert(s.take(3)[1] == '+' && s.take(3)[2] == '+');
        assert(rest.take(2) =~= "++"@);
    }
    if has_prefix("-"@ + rest, "---"@) {
        let s = "-"@ + rest;
        assert(s.take(3)[1] == '-' && s.take(3)[2] == '-');
        assert(rest.take(2) =~= "--"@);
    }
}

/// A text that begins with one of the marks of a patch has their first character.
pub proof fn lemma_begins(s: Seq<char>)
    ensures
        has_prefix(s, "+++"@) || has_prefix(s, "+"@) ==> s.len() > 0 && s[0] == '+',
        has_prefix(s, "---"@) || has_prefix(s, "-"@) ==> s.len() > 0 && s[0] == '-',
        has_prefix(s, "@@"@) ==> s.len() > 0 && s[0] == '@',
        has_prefix(s, "diff "@) || has_prefix(s, "deleted file"@) ==> s.len() > 0 && s[0] == 'd',
        has_prefix(s, "index "@) ==> s.len() > 0 && s[0] == 'i',
        has_prefix(s, "new file"@) ==> s.len() > 0 && s[0] == 'n',
{
    reveal_strlit("+++");
    reveal_strlit("---");
    reveal_strlit("@@");
    reveal_strlit("+");
    reveal_strlit("-");
    reveal_strlit("diff ");
    reveal_strlit("index ");
    reveal_strlit("new file");
    reveal_strlit("deleted file");
    assert("+++"@[0] == '+' && "+"@[0] == '+' && "---"@[0] == '-' && "-"@[0] == '-' && "@@"@[0]
        == '@' && "diff "@[0] == 'd' && "deleted file"@[0] == 'd' && "index "@[0] == 'i'
        && "new file"@[0] == 'n');
    if s.len() > 0 {
        assert(forall|k: int| 0 < k <= s.len() ==> (#[trigger] s.take(k))[0] == s[0]);
    }
}

/// A checkpoint in the list shows its id, its label, its age and its counts, and leads to
/// its page and to its restore; the one that is selected, and no other, is marked.
pub proof fn law_checkpoint_is_shown(c: InfoView, selected: Option<Seq<char>>, now_secs: u64)
    ensures
        ({
            let class = if selected == Some(c.id) {
                "cp active"@
            } else {
                "cp"@
            };
            let label = if c.label is Some {
                c.label.unwrap()
            } else {
                "(auto)"@
            };
            shows(
                checkpoint_html(c, selected, now_secs),
                seq![
                    "<li class=\""@,
                    class,
                    "\"><a href=\"/?id="@,
                    escaped(c.id),
                    "\"><div class=\"cp-label\">"@,
                    escaped(label),
                    "</div><div class=\"cp-meta\">"@,
                    escaped(age_of(c.created_at_ms, now_secs)),
                    decimal(c.files_changed as nat),
                    " files · <span class=\"add\">+"@,
                    decimal(c.insertions as nat),
                    "</span> <span class=\"del\">-"@,
                    decimal(c.deletions as nat),
                    escaped(leading_text(c.id, 20)),
                    "</div></a><form method=\"POST\" action=\"/restore/"@,
                    escaped(c.id)
                ],
            )
        }),
{
    let class = if selected == Some(c.id) {
        "cp active"@
    } else {
        "cp"@
    };
    let label = if c.label is Some {
        c.label.unwrap()
    } else {
        "(auto)"@
    };
    let t_0 = Seq::<char>::empty();
    let p_0 = Seq::<Seq<char>>::empty();
    lemma_shows_nothing(t_0);
    lemma_shows_next(t_0, "<li class=\""@, p_0);
    let p_1 = p_0.push("<li class=\""@);
    assert(t_0 + "<li class=\""@ =~= "<li class=\""@);
    let t_1 = "<li class=\""@;
    lemma_shows_next(t_1, class, p_1);
    let p_2 = p_1.push(class);
    let t_2 = t_1 + class;
    lemma_shows_next(t_2, "\"><a href=\"/?id="@, p_2);
    let p_3 = p_2.push("\"><a href=\"/?id="@);
    let t_3 = t_2 + "\"><a href=\"/?id="@;
    lemma_shows_next(t_3, escaped(c.id), p_3);
    let p_4 = p_3.push(escaped(c.id));
    let t_4 = t_3 + escaped(c.id);
    lemma_shows_next(t_4, "\"><div class=\"cp-label\">"@, p_4);
    let p_5 = p_4.push("\"><div class=\"cp-label\">"@);
    let t_5 = t_4 + "\"><div class=\"cp-label\">"@;
    lemma_shows_next(t_5, escaped(label), p_5);
    let p_6 = p_5.push(escaped(label));
    let t_6 = t_5 + escaped(label);
    lemma_shows_next(t_6, "</div><div class=\"cp-meta\">"@, p_6);
    let p_7 = p_6.push("</div><div class=\"cp-meta\">"@);
    let t_7 = t_6 + "</div><div class=\"cp-meta\">"@;
    lemma_shows_next(t_7, escaped(age_of(c.created_at_ms, now_secs)), p_7);
    let p_8 = p_7.push(escaped(age_of(c.created_at_ms, now_secs)));
    let t_8 = t_7 + escaped(age_of(c.created_at_ms, now_secs));
    lemma_shows_still(t_8, " · "@, p_8);
    let p_9 = p_8;
    let t_9 = t_8 + " · "@;
    lemma_shows_next(t_9, decimal(c.files_changed as nat), p_9);
    let p_10 = p_9.push(decimal(c.files_changed as nat));
    let t_10 = t_9 + decimal(c.files_changed as nat);
    lemma_shows_next(t_10, " files · <span class=\"add\">+"@, p_10);
    let p_11 = p_10.push(" files · <span class=\"add\">+"@);
    let t_11 = t_10 + " files · <span class=\"add\">+"@;
    lemma_shows_next(t_11, decimal(c.insertions as nat), p_11);
    let p_12 = p_11.push(decimal(c.insertions as nat));
    let t_12 = t_11 + decimal(c.insertions as nat);
    lemma_shows_next(t_12, "</span> <span class=\"del\">-"@, p_12);
    let p_13 = p_12.push("</span> <span class=\"del\">-"@);
    let t_13 = t_12 + "</span> <span class=\"del\">-"@;
    lemma_shows_next(t_13, decimal(c.deletions as nat), p_13);
    let p_14 = p_13.push(decimal(c.deletions as nat));
    let t_14 = t_13 + decimal(c.deletions as nat);
    lemma_shows_still(t_14, "</span></div><div class=\"cp-id\">"@, p_14);
    let p_15 = p_14;
    let t_15 = t_14 + "</span></div><div class=\"cp-id\">"@;
    lemma_shows_next(t_15, escaped(leading_text(c.id, 20)), p_15);
    let p_16 = p_15.push(escaped(leading_text(c.id, 20)));
    let t_16 = t_15 + escaped(leading_text(c.id, 20));
    lemma_shows_next(t_16, "</div></a><form method=\"POST\" action=\"/restore/"@, p_16);
    let p_17 = p_16.push("</div></a><form method=\"POST\" action=\"/restore/"@);
    let t_17 = t_16 + "</div></a><form method=\"POST\" action=\"/restore/"@;
    lemma_shows_next(t_17, escaped(c.id), p_17);
    let p_18 = p_17.push(escaped(c.id));
    let t_18 = t_17 + escaped(c.id);
    lemma_shows_still(t_18, "\" onsubmit=\"return confirm('Restore workspace to this checkpoint? Current state will be auto-stashed.')\"><button class=\"restore\" title=\"Restore workspace to this checkpoint\">↶ restore</button></form></li>"@, p_18);
    let p_19 = p_18;
    let t_19 = t_18 + "\" onsubmit=\"return confirm('Restore workspace to this checkpoint? Current state will be auto-stashed.')\"><button class=\"restore\" title=\"Restore workspace to this checkpoint\">↶ restore</button></form></li>"@;
    assert(seq![
        "<li class=\""@,
        class,
        "\"><a href=\"/?id="@,
        escaped(c.id),
        "\"><div class=\"cp-label\">"@,
        escaped(label),
        "</div><div class=\"cp-meta\">"@,
        escaped(age_of(c.created_at_ms, now_secs)),
        decimal(c.files_changed as nat),
        " files · <span class=\"add\">+"@,
        decimal(c.insertions as nat),
        "</span> <span class=\"del\">-"@,
        decimal(c.deletions as nat),
        escaped(leading_text(c.id, 20)),
        "</div></a><form method=\"POST\" action=\"/restore/"@,
        escaped(c.id)
    ] =~= p_19);
}

/// The side of the page has every checkpoint, in the order in which they are given.
pub proof fn law_every_checkpoint_is_on_the_page(
    cs: Seq<CheckpointInfo>,
    c: CheckpointInfo,
    selected: Option<Seq<char>>,
    now_secs: u64,
)
    ensures
        checkpoints_html(cs.push(c), selected, now_secs) == checkpoints_html(cs, selected, now_secs)
            + checkpoint_html(c@, selected, now_secs),
        shows(
            aside_html(cs, selected, now_secs),
            Seq::new(cs.len(), |i: int| checkpoint_html(cs[i]@, selected, now_secs)),
        ),
{
    assert(cs.push(c).drop_last() =~= cs);
    let all = Seq::new(cs.len(), |i: int| checkpoint_html(cs[i]@, selected, now_secs));
    if cs.len() == 0 {
        assert(all =~= Seq::<Seq<char>>::empty());
        lemma_shows_nothing(aside_html(cs, selected, now_secs));
    } else {
        lemma_checkpoints_shown(cs, selected, now_secs);
        let start = "<aside><h2>checkpoints</h2><ul class=\"cps\">"@;
        lemma_shows_behind(start, checkpoints_html(cs, selected, now_secs), all);
        lemma_shows_still(
            start + checkpoints_html(cs, selected, now_secs),
            "</ul></aside>"@,
            all,
        );
    }
}

proof fn lemma_checkpoints_shown(
    cs: Seq<CheckpointInfo>,
    selected: Option<Seq<char>>,
    now_secs: u64,
)
    ensures
        shows(
            checkpoints_html(cs, selected, now_secs),
            Seq::new(cs.len(), |i: int| checkpoint_html(cs[i]@, selected, now_secs)),
        ),
    decreases cs.len(),
{
    let all = Seq::new(cs.len(), |i: int| checkpoint_html(cs[i]@, selected, now_secs));
    if cs.len() == 0 {
        assert(all =~= Seq::<Seq<char>>::empty());
        lemma_shows_nothing(checkpoints_html(cs, selected, now_secs));
    } else {
        let front = cs.drop_last();
        let pieces = Seq::new(front.len(), |i: int| checkpoint_html(front[i]@, selected, now_secs));
        let one = checkpoint_html(cs.last()@, selected, now_secs);
        lemma_checkpoints_shown(front, selected, now_secs);
        lemma_shows_next(checkpoints_html(front, selected, now_secs), one, pieces);
        assert(all =~= pieces.push(one));
    }
}

/// The page is its head, the note, the side and the main part, in this order; the head has
/// the label in its title and as a badge, and the path of the workspace.
pub proof fn law_page_has_its_parts(
    workspace: Seq<char>,
    label: Option<Seq<char>>,
    cs: Seq<CheckpointInfo>,
    selected: Option<Seq<char>>,
    ds: Option<Seq<FileDiff>>,
    flash: Option<Seq<char>>,
    now_secs: u64,
    agent: Seq<char>,
)
    ensures
        shows(
            page_html(workspace, label, cs, selected, ds, flash, now_secs, agent),
            seq![
                head_html(workspace, label),
                flash_html(flash),
                "<div class=\"layout\">"@,
                aside_html(cs, selected, now_secs),
                main_html(cs, ds, agent),
                "</div></body></html>"@,
            ],
        ),
        flash matches Some(m) ==> has_substring(flash_html(flash), escaped(m)),
        flash is None ==> flash_html(flash).len() == 0,
{
    let t_0 = Seq::<char>::empty();
    let p_0 = Seq::<Seq<char>>::empty();
    lemma_shows_nothing(t_0);
    lemma_shows_next(t_0, head_html(workspace, label), p_0);
    let p_1 = p_0.push(head_html(workspace, label));
    assert(t_0 + head_html(workspace, label) =~= head_html(workspace, label));
    let t_1 = head_html(workspace, label);
    lemma_shows_next(t_1, flash_html(flash), p_1);
    let p_2 = p_1.push(flash_html(flash));
    let t_2 = t_1 + flash_html(flash);
    lemma_shows_next(t_2, "<div class=\"layout\">"@, p_2);
    let p_3 = p_2.push("<div class=\"layout\">"@);
    let t_3 = t_2 + "<div class=\"layout\">"@;
    lemma_shows_next(t_3, aside_html(cs, selected, now_secs), p_3);
    let p_4 = p_3.push(aside_html(cs, selected, now_secs));
    let t_4 = t_3 + aside_html(cs, selected, now_secs);
    lemma_shows_next(t_4, main_html(cs, ds, agent), p_4);
    let p_5 = p_4.push(main_html(cs, ds, agent));
    let t_5 = t_4 + main_html(cs, ds, agent);
    lemma_shows_next(t_5, "</div></body></html>"@, p_5);
    let p_6 = p_5.push("</div></body></html>"@);
    let t_6 = t_5 + "</div></body></html>"@;
    assert(seq![
        head_html(workspace, label),
        flash_html(flash),
        "<div class=\"layout\">"@,
        aside_html(cs, selected, now_secs),
        main_html(cs, ds, agent),
        "</div></body></html>"@,
    ] =~= p_6);
    reveal_strlit("");
    if flash is Some {
        law_substring(flash_html(flash), escaped(flash.unwrap()));
        assert(flash_html(flash) == "<div class=\"flash\">"@ + escaped(flash.unwrap()) + "</div>"@);
    }
}

/// The head of the page names the label, where there is one, and the workspace.
pub proof fn law_head_names_the_workspace(workspace: Seq<char>, label: Option<Seq<char>>)
    ensures
        ({
            let title = if label is Some {
                label.unwrap() + " · gloss"@
            } else {
                "gloss"@
            };
            let badge = if label is Some {
                "<span class=\"badge\">"@ + escaped(label.unwrap()) + "</span>"@
            } else {
                Seq::empty()
            };
            shows(
                head_html(workspace, label),
                seq![
                    "<!doctype html><html><head><meta charset=\"utf-8\"><title>"@,
                    escaped(title),
                    "</title>"@,
                    "<style>"@,
                    CSS@,
                    "</style></head><body>"@,
                    "<header><h1>gloss</h1>"@,
                    badge,
                    "<div class=\"ws\">"@,
                    escaped(workspace),
                    "</div></header>"@,
                ],
            )
        }),
{
    let title = if label is Some {
        label.unwrap() + " · gloss"@
    } else {
        "gloss"@
    };
    let badge = if label is Some {
        "<span class=\"badge\">"@ + escaped(label.unwrap()) + "</span>"@
    } else {
        Seq::<char>::empty()
    };
    reveal_strlit("");
    assert(""@ =~= Seq::<char>::empty());
    let t_0 = Seq::<char>::empty();
    let p_0 = Seq::<Seq<char>>::empty();
    lemma_shows_nothing(t_0);
    lemma_shows_next(t_0, "<!doctype html><html><head><meta charset=\"utf-8\"><title>"@, p_0);
    let p_1 = p_0.push("<!doctype html><html><head><meta charset=\"utf-8\"><title>"@);
    assert(t_0 + "<!doctype html><html><head><meta charset=\"utf-8\"><title>"@ =~= "<!doctype html><html><head><meta charset=\"utf-8\"><title>"@);
    let t_1 = "<!doctype html><html><head><meta charset=\"utf-8\"><title>"@;
    lemma_shows_next(t_1, escaped(title), p_1);
    let p_2 = p_1.push(escaped(title));
    let t_2 = t_1 + escaped(title);
    lemma_shows_next(t_2, "</title>"@, p_2);
    let p_3 = p_2.push("</title>"@);
    let t_3 = t_2 + "</title>"@;
    lemma_shows_next(t_3, "<style>"@, p_3);
    let p_4 = p_3.push("<style>"@);
    let t_4 = t_3 + "<style>"@;
    lemma_shows_next(t_4, CSS@, p_4);
    let p_5 = p_4.push(CSS@);
    let t_5 = t_4 + CSS@;
    lemma_shows_next(t_5, "</style></head><body>"@, p_5);
    let p_6 = p_5.push("</style></head><body>"@);
    let t_6 = t_5 + "</style></head><body>"@;
    lemma_shows_next(t_6, "<header><h1>gloss</h1>"@, p_6);
    let p_7 = p_6.push("<header><h1>gloss</h1>"@);
    let t_7 = t_6 + "<header><h1>gloss</h1>"@;
    lemma_shows_next(t_7, badge, p_7);
    let p_8 = p_7.push(badge);
    let t_8 = t_7 + badge;
    lemma_shows_next(t_8, "<div class=\"ws\">"@, p_8);
    let p_9 = p_8.push("<div class=\"ws\">"@);
    let t_9 = t_8 + "<div class=\"ws\">"@;
    lemma_shows_next(t_9, escaped(workspace), p_9);
    let p_10 = p_9.push(escaped(workspace));
    let t_10 = t_9 + escaped(workspace);
    lemma_shows_next(t_10, "</div></header>"@, p_10);
    let p_11 = p_10.push("</div></header>"@);
    let t_11 = t_10 + "</div></header>"@;
    assert(seq![
        "<!doctype html><html><head><meta charset=\"utf-8\"><title>"@,
        escaped(title),
        "</title>"@,
        "<style>"@,
        CSS@,
        "</style></head><body>"@,
        "<header><h1>gloss</h1>"@,
        badge,
        "<div class=\"ws\">"@,
        escaped(workspace),
        "</div></header>"@,
    ] =~= p_11);
}

/// Escaping goes character by character: the five characters that mean something in HTML
/// become entities, and any other stays as it is.
pub proof fn law_escaping_by_character(a: Seq<char>, b: Seq<char>, c: char)
    ensures
        escaped(Seq::empty()) == Seq::<char>::empty(),
        escaped(a + b) == escaped(a) + escaped(b),
        !seq!['&', '<', '>', '"', '\''].contains(c) ==> escaped(seq![c]) == seq![c],
        escaped(seq!['&']) == "&amp;"@,
        escaped(seq!['<']) == "&lt;"@,
        escaped(seq!['>']) == "&gt;"@,
        escaped(seq!['"']) == "&quot;"@,
        escaped(seq!['\'']) == "&#39;"@,
    decreases b.len(),
{
    let marks = seq!['&', '<', '>', '"', '\''];
    assert(marks[0] == '&' && marks[1] == '<' && marks[2] == '>' && marks[3] == '"' && marks[4]
        == '\'');
    assert(marks.contains(marks[0]) && marks.contains(marks[1]) && marks.contains(marks[2])
        && marks.contains(marks[3]) && marks.contains(marks[4]));
    lemma_escaped_one(c);
    lemma_escaped_one('&');
    lemma_escaped_one('<');
    lemma_escaped_one('>');
    lemma_escaped_one('"');
    lemma_escaped_one('\'');
    if b.len() == 0 {
        assert(a + b =~= a);
        assert(escaped(a) + Seq::<char>::empty() =~= escaped(a));
    } else {
        law_escaping_by_character(a, b.drop_last(), c);
        assert((a + b).drop_last() =~= a + b.drop_last());
        let x = escaped(a);
        let y = escaped(b.drop_last());
        let z = esc_char(b.last());
        assert(x + y + z =~= x + (y + z));
    }
}

proof fn lemma_escaped_one(c: char)
    ensures
        escaped(seq![c]) == esc_char(c),
{
    let s = seq![c];
    assert(s.drop_last() =~= Seq::<char>::empty());
    assert(escaped(s.drop_last()) =~= Seq::<char>::empty());
    assert(Seq::<char>::empty() + esc_char(c) =~= esc_char(c));
}

/// Encoding for a URL goes byte by byte: letters, digits and `-_.~` stand for themselves,
/// and any other byte is a percent sign and its two digits in upper case.
pub proof fn law_url_by_byte(a: Seq<u8>, b: Seq<u8>, x: u8)
    ensures
        url_encoded(Seq::empty()) == Seq::<char>::empty(),
        url_encoded(a + b) == url_encoded(a) + url_encoded(b),
        ({
            let c = x as char;
            if ('A' <= c <= 'Z') || ('a' <= c <= 'z') || ('0' <= c <= '9') || c == '-' || c == '_'
                || c == '.' || c == '~' {
                url_encoded(seq![x]) == seq![c]
            } else {
                url_encoded(seq![x]) == seq![
                    '%',
                    "0123456789ABCDEF"@[x as int / 16],
                    "0123456789ABCDEF"@[x as int % 16],
                ]
            }
        }),
    decreases b.len(),
{
    reveal_strlit("0123456789ABCDEF");
    let s = seq![x];
    assert(s.drop_last() =~= Seq::<u8>::empty());
    assert(url_encoded(s.drop_last()) =~= Seq::<char>::empty());
    assert(Seq::<char>::empty() + url_byte(x) =~= url_byte(x));
    if b.len() == 0 {
        assert(a + b =~= a);
        assert(url_encoded(a) + Seq::<char>::empty() =~= url_encoded(a));
    } else {
        law_url_by_byte(a, b.drop_last(), x);
        assert((a + b).drop_last() =~= a + b.drop_last());
        let p = url_encoded(a);
        let q = url_encoded(b.drop_last());
        let r = url_byte(b.last());
        assert(p + q + r =~= p + (q + r));
    }
}

/// An age is given in the largest unit that fits: seconds up to a minute, minutes up to an
/// hour, hours up to a day, and days beyond; `n` whole units and a rest have passed.
pub proof fn law_ages(ms: u64, now_secs: u64, n: nat, rest: nat)
    ensures
        now_secs < ms / 1000 ==> age_of(ms, now_secs) == decimal(0) + "s ago"@,
        now_secs == ms / 1000 + n && n < 60 ==> age_of(ms, now_secs) == decimal(n) + "s ago"@,
        now_secs == ms / 1000 + 60 * n + rest && 1 <= n < 60 && rest < 60 ==> age_of(ms, now_secs)
            == decimal(n) + "m ago"@,
        now_secs == ms / 1000 + 3600 * n + rest && 1 <= n < 24 && rest < 3600 ==> age_of(
            ms,
            now_secs,
        ) == decimal(n) + "h ago"@,
        now_secs == ms / 1000 + 86400 * n + rest && 1 <= n && rest < 86400 ==> age_of(ms, now_secs)
            == decimal(n) + "d ago"@,
{
}

/// The port of a session lies in the six hundred from 7400 on, and goes by the hash of the
/// workspace, of one bit where there is a label, and of the label.
pub proof fn law_ports(workspace: Seq<char>, label: Seq<char>, more: Seq<char>)
    ensures
        port_of(workspace, None) == 7400 + fnv_from(FNV_OFFSET, encode_utf8(workspace)) % 600,
        port_of(workspace, Some(label)) == 7400 + session_hash(workspace, Some(label)) % 600,
        session_hash(workspace, Some(Seq::empty())) == session_hash(workspace, None) ^ 1,
        session_hash(workspace, Some(label + more)) == fnv_from(
            session_hash(workspace, Some(label)),
            encode_utf8(more),
        ),
        forall|port: u16| #[trigger]
            url_of(port) == "http://127.0.0.1:"@ + decimal(port as nat),
{
    lemma_encode_concat(label, more);
    law_hash_goes_on(
        session_hash(workspace, None) ^ 1,
        encode_utf8(label),
        encode_utf8(more),
    );
    assert(encode_utf8(Seq::<char>::empty()) =~= Seq::<u8>::empty());
}

/// What is said of a restore has both counts, and the first bytes of the id of what was
/// set aside, where there is something.
pub proof fn law_restore_is_noted(restored: nat, removed: nat, stash: Option<Seq<char>>)
    ensures
        ({
            let said = seq![
                "restored "@,
                decimal(restored),
                " files, removed "@,
                decimal(removed),
                " files"@,
            ];
            shows(
                restore_note(restored, removed, stash),
                if stash is Some {
                    said + seq![
                        " (pre-restore stashed at "@,
                        leading_text(stash.unwrap(), 8),
                        ")"@,
                    ]
                } else {
                    said
                },
            )
        }),
{
    let t_0 = Seq::<char>::empty();
    let p_0 = Seq::<Seq<char>>::empty();
    lemma_shows_nothing(t_0);
    lemma_shows_next(t_0, "restored "@, p_0);
    let p_1 = p_0.push("restored "@);
    assert(t_0 + "restored "@ =~= "restored "@);
    let t_1 = "restored "@;
    lemma_shows_next(t_1, decimal(restored), p_1);
    let p_2 = p_1.push(decimal(restored));
    let t_2 = t_1 + decimal(restored);
    lemma_shows_next(t_2, " files, removed "@, p_2);
    let p_3 = p_2.push(" files, removed "@);
    let t_3 = t_2 + " files, removed "@;
    lemma_shows_next(t_3, decimal(removed), p_3);
    let p_4 = p_3.push(decimal(removed));
    let t_4 = t_3 + decimal(removed);
    lemma_shows_next(t_4, " files"@, p_4);
    let p_5 = p_4.push(" files"@);
    let t_5 = t_4 + " files"@;
    let said = seq![
        "restored "@,
        decimal(restored),
        " files, removed "@,
        decimal(removed),
        " files"@,
    ];
    assert(said =~= p_5);
    match stash {
        Some(s) => {
            let lit = " (pre-restore stashed at "@;
            let id = leading_text(s, 8);
            lemma_shows_next(t_5, lit, p_5);
            lemma_shows_next(t_5 + lit, id, p_5.push(lit));
            lemma_shows_next(t_5 + lit + id, ")"@, p_5.push(lit).push(id));
            assert(said + seq![lit, id, ")"@] =~= p_5.push(lit).push(id).push(")"@));
            assert(t_5 + (lit + id + ")"@) =~= t_5 + lit + id + ")"@);
        },
        None => {
            lemma_shows_still(t_5, ""@, p_5);
        },
    }
}

/// Without a selected checkpoint the main part says what to do: to take a snapshot where
/// there is none, with the name of the agent, and otherwise to select one. Of one file it
/// speaks in the singular.
pub proof fn law_main_part_without_differences(
    cs: Seq<CheckpointInfo>,
    ds: Seq<FileDiff>,
    agent: Seq<char>,
)
    ensures
        cs.len() == 0 ==> shows(
            main_html(cs, None, agent),
            seq![
                "<main><p class=\"empty\">Take your first snapshot:<br><code>gloss snap \"before-"@,
                escaped(agent),
                "\"</code></p></main>"@,
            ],
        ),
        cs.len() > 0 ==> main_html(cs, None, agent)
            == "<main><p class=\"empty\">Select a checkpoint on the left.</p></main>"@,
        ds.len() > 0 ==> has_prefix(
            main_html(cs, Some(ds), agent),
            "<main><div class=\"diff-summary\">"@ + decimal(ds.len()) + " file"@ + (if ds.len()
                == 1 {
                "</div>"@
            } else {
                "s</div>"@
            }),
        ),
{
    if cs.len() == 0 {
        let a = "<main><p class=\"empty\">Take your first snapshot:<br><code>gloss snap \"before-"@;
        let b = "\"</code></p></main>"@;
        let e = Seq::<char>::empty();
        let none = Seq::<Seq<char>>::empty();
        lemma_shows_nothing(e);
        lemma_shows_next(e, a, none);
        assert(e + a =~= a);
        lemma_shows_next(a, escaped(agent), none.push(a));
        lemma_shows_next(a + escaped(agent), b, none.push(a).push(escaped(agent)));
        assert(seq![a, escaped(agent), b] =~= none.push(a).push(escaped(agent)).push(b));
    }
    if ds.len() > 0 {
        reveal_strlit("");
        reveal_strlit("s");
        reveal_strlit("</div>");
        reveal_strlit("s</div>");
        assert(""@ + "</div>"@ =~= "</div>"@);
        assert("s"@ + "</div>"@ =~= "s</div>"@);
        let front = "<main><div class=\"diff-summary\">"@ + decimal(ds.len()) + " file"@;
        let end = if ds.len() == 1 {
            ""@
        } else {
            "s"@
        };
        assert(front + end + "</div>"@ =~= front + (end + "</div>"@));
        let rest = diffs_html(ds) + "</main>"@;
        let whole = front + (end + "</div>"@);
        assert(main_html(cs, Some(ds), agent) =~= whole + rest);
        law_prefix(rest, whole);
    }
}

/// The differences that are handed over are those that are shown.
pub proof fn law_differences_handed_over(ds: Option<&[FileDiff]>)
    ensures
        ds matches Some(s) ==> opt_slice(ds) == Some(s@),
        ds is None ==> opt_slice(ds) is None,
{
}

} // verus!
