//! The style sheet of the review pages.

use vstd::prelude::*;

verus! {

/// The style sheet of the review pages.
pub const CSS: &'static str = r#"
* { box-sizing: border-box; }
body { margin: 0; font: 14px/1.5 -apple-system, BlinkMacSystemFont, "Segoe UI", system-ui, sans-serif; color: #1f2328; background: #f6f8fa; }
header { padding: 12px 20px; background: #24292f; color: #fff; display: flex; align-items: baseline; gap: 16px; }
header h1 { margin: 0; font-size: 16px; font-weight: 600; }
header .badge { background: #2da44e; color: #fff; padding: 2px 10px; border-radius: 10px; font-size: 12px; font-weight: 600; }
header .ws { font: 12px ui-monospace, SFMono-Regular, Menlo, monospace; opacity: 0.7; }
.flash { padding: 10px 20px; background: #ddf4ff; border-bottom: 1px solid #b6e3ff; color: #0969da; }
.layout { display: grid; grid-template-columns: 320px 1fr; height: calc(100vh - 45px); }
aside { background: #fff; border-right: 1px solid #d1d9e0; overflow-y: auto; padding: 8px; }
aside h2 { margin: 8px; font-size: 11px; text-transform: uppercase; letter-spacing: 0.5px; color: #59636e; }
.cps { list-style: none; margin: 0; padding: 0; }
.cp { position: relative; }
.cp a { display: block; padding: 10px 12px; border-radius: 6px; color: inherit; text-decoration: none; border: 1px solid transparent; }
.cp a:hover { background: #f6f8fa; }
.cp.active a { background: #ddf4ff; border-color: #b6e3ff; }
.cp-label { font-weight: 600; margin-bottom: 2px; }
.cp-meta { font-size: 12px; color: #59636e; }
.cp-id { font: 10px ui-monospace, SFMono-Regular, Menlo, monospace; color: #8c959f; margin-top: 2px; }
.cp form { display: inline; }
.cp .restore { position: absolute; top: 8px; right: 8px; opacity: 0; background: #fff; border: 1px solid #d1d9e0; border-radius: 4px; padding: 3px 8px; font-size: 11px; cursor: pointer; color: #59636e; }
.cp:hover .restore { opacity: 1; }
.cp .restore:hover { background: #cf222e; color: #fff; border-color: #cf222e; }
main { overflow-y: auto; padding: 16px 24px; }
.empty { color: #59636e; padding: 24px; text-align: center; }
.empty code { background: #eaeef2; padding: 2px 6px; border-radius: 4px; font-size: 13px; }
.diff-summary { color: #59636e; margin-bottom: 12px; font-size: 13px; }
.file { background: #fff; border: 1px solid #d1d9e0; border-radius: 6px; margin-bottom: 12px; overflow: hidden; }
.file summary { padding: 10px 14px; background: #f6f8fa; border-bottom: 1px solid #d1d9e0; cursor: pointer; user-select: none; display: flex; align-items: center; gap: 10px; }
.file summary:hover { background: #eaeef2; }
.file[open] summary { border-bottom: 1px solid #d1d9e0; }
.status { font-size: 11px; padding: 2px 8px; border-radius: 10px; font-weight: 600; }
.status.added { background: #dafbe1; color: #1a7f37; }
.status.modified { background: #fff8c5; color: #9a6700; }
.status.deleted { background: #ffebe9; color: #cf222e; }
.status.renamed, .status.copied { background: #ddf4ff; color: #0969da; }
.path { font: 13px ui-monospace, SFMono-Regular, Menlo, monospace; flex: 1; }
.stats { font: 11px ui-monospace, SFMono-Regular, Menlo, monospace; }
.add { color: #1a7f37; }
.del { color: #cf222e; }
.trunc { color: #9a6700; font-size: 11px; margin-left: 6px; }
.patch { margin: 0; padding: 0; font: 12px/1.5 ui-monospace, SFMono-Regular, Menlo, monospace; overflow-x: auto; }
.patch span { display: block; padding: 0 14px; white-space: pre; }
.patch .header { color: #8c959f; background: #f6f8fa; }
.patch .hunk { color: #59636e; background: #ddf4ff; }
.patch .add { background: #e6ffec; color: #1a7f37; }
.patch .del { background: #ffebe9; color: #cf222e; }
.patch .ctx { color: #1f2328; }
.nodiff { padding: 14px; color: #59636e; font-style: italic; font-size: 13px; }
"#;

} // verus!
