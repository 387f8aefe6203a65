//! Output that is not interactive.

use vstd::prelude::*;

use crate::config::Config;
use crate::display::{compute_hidden_summary, hidden_summary_of, human_size, human_text, RenderOptions};
use crate::text::{decimal, decimal_text};
use crate::walker::{dir_total, file_total, Node};

verus! {

/// How the tree is rendered on a terminal of a given width.
pub fn plain_options(root: &Node, cfg: &Config, min_size: u64, width: u16) -> (r: RenderOptions)
    ensures
        r == (RenderOptions {
            theme: cfg.theme,
            depth: cfg.depth,
            min_size,
            sort: cfg.sort,
            sort_order: cfg.sort_order,
            show_files: cfg.show_files,
            show_modified: cfg.show_modified,
            width,
            height: 24,
            hidden_summary: hidden_summary_of(*root, cfg.view.show_hidden),
        }),
{
    RenderOptions {
        theme: cfg.theme,
        depth: cfg.depth,
        min_size,
        sort: cfg.sort,
        sort_order: cfg.sort_order,
        show_files: cfg.show_files,
        show_modified: cfg.show_modified,
        width,
        height: 24,
        hidden_summary: compute_hidden_summary(root, cfg.view.show_hidden),
    }
}

/// The last line of the output: the size, and how much was counted and left
/// out.
pub open spec fn summary_text(root: Node, skipped: nat) -> Seq<char> {
    "Total: "@ + human_text(root.size) + " ("@ + decimal_text(root.size as nat)
        + " bytes)  files: "@ + decimal_text(file_total(root)) + "  dirs: "@ + decimal_text(
        dir_total(root),
    ) + (if skipped == 0 {
        Seq::empty()
    } else {
        "  ⚠ "@ + decimal_text(skipped) + " skipped"@
    })
}

/// The last line of the output.
pub fn summary_line(root: &Node, skipped: usize) -> (r: String)
    requires
        root.countable(),
    ensures
        r@ == summary_text(*root, skipped as nat),
{
    let mut s = "Total: ".to_owned();
    s.append(&human_size(root.size));
    s.append(" (");
    s.append(&decimal(root.size));
    s.append(" bytes)  files: ");
    s.append(&decimal(root.file_count() as u64));
    s.append("  dirs: ");
    s.append(&decimal(root.dir_count() as u64));
    if skipped > 0 {
        s.append("  ⚠ ");
        s.append(&decimal(skipped as u64));
        s.append(" skipped");
    }
    assert(s@ =~= summary_text(*root, skipped as nat));
    s
}

/// A warning as it is printed.
pub fn warning_line(w: &str) -> (r: String)
    ensures
        r@ == "warning: "@ + w@,
{
    let mut s = "warning: ".to_owned();
    s.append(w);
    s
}

} // verus!
