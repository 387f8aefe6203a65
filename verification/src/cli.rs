//! Options of the command line.

use vstd::prelude::*;

verus! {

#[derive(Copy, Clone, Debug, PartialEq, Eq, Structural)]
pub enum SortBy {
    Size,
    Name,
}

#[derive(Copy, Clone, Debug, PartialEq, Eq, Structural)]
pub enum SortOrder {
    Asc,
    Desc,
}

impl SortOrder {
    /// The arrow shown for the direction.
    pub open spec fn arrow_text(self) -> Seq<char> {
        match self {
            SortOrder::Asc => "↑"@,
            SortOrder::Desc => "↓"@,
        }
    }

    /// The arrow shown for the direction.
    pub fn arrow(self) -> (r: &'static str)
        ensures
            r@ == self.arrow_text(),
    {
        match self {
            SortOrder::Asc => "↑",
            SortOrder::Desc => "↓",
        }
    }
}

/// How the scanned tree is shown.
#[derive(Copy, Clone, Debug, PartialEq, Eq, Structural)]
pub enum Mode {
    Tree,
    Bars,
    Treemap,
    Flat,
}

/// What the command line asked for.
pub struct Cli {
    /// Directory to analyze.
    pub path: String,
    /// Maximum tree depth to display.
    pub depth: Option<usize>,
    /// Hide entries below this many bytes.
    pub min_size: u64,
    pub sort: Option<SortBy>,
    pub mode: Option<Mode>,
    /// Glob patterns to exclude.
    pub exclude: Vec<String>,
    /// Print the tree as JSON instead of rendering it.
    pub json: bool,
    /// Disable colors.
    pub no_color: bool,
    /// Show individual files.
    pub show_files: bool,
    /// Show the last modified date next to each entry.
    pub modified: bool,
    pub verbose: bool,
}

/// Whether warnings and errors go to standard error. They always do; the flag
/// is accepted and has no effect.
pub fn should_log_stderr(verbose: bool) -> (r: bool)
    ensures
        r,
{
    let _ = verbose;
    true
}

/// Whether the interactive screens are used: on a terminal, with colors, and
/// when no JSON was asked for.
pub fn is_interactive(cli: &Cli, stdout_is_terminal: bool) -> (r: bool)
    ensures
        r == (!cli.json && stdout_is_terminal && !cli.no_color),
{
    !cli.json && stdout_is_terminal && !cli.no_color
}

/// The width to render at: that of the terminal, or eighty columns where it
/// has none.
pub fn term_width(size: Option<(u16, u16)>) -> (r: u16)
    ensures
        r == (match size {
            Some((w, _)) => w,
            None => 80u16,
        }),
{
    match size {
        Some((w, _)) => w,
        None => 80,
    }
}

} // verus!
