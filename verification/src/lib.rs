//! Duplicate-file detection engine.
//!
//! The engine groups files by the MD5 digest of their byte content. The
//! caller enumerates the file system into a [`walk::FsNode`] snapshot and the
//! engine performs the depth-bounded walk, the hidden-file filtering, the
//! checksumming and the grouping over that snapshot, so that every decision
//! the scan makes is verified.

pub mod checksum;
pub mod cli;
pub mod dupels;
pub mod laws;
pub mod output;
pub mod store;
pub mod walk;

use vstd::prelude::*;
use crate::cli::{Cli, Gui};
use crate::dupels::{scan_store, DupeLs, DupeLsConfig};
use crate::output::{joined_lines, render_lines};
use crate::store::sort_entries;
use crate::walk::FsNode;

verus! {

/// Hard ceiling on the number of worker threads a scan may request.
pub const MAX_THREAD_LIMIT: usize = 32;

/// Depth of the walk when the caller gives none.
pub const DEFAULT_DEPTH: usize = 2;

/// The scan request a set of command-line arguments resolves to: giving a
/// depth implies a recursive walk; giving none leaves the flag as passed
/// and falls back to the default depth.
pub open spec fn config_of_cli(cli: Cli) -> DupeLsConfig {
    let (recursive, depth) = match cli.depth {
        Some(d) => (true, d),
        None => (cli.recursive, DEFAULT_DEPTH),
    };
    DupeLsConfig {
        base_path: cli.file,
        track_dot_files: cli.all,
        recursive,
        depth,
        seperator: cli.seperator,
        omit: cli.omit,
        max_threads: cli.max_threads,
    }
}

/// Copy an optional path.
fn clone_opt_string(o: &Option<String>) -> (r: Option<String>)
    ensures
        r == *o,
{
    match o {
        Some(p) => Some(p.clone()),
        None => None,
    }
}

impl From<&Cli> for DupeLsConfig {
    /// Resolve command-line arguments into a scan request.
    fn from(cli: &Cli) -> (c: DupeLsConfig) {
        let (recursive, depth) = match cli.depth {
            Some(depth) => (true, depth),
            None => (cli.recursive, DEFAULT_DEPTH),
        };
        let c = DupeLsConfig {
            base_path: clone_opt_string(&cli.file),
            track_dot_files: cli.all,
            recursive,
            depth,
            seperator: cli.seperator.clone(),
            omit: cli.omit,
            max_threads: cli.max_threads,
        };
        proof {
            assert(c == config_of_cli(*cli));
        }
        c
    }
}

impl vstd::std_specs::convert::FromSpecImpl<&Cli> for DupeLsConfig {
    open spec fn obeys_from_spec() -> bool {
        true
    }

    open spec fn from_spec(cli: &Cli) -> DupeLsConfig {
        config_of_cli(*cli)
    }
}

/// Resolve a graphical front end's form state into a scan request: a zero
/// depth asks for a non-recursive walk at the default depth, any other
/// depth for a recursive walk that deep; the separator is fixed and the
/// thread count is left for the engine to resolve.
pub fn config_from_gui(gui: &Gui) -> (c: DupeLsConfig)
    ensures
        c.base_path matches Some(p) && p == gui.directory,
        c.track_dot_files == gui.all,
        gui.depth == 0 ==> !c.recursive && c.depth == DEFAULT_DEPTH,
        gui.depth > 0 ==> c.recursive && c.depth == gui.depth,
        c.seperator@ == "==="@,
        c.omit == gui.omit,
        c.max_threads is None,
{
    let (recursive, depth) = if gui.depth == 0 {
        (false, DEFAULT_DEPTH)
    } else {
        (true, gui.depth)
    };
    DupeLsConfig {
        base_path: Some(gui.directory.clone()),
        track_dot_files: gui.all,
        recursive,
        depth,
        seperator: String::from_str("==="),
        omit: gui.omit,
        max_threads: None,
    }
}

/// The lines a scan requested on the command line renders from a snapshot.
pub open spec fn cli_scan_lines(cli: Cli, tree: FsNode) -> Seq<Seq<char>> {
    let c = config_of_cli(cli);
    render_lines(
        sort_entries(scan_store(tree, c.depth as nat, c.recursive, c.track_dot_files)),
        c.omit,
        c.seperator@,
    )
}

/// The lines a scan requested from the graphical front end renders from a
/// snapshot.
pub open spec fn gui_scan_lines(gui: Gui, tree: FsNode) -> Seq<Seq<char>> {
    let recursive = gui.depth > 0;
    let depth = if gui.depth == 0 {
        DEFAULT_DEPTH as nat
    } else {
        gui.depth as nat
    };
    render_lines(sort_entries(scan_store(tree, depth, recursive, gui.all)), gui.omit, "==="@)
}

/// Run one command-line scan over a snapshot of the base directory and
/// render the result as one newline-joined text. Per-path diagnostics are
/// available through [`DupeLs::parse`] instead.
pub fn run_cli(args: &Cli, tree: &FsNode) -> (out: String)
    ensures
        out@ == joined_lines(cli_scan_lines(*args, *tree)),
{
    let config = DupeLsConfig::from(args);
    let mut dupels = DupeLs::new(config);
    let _errors = dupels.parse(tree);
    dupels.get_output_string()
}

/// Run one scan for the graphical front end over a snapshot of the chosen
/// directory and render the result as lines.
pub fn run_gui(gui: &Gui, tree: &FsNode) -> (lines: Vec<String>)
    ensures
        lines.deep_view() == gui_scan_lines(*gui, *tree),
{
    let config = config_from_gui(gui);
    let mut dupels = DupeLs::new(config);
    let _errors = dupels.parse(tree);
    dupels.get_output_vec()
}

/// Run one command-line scan over a snapshot and hand back the rendered
/// lines for the caller to display.
pub fn run(args: &Cli, tree: &FsNode) -> (lines: Vec<String>)
    ensures
        lines.deep_view() == cli_scan_lines(*args, *tree),
{
    let config = DupeLsConfig::from(args);
    let mut dupels = DupeLs::new(config);
    let _errors = dupels.parse(tree);
    dupels.get_output_vec()
}

} // verus!
