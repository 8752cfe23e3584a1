//! The configuration of a run.

use vstd::prelude::*;
use vstd::string::*;

verus! {

/// Whether the document passes through the external reformatter between
/// extraction and splicing.
#[derive(Debug, Clone, Copy, PartialEq, Eq)]
pub enum Reformatter {
    Enabled,
    Disabled,
}

/// What a run is told. It is handed to every function that needs it: there
/// is no ambient state.
#[derive(Debug, PartialEq, Eq)]
pub struct Config {
    /// An invocation is recognized if the invoked name starts with this.
    pub name_prefix: String,
    /// The indentation of an invocation whose line is not indented.
    pub indent_fallback: String,
    /// The spaces added before the middle column.
    pub gap_width: usize,
    /// Whether the external reformatter runs.
    pub reformatter: Reformatter,
    /// The name of the top-level declaration to which the run is confined, if any.
    pub anchor_name: Option<String>,
}

impl Default for Config {
    /// Layout invocations by their usual prefix, four spaces of indentation,
    /// no gap, the reformatter on, the whole document.
    fn default() -> (cfg: Config)
        ensures
            cfg.name_prefix@ == "LAYOUT"@,
            cfg.indent_fallback@ == "    "@,
            cfg.gap_width == 0,
            cfg.reformatter == Reformatter::Enabled,
            cfg.anchor_name is None,
    {
        Config {
            name_prefix: "LAYOUT".to_owned(),
            indent_fallback: "    ".to_owned(),
            gap_width: 0,
            reformatter: Reformatter::Enabled,
            anchor_name: None,
        }
    }
}

} // verus!
