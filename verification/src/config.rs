//! Optional user configuration: switches for the ambient segments.
//!
//! Only the opinionated ambient segments are configurable; the core lines
//! render for everyone. A missing or invalid file means the defaults.

use vstd::prelude::*;

verus! {

/// Which ambient segments render.
#[derive(Debug, Clone, Copy, PartialEq, Eq, Structural)]
pub struct Config {
    /// Line 4: loaded MCP server and skill counts for this session.
    pub inventory: bool,
    /// Line 4: count of active sessions on this machine.
    pub sessions: bool,
}

impl Default for Config {
    /// Everything on.
    fn default() -> (r: Self)
        ensures
            r.inventory && r.sessions,
    {
        Config { inventory: true, sessions: true }
    }
}

} // verus!
