//! The payload the agent writes to the statusline on every render, as the
//! library reads it.
//!
//! Every field is optional: depending on auth type, session phase and
//! version, several objects are absent or null. A missing field degrades
//! the render, never aborts it. Quantities the agent reports as floating
//! point (the session cost and the rate-limit percentages) arrive here
//! already converted by the caller: the cost as its display text with two
//! decimals, a percentage as the nearest integer when it is a finite value
//! in `0..=100`.

use vstd::prelude::*;
use crate::text::push_str;

verus! {

/// What the agent reports about the session.
#[derive(Debug, Default, Clone)]
pub struct Payload {
    pub session_name: Option<String>,
    pub cwd: Option<String>,
    pub transcript_path: Option<String>,
    pub model: Model,
    pub workspace: Workspace,
    pub cost: Option<Cost>,
    pub context_window: Option<ContextWindow>,
    pub effort: Option<Effort>,
    pub thinking: Option<Thinking>,
    pub fast_mode: Option<bool>,
    pub rate_limits: Option<RateLimits>,
    pub pr: Option<Pr>,
}

/// The model of the session.
#[derive(Debug, Default, Clone)]
pub struct Model {
    pub id: Option<String>,
    pub display_name: Option<String>,
}

/// The working directories of the session.
#[derive(Debug, Default, Clone)]
pub struct Workspace {
    pub current_dir: Option<String>,
    pub project_dir: Option<String>,
    /// Worktree name when the working directory is inside a linked worktree.
    pub git_worktree: Option<String>,
    /// Present when the repository has an `origin` remote.
    pub repo: Option<RepoIdentity>,
}

/// Where the repository's `origin` lives.
#[derive(Debug, Default, Clone)]
pub struct RepoIdentity {
    pub host: Option<String>,
    pub owner: Option<String>,
    pub name: Option<String>,
}

/// The session cost.
#[derive(Debug, Default, Clone)]
pub struct Cost {
    /// The cost in USD, as text with two decimals.
    pub total_cost_usd: Option<String>,
}

/// The context window.
#[derive(Debug, Default, Clone)]
pub struct ContextWindow {
    /// Tokens currently occupying the context window
    /// (input + cache creation + cache read); 0 before the first response.
    pub total_input_tokens: Option<u64>,
    /// The model ceiling.
    pub context_window_size: Option<u64>,
}

/// The reasoning effort.
#[derive(Debug, Default, Clone)]
pub struct Effort {
    pub level: Option<String>,
}

/// Extended thinking.
#[derive(Debug, Default, Clone)]
pub struct Thinking {
    pub enabled: Option<bool>,
}

/// The subscriber rate-limit windows.
#[derive(Debug, Default, Clone)]
pub struct RateLimits {
    pub five_hour: Option<RateWindow>,
    pub seven_day: Option<RateWindow>,
}

/// One rate-limit window.
#[derive(Debug, Default, Clone)]
pub struct RateWindow {
    /// The used share, rounded to a whole percent.
    pub used_percentage: Option<i64>,
    /// Unix epoch seconds when the window resets.
    pub resets_at: Option<i64>,
}

/// The open pull request of the branch.
#[derive(Debug, Default, Clone)]
pub struct Pr {
    pub number: Option<u64>,
    pub url: Option<String>,
    /// "approved" | "pending" | "changes_requested" | "draft"
    pub review_state: Option<String>,
}

/// The text of an optional string.
pub open spec fn opt_view(o: Option<String>) -> Option<Seq<char>> {
    match o {
        Some(s) => Some(s@),
        None => None,
    }
}

/// `https://<host>/<owner>/<name>` when all three are known.
pub open spec fn url_spec(r: RepoIdentity) -> Option<Seq<char>> {
    match (r.host, r.owner, r.name) {
        (Some(h), Some(o), Some(n)) => Some("https://"@ + h@ + "/"@ + o@ + "/"@ + n@),
        _ => None,
    }
}

impl RepoIdentity {
    /// The web address of the repository, when host, owner and name are known.
    pub fn url(&self) -> (r: Option<String>)
        ensures
            opt_view(r) == url_spec(*self),
    {
        match (&self.host, &self.owner, &self.name) {
            (Some(h), Some(o), Some(n)) => {
                let mut s = String::new();
                push_str(&mut s, "https://");
                push_str(&mut s, h.as_str());
                push_str(&mut s, "/");
                push_str(&mut s, o.as_str());
                push_str(&mut s, "/");
                push_str(&mut s, n.as_str());
                Some(s)
            },
            _ => None,
        }
    }
}

/// The working directory: the workspace's current directory, else `cwd`.
pub open spec fn cwd_spec(p: Payload) -> Option<Seq<char>> {
    match p.workspace.current_dir {
        Some(d) => Some(d@),
        None => opt_view(p.cwd),
    }
}

impl Payload {
    /// The working directory of the session.
    pub fn cwd(&self) -> (r: Option<&str>)
        ensures
            match r {
                Some(s) => cwd_spec(*self) == Some(s@),
                None => cwd_spec(*self) is None,
            },
    {
        match &self.workspace.current_dir {
            Some(d) => Some(d.as_str()),
            None => match &self.cwd {
                Some(c) => Some(c.as_str()),
                None => None,
            },
        }
    }
}

} // verus!
