//! The command line as plain values; parsing it is the program's business.

use vstd::prelude::*;

verus! {

/// The whole command line.
#[derive(Debug)]
pub struct Cli {
    pub codex_home: Option<String>,
    pub codex_bin: String,
    pub command: Option<Command>,
}

/// The subcommands.
#[derive(Debug)]
pub enum Command {
    List(ListArgs),
    Resume(ResumeArgs),
    Info(InfoArgs),
    Delete(DeleteArgs),
}

/// Arguments of `list`.
#[derive(Clone, Debug)]
pub struct ListArgs {
    pub all: bool,
    pub cwd: Option<String>,
    pub limit: usize,
    pub cursor: Option<String>,
    pub providers: Vec<String>,
    pub json: bool,
}

impl ListArgs {
    /// Twenty sessions of the current scope, as a table.
    pub fn default() -> (r: ListArgs)
        ensures
            !r.all,
            r.cwd is None,
            r.limit == 20,
            r.cursor is None,
            r.providers@.len() == 0,
            !r.json,
    {
        ListArgs {
            all: false,
            cwd: None,
            limit: 20,
            cursor: None,
            providers: Vec::new(),
            json: false,
        }
    }
}

/// Arguments of `resume`.
#[derive(Clone, Debug)]
pub struct ResumeArgs {
    pub session: Option<String>,
    pub last: bool,
    pub all: bool,
    pub cwd: Option<String>,
    pub limit: usize,
    pub dry_run: bool,
}

/// Arguments of `info`.
#[derive(Clone, Debug)]
pub struct InfoArgs {
    pub session: String,
}

/// Arguments of `delete`.
#[derive(Clone, Debug)]
pub struct DeleteArgs {
    pub session: String,
    pub yes: bool,
}

} // verus!
