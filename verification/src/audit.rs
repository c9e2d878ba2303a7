//! What the tool asks npm for, how it treats npm's raw output before the
//! JSON is read, and the errors it reports.

use vstd::prelude::*;
use vstd::string::*;
use vstd::utf8::{valid_utf8, decode_utf8};
use crate::chains::DependencyTree;
use crate::models::OutdatedEntry;
use crate::name_map::NameMap;

verus! {

/// What `String::from_utf8_lossy` makes of `bytes`.
pub uninterp spec fn utf8_lossy(bytes: Seq<u8>) -> Seq<char>;

/// `String::from_utf8_lossy` (std), made owned. Its result is named
/// `utf8_lossy`; as std documents, valid UTF-8 is decoded as it is. How
/// invalid sequences are replaced is left unsaid.
#[verifier::external_body]
fn lossy_text(bytes: &[u8]) -> (r: String)
    ensures
        r@ == utf8_lossy(bytes@),
        valid_utf8(bytes@) ==> r@ == decode_utf8(bytes@),
{
    String::from_utf8_lossy(bytes).into_owned()
}

/// The npm commands the tool runs.
#[derive(Debug, Clone, Copy, PartialEq, Eq, Structural)]
pub enum NpmCommand {
    /// `npm audit --json`
    Audit,
    /// `npm outdated --json`
    Outdated,
    /// `npm ls --all --json`
    Tree,
}

impl NpmCommand {
    /// The arguments given to `npm`.
    pub open spec fn spec_args(self) -> Seq<Seq<char>> {
        match self {
            NpmCommand::Audit => seq!["audit"@, "--json"@],
            NpmCommand::Outdated => seq!["outdated"@, "--json"@],
            NpmCommand::Tree => seq!["ls"@, "--all"@, "--json"@],
        }
    }

    /// The arguments given to `npm`.
    pub fn args(&self) -> (r: Vec<&'static str>)
        ensures
            r@.map_values(|a: &str| a@) == self.spec_args(),
    {
        let mut r: Vec<&'static str> = Vec::new();
        match self {
            NpmCommand::Audit => {
                r.push("audit");
                r.push("--json");
            },
            NpmCommand::Outdated => {
                r.push("outdated");
                r.push("--json");
            },
            NpmCommand::Tree => {
                r.push("ls");
                r.push("--all");
                r.push("--json");
            },
        }
        assert(r@.map_values(|a: &str| a@) =~= self.spec_args());
        r
    }

    /// The subcommand: the first argument.
    pub fn subcommand(&self) -> (r: &'static str)
        ensures
            r@ == self.spec_args()[0],
    {
        match self {
            NpmCommand::Audit => "audit",
            NpmCommand::Outdated => "outdated",
            NpmCommand::Tree => "ls",
        }
    }

    /// How the error about unreadable output of the command starts.
    pub open spec fn unreadable_intro(self) -> Seq<char> {
        match self {
            NpmCommand::Audit => "Failed to parse npm audit JSON output "@,
            NpmCommand::Outdated => "Failed to parse npm outdated JSON output "@,
            NpmCommand::Tree => "Failed to parse the dependencies tree "@,
        }
    }
}

/// The errors of running npm and reading its output.
#[derive(Debug, Clone)]
pub enum AuditError {
    /// npm could not be started.
    NotRun { subcommand: String },
    /// `npm audit` wrote nothing on its standard output; `stderr` is what it
    /// wrote on its standard error.
    NoOutput { stderr: String },
    /// The output of `command` is not the JSON expected; `output` is that output.
    Unreadable { command: NpmCommand, output: String },
}

impl AuditError {
    /// The message that describes the error.
    pub open spec fn spec_message(self) -> Seq<char> {
        match self {
            AuditError::NotRun { subcommand } => "Failed to execute 'npm "@ + subcommand@
                + "'. Is npm installed and available in your PATH?"@,
            AuditError::NoOutput { stderr } => "npm audit produced no output: "@ + stderr@,
            AuditError::Unreadable { command, output } => command.unreadable_intro() + output@,
        }
    }

    /// The message that describes the error.
    pub fn message(&self) -> (r: String)
        ensures
            r@ == self.spec_message(),
    {
        match self {
            AuditError::NotRun { subcommand } => {
                let mut r = String::from_str("Failed to execute 'npm ");
                r.append(subcommand.as_str());
                r.append("'. Is npm installed and available in your PATH?");
                r
            },
            AuditError::NoOutput { stderr } => {
                let mut r = String::from_str("npm audit produced no output: ");
                r.append(stderr.as_str());
                r
            },
            AuditError::Unreadable { command, output } => {
                let mut r = match command {
                    NpmCommand::Audit => String::from_str("Failed to parse npm audit JSON output "),
                    NpmCommand::Outdated => String::from_str("Failed to parse npm outdated JSON output "),
                    NpmCommand::Tree => String::from_str("Failed to parse the dependencies tree "),
                };
                r.append(output.as_str());
                r
            },
        }
    }

    /// The error for npm that could not be started to run `command`.
    pub fn not_run(command: NpmCommand) -> (r: AuditError)
        ensures
            r is NotRun,
            r->subcommand@ == command.spec_args()[0],
    {
        AuditError::NotRun { subcommand: String::from_str(command.subcommand()) }
    }

    /// The error for output of `command` that is not the JSON expected.
    pub fn unreadable(command: NpmCommand, stdout: &[u8]) -> (r: AuditError)
        ensures
            r is Unreadable,
            r->command == command,
            r->output@ == utf8_lossy(stdout@),
            valid_utf8(stdout@) ==> r->output@ == decode_utf8(stdout@),
    {
        AuditError::Unreadable { command, output: lossy_text(stdout) }
    }
}

/// Checks the output of `npm audit` before its JSON is read: an empty
/// standard output is an error that carries the standard error as text.
pub fn check_report_output(stdout: &[u8], stderr: &[u8]) -> (r: Result<(), AuditError>)
    ensures
        stdout@.len() == 0 <==> r is Err,
        r is Err ==> r->Err_0 is NoOutput && r->Err_0->stderr@ == utf8_lossy(stderr@),
        r is Err && valid_utf8(stderr@) ==> r->Err_0->stderr@ == decode_utf8(stderr@),
{
    if stdout.len() == 0 {
        Err(AuditError::NoOutput { stderr: lossy_text(stderr) })
    } else {
        Ok(())
    }
}

/// The outdated packages when `npm outdated` wrote nothing (none); `None`
/// when there is JSON to read.
pub fn outdated_without_output(stdout: &[u8]) -> (r: Option<NameMap<OutdatedEntry>>)
    ensures
        r is Some <==> stdout@.len() == 0,
        r is Some ==> r->Some_0.pairs().len() == 0,
{
    if stdout.len() == 0 {
        Some(NameMap::new())
    } else {
        None
    }
}

/// The dependency tree when `npm ls` wrote nothing (a tree without
/// dependencies); `None` when there is JSON to read.
pub fn tree_without_output(stdout: &[u8]) -> (r: Option<DependencyTree>)
    ensures
        r is Some <==> stdout@.len() == 0,
        r is Some ==> r->Some_0.dependencies@.len() == 0,
{
    if stdout.len() == 0 {
        Some(DependencyTree { dependencies: Vec::new() })
    } else {
        None
    }
}

} // verus!
