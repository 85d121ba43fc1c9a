//! The command line as plain values, and the dispatch of a command.

use vstd::prelude::*;
use vstd::string::StringExecFns;
use crate::engine::SyncEngine;
use crate::error::Failure;
use crate::index::Revision;
use crate::mode::Operation;
use crate::remote::MemoryRemote;
use crate::setup::{text_of, SetupWizard, WizardView};
use crate::sync::{fetch, fetch_spec, update, update_spec};

verus! {

/// What the operator asks for.
#[derive(Clone, Copy, Debug, PartialEq, Eq, Structural)]
pub enum Command {
    /// Gets the current contents of the remote deployment. `force` discards
    /// local changes.
    Fetch { force: bool },
    /// Pushes local changes to the remote deployment.
    Update,
    /// Runs the local development server.
    Start,
    /// Creates a new local development setup.
    Setup,
}

impl Command {
    /// The synchronization operation that the command stands for, if it is
    /// one.
    pub open spec fn operation_of(self) -> Option<Operation> {
        match self {
            Command::Fetch { .. } => Some(Operation::Fetch),
            Command::Update => Some(Operation::Update),
            Command::Start => None,
            Command::Setup => None,
        }
    }

    /// The synchronization operation that the command stands for, if it is
    /// one.
    pub fn operation(&self) -> (operation: Option<Operation>)
        ensures
            operation == self.operation_of(),
    {
        match self {
            Command::Fetch { .. } => Some(Operation::Fetch),
            Command::Update => Some(Operation::Update),
            Command::Start => None,
            Command::Setup => None,
        }
    }
}

/// The parsed command line.
#[derive(Clone, Debug, PartialEq, Eq)]
pub struct Cli {
    /// The location of a custom configuration file.
    pub config: Option<String>,
    pub command: Command,
}

/// What a command came to.
pub enum Outcome {
    /// A fetch or an update ran, with this result.
    Synced(Result<Revision, Failure>),
    /// The development server is to be started on this configuration file.
    Serve(String),
    /// The setup is to be run with this wizard.
    Setup(SetupWizard),
}

impl Cli {
    /// The configuration file to use: the one that was named, or the
    /// default.
    pub open spec fn config_path(&self) -> Seq<char> {
        match self.config {
            Some(path) => path@,
            None => ".emphasize/config.yml"@,
        }
    }

    /// The configuration file to use.
    pub fn config_file(&self) -> (path: String)
        ensures
            path@ == self.config_path(),
    {
        match &self.config {
            Some(path) => path.clone(),
            None => String::from_str(".emphasize/config.yml"),
        }
    }

    /// The exit status of a sync command: zero on success, one on failure.
    pub fn exit_code(result: &Result<Revision, Failure>) -> (code: u8)
        ensures
            code == (if result is Ok { 0u8 } else { 1u8 }),
    {
        match result {
            Ok(_) => 0,
            Err(_) => 1,
        }
    }

    /// Runs the command. A fetch or an update is run against the engine and
    /// the remote. The server and the setup touch neither: they are handed
    /// back to the caller with what they start from.
    pub fn run(&self, engine: &mut SyncEngine, remote: &mut MemoryRemote, now: u64) -> (outcome:
        Outcome)
        requires
            old(engine).wf(),
            old(remote).wf(),
        ensures
            final(engine).wf(),
            final(remote).wf(),
            match self.command {
                Command::Fetch { force } => {
                    &&& outcome matches Outcome::Synced(result)
                    &&& fetch_spec(old(engine)@, old(remote)@, force, now, final(engine)@, result)
                    &&& final(remote)@ == old(remote)@
                },
                Command::Update => {
                    &&& outcome matches Outcome::Synced(result)
                    &&& update_spec(
                        old(engine)@,
                        old(remote)@,
                        final(engine)@,
                        final(remote)@,
                        result,
                    )
                },
                Command::Start => {
                    &&& outcome matches Outcome::Serve(path)
                    &&& path@ == self.config_path()
                    &&& final(engine)@ == old(engine)@
                    &&& final(remote)@ == old(remote)@
                },
                Command::Setup => {
                    &&& outcome matches Outcome::Setup(wizard)
                    &&& wizard@ == (WizardView {
                        config_file: text_of(self.config),
                        cache_dir: None,
                        database: None,
                        content_dir: None,
                    })
                    &&& final(engine)@ == old(engine)@
                    &&& final(remote)@ == old(remote)@
                },
            },
    {
        match self.command {
            Command::Fetch { force } => Outcome::Synced(fetch(engine, remote, force, now)),
            Command::Update => Outcome::Synced(update(engine, remote)),
            Command::Start => Outcome::Serve(self.config_file()),
            Command::Setup => {
                let named = match &self.config {
                    Some(path) => Some(path.clone()),
                    None => None,
                };
                Outcome::Setup(SetupWizard::new(named))
            },
        }
    }
}

} // verus!
