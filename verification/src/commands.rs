//! The command surface the CLI layer hands down.
//!
//! These structs carry the parsed arguments of the four commands; the
//! binary owns flag parsing and exit codes, while anything the commands
//! decide lives here, behind contracts. Each command maps to one core
//! operation: `new` to the scaffolder, `save` to capture-then-store,
//! `restore` to load-then-replay, `snapshots` to listing or deletion.

use vstd::prelude::*;

verus! {

/// Arguments of `new`: create a project from a template.
pub struct NewCommand {
    /// The template to use.
    pub template: String,
    /// The name of the new project.
    pub name: Option<String>,
    /// The directory to create the project in.
    pub dir: Option<String>,
}

/// Arguments of `save`: persist the current workspace as a snapshot.
pub struct SaveCommand {
    /// Name for the snapshot.
    pub name: Option<String>,
    /// Description of the snapshot.
    pub description: Option<String>,
}

/// Arguments of `restore`: replay a stored snapshot.
pub struct RestoreCommand {
    /// Name of the snapshot to restore.
    pub name: String,
}

/// Arguments of `snapshots`: list snapshots, or delete one by name.
pub struct SnapshotsCommand {
    /// List all snapshots.
    pub list: bool,
    /// Delete a snapshot by name.
    pub delete: Option<String>,
}

/// What a `snapshots` invocation asks the store to do.
pub enum SnapshotsAction {
    /// Enumerate the stored snapshots.
    List,
    /// Delete the named snapshot.
    Delete(String),
}

impl SnapshotsCommand {
    /// Decides what the command asks for: a requested deletion wins over
    /// the listing flag; with nothing requested, listing is the default.
    pub fn action(self) -> (r: SnapshotsAction)
        ensures
            (match self.delete {
                Some(n) => r == SnapshotsAction::Delete(n),
                None => r == SnapshotsAction::List,
            }),
    {
        match self.delete {
            Some(n) => SnapshotsAction::Delete(n),
            None => SnapshotsAction::List,
        }
    }
}

} // verus!
