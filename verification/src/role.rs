//! The role selector: which role a process takes when it starts, and how a
//! backup is asked for.

use vstd::prelude::*;
use vstd::string::*;

verus! {

/// The role of a process. A process starts in one of the two; a backup
/// becomes a primary by promotion, and a primary never becomes a backup.
#[derive(Clone, Copy, Debug, PartialEq, Eq, Structural)]
pub enum Role {
    Primary,
    Backup,
}

/// The argument that makes a process start as a backup.
pub const BACKUP_FLAG: &'static str = "--backup";

/// The text of `BACKUP_FLAG`.
pub open spec fn backup_flag() -> Seq<char> {
    seq!['-', '-', 'b', 'a', 'c', 'k', 'u', 'p']
}

/// Whether one of the arguments is the backup flag.
pub open spec fn names_backup(arguments: Seq<String>) -> bool {
    exists|i: int| 0 <= i < arguments.len() && (#[trigger] arguments[i])@ == backup_flag()
}

/// The role that a process with the given command line starts in: backup
/// if the flag is present, primary otherwise.
pub open spec fn role_of(arguments: Seq<String>) -> Role {
    if names_backup(arguments) {
        Role::Backup
    } else {
        Role::Primary
    }
}

/// `BACKUP_FLAG` reads `--backup`.
pub proof fn lemma_backup_flag_text()
    ensures
        BACKUP_FLAG@ == backup_flag(),
{
    reveal_strlit("--backup");
    assert(BACKUP_FLAG@ =~= backup_flag());
}

/// Decides the role of the process from its command line.
pub fn select_role(arguments: &Vec<String>) -> (role: Role)
    ensures
        role == role_of(arguments@),
{
    let flag: String = String::from_str(BACKUP_FLAG);
    proof {
        lemma_backup_flag_text();
    }
    let mut at: usize = 0;
    while at < arguments.len()
        invariant
            at <= arguments.len(),
            flag@ == backup_flag(),
            forall|i: int| 0 <= i < at ==> (#[trigger] arguments[i])@ != backup_flag(),
        decreases arguments.len() - at,
    {
        if arguments[at] == flag {
            return Role::Backup;
        }
        at = at + 1;
    }
    Role::Primary
}

impl Role {
    /// Whether a process that starts in this role asks the launcher for a
    /// backup before it does anything else: a primary does, so that it is
    /// watched from the start; a backup does not.
    pub fn launches_backup_at_start(self) -> (launches: bool)
        ensures
            launches == (self is Primary),
    {
        match self {
            Role::Primary => true,
            Role::Backup => false,
        }
    }
}

/// What the launcher is asked to start: the program at `executable` with
/// the arguments `arguments`.
#[derive(Debug, PartialEq, Eq)]
pub struct LaunchRequest {
    pub executable: String,
    pub arguments: Vec<String>,
}

impl LaunchRequest {
    /// The command line that the started process sees: its own path, then
    /// its arguments.
    pub open spec fn command_line(self) -> Seq<String> {
        seq![self.executable] + self.arguments@
    }
}

/// The request for a new backup: the program of the asking process itself,
/// with the backup flag as its only argument.
pub fn backup_launch(executable: String) -> (request: LaunchRequest)
    ensures
        request.executable == executable,
        request.arguments@.len() == 1,
        request.arguments@[0]@ == backup_flag(),
{
    let flag: String = String::from_str(BACKUP_FLAG);
    proof {
        lemma_backup_flag_text();
    }
    let mut arguments: Vec<String> = Vec::new();
    arguments.push(flag);
    LaunchRequest { executable, arguments }
}

/// A process that is started on a request made by `backup_launch` takes
/// the backup role, whatever the path of its program.
pub proof fn lemma_launched_process_is_backup(request: LaunchRequest)
    requires
        request.arguments@.len() == 1,
        request.arguments@[0]@ == backup_flag(),
    ensures
        role_of(request.command_line()) is Backup,
{
    assert(request.command_line()[1] == request.arguments@[0]);
}

/// A process whose command line has no argument but its own path starts
/// as a primary, unless that path is itself the flag.
pub proof fn lemma_plain_start_is_primary(executable: String)
    requires
        executable@ != backup_flag(),
    ensures
        role_of(seq![executable]) is Primary,
{
}

} // verus!
