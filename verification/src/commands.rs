//! The command surface handed to the library by the caller.

use vstd::prelude::*;

verus! {

/// A request to scaffold one project, identified by its name.  The name
/// doubles as the directory name and the generated package name.
#[derive(Debug)]
pub struct CreateProject {
    pub name: String,
}

/// The subcommands of the project command family.
#[derive(Debug)]
pub enum ProjectSubCommand {
    Create(CreateProject),
}

/// A parsed project command.
#[derive(Debug)]
pub struct ProjectCommand {
    pub command: ProjectSubCommand,
}

/// A usable request carries a non-empty project name.
pub open spec fn valid_request(r: CreateProject) -> bool {
    r.name@.len() > 0
}

/// Whether the request carries a non-empty project name; the caller must
/// refuse the command otherwise.
pub fn request_is_valid(r: &CreateProject) -> (b: bool)
    ensures
        b == valid_request(*r),
{
    r.name.as_str().unicode_len() > 0
}

/// Unpack a project command into the scaffolding request it carries.
pub fn handle_project_command(project: ProjectCommand) -> (request: CreateProject)
    ensures
        project.command == ProjectSubCommand::Create(request),
{
    match project.command {
        ProjectSubCommand::Create(p) => p,
    }
}

/// The alternate-platform branch of project creation is a stub: the tool
/// targets a single platform family and does nothing elsewhere.
pub fn create_windows_project(_project: &CreateProject) {
}

} // verus!
