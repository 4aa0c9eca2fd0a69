//! Creating a file or a folder.

use vstd::prelude::*;

use crate::text::same_text;

verus! {

/// What `create` does for a request.
#[derive(Debug, PartialEq, Eq, Structural)]
pub enum CreatePlan {
    /// Create the folder.
    MakeFolder,
    /// The folder exists already; report it.
    FolderExists,
    /// Create the file, and write the given content into it if
    /// `write_content`.
    MakeFile { write_content: bool },
    /// The file exists already; report it.
    FileExists,
    /// The kind is neither `folder` nor `file`; report it.
    UnknownKind,
}

/// Decides what `create` does for an entry of the given `kind` (`folder` or
/// `file`), given whether a path of that name exists already and whether
/// content was given for a new file.
pub fn plan_create(kind: &str, already_exists: bool, has_content: bool) -> (r: CreatePlan)
    ensures
        kind@ == "folder"@ ==> r == if already_exists {
            CreatePlan::FolderExists
        } else {
            CreatePlan::MakeFolder
        },
        kind@ == "file"@ ==> r == if already_exists {
            CreatePlan::FileExists
        } else {
            CreatePlan::MakeFile { write_content: has_content }
        },
        kind@ != "folder"@ && kind@ != "file"@ ==> r == CreatePlan::UnknownKind,
{
    proof {
        reveal_strlit("folder");
        reveal_strlit("file");
        assert("folder"@.len() != "file"@.len());
    }
    if same_text(kind, "folder") {
        if already_exists {
            CreatePlan::FolderExists
        } else {
            CreatePlan::MakeFolder
        }
    } else if same_text(kind, "file") {
        if already_exists {
            CreatePlan::FileExists
        } else {
            CreatePlan::MakeFile { write_content: has_content }
        }
    } else {
        CreatePlan::UnknownKind
    }
}

} // verus!
