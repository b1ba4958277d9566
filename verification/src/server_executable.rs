//! The running server executable advertised in API pongs.
//!
//! The process notes its executable's path and file identity before it
//! dispatches commands. A later ping reports that path only while it still
//! names the same file.

use crate::paths::{absolute, is_absolute};
use crate::text::{to_chars, view_of};
use vstd::prelude::*;

verus! {

/// What tells one file from another.
#[derive(Clone, Copy, Debug, PartialEq, Eq, Structural)]
pub struct ExecutableFileIdentity {
    pub device: u64,
    pub inode: u64,
}

/// The executable as it was when it was noted.
#[derive(Clone, Debug, PartialEq, Eq)]
pub struct RunningExecutable {
    pub path: String,
    pub identity: ExecutableFileIdentity,
}

/// What noting an executable comes to: it needs an absolute path and a file
/// identity.
pub open spec fn captured(
    path: Option<String>,
    identity: Option<ExecutableFileIdentity>,
) -> Option<RunningExecutable> {
    match (path, identity) {
        (Some(path), Some(identity)) => if is_absolute(path@) {
            Some(RunningExecutable { path, identity })
        } else {
            None
        },
        _ => None,
    }
}

/// What is reported of a noted executable, given the identity that its path
/// has now: the path, while it names the same file as when it was noted.
pub open spec fn reported(
    noted: RunningExecutable,
    current: Option<ExecutableFileIdentity>,
) -> Option<Seq<char>> {
    if current == Some(noted.identity) {
        Some(noted.path@)
    } else {
        None
    }
}

impl RunningExecutable {
    /// Note an executable.
    pub fn capture(path: Option<String>, identity: Option<ExecutableFileIdentity>) -> (noted: Option<
        RunningExecutable,
    >)
        ensures
            noted == captured(path, identity),
    {
        match path {
            None => None,
            Some(path) => {
                let chars = to_chars(&path);
                if !absolute(&chars) {
                    return None;
                }
                match identity {
                    None => None,
                    Some(identity) => Some(RunningExecutable { path, identity }),
                }
            },
        }
    }

    /// The noted path, while it names the same file as when it was noted.
    pub fn path_if_unchanged(&self, current: Option<ExecutableFileIdentity>) -> (path: Option<
        String,
    >)
        ensures
            view_of(path) == reported(*self, current),
    {
        match current {
            None => None,
            Some(current) => {
                if current == self.identity {
                    Some(self.path.as_str().to_owned())
                } else {
                    None
                }
            },
        }
    }
}

/// The process's note of its executable, made once.
#[derive(Clone, Debug)]
pub struct ExecutableNote {
    /// Absent before the note is made; an absence inside once it failed.
    pub noted: Option<Option<RunningExecutable>>,
}

/// The note once it is made: the first one stays.
pub open spec fn noted_once(
    noted: Option<Option<RunningExecutable>>,
    path: Option<String>,
    identity: Option<ExecutableFileIdentity>,
) -> Option<RunningExecutable> {
    match noted {
        Some(noted) => noted,
        None => captured(path, identity),
    }
}

impl ExecutableNote {
    pub fn new() -> (note: ExecutableNote)
        ensures
            note.noted is None,
    {
        ExecutableNote { noted: None }
    }

    /// Make the note, unless it was made.
    pub fn initialize(&mut self, path: Option<String>, identity: Option<ExecutableFileIdentity>)
        ensures
            final(self).noted == Some(noted_once(old(self).noted, path, identity)),
    {
        if self.noted.is_none() {
            self.noted = Some(RunningExecutable::capture(path, identity));
        }
    }

    /// What a pong reports, given the process's executable and its identity,
    /// and the identity that the noted path has now. A pong that is asked for
    /// before the note was made makes it.
    pub fn path_for_pong(
        &mut self,
        path: Option<String>,
        identity: Option<ExecutableFileIdentity>,
        current: Option<ExecutableFileIdentity>,
    ) -> (reported_path: Option<String>)
        ensures
            final(self).noted == Some(noted_once(old(self).noted, path, identity)),
            view_of(reported_path) == (match noted_once(old(self).noted, path, identity) {
                Some(noted) => reported(noted, current),
                None => None,
            }),
    {
        self.initialize(path, identity);
        match &self.noted {
            Some(Some(noted)) => noted.path_if_unchanged(current),
            _ => None,
        }
    }
}

/// The note is made once: whatever the process's executable is taken for
/// later, a pong goes by what was noted first.
pub proof fn law_the_first_note_stays(
    noted: Option<Option<RunningExecutable>>,
    path: Option<String>,
    identity: Option<ExecutableFileIdentity>,
    later_path: Option<String>,
    later_identity: Option<ExecutableFileIdentity>,
)
    ensures
        noted_once(Some(noted_once(noted, path, identity)), later_path, later_identity)
            == noted_once(noted, path, identity),
{
}

/// An executable is noted where its path begins with a slash and its file can
/// be told from others.
pub proof fn law_which_executable_is_noted(
    path: String,
    identity: ExecutableFileIdentity,
)
    ensures
        path@.len() > 0 && path@[0] == '/' ==> (captured(Some(path), Some(identity)) matches Some(
            noted,
        ) && noted.path == path && noted.identity == identity),
        path@.len() == 0 || path@[0] != '/' ==> captured(Some(path), Some(identity)) is None,
        captured(Some(path), None) is None,
        captured(None, Some(identity)) is None,
{
}

/// A noted path is reported while it names the same file, on the same device
/// and with the same number, and not once it names another or none.
pub proof fn law_when_a_noted_path_is_reported(
    noted: RunningExecutable,
    current: ExecutableFileIdentity,
)
    ensures
        current.device == noted.identity.device && current.inode == noted.identity.inode
            ==> reported(noted, Some(current)) == Some(noted.path@),
        current.device != noted.identity.device || current.inode != noted.identity.inode
            ==> reported(noted, Some(current)) is None,
        reported(noted, None) is None,
{
}

} // verus!
