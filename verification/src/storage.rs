//! The file of the store: what reading it gave, and the steps by which a new
//! text takes its place.
//!
//! The library touches no file. The program reads the file and says what it
//! found; to write, it carries out one step after the other and says after
//! each whether it went well. What is decided here is which step comes next
//! and how the whole ends.
//!
//! The file is never written in place. The new text goes to a temporary file
//! beside it, and only when that file is whole does it take the place of the
//! old one, in one move. `Files` says what each step is taken to do to the
//! two files; of every program that carries the steps out so, the file of the
//! store holds the old text or the new one at every moment, never part of
//! either, whichever step fails and wherever the program stops.

use crate::models::DBError;
use vstd::prelude::*;

verus! {

/// What reading the file of the store gave.
pub enum FileRead {
    /// There is no such file.
    Missing,
    /// The bytes of the file.
    Text(Vec<u8>),
    /// The file is there and could not be read; the message says why.
    Failed(String),
}

/// One thing to do to the files.
#[derive(Clone, Copy, Debug, PartialEq, Eq, Structural)]
pub enum FileStep {
    /// Make the directories above the file, where they are missing.
    MakeDirs,
    /// Write the new text to the temporary file and flush it to the disk.
    WriteTemp,
    /// Put the temporary file in the place of the file of the store.
    Replace,
}

/// How far the replacing of the file has come.
#[derive(Clone, Copy, Debug, PartialEq, Eq, Structural)]
pub enum Stage {
    /// This step is the next to take.
    Next(FileStep),
    /// Every step was taken: the file holds the new text.
    Done,
    /// This step failed, and no step was taken after it.
    Failed(FileStep),
}

/// The step that is taken at a stage, `None` when there is no more to do.
pub open spec fn step_at(stage: Stage) -> Option<FileStep> {
    match stage {
        Stage::Next(step) => Some(step),
        Stage::Done => None,
        Stage::Failed(_) => None,
    }
}

/// The stage that follows when the step of a stage went well, or did not.
pub open spec fn stage_after(stage: Stage, ok: bool) -> Stage {
    match stage {
        Stage::Next(step) => if !ok {
            Stage::Failed(step)
        } else {
            match step {
                FileStep::MakeDirs => Stage::Next(FileStep::WriteTemp),
                FileStep::WriteTemp => Stage::Next(FileStep::Replace),
                FileStep::Replace => Stage::Done,
            }
        },
        Stage::Done => Stage::Done,
        Stage::Failed(step) => Stage::Failed(step),
    }
}

/// The two files as the file system holds them: the file of the store and
/// the temporary file beside it, each the bytes it holds, or `None` while it
/// is not there.
pub struct Files {
    pub file: Option<Seq<u8>>,
    pub temp: Option<Seq<u8>>,
}

/// What a step is taken to do to the files, where `text` is the new text.
///
/// Making directories touches neither file. Writing the temporary file
/// leaves the file of the store alone; when it went well the temporary file
/// holds the text, and when it did not it may hold anything. Replacing is one
/// move: when it went well the file of the store holds what the temporary
/// file held, and when it did not nothing has changed.
pub open spec fn may_leave(
    step: FileStep,
    text: Seq<u8>,
    ok: bool,
    before: Files,
    after: Files,
) -> bool {
    match step {
        FileStep::MakeDirs => after == before,
        FileStep::WriteTemp => after.file == before.file && (ok ==> after.temp == Some(text)),
        FileStep::Replace => if ok {
            after.file == before.temp && after.temp is None
        } else {
            after == before
        },
    }
}

/// What holds of the files at a stage of replacing the text `old` by
/// `text`.
pub open spec fn files_at(stage: Stage, files: Files, old: Option<Seq<u8>>, text: Seq<u8>) -> bool {
    match stage {
        Stage::Next(FileStep::MakeDirs) => files.file == old,
        Stage::Next(FileStep::WriteTemp) => files.file == old,
        Stage::Next(FileStep::Replace) => files.file == old && files.temp == Some(text),
        Stage::Done => files.file == Some(text),
        Stage::Failed(_) => files.file == old,
    }
}

impl Stage {
    /// The stage at which replacing the file begins.
    pub fn first() -> (stage: Stage)
        ensures
            stage == Stage::Next(FileStep::MakeDirs),
    {
        Stage::Next(FileStep::MakeDirs)
    }

    /// The step to take now, `None` when there is no more to do.
    pub fn step(self) -> (step: Option<FileStep>)
        ensures
            step == step_at(self),
    {
        match self {
            Stage::Next(step) => Some(step),
            Stage::Done => None,
            Stage::Failed(_) => None,
        }
    }

    /// The stage that follows, when the step of this stage went well
    /// (`ok`) or did not. After a step that failed no further step is taken.
    pub fn after(self, ok: bool) -> (stage: Stage)
        ensures
            stage == stage_after(self, ok),
    {
        match self {
            Stage::Next(step) => if !ok {
                Stage::Failed(step)
            } else {
                match step {
                    FileStep::MakeDirs => Stage::Next(FileStep::WriteTemp),
                    FileStep::WriteTemp => Stage::Next(FileStep::Replace),
                    FileStep::Replace => Stage::Done,
                }
            },
            Stage::Done => Stage::Done,
            Stage::Failed(step) => Stage::Failed(step),
        }
    }

    /// How the replacing ended: well when every step was taken, and with a
    /// `WriteError` otherwise. `message` is what the file system said of the
    /// step that failed.
    pub fn result(self, message: &str) -> (r: Result<(), DBError>)
        ensures
            match self {
                Stage::Done => r is Ok,
                Stage::Failed(FileStep::MakeDirs) => r matches Err(DBError::WriteError(m)) && m@
                    == "cannot create folder structure for DB"@,
                _ => r matches Err(DBError::WriteError(m)) && m@ == message@,
            },
    {
        match self {
            Stage::Done => Ok(()),
            Stage::Failed(FileStep::MakeDirs) => Err(
                DBError::new_write_error("cannot create folder structure for DB"),
            ),
            _ => Err(DBError::new_write_error(message)),
        }
    }
}

} // verus!
