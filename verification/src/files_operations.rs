//! The decision layer of the rename execution phase: the guard that
//! rejects a pattern that matched no file, and the plan that decides,
//! rename by rename, what the executor must do next and how each
//! observed outcome is answered.  The executor that enumerates files
//! and performs the renames is the library's caller.

use vstd::prelude::*;

verus! {

/// Errors of the rename execution phase.
#[derive(Debug, PartialEq)]
pub enum MassMoveError {
    /// A synthesized target path already exists and overwriting was not
    /// requested; carries the offending path.
    ReplaceError(String),
    /// A rename failed even after the absolute-path retry; carries the
    /// resolved absolute target path.
    PermissionError(String),
}

/// Error for a source pattern that matched no filesystem entry; carries
/// the pattern itself.
#[derive(Debug, PartialEq)]
pub struct NoFilesError {
    /// The source pattern that found nothing.
    pub template_name: String,
}

/// Guard between glob expansion and matching: accepts the expanded
/// filename batch unchanged when it is non-empty, and rejects an empty
/// batch with the offending pattern.
pub fn check_found_files(template: &str, files: Vec<String>) -> (r: Result<
    Vec<String>,
    NoFilesError,
>)
    ensures
        files@.len() == 0 ==> (r matches Err(e) && e.template_name@ == template@),
        files@.len() > 0 ==> r == Ok::<Vec<String>, NoFilesError>(files),
{
    if files.len() == 0 {
        Err(NoFilesError { template_name: template.to_owned() })
    } else {
        Ok(files)
    }
}

/// One step the rename executor is asked to perform next.
#[derive(Debug, PartialEq)]
pub enum MoveAction {
    /// Ask whether this path exists on the filesystem.
    CheckTarget(String),
    /// Attempt to rename the first path to the second and report back
    /// whether it succeeded.
    Rename(String, String),
    /// Ask for the current working directory, for the absolute-path
    /// retry.
    ResolveDir,
    /// The batch failed; nothing further may be performed.
    Fail(MassMoveError),
    /// Every pair was renamed.
    Finished,
}

/// What the rename executor observed while performing the last action.
#[derive(Debug, PartialEq)]
pub enum MoveEvent {
    /// Whether the checked target path exists.
    Exists(bool),
    /// Whether the attempted rename succeeded.
    Renamed(bool),
    /// The current working directory.
    Dir(String),
}

/// Progress of the plan within the current name pair.
#[derive(Debug, PartialEq)]
pub enum MovePhase {
    /// Awaiting the existence check of the current target.
    Checking,
    /// Awaiting the outcome of the plain rename of the current pair.
    Renaming,
    /// Awaiting the working directory for the absolute-path retry.
    ResolvingDir,
    /// Awaiting the outcome of the absolute-path retry.
    Retrying {
        /// The current initial filename, resolved against the working
        /// directory.
        absolute_initial: String,
        /// The current target filename, resolved against the working
        /// directory.
        absolute_target: String,
    },
    /// The batch failed with this error.
    Failed(MassMoveError),
    /// The batch completed.
    Done,
}

/// Drives a mass rename as a pure decision machine.  The caller
/// performs each action `next_action` requests — an existence check, a
/// rename, a working-directory lookup — and reports what it observed
/// back through `step`, until the requested action is `Finished` or
/// `Fail`.  Each target is checked before its rename; a failed rename
/// is retried once with both paths resolved against the working
/// directory, and only then is the batch failed.
pub struct MassMovePlan {
    /// The filenames to rename, in batch order.
    pub initial_filenames: Vec<String>,
    /// The synthesized names, positionally paired with the initial ones.
    pub target_filenames: Vec<String>,
    /// Whether an existing target may be overwritten.
    pub force_rewrite: bool,
    /// The pair currently being processed.
    pub index: usize,
    /// Progress within the current pair.
    pub phase: MovePhase,
}

impl MassMovePlan {
    /// The two filename lists pair up, and the current index lies inside
    /// them whenever work is still pending.
    pub open spec fn wf(&self) -> bool {
        &&& self.initial_filenames@.len() == self.target_filenames@.len()
        &&& match self.phase {
            MovePhase::Checking => self.index < self.target_filenames@.len(),
            MovePhase::Renaming => self.index < self.target_filenames@.len(),
            MovePhase::ResolvingDir => self.index < self.target_filenames@.len(),
            MovePhase::Retrying { .. } => self.index < self.target_filenames@.len(),
            MovePhase::Failed(_) => self.index <= self.target_filenames@.len(),
            MovePhase::Done => self.index <= self.target_filenames@.len(),
        }
    }

    /// Starts a plan over positionally paired initial and target names.
    pub fn new(initial_filenames: Vec<String>, target_filenames: Vec<String>, force_rewrite: bool)
        -> (r: MassMovePlan)
        requires
            initial_filenames@.len() == target_filenames@.len(),
        ensures
            r.wf(),
            r.initial_filenames == initial_filenames,
            r.target_filenames == target_filenames,
            r.force_rewrite == force_rewrite,
            r.index == 0,
            r.phase == if target_filenames@.len() == 0 {
                MovePhase::Done
            } else {
                MovePhase::Checking
            },
    {
        let phase = if target_filenames.len() == 0 {
            MovePhase::Done
        } else {
            MovePhase::Checking
        };
        MassMovePlan { initial_filenames, target_filenames, force_rewrite, index: 0, phase }
    }

    /// The action the executor must perform now, decided by the current
    /// phase: check the current target, rename the current pair (plain
    /// or resolved), ask for the working directory, or stop.
    pub fn next_action(&self) -> (a: MoveAction)
        requires
            self.wf(),
        ensures
            self.phase is Checking ==> a == MoveAction::CheckTarget(
                self.target_filenames@[self.index as int],
            ),
            self.phase is Renaming ==> a == MoveAction::Rename(
                self.initial_filenames@[self.index as int],
                self.target_filenames@[self.index as int],
            ),
            self.phase is ResolvingDir ==> a == MoveAction::ResolveDir,
            (self.phase matches MovePhase::Retrying { absolute_initial, absolute_target }
                ==> a == MoveAction::Rename(absolute_initial, absolute_target)),
            (self.phase matches MovePhase::Failed(e) ==> a == MoveAction::Fail(e)),
            self.phase is Done ==> a == MoveAction::Finished,
    {
        match &self.phase {
            MovePhase::Checking => MoveAction::CheckTarget(
                self.target_filenames[self.index].clone(),
            ),
            MovePhase::Renaming => MoveAction::Rename(
                self.initial_filenames[self.index].clone(),
                self.target_filenames[self.index].clone(),
            ),
            MovePhase::ResolvingDir => MoveAction::ResolveDir,
            MovePhase::Retrying { absolute_initial, absolute_target } => MoveAction::Rename(
                absolute_initial.clone(),
                absolute_target.clone(),
            ),
            MovePhase::Failed(e) => MoveAction::Fail(
                match e {
                    MassMoveError::ReplaceError(p) => MassMoveError::ReplaceError(p.clone()),
                    MassMoveError::PermissionError(p) => MassMoveError::PermissionError(p.clone()),
                },
            ),
            MovePhase::Done => MoveAction::Finished,
        }
    }

    /// Whether the plan, in its current phase, can take this event.
    pub open spec fn accepts(&self, event: MoveEvent) -> bool {
        match (self.phase, event) {
            (MovePhase::Checking, MoveEvent::Exists(_)) => true,
            (MovePhase::Renaming, MoveEvent::Renamed(_)) => true,
            (MovePhase::ResolvingDir, MoveEvent::Dir(_)) => true,
            (MovePhase::Retrying { .. }, MoveEvent::Renamed(_)) => true,
            _ => false,
        }
    }

    /// Takes the outcome the executor observed and decides what follows:
    /// an existing target without the overwrite flag fails the batch; a
    /// successful rename advances to the next pair; a failed plain
    /// rename asks for the working directory and retries with resolved
    /// paths; a failed retry fails the batch with the resolved target.
    /// An event that does not answer the pending action is refused and
    /// changes nothing.
    pub fn step(&mut self, event: &MoveEvent) -> (accepted: bool)
        requires
            old(self).wf(),
        ensures
            final(self).wf(),
            accepted == old(self).accepts(*event),
            !accepted ==> *final(self) == *old(self),
            final(self).initial_filenames == old(self).initial_filenames,
            final(self).target_filenames == old(self).target_filenames,
            final(self).force_rewrite == old(self).force_rewrite,
            old(self).phase is Checking ==> (*event matches MoveEvent::Exists(ex) ==> {
                &&& final(self).index == old(self).index
                &&& final(self).phase == if ex && !old(self).force_rewrite {
                    MovePhase::Failed(
                        MassMoveError::ReplaceError(
                            old(self).target_filenames@[old(self).index as int],
                        ),
                    )
                } else {
                    MovePhase::Renaming
                }
            }),
            old(self).phase is Renaming ==> (*event matches MoveEvent::Renamed(ok) ==> if ok {
                *final(self) == old(self).advanced()
            } else {
                final(self).index == old(self).index && final(self).phase
                    == MovePhase::ResolvingDir
            }),
            old(self).phase is ResolvingDir ==> (*event matches MoveEvent::Dir(d) ==> {
                &&& final(self).index == old(self).index
                &&& (final(self).phase matches MovePhase::Retrying {
                    absolute_initial,
                    absolute_target,
                } && absolute_initial@ == d@ + seq!['/']
                    + old(self).initial_filenames@[old(self).index as int]@ && absolute_target@
                    == d@ + seq!['/'] + old(self).target_filenames@[old(self).index as int]@)
            }),
            (old(self).phase matches MovePhase::Retrying { absolute_target, .. } ==> (*event
                matches MoveEvent::Renamed(ok) ==> if ok {
                *final(self) == old(self).advanced()
            } else {
                final(self).index == old(self).index && final(self).phase == MovePhase::Failed(
                    MassMoveError::PermissionError(absolute_target),
                )
            })),
    {
        let n = self.target_filenames.len();
        match (&self.phase, event) {
            (MovePhase::Checking, MoveEvent::Exists(ex)) => {
                if *ex && !self.force_rewrite {
                    let path = self.target_filenames[self.index].clone();
                    self.phase = MovePhase::Failed(MassMoveError::ReplaceError(path));
                } else {
                    self.phase = MovePhase::Renaming;
                }
                true
            },
            (MovePhase::Renaming, MoveEvent::Renamed(ok)) => {
                if *ok {
                    self.index = self.index + 1;
                    self.phase = if self.index < n {
                        MovePhase::Checking
                    } else {
                        MovePhase::Done
                    };
                } else {
                    self.phase = MovePhase::ResolvingDir;
                }
                true
            },
            (MovePhase::ResolvingDir, MoveEvent::Dir(d)) => {
                proof {
                    reveal_strlit("/");
                    assert("/"@ =~= seq!['/']);
                }
                let mut absolute_initial = d.clone();
                absolute_initial.append("/");
                absolute_initial.append(self.initial_filenames[self.index].as_str());
                let mut absolute_target = d.clone();
                absolute_target.append("/");
                absolute_target.append(self.target_filenames[self.index].as_str());
                self.phase = MovePhase::Retrying { absolute_initial, absolute_target };
                true
            },
            (MovePhase::Retrying { absolute_target, .. }, MoveEvent::Renamed(ok)) => {
                if *ok {
                    self.index = self.index + 1;
                    self.phase = if self.index < n {
                        MovePhase::Checking
                    } else {
                        MovePhase::Done
                    };
                } else {
                    let path = absolute_target.clone();
                    self.phase = MovePhase::Failed(MassMoveError::PermissionError(path));
                }
                true
            },
            _ => false,
        }
    }

    /// The plan as it stands after the current pair is done: the next
    /// pair's existence check, or completion after the last pair.
    pub open spec fn advanced(self) -> MassMovePlan {
        MassMovePlan {
            initial_filenames: self.initial_filenames,
            target_filenames: self.target_filenames,
            force_rewrite: self.force_rewrite,
            index: (self.index + 1) as usize,
            phase: if self.index + 1 < self.target_filenames@.len() {
                MovePhase::Checking
            } else {
                MovePhase::Done
            },
        }
    }
}

} // verus!
