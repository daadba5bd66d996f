//! Unpacking an archive into a directory, as a state machine: the library
//! decides what is to be done next, the caller does it on the filesystem and
//! reports how it went.

use vstd::prelude::*;
use crate::archive::{content_position, content_start, entry_content, AsarFile};
use crate::error::AsarError;
use crate::listing::{document_listing, entry_views, AsarEntry, EntryView};

verus! {

/// What the caller found at the destination path.
#[derive(Debug, Clone, Copy, PartialEq, Eq, Structural)]
pub enum Destination {
    /// Nothing is there.
    Missing,
    /// A directory is there.
    Directory,
    /// Something is there that is not a directory.
    Other,
}

/// Where an extraction stands.
#[derive(Debug, Clone, Copy, PartialEq, Eq, Structural)]
pub enum Phase {
    /// The destination directory is still to be created.
    NotStarted,
    /// The destination is there, and no entry is in progress.
    DestinationPrepared,
    /// The step of one entry has been handed out and not yet reported on.
    Writing,
    /// Every entry has been written.
    Done,
    /// A step failed; nothing more will be done.
    Failed,
}

/// One thing for the caller to do on the filesystem. Paths are relative to
/// the destination.
#[derive(Debug, PartialEq, Eq)]
pub enum ExtractStep {
    /// Create the destination directory and its missing ancestors.
    CreateDestination,
    /// Create a directory; one that is already there is no failure.
    CreateDir { path: String },
    /// Create the file and copy `size` bytes into it, from `position` in the
    /// archive on.
    CopyFile { path: String, position: u64, size: u64 },
}

/// The mathematical value of a step.
pub enum StepView {
    CreateDestination,
    CreateDir { path: Seq<char> },
    CopyFile { path: Seq<char>, position: u64, size: u64 },
}

impl View for ExtractStep {
    type V = StepView;

    open spec fn view(&self) -> StepView {
        match self {
            ExtractStep::CreateDestination => StepView::CreateDestination,
            ExtractStep::CreateDir { path } => StepView::CreateDir { path: path@ },
            ExtractStep::CopyFile { path, position, size } => StepView::CopyFile {
                path: path@,
                position: *position,
                size: *size,
            },
        }
    }
}

/// How a step went.
#[derive(Debug, PartialEq, Eq)]
pub enum StepOutcome {
    Completed,
    /// The filesystem refused; the text is its description of the failure.
    IoFailed(String),
    /// The copy of a file's bytes failed.
    CopyFailed,
}

/// The step that writes an entry. There is none for a file whose content
/// would start past the largest position that 64 bits can hold.
pub open spec fn step_for(header_size: u64, entry: EntryView) -> Option<StepView> {
    match entry {
        EntryView::Dir { path } => Some(StepView::CreateDir { path }),
        EntryView::File { path, offset, size } => if content_start(header_size, offset)
            <= u64::MAX {
            Some(
                StepView::CopyFile {
                    path,
                    position: content_start(header_size, offset) as u64,
                    size,
                },
            )
        } else {
            None
        },
    }
}

/// A copy step transfers the content of the file that it writes: its range
/// in an archive that holds the whole of it is the file's content there.
pub proof fn lemma_copy_is_content(header_size: u64, entry: EntryView, archive: Seq<u8>)
    requires
        entry is File,
        step_for(header_size, entry) is Some,
    ensures
        match step_for(header_size, entry) {
            Some(StepView::CopyFile { path, position, size }) => {
                &&& path == entry.path()
                &&& position + size <= archive.len() ==> entry_content(header_size, entry, archive)
                    == Some(archive.subrange(position as int, position + size))
                &&& position + size > archive.len() ==> entry_content(header_size, entry, archive)
                    is None
            },
            _ => false,
        },
{
}

/// An extraction that is done has handed out the step of every entry, in the
/// entries' order, and each was reported as completed: the completed steps
/// end with the steps of all the entries, and before them stands at most the
/// creation of the destination.
pub proof fn lemma_done_completed_all(extractor: Extractor)
    requires
        extractor.wf(),
        extractor.spec_phase() == Phase::Done,
    ensures
        extractor.written() == extractor.entries().len(),
        forall|i: int|
            0 <= i < extractor.entries().len() ==> step_for(
                extractor.header_size(),
                #[trigger] extractor.entries()[i],
            ) is Some,
        ({
            let steps = steps_of(
                extractor.header_size(),
                extractor.entries(),
                extractor.entries().len(),
            );
            extractor.completed() == steps || extractor.completed() == seq![
                StepView::CreateDestination,
            ] + steps
        }),
{
}

/// The error that a failed step leaves behind.
pub open spec fn failure_of(outcome: StepOutcome) -> Option<AsarError> {
    match outcome {
        StepOutcome::Completed => None,
        StepOutcome::IoFailed(message) => Some(AsarError::IO(message)),
        StepOutcome::CopyFailed => Some(AsarError::Unknown),
    }
}

/// An extraction in progress: the entries to write, in order, and how far
/// the work has come.
pub struct Extractor {
    entries: Vec<AsarEntry>,
    header_size: u64,
    cursor: usize,
    phase: Phase,
    failure: Option<AsarError>,
    done: Ghost<Seq<StepView>>,
}

/// The steps that write the first `count` of some entries, in their order.
pub open spec fn steps_of(header_size: u64, entries: Seq<EntryView>, count: nat) -> Seq<StepView> {
    Seq::new(count, |i: int| step_for(header_size, entries[i])->0)
}

impl Extractor {
    /// The entries to write, in the order in which they are written.
    pub closed spec fn entries(&self) -> Seq<EntryView> {
        entry_views(self.entries@)
    }

    /// The `header_size` of the archive that is being unpacked.
    pub closed spec fn header_size(&self) -> u64 {
        self.header_size
    }

    /// How many entries have been written.
    pub closed spec fn written(&self) -> nat {
        self.cursor as nat
    }

    /// Where the extraction stands.
    pub closed spec fn spec_phase(&self) -> Phase {
        self.phase
    }

    /// The error of the step that failed, if one did.
    pub closed spec fn failure(&self) -> Option<AsarError> {
        self.failure
    }

    /// The steps that were handed out and reported as completed, in the order
    /// of the reports.
    pub closed spec fn completed(&self) -> Seq<StepView> {
        self.done@
    }

    /// What holds of every extraction: no more entries are written than there
    /// are; while one is in progress it has a step; the work is done only
    /// when all are written; and there is an error exactly when it failed.
    pub open spec fn wf(&self) -> bool {
        &&& self.written() <= self.entries().len()
        &&& self.spec_phase() == Phase::Writing ==> self.written() < self.entries().len()
            && step_for(self.header_size(), self.entries()[self.written() as int]) is Some
        &&& self.spec_phase() == Phase::NotStarted ==> self.written() == 0
        &&& self.spec_phase() == Phase::Done ==> self.written() == self.entries().len()
        &&& self.spec_phase() == Phase::Failed <==> self.failure() is Some
        &&& forall|i: int|
            0 <= i < self.written() ==> step_for(self.header_size(), #[trigger] self.entries()[i])
                is Some
        &&& self.spec_phase() == Phase::NotStarted ==> self.completed().len() == 0
        &&& {
            let written = steps_of(self.header_size(), self.entries(), self.written());
            self.completed() == written || self.completed() == seq![StepView::CreateDestination]
                + written
        }
    }

    /// The step to do now, if there is one.
    pub open spec fn pending(&self) -> Option<StepView> {
        match self.spec_phase() {
            Phase::NotStarted => Some(StepView::CreateDestination),
            Phase::Writing => step_for(self.header_size(), self.entries()[self.written() as int]),
            _ => None,
        }
    }

    /// Where the extraction stands.
    pub fn phase(&self) -> (phase: Phase)
        ensures
            phase == self.spec_phase(),
    {
        self.phase
    }

    /// The step that writes the entry at `index`, if it has one.
    fn step_of(&self, index: usize) -> (step: Option<ExtractStep>)
        requires
            index < self.entries().len(),
        ensures
            step is Some <==> step_for(self.header_size(), self.entries()[index as int]) is Some,
            step matches Some(s) ==> Some(s@) == step_for(
                self.header_size(),
                self.entries()[index as int],
            ),
    {
        match &self.entries[index] {
            AsarEntry::Dir(path) => Some(ExtractStep::CreateDir { path: path.clone() }),
            AsarEntry::File(file) => match content_position(self.header_size, file.offset) {
                Some(position) => Some(
                    ExtractStep::CopyFile { path: file.filename.clone(), position, size: file.size },
                ),
                None => None,
            },
        }
    }

    /// Hands out the step to do now. With the destination prepared and no
    /// entry in progress, this takes up the next entry: its step is handed
    /// out, or the extraction is done where no entry is left, or it has
    /// failed where the entry has no step. A step that was handed out and not
    /// yet reported on is handed out again. Once the extraction is done or
    /// has failed there is none.
    pub fn next_step(&mut self) -> (step: Option<ExtractStep>)
        requires
            old(self).wf(),
        ensures
            final(self).wf(),
            final(self).entries() == old(self).entries(),
            final(self).header_size() == old(self).header_size(),
            final(self).written() == old(self).written(),
            final(self).completed() == old(self).completed(),
            match step {
                Some(s) => final(self).pending() == Some(s@),
                None => final(self).pending() is None,
            },
            old(self).spec_phase() != Phase::DestinationPrepared ==> {
                &&& final(self).spec_phase() == old(self).spec_phase()
                &&& final(self).failure() == old(self).failure()
            },
            old(self).spec_phase() == Phase::DestinationPrepared ==> {
                if old(self).written() == old(self).entries().len() {
                    final(self).spec_phase() == Phase::Done
                } else if step_for(
                    old(self).header_size(),
                    old(self).entries()[old(self).written() as int],
                ) is Some {
                    final(self).spec_phase() == Phase::Writing
                } else {
                    final(self).spec_phase() == Phase::Failed && final(self).failure() == Some(
                        AsarError::Unknown,
                    )
                }
            },
    {
        match self.phase {
            Phase::NotStarted => Some(ExtractStep::CreateDestination),
            Phase::Writing => self.step_of(self.cursor),
            Phase::DestinationPrepared => {
                if self.cursor == self.entries.len() {
                    self.phase = Phase::Done;
                    None
                } else {
                    let step = self.step_of(self.cursor);
                    match step {
                        Some(_) => {
                            self.phase = Phase::Writing;
                        },
                        None => {
                            self.phase = Phase::Failed;
                            self.failure = Some(AsarError::Unknown);
                        },
                    }
                    step
                }
            },
            Phase::Done => None,
            Phase::Failed => None,
        }
    }

    /// Takes note of how the step that was handed out went. A completed step
    /// prepares the next entry; a failed one ends the extraction with its
    /// error. Without a step handed out, nothing changes.
    pub fn record(&mut self, outcome: StepOutcome)
        requires
            old(self).wf(),
        ensures
            final(self).wf(),
            final(self).entries() == old(self).entries(),
            final(self).header_size() == old(self).header_size(),
            old(self).pending() is None ==> {
                &&& final(self).spec_phase() == old(self).spec_phase()
                &&& final(self).written() == old(self).written()
                &&& final(self).failure() == old(self).failure()
            },
            final(self).completed() == match old(self).pending() {
                Some(step) if outcome is Completed => old(self).completed().push(step),
                _ => old(self).completed(),
            },
            old(self).pending() is Some && outcome is Completed ==> {
                &&& final(self).spec_phase() == Phase::DestinationPrepared
                &&& final(self).written() == old(self).written() + (if old(self).spec_phase()
                    == Phase::Writing {
                    1nat
                } else {
                    0nat
                })
                &&& final(self).failure() is None
            },
            old(self).pending() is Some && !(outcome is Completed) ==> {
                &&& final(self).spec_phase() == Phase::Failed
                &&& final(self).written() == old(self).written()
                &&& final(self).failure() == failure_of(outcome)
            },
    {
        match self.phase {
            Phase::NotStarted | Phase::Writing => {
                match outcome {
                    StepOutcome::Completed => {
                        let ghost step = self.pending()->0;
                        let ghost before = steps_of(
                            self.header_size(),
                            self.entries(),
                            self.written(),
                        );
                        self.done = Ghost(self.done@.push(step));
                        if self.phase == Phase::Writing {
                            let total: usize = self.entries.len();
                            assert(self.cursor < total) by {
                                assert(self.entries().len() == total);
                            }
                            self.cursor = self.cursor + 1;
                        }
                        self.phase = Phase::DestinationPrepared;
                        proof {
                            let after = steps_of(
                                self.header_size(),
                                self.entries(),
                                self.written(),
                            );
                            let first = seq![StepView::CreateDestination];
                            if step == StepView::CreateDestination && after == before {
                                assert(self.completed() =~= first + after);
                            } else {
                                assert(after =~= before.push(step));
                                assert((first + before).push(step) =~= first + after);
                            }
                        }
                    },
                    StepOutcome::IoFailed(message) => {
                        self.phase = Phase::Failed;
                        self.failure = Some(AsarError::IO(message));
                    },
                    StepOutcome::CopyFailed => {
                        self.phase = Phase::Failed;
                        self.failure = Some(AsarError::Unknown);
                    },
                }
            },
            _ => {},
        }
    }

    /// The result of an extraction that has ended: success where every entry
    /// was written, else the error of the step that failed.
    pub fn finish(self) -> (result: Result<(), AsarError>)
        requires
            self.wf(),
            self.spec_phase() == Phase::Done || self.spec_phase() == Phase::Failed,
        ensures
            match result {
                Ok(_) => self.spec_phase() == Phase::Done,
                Err(e) => self.spec_phase() == Phase::Failed && self.failure() == Some(e),
            },
    {
        match self.failure {
            Some(e) => Err(e),
            None => Ok(()),
        }
    }
}

impl AsarFile {
    /// Starts the extraction of the whole archive into a destination of which
    /// the caller says what stands there. A destination that is not a
    /// directory is refused, and so is an index with a malformed node: in
    /// both cases there is no extraction, and so nothing to write.
    pub fn extract_all(&self, destination: Destination) -> (started: Result<Extractor, AsarError>)
        ensures
            match started {
                Ok(extractor) => {
                    &&& destination != Destination::Other
                    &&& document_listing(self.document()) == Some(extractor.entries())
                    &&& extractor.wf()
                    &&& extractor.header_size() == self.spec_header_size()
                    &&& extractor.written() == 0
                    &&& extractor.failure() is None
                    &&& extractor.completed().len() == 0
                    &&& extractor.spec_phase() == if destination == Destination::Missing {
                        Phase::NotStarted
                    } else {
                        Phase::DestinationPrepared
                    }
                },
                Err(e) => if destination == Destination::Other {
                    e is InvalidDirectory
                } else {
                    e is JsonHeaderError && document_listing(self.document()) is None
                },
            },
    {
        if destination == Destination::Other {
            return Err(AsarError::InvalidDirectory);
        }
        let entries = match self.list_files() {
            Ok(entries) => entries,
            Err(_) => { return Err(AsarError::JsonHeaderError); },
        };
        let phase = if destination == Destination::Missing {
            Phase::NotStarted
        } else {
            Phase::DestinationPrepared
        };
        let extractor = Extractor {
            entries,
            header_size: self.header_size(),
            cursor: 0,
            phase,
            failure: None,
            done: Ghost(Seq::empty()),
        };
        assert(extractor.completed() =~= steps_of(
            extractor.header_size(),
            extractor.entries(),
            extractor.written(),
        ));
        Ok(extractor)
    }
}

} // verus!
