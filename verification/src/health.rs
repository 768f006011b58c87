//! What is known of the artifacts of a segment: a fault that was seen in an
//! artifact stays with it, and refuses every later read of it.

use vstd::prelude::*;

use crate::error::{Error, ErrorKind};

verus! {

/// An artifact of a segment that metadata is read from.
#[derive(Debug, Clone, Copy, PartialEq, Eq, Structural)]
pub enum SegmentFile {
    Series,
    ChunkIndex,
}

/// Which artifacts a fault is in.
#[derive(Debug, Clone, Copy, PartialEq, Eq, Structural)]
pub enum FaultyFiles {
    Series,
    ChunkIndex,
    /// Each artifact may be sound, but they contradict each other.
    Both,
}

/// The bytes of an artifact are not what they must be.
#[derive(Debug, Clone, Copy, PartialEq, Eq)]
pub struct ArtifactFault {
    pub files: FaultyFiles,
    pub error: Error,
}

impl FaultyFiles {
    /// Whether an artifact is among the faulty ones.
    pub open spec fn has(self, file: SegmentFile) -> bool {
        match file {
            SegmentFile::Series => self !is ChunkIndex,
            SegmentFile::ChunkIndex => self !is Series,
        }
    }

    /// The faulty artifacts where only one is.
    pub open spec fn only(file: SegmentFile) -> FaultyFiles {
        match file {
            SegmentFile::Series => FaultyFiles::Series,
            SegmentFile::ChunkIndex => FaultyFiles::ChunkIndex,
        }
    }
}

/// The first fault of each artifact.
#[derive(Debug, Clone, Copy, PartialEq, Eq)]
pub struct ArtifactHealth {
    pub series: Option<Error>,
    pub chunk_index: Option<Error>,
}

/// The fault that an artifact has after another one was seen: the first stays.
pub open spec fn first_fault(known: Option<Error>, concerned: bool, error: Error) -> Option<Error> {
    if known is None && concerned {
        Some(error)
    } else {
        known
    }
}

impl ArtifactHealth {
    /// No artifact has a fault.
    pub open spec fn sound() -> ArtifactHealth {
        ArtifactHealth { series: None, chunk_index: None }
    }

    /// The first fault of an artifact.
    pub open spec fn fault_of(self, file: SegmentFile) -> Option<Error> {
        match file {
            SegmentFile::Series => self.series,
            SegmentFile::ChunkIndex => self.chunk_index,
        }
    }

    /// What is known after a fault was seen. A size that does not fit the
    /// machine is no fault of an artifact.
    pub open spec fn with(self, fault: ArtifactFault) -> ArtifactHealth {
        if fault.error.kind is OutOfMemory {
            self
        } else {
            ArtifactHealth {
                series: first_fault(
                    self.series,
                    fault.files.has(SegmentFile::Series),
                    fault.error,
                ),
                chunk_index: first_fault(
                    self.chunk_index,
                    fault.files.has(SegmentFile::ChunkIndex),
                    fault.error,
                ),
            }
        }
    }

    /// How many artifacts have a fault.
    pub open spec fn faulty(self) -> nat {
        (if self.series is Some {
            1nat
        } else {
            0
        }) + (if self.chunk_index is Some {
            1nat
        } else {
            0
        })
    }

    /// The fault with which a read of an artifact is refused.
    pub open spec fn refusal(self, file: SegmentFile) -> Result<(), ArtifactFault> {
        match self.fault_of(file) {
            None => Ok(()),
            Some(error) => Err(ArtifactFault { files: FaultyFiles::only(file), error }),
        }
    }

    /// The health of artifacts in which no fault was seen.
    pub fn new() -> (health: ArtifactHealth)
        ensures
            health == Self::sound(),
    {
        ArtifactHealth { series: None, chunk_index: None }
    }

    /// How many artifacts have a fault.
    pub fn sticky_artifacts(&self) -> (count: usize)
        ensures
            count == self.faulty(),
    {
        let mut count: usize = 0;
        if self.series.is_some() {
            count += 1;
        }
        if self.chunk_index.is_some() {
            count += 1;
        }
        count
    }

    /// Admits a read of an artifact, or refuses it with the first fault that was
    /// seen in the artifact.
    pub fn check_readable(&self, file: SegmentFile) -> (result: Result<(), ArtifactFault>)
        ensures
            result == self.refusal(file),
    {
        match file {
            SegmentFile::Series => match self.series {
                None => Ok(()),
                Some(error) => Err(ArtifactFault { files: FaultyFiles::Series, error }),
            },
            SegmentFile::ChunkIndex => match self.chunk_index {
                None => Ok(()),
                Some(error) => Err(ArtifactFault { files: FaultyFiles::ChunkIndex, error }),
            },
        }
    }

    /// Keeps a fault.
    pub fn record(&mut self, fault: ArtifactFault)
        ensures
            *final(self) == old(self).with(fault),
    {
        if fault.error.kind == ErrorKind::OutOfMemory {
            return;
        }
        if self.series.is_none() && fault.files != FaultyFiles::ChunkIndex {
            self.series = Some(fault.error);
        }
        if self.chunk_index.is_none() && fault.files != FaultyFiles::Series {
            self.chunk_index = Some(fault.error);
        }
    }
}

/// A fault that was recorded refuses every later read of its artifacts, and
/// whatever is recorded later leaves it as it is.
pub proof fn sticky_fault_law(
    health: ArtifactHealth,
    fault: ArtifactFault,
    later: ArtifactFault,
    file: SegmentFile,
)
    ensures
        fault.error.kind !is OutOfMemory && fault.files.has(file) ==> health.with(fault).refusal(
            file,
        ) is Err,
        health.refusal(file) is Err ==> health.with(later).refusal(file) == health.refusal(file),
{
}

/// A fault leaves the other artifact readable.
pub proof fn attributed_fault_law(
    health: ArtifactHealth,
    fault: ArtifactFault,
    file: SegmentFile,
)
    requires
        !fault.files.has(file),
    ensures
        health.with(fault).refusal(file) == health.refusal(file),
{
}

/// The first fault of an artifact is the one that is reported of it from then on, and of it
/// alone; until then nothing is, and what only lacked memory is never recorded.
pub proof fn recorded_fault_law(
    health: ArtifactHealth,
    fault: ArtifactFault,
    file: SegmentFile,
    other: SegmentFile,
)
    ensures
        ArtifactHealth::sound().refusal(file) is Ok,
        fault.error.kind is OutOfMemory ==> health.with(fault) == health,
        health.refusal(file) is Ok && fault.error.kind !is OutOfMemory && fault.files.has(file) ==> {
            let refusal = health.with(fault).refusal(file);
            &&& refusal is Err
            &&& refusal->Err_0.error == fault.error
            &&& refusal->Err_0.files.has(other) <==> other == file
        },
        FaultyFiles::Both.has(file),
        FaultyFiles::Series.has(file) <==> file is Series,
        FaultyFiles::ChunkIndex.has(file) <==> file is ChunkIndex,
{
}

/// The artifacts that count as faulty are those whose reading is refused.
pub proof fn faulty_count_law(health: ArtifactHealth)
    ensures
        health.faulty() == 0 <==> health.refusal(SegmentFile::Series) is Ok && health.refusal(
            SegmentFile::ChunkIndex,
        ) is Ok,
        health.faulty() == 2 <==> health.refusal(SegmentFile::Series) is Err && health.refusal(
            SegmentFile::ChunkIndex,
        ) is Err,
        health.faulty() <= 2,
{
}

} // verus!
