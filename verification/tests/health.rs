//! What is kept of the faults of a segment.

use chronoxide_series::error::{Error, ErrorKind, Message};
use chronoxide_series::health::{ArtifactFault, ArtifactHealth, FaultyFiles, SegmentFile};

fn fault(files: FaultyFiles, kind: ErrorKind, text: &'static str) -> ArtifactFault {
    ArtifactFault {
        files,
        error: Error { kind, message: Message::Text(text) },
    }
}

#[test]
fn sound_artifacts_are_readable() {
    let health = ArtifactHealth::new();
    assert_eq!(health.sticky_artifacts(), 0);
    assert_eq!(health.check_readable(SegmentFile::Series), Ok(()));
    assert_eq!(health.check_readable(SegmentFile::ChunkIndex), Ok(()));
}

#[test]
fn the_first_fault_of_an_artifact_stays() {
    let mut health = ArtifactHealth::new();
    let first = fault(FaultyFiles::Series, ErrorKind::InvalidData, "first");
    health.record(first);
    health.record(fault(FaultyFiles::Series, ErrorKind::InvalidData, "second"));
    assert_eq!(health.sticky_artifacts(), 1);
    assert_eq!(health.check_readable(SegmentFile::Series), Err(first));
    assert_eq!(health.check_readable(SegmentFile::ChunkIndex), Ok(()));
}

#[test]
fn a_contradiction_is_kept_for_both_artifacts() {
    let mut health = ArtifactHealth::new();
    let index = fault(FaultyFiles::ChunkIndex, ErrorKind::UnexpectedEof, "index");
    let both = fault(FaultyFiles::Both, ErrorKind::InvalidData, "both");
    health.record(index);
    health.record(both);
    assert_eq!(health.sticky_artifacts(), 2);
    assert_eq!(health.check_readable(SegmentFile::ChunkIndex), Err(index));
    assert_eq!(
        health.check_readable(SegmentFile::Series),
        Err(fault(FaultyFiles::Series, ErrorKind::InvalidData, "both"))
    );
}

#[test]
fn a_size_that_does_not_fit_is_no_fault() {
    let mut health = ArtifactHealth::new();
    health.record(fault(FaultyFiles::Both, ErrorKind::OutOfMemory, "charge"));
    assert_eq!(health, ArtifactHealth::new());
}
