use magius_fs::FsError;

#[test]
fn every_failure_has_its_message() {
    assert_eq!(
        FsError::BlockTooLarge.message(),
        "Could not write to block: data size is bigger than block size"
    );
    assert_eq!(FsError::NotFound.message(), "File not found");
    assert_eq!(FsError::IsDirectory.message(), "Cannot write to a directory");
    assert_eq!(FsError::EmptyTable.message(), "Could not read file");
    assert_eq!(FsError::CorruptTable.message(), "Could not parse data");
    assert_eq!(
        FsError::ShortRead.message(),
        "Could not read: fewer bytes are stored than were asked for"
    );
    assert_eq!(
        FsError::OutOfRange.message(),
        "Could not write: position exceeds what the container can address"
    );
}

#[test]
fn failures_compare_by_kind() {
    assert_eq!(FsError::NotFound, FsError::NotFound);
    assert_ne!(FsError::NotFound, FsError::IsDirectory);
    let copy = FsError::ShortRead;
    assert_eq!(copy, FsError::ShortRead);
}
