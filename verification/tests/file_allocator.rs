use magius_fs::{FileAllocator, FileTable, FsError, FtItem, MagiusDirectory, MagiusFile, MagiusFsIo};

#[test]
fn test_rw_file() {
    let f: Vec<u8> = vec![];
    let file_table = FileTable::new(0, None);
    let mut magius = FileAllocator::new(MagiusFsIo::new(f, 1024), file_table);
    magius.create_dir(vec!["items"]);
    magius.create_file(vec!["items", "data.txt"]);

    let content = "content";

    magius
        .write_file_by_path(vec!["items", "data.txt"], content.as_bytes())
        .unwrap();
    let found_file = magius.get_file(vec!["items", "data.txt"]).unwrap();
    if let FtItem::File(f) = found_file {
        let mut buf = Vec::new();
        magius.read_entire_file(f, &mut buf).unwrap();
        let parsed_readed = String::from_utf8(buf).unwrap();
        assert_eq!(parsed_readed[0..content.len()], content.to_owned());
    } else {
        assert!(false);
    }
}

fn fresh(block_size: usize) -> FileAllocator {
    FileAllocator::new(MagiusFsIo::new(Vec::new(), block_size), FileTable::new(0, None))
}

#[test]
fn written_data_reads_back_exactly() {
    let mut magius = fresh(4);
    magius.create_dir(vec!["items"]);
    magius.create_file(vec!["items", "data.txt"]);
    let data = b"abcdefghfff";
    assert_eq!(magius.write_file_by_path(vec!["items", "data.txt"], data), Ok(()));
    assert_eq!(
        magius.get_file(vec!["items", "data.txt"]),
        Some(&FtItem::File(MagiusFile { blocks: vec![0, 1, 2] }))
    );
    let mut buf = Vec::new();
    assert_eq!(
        magius.read_entire_file_by_path(vec!["items", "data.txt"], &mut buf),
        Ok(())
    );
    assert_eq!(buf, data);
}

#[test]
fn writes_append_to_the_file() {
    let mut magius = fresh(4);
    magius.create_file(vec!["a"]);
    magius.create_file(vec!["b"]);
    magius.write_file_by_path(vec!["a"], b"hello").unwrap();
    magius.write_file_by_path(vec!["b"], b"other").unwrap();
    magius.write_file_by_path(vec!["a"], b", world").unwrap();
    assert_eq!(
        magius.get_file(vec!["a"]),
        Some(&FtItem::File(MagiusFile { blocks: vec![0, 1, 4, 5] }))
    );
    assert_eq!(
        magius.get_file(vec!["b"]),
        Some(&FtItem::File(MagiusFile { blocks: vec![2, 3] }))
    );
    let mut buf = b"> ".to_vec();
    magius.read_entire_file_by_path(vec!["a"], &mut buf).unwrap();
    assert_eq!(buf, b"> hello, world");
    let mut buf = Vec::new();
    magius.read_entire_file_by_path(vec!["b"], &mut buf).unwrap();
    assert_eq!(buf, b"other");
}

#[test]
fn data_with_a_chunk_that_ends_in_zero_loses_that_end() {
    let mut magius = fresh(4);
    magius.create_file(vec!["f"]);
    magius.write_file_by_path(vec!["f"], &[1, 2, 3, 0, 5, 0]).unwrap();
    let mut buf = Vec::new();
    magius.read_entire_file_by_path(vec!["f"], &mut buf).unwrap();
    assert_eq!(buf, vec![1, 2, 3, 5]);
}

#[test]
fn write_to_a_missing_file_fails_and_keeps_the_blocks_taken() {
    let mut magius = fresh(4);
    assert_eq!(
        magius.write_file_by_path(vec!["nowhere"], b"abcdef"),
        Err(FsError::NotFound)
    );
    assert_eq!(magius.get_file(vec!["nowhere"]), None);
    assert_eq!(
        magius.write_file_by_path(vec![], b"x"),
        Err(FsError::NotFound)
    );
    let (io, table) = magius.into_parts();
    assert_eq!(io.blocks_count(), 3);
    assert_eq!(io.bytes().as_slice(), b"abcdef\0\0x\0\0\0");
    assert_eq!(table.close(), MagiusDirectory::default());
}

#[test]
fn write_to_a_directory_fails() {
    let mut magius = fresh(4);
    magius.create_dir(vec!["items"]);
    assert_eq!(
        magius.write_file_by_path(vec!["items"], b"abc"),
        Err(FsError::IsDirectory)
    );
    assert_eq!(
        magius.get_file(vec!["items"]),
        Some(&FtItem::Dir(MagiusDirectory::default()))
    );
    let mut buf = vec![1u8];
    assert_eq!(magius.read_entire_file_by_path(vec!["items"], &mut buf), Ok(()));
    assert_eq!(buf, vec![1u8]);
}

#[test]
fn reading_a_missing_path_reads_nothing() {
    let magius = fresh(4);
    let mut buf = vec![9u8, 9];
    assert_eq!(magius.read_entire_file_by_path(vec!["none"], &mut buf), Ok(()));
    assert_eq!(magius.read_entire_file_by_path(vec![], &mut buf), Ok(()));
    assert_eq!(buf, vec![9u8, 9]);
}

#[test]
fn reading_stops_at_the_first_block_that_is_not_held() {
    let mut io = MagiusFsIo::new(Vec::new(), 2);
    io.push(b"abcd").unwrap();
    let magius = FileAllocator::new(io, FileTable::new(0, None));
    let file = MagiusFile { blocks: vec![1, 0, 7, 1] };
    let mut buf = Vec::new();
    assert_eq!(magius.read_entire_file(&file, &mut buf), Err(FsError::ShortRead));
    assert_eq!(buf, b"cdab");
}

#[test]
fn create_needs_the_parent_directory() {
    let mut magius = fresh(4);
    magius.create_file(vec!["missing", "data.txt"]);
    magius.create_dir(vec!["missing", "sub"]);
    assert_eq!(magius.get_file(vec!["missing", "data.txt"]), None);
    assert_eq!(magius.get_file(vec!["missing"]), None);
    magius.create_dir(vec!["missing"]);
    magius.create_dir(vec!["missing", "sub"]);
    magius.create_file(vec!["missing", "sub", "data.txt"]);
    assert_eq!(
        magius.get_file(vec!["missing", "sub", "data.txt"]),
        Some(&FtItem::File(MagiusFile::default()))
    );
}

#[test]
fn create_replaces_what_is_there() {
    let mut magius = fresh(4);
    magius.create_file(vec!["f"]);
    magius.write_file_by_path(vec!["f"], b"abc").unwrap();
    magius.create_file(vec!["f"]);
    assert_eq!(
        magius.get_file(vec!["f"]),
        Some(&FtItem::File(MagiusFile::default()))
    );
    magius.write_file_by_path(vec!["f"], b"xyz").unwrap();
    assert_eq!(
        magius.get_file(vec!["f"]),
        Some(&FtItem::File(MagiusFile { blocks: vec![1] }))
    );
}

#[test]
fn get_file_mut_changes_the_table_only() {
    let mut magius = fresh(4);
    magius.create_file(vec!["f"]);
    magius.write_file_by_path(vec!["f"], b"abcdefgh").unwrap();
    match magius.get_file_mut(vec!["f"]) {
        Some(FtItem::File(file)) => file.blocks.reverse(),
        other => panic!("expected a file, found {:?}", other),
    }
    let mut buf = Vec::new();
    magius.read_entire_file_by_path(vec!["f"], &mut buf).unwrap();
    assert_eq!(buf, b"efghabcd");
    assert_eq!(magius.get_file_mut(vec!["g"]), None);
}
