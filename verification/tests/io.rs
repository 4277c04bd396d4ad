use magius_fs::{FsError, MagiusFsIo};

#[test]
fn mod_test_alloc_and_read() {
    let v_hd: Vec<u8> = Vec::new();
    let mut magius_fs = MagiusFsIo::new(v_hd, 1024);
    let a = "testing".as_bytes();
    magius_fs.push(a).unwrap();
    let readed_bytes = magius_fs.read_block(0).unwrap();
    assert_eq!(&readed_bytes[0..a.len()], a);

    let b = "aaaaa".as_bytes();
    magius_fs.push(b).unwrap();
    let readed_bytes = magius_fs.read_block(1).unwrap();
    assert_eq!(&readed_bytes[0..b.len()], b);
}

#[test]
fn test_init_from_already_existing() {
    let v_hd: Vec<u8> = Vec::new();
    let mut magius_fs = MagiusFsIo::new(v_hd, 1024);
    let a = "testing".as_bytes();
    magius_fs.push(a).unwrap();
    let readed_bytes = magius_fs.read_block(0).unwrap();
    assert_eq!(&readed_bytes[0..a.len()], a);

    let written_hd = magius_fs.into_file();

    let mut magius_fs = MagiusFsIo::new(written_hd, 1024);
    let readed_bytes = magius_fs.read_block(0).unwrap();
    assert_eq!(&readed_bytes[0..a.len()], a);

    let b = "foo".as_bytes();
    magius_fs.push(b).unwrap();
    let readed_bytes = magius_fs.read_block(1).unwrap();
    assert_eq!(&readed_bytes[0..b.len()], b);

    let readed_bytes = magius_fs.read_block(0).unwrap();
    assert_eq!(&readed_bytes[0..a.len()], a);
}

#[test]
fn test_write_blocks() {
    let v_hd: Vec<u8> = Vec::new();
    let mut magius_fs = MagiusFsIo::new(v_hd, 4);
    let a = "abcdefghfff".as_bytes();
    magius_fs.push(a).unwrap();
    let block1 = magius_fs.read_block(0).unwrap();
    let block2 = magius_fs.read_block(1).unwrap();
    assert_eq!(block1, &a[0..4]);
    assert_eq!(block2, &a[4..8]);
}

#[test]
fn push_splits_into_padded_blocks() {
    let mut io = MagiusFsIo::new(Vec::new(), 4);
    assert_eq!(io.push(b"abcdefghfff"), Ok(vec![0, 1, 2]));
    assert_eq!(io.bytes().as_slice(), b"abcdefghfff\0");
    assert_eq!(io.blocks_count(), 3);
    assert_eq!(io.read_block(0), Ok(b"abcd".to_vec()));
    assert_eq!(io.read_block(1), Ok(b"efgh".to_vec()));
    assert_eq!(io.read_block(2), Ok(b"fff".to_vec()));
    assert_eq!(io.read_block(3), Err(FsError::ShortRead));
}

#[test]
fn push_takes_one_block_per_block_size_of_data() {
    for (len, blocks) in [(0usize, 0usize), (1, 1), (3, 1), (4, 1), (5, 2), (8, 2), (9, 3)] {
        let mut io = MagiusFsIo::new(Vec::new(), 4);
        let data = vec![7u8; len];
        let written = io.push(&data).unwrap();
        assert_eq!(written.len(), blocks);
        assert_eq!(io.blocks_count(), blocks as u64);
        assert_eq!(io.bytes().len(), blocks * 4);
    }
}

#[test]
fn pushed_data_reads_back_from_its_blocks() {
    let mut io = MagiusFsIo::new(Vec::new(), 8);
    io.push(b"first").unwrap();
    let data: Vec<u8> = (1..=100u8).collect();
    let written = io.push(&data).unwrap();
    assert_eq!(written, (1..=13u64).collect::<Vec<u64>>());
    let mut read = Vec::new();
    for block in written {
        read.extend(io.read_block(block).unwrap());
    }
    assert_eq!(read, data);
    assert_eq!(io.read_block(0), Ok(b"first".to_vec()));
}

#[test]
fn reading_strips_only_the_zero_bytes_at_the_end() {
    let mut io = MagiusFsIo::new(Vec::new(), 8);
    io.push(&[1, 0, 2, 0, 0]).unwrap();
    assert_eq!(io.read_block(0), Ok(vec![1, 0, 2]));
    io.push(&[0, 0]).unwrap();
    assert_eq!(io.read_block(1), Ok(vec![]));
    io.push(&[3, 3, 3, 3, 3, 3, 3, 0, 4]).unwrap();
    assert_eq!(io.read_block(2), Ok(vec![3, 3, 3, 3, 3, 3, 3]));
    assert_eq!(io.read_block(3), Ok(vec![4]));
}

#[test]
fn write_block_refuses_more_than_a_block() {
    let mut io = MagiusFsIo::new(Vec::new(), 4);
    io.push(b"abcd").unwrap();
    assert_eq!(io.write_block(0, b"12345"), Err(FsError::BlockTooLarge));
    assert_eq!(io.read_block(0), Ok(b"abcd".to_vec()));
    assert_eq!(io.bytes().as_slice(), b"abcd");
    assert_eq!(io.blocks_count(), 1);
    assert_eq!(io.write_block(0, b"1234"), Ok(()));
    assert_eq!(io.read_block(0), Ok(b"1234".to_vec()));
}

#[test]
fn write_block_pads_and_grows_the_container() {
    let mut io = MagiusFsIo::new(Vec::new(), 4);
    assert_eq!(io.write_block(2, b"xy"), Ok(()));
    assert_eq!(io.bytes().as_slice(), b"\0\0\0\0\0\0\0\0xy\0\0");
    assert_eq!(io.blocks_count(), 0);
    assert_eq!(io.write_block(0, b"abcd"), Ok(()));
    assert_eq!(io.write_block(0, b"z"), Ok(()));
    assert_eq!(io.bytes().as_slice(), b"z\0\0\0\0\0\0\0xy\0\0");
    assert_eq!(io.read_block(0), Ok(b"z".to_vec()));
    assert_eq!(io.read_block(1), Ok(vec![]));
    assert_eq!(io.read_block(2), Ok(b"xy".to_vec()));
    assert_eq!(io.write_block(1, b""), Ok(()));
    assert_eq!(io.bytes().len(), 12);
}

#[test]
fn write_block_beyond_the_address_space_fails() {
    let mut io = MagiusFsIo::new(b"abcd".to_vec(), 4);
    assert_eq!(io.write_block(u64::MAX, b"x"), Err(FsError::OutOfRange));
    assert_eq!(
        io.write_block((usize::MAX / 4) as u64, b"x"),
        Err(FsError::OutOfRange)
    );
    assert_eq!(io.bytes().as_slice(), b"abcd");
    assert_eq!(io.write_blocks(u64::MAX, b"x"), Err(FsError::OutOfRange));
    assert_eq!(io.write_blocks(u64::MAX, b""), Ok(vec![]));
    assert_eq!(io.read_block(u64::MAX), Err(FsError::ShortRead));
    assert_eq!(io.bytes().as_slice(), b"abcd");
}

#[test]
fn write_blocks_writes_from_the_given_block_on() {
    let mut io = MagiusFsIo::new(Vec::new(), 2);
    assert_eq!(io.write_blocks(3, b"abcde"), Ok(vec![3, 4, 5]));
    assert_eq!(io.bytes().as_slice(), b"\0\0\0\0\0\0abcde\0");
    assert_eq!(io.blocks_count(), 0);
    assert_eq!(io.push(b"xyz"), Ok(vec![0, 1]));
    assert_eq!(io.bytes().as_slice(), b"xyz\0\0\0abcde\0");
}

#[test]
fn open_counts_whole_blocks_only() {
    let io = MagiusFsIo::new(vec![1u8; 11], 4);
    assert_eq!(io.blocks_count(), 2);
    assert_eq!(io.block_size(), 4);
    let mut io = MagiusFsIo::new(vec![1u8; 11], 4);
    assert_eq!(io.push(b"ab"), Ok(vec![2]));
    assert_eq!(io.bytes().as_slice(), b"\x01\x01\x01\x01\x01\x01\x01\x01ab\0\0");
    assert_eq!(MagiusFsIo::new(vec![1u8; 3], 4).blocks_count(), 0);
    assert_eq!(MagiusFsIo::new(vec![1u8; 12], 4).blocks_count(), 3);
}

#[test]
fn read_block_needs_the_whole_block() {
    let io = MagiusFsIo::new(vec![5u8; 7], 4);
    assert_eq!(io.read_block(0), Ok(vec![5u8; 4]));
    assert_eq!(io.read_block(1), Err(FsError::ShortRead));
    let empty = MagiusFsIo::new(Vec::new(), 4);
    assert_eq!(empty.read_block(0), Err(FsError::ShortRead));
}

#[test]
fn raw_block_keeps_the_padding() {
    let mut io = MagiusFsIo::new(Vec::new(), 4);
    io.push(b"abcdefghfff").unwrap();
    assert_eq!(io.read_raw_block(0), Ok(b"abcd".to_vec()));
    assert_eq!(io.read_raw_block(2), Ok(b"fff\0".to_vec()));
    assert_eq!(io.read_raw_block(3), Err(FsError::ShortRead));
    io.push(&[0, 1, 0, 0]).unwrap();
    assert_eq!(io.read_raw_block(3), Ok(vec![0, 1, 0, 0]));
    assert_eq!(io.read_block(3), Ok(vec![0, 1]));
}
