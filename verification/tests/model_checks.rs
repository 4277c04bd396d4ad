use std::collections::BTreeMap;

use magius_fs::{
    BytesSegment, FileAllocator, FileTable, FtItem, MagiusDirectory, MagiusFile, MagiusFs,
    MagiusFsIo,
};

/// A small generator of numbers that look random and come out the same on
/// every run.
struct Numbers(u64);

impl Numbers {
    fn next(&mut self) -> u64 {
        self.0 = self.0.wrapping_mul(6364136223846793005).wrapping_add(1442695040888963407);
        self.0 >> 33
    }

    fn below(&mut self, bound: u64) -> u64 {
        self.next() % bound
    }

    fn name(&mut self) -> String {
        let alphabet = ['a', 'b', 'B', 'z', '.', ' ', 'é', '日', '\u{10348}'];
        let length = self.below(4) as usize;
        (0..length).map(|_| alphabet[self.below(alphabet.len() as u64) as usize]).collect()
    }

    fn payload(&mut self, length: usize) -> Vec<u8> {
        (0..length).map(|_| 1 + self.below(255) as u8).collect()
    }
}

#[test]
fn directory_behaves_like_an_ordered_map() {
    let mut numbers = Numbers(7);
    let mut dir = MagiusDirectory::default();
    let mut model: BTreeMap<String, u64> = BTreeMap::new();
    for step in 0..600u64 {
        let name = numbers.name();
        if numbers.below(3) == 0 {
            let found = dir.get(&name);
            let expected = model.get(&name).map(|block| FtItem::File(MagiusFile { blocks: vec![*block] }));
            assert_eq!(found, expected.as_ref());
        } else {
            dir.insert(&name, FtItem::File(MagiusFile { blocks: vec![step] }));
            model.insert(name, step);
        }
        assert_eq!(dir.len(), model.len());
    }
    for (position, (name, block)) in model.iter().enumerate() {
        let (found_name, found_item) = dir.entry(position).unwrap();
        assert_eq!(found_name, name);
        assert_eq!(found_item, &FtItem::File(MagiusFile { blocks: vec![*block] }));
    }
    assert_eq!(dir.entry(model.len()), None);
}

#[test]
fn paths_resolve_as_in_nested_maps() {
    let mut numbers = Numbers(11);
    let names = ["a", "b", "c"];
    let mut root = MagiusDirectory::default();
    let mut files: BTreeMap<Vec<&str>, u64> = BTreeMap::new();
    let mut dirs: Vec<Vec<&str>> = vec![vec![]];
    for step in 0..400u64 {
        let depth = 1 + numbers.below(3) as usize;
        let path: Vec<&str> = (0..depth).map(|_| names[numbers.below(3) as usize]).collect();
        let parent = path[..depth - 1].to_vec();
        let parent_exists = dirs.contains(&parent);
        let as_dir = numbers.below(2) == 0;
        let item = if as_dir {
            FtItem::Dir(MagiusDirectory::default())
        } else {
            FtItem::File(MagiusFile { blocks: vec![step] })
        };
        root.insert_in_path(path.clone(), item);
        if parent_exists {
            files.retain(|known, _| !known.starts_with(&path));
            dirs.retain(|known| !known.starts_with(&path));
            if as_dir {
                dirs.push(path.clone());
            } else {
                files.insert(path.clone(), step);
            }
        }
        let probe: Vec<&str> = (0..1 + numbers.below(3) as usize)
            .map(|_| names[numbers.below(3) as usize])
            .collect();
        match root.get_by_path(probe.clone()) {
            Some(FtItem::File(file)) => assert_eq!(Some(&file.blocks[0]), files.get(&probe)),
            Some(FtItem::Dir(_)) => assert!(dirs.contains(&probe)),
            None => assert!(!files.contains_key(&probe) && !dirs.contains(&probe)),
        }
    }
}

#[test]
fn every_clean_payload_reads_back_from_every_block_size() {
    let mut numbers = Numbers(3);
    for block_size in 1..=9usize {
        let mut io = MagiusFsIo::new(Vec::new(), block_size);
        let mut expected_count = 0u64;
        for length in 0..=40usize {
            let data = numbers.payload(length);
            let blocks = io.push(&data).unwrap();
            assert_eq!(blocks.len(), (length + block_size - 1) / block_size);
            assert_eq!(blocks.first().copied().unwrap_or(expected_count), expected_count);
            expected_count += blocks.len() as u64;
            assert_eq!(io.blocks_count(), expected_count);
            let mut read = Vec::new();
            for block in blocks {
                read.extend(io.read_block(block).unwrap());
            }
            assert_eq!(read, data);
        }
        assert_eq!(io.bytes().len() as u64, expected_count * block_size as u64);
    }
}

#[test]
fn files_keep_their_content_while_others_are_written() {
    let mut numbers = Numbers(5);
    let mut magius = FileAllocator::new(MagiusFsIo::new(Vec::new(), 5), FileTable::new(0, None));
    magius.create_dir(vec!["d"]);
    let paths = [vec!["x"], vec!["d", "y"], vec!["d", "z"]];
    let mut contents: Vec<Vec<u8>> = vec![Vec::new(); paths.len()];
    for path in &paths {
        magius.create_file(path.clone());
    }
    for _ in 0..120 {
        let which = numbers.below(paths.len() as u64) as usize;
        let length = numbers.below(17) as usize;
        let data = numbers.payload(length);
        magius.write_file_by_path(paths[which].clone(), &data).unwrap();
        contents[which].extend(&data);
        for (path, content) in paths.iter().zip(&contents) {
            let mut buf = Vec::new();
            magius.read_entire_file_by_path(path.clone(), &mut buf).unwrap();
            assert_eq!(&buf, content);
        }
    }
}

#[test]
fn segments_read_back_whatever_was_allocated() {
    let mut numbers = Numbers(13);
    let mut fs = MagiusFs::open(Vec::new());
    let mut stored: Vec<(BytesSegment, Vec<u8>)> = Vec::new();
    let mut end = 0usize;
    for _ in 0..200 {
        let length = numbers.below(12) as usize;
        let data: Vec<u8> = (0..length).map(|_| numbers.below(256) as u8).collect();
        let segment = fs.allocate(&data).unwrap();
        assert_eq!(segment, BytesSegment { offset: end, length });
        end += length;
        stored.push((segment, data));
        assert_eq!(fs.current_offset(), end);
    }
    for (segment, data) in stored {
        assert_eq!(fs.read_segment(segment), Ok(data));
    }
    assert_eq!(fs.into_file().len(), end);
}
