use gc_iso::error::Error;
use gc_iso::fst::{calculate_fst_len, do_output_prep, FstEntry, FstNodeType};
use gc_iso::image::{write_iso, DOL_ALIGNMENT, FST_ALIGNMENT, OFFSET_DOL_OFFSET};
use gc_iso::tree::{Directory, File, Node};

fn file(name: &str, data: Vec<u8>) -> Node {
    Node::File(File { name: name.as_bytes().to_vec(), data })
}

fn dir(name: &str, children: Vec<Node>) -> Node {
    Node::Directory(Directory { name: name.as_bytes().to_vec(), children })
}

fn root(children: Vec<Node>) -> Directory {
    Directory { name: b"root".to_vec(), children }
}

fn system(children: Vec<Node>) -> Node {
    dir("&&systemdata", children)
}

fn standard_system() -> Node {
    system(vec![
        file("iso.hdr", vec![0xAA; 4]),
        file("AppLoader.ldr", vec![0; 8]),
        file("game.dol", (1..=16).collect()),
    ])
}

fn be32(b: &[u8], at: usize) -> u32 {
    u32::from_be_bytes([b[at], b[at + 1], b[at + 2], b[at + 3]])
}

fn round_up(x: usize, a: usize) -> usize {
    (x + a - 1) / a * a
}

#[test]
fn scenario_single_file_image() {
    let tree = root(vec![standard_system(), file("a.txt", vec![1, 2, 3, 4, 5])]);
    let img = write_iso(&tree).unwrap();

    assert_eq!(&img[0..4], &[0xAA; 4]);
    assert_eq!(&img[4..12], &[0; 8]);
    let dol = round_up(12, DOL_ALIGNMENT);
    assert_eq!(dol, 1024);
    assert!(img[12..dol].iter().all(|&b| b == 0));
    assert_eq!(img[dol..dol + 16].to_vec(), (1..=16).collect::<Vec<u8>>());
    let fst = round_up(dol + 16, FST_ALIGNMENT);
    assert_eq!(fst, 1280);

    let fst_len = 12 + 12 + "a.txt".len() + 1;
    assert_eq!(fst_len, 30);
    // root entry: directory, field B = entry count 2
    assert_eq!(&img[fst..fst + 12], &[1, 0, 0, 0, 0, 0, 0, 0, 0, 0, 0, 2]);
    let payload = round_up(fst + fst_len, 32);
    assert_eq!(payload, 1312);
    let e = &img[fst + 12..fst + 24];
    assert_eq!(e[0], 0);
    assert_eq!(e[1], 0);
    assert_eq!(u16::from_be_bytes([e[2], e[3]]), 0);
    assert_eq!(be32(e, 4) as usize, payload);
    assert_eq!(be32(e, 8), 5);
    assert_eq!(&img[fst + 24..fst + 30], b"a.txt\0");
    assert_eq!(&img[payload..payload + 5], &[1, 2, 3, 4, 5]);
    assert_eq!(img.len(), payload + 5 + 27);
    assert!(img[payload + 5..].iter().all(|&b| b == 0));

    assert_eq!(be32(&img, OFFSET_DOL_OFFSET), 1024);
    assert_eq!(be32(&img, OFFSET_DOL_OFFSET + 4), 1280);
    assert_eq!(be32(&img, OFFSET_DOL_OFFSET + 8), 30);
    assert_eq!(be32(&img, OFFSET_DOL_OFFSET + 12), 30);
}

#[test]
fn nested_directories_and_alignment() {
    let tree = root(vec![
        file("x", vec![7; 33]),
        standard_system(),
        dir("d", vec![file("e", vec![]), dir("empty", vec![]), file("f", vec![9; 32])]),
    ]);
    let img = write_iso(&tree).unwrap();
    let fst = be32(&img, OFFSET_DOL_OFFSET + 4) as usize;
    let fst_len = be32(&img, OFFSET_DOL_OFFSET + 8) as usize;
    assert_eq!(fst % FST_ALIGNMENT, 0);
    assert_eq!(be32(&img, OFFSET_DOL_OFFSET) as usize % DOL_ALIGNMENT, 0);
    let count = be32(&img, fst + 8) as usize;
    assert_eq!(count, 6);
    // entries: 0 root, 1 x, 2 d, 3 e, 4 empty, 5 f
    assert_eq!(fst_len, count * 12 + "x\0d\0e\0empty\0f\0".len());
    let entry = |k: usize| &img[fst + 12 * k..fst + 12 * k + 12];
    let bank = &img[fst + 12 * count..fst + fst_len];
    assert_eq!(bank, b"x\0d\0e\0empty\0f\0");
    // directory d: parent 0, end 6
    assert_eq!(entry(2)[0], 1);
    assert_eq!(be32(entry(2), 4), 0);
    assert_eq!(be32(entry(2), 8), 6);
    // empty directory: parent 2, end = own index + 1
    assert_eq!(entry(4)[0], 1);
    assert_eq!(be32(entry(4), 4), 2);
    assert_eq!(be32(entry(4), 8), 5);
    for k in [1usize, 3, 5] {
        let e = entry(k);
        assert_eq!(e[0], 0);
        let off = be32(e, 4) as usize;
        let len = be32(e, 8) as usize;
        assert_eq!(off % 32, 0);
        let name_off = u16::from_be_bytes([e[2], e[3]]) as usize;
        let name: Vec<u8> = bank[name_off..].iter().take_while(|&&b| b != 0).cloned().collect();
        let want: (&[u8], Vec<u8>) = match k {
            1 => (b"x", vec![7; 33]),
            3 => (b"e", vec![]),
            _ => (b"f", vec![9; 32]),
        };
        assert_eq!(name, want.0);
        assert_eq!(img[off..off + len].to_vec(), want.1);
    }
    // the zero-length file still gets an aligned offset; x's 33 bytes pad to 64
    let x_off = be32(entry(1), 4) as usize;
    assert_eq!(be32(entry(3), 4) as usize, x_off + 64);
}

#[test]
fn missing_system_directory() {
    let tree = root(vec![file("a.txt", vec![1])]);
    match write_iso(&tree) {
        Err(Error::MissingSpecialEntry { container_name, expected_name }) => {
            assert_eq!(container_name, b"root".to_vec());
            assert_eq!(expected_name, b"&&systemdata".to_vec());
        }
        other => panic!("unexpected {:?}", other.map(|v| v.len())),
    }
}

#[test]
fn missing_header_loader_or_executable() {
    let cases: Vec<(Vec<Node>, &[u8])> = vec![
        (vec![file("AppLoader.ldr", vec![]), file("a.dol", vec![])], b"iso.hdr"),
        (vec![file("iso.hdr", vec![]), file("a.dol", vec![])], b"AppLoader.ldr"),
        (vec![file("iso.hdr", vec![]), file("AppLoader.ldr", vec![])], b".dol"),
    ];
    for (children, missing) in cases {
        let tree = root(vec![system(children)]);
        match write_iso(&tree) {
            Err(Error::MissingSpecialEntry { container_name, expected_name }) => {
                assert_eq!(container_name, b"&&systemdata".to_vec());
                assert_eq!(expected_name, missing.to_vec());
            }
            other => panic!("unexpected {:?}", other.map(|v| v.len())),
        }
    }
}

#[test]
fn reserved_file_that_is_a_directory_does_not_count() {
    let tree = root(vec![system(vec![
        dir("iso.hdr", vec![]),
        file("AppLoader.ldr", vec![]),
        file("a.dol", vec![]),
    ])]);
    assert!(matches!(write_iso(&tree), Err(Error::MissingSpecialEntry { .. })));
}

#[test]
fn small_image_is_extended_for_header_fields() {
    let tree = root(vec![system(vec![
        file("iso.hdr", vec![]),
        file("AppLoader.ldr", vec![]),
        file("s.dol", vec![]),
    ])]);
    let img = write_iso(&tree).unwrap();
    assert_eq!(img.len(), OFFSET_DOL_OFFSET + 16);
    assert_eq!(&img[0..12], &[1, 0, 0, 0, 0, 0, 0, 0, 0, 0, 0, 1]);
    assert_eq!(be32(&img, OFFSET_DOL_OFFSET), 0);
    assert_eq!(be32(&img, OFFSET_DOL_OFFSET + 4), 0);
    assert_eq!(be32(&img, OFFSET_DOL_OFFSET + 8), 12);
}

#[test]
fn size_estimate_values() {
    assert_eq!(calculate_fst_len(12, &file("a.txt", vec![1, 2, 3])), 30);
    let d = dir("dir", vec![file("ab", vec![]), dir("c", vec![])]);
    assert_eq!(calculate_fst_len(0, &d), (12 + 4) + (12 + 3) + (12 + 2));
    assert_eq!(calculate_fst_len(usize::MAX - 3, &d), usize::MAX);
}

#[test]
fn builder_places_payloads_and_entries() {
    let mut entries: Vec<FstEntry> = vec![FstEntry {
        kind: FstNodeType::Directory,
        file_name_offset: 0,
        file_offset_parent_dir: 0,
        file_size_next_dir_index: 0,
    }];
    let mut bank = Vec::new();
    let mut image = vec![0u8; 3];
    let d = dir("d", vec![file("f", vec![5, 6])]);
    do_output_prep(&d, &mut entries, &mut bank, &mut image, 0).unwrap();
    assert_eq!(entries.len(), 3);
    assert_eq!(entries[1].kind, FstNodeType::Directory);
    assert_eq!(entries[1].file_offset_parent_dir, 0);
    assert_eq!(entries[1].file_size_next_dir_index, 3);
    assert_eq!(entries[2].kind, FstNodeType::File);
    assert_eq!(entries[2].file_name_offset, 2);
    assert_eq!(entries[2].file_offset_parent_dir, 32);
    assert_eq!(entries[2].file_size_next_dir_index, 2);
    assert_eq!(bank, b"d\0f\0".to_vec());
    assert_eq!(image.len(), 64);
    assert_eq!(&image[32..34], &[5, 6]);
    assert_eq!(12 * (entries.len() - 1) + bank.len(), calculate_fst_len(0, &d));
}
