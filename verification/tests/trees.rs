use forensic_vfs_engine::archive::{
    archive_kind, open_archive, sniffs_as_archive, ArchiveFormat, ArchiveKind,
};
use forensic_vfs_engine::tree::{
    build_tree, copy_from, listing_members, split_components, ContainerTree, Member, NodeKind,
    NodeMeta, TreeError,
};

fn member(name: &str, size: u64, is_dir: bool, index: usize) -> Member {
    Member {
        name: name.as_bytes().to_vec(),
        size,
        is_dir,
        index,
    }
}

fn names(t: &ContainerTree, id: u64) -> Vec<String> {
    t.read_dir(id)
        .ok()
        .expect("a directory")
        .into_iter()
        .map(|e| String::from_utf8(e.name).unwrap())
        .collect()
}

#[test]
fn names_split_on_both_separators_dropping_empty_and_dot() {
    let c = split_components(b"/a//b\\.\\c/");
    assert_eq!(c, vec![b"a".to_vec(), b"b".to_vec(), b"c".to_vec()]);
    assert!(split_components(b"/./").is_empty());
}

#[test]
fn intermediate_directories_are_synthesized_and_shared() {
    let members = vec![
        member("sub/nested.txt", 15, false, 0),
        member("hello.txt", 14, false, 1),
        member("sub/", 0, true, 2),
        member("/", 0, true, 3),
    ];
    let nodes = build_tree(&members);
    // root, sub (implied, then claimed by its explicit record), nested.txt, hello.txt
    assert_eq!(nodes.len(), 4);
    assert_eq!(nodes[0].entry_idx, None);
    assert_eq!(nodes[0].kind, NodeKind::Dir);
    assert_eq!(nodes[0].children, vec![1, 3]);
    assert_eq!(nodes[1].name, b"sub".to_vec());
    assert_eq!(nodes[1].entry_idx, Some(2));
    assert_eq!(nodes[1].children, vec![2]);
    assert_eq!(nodes[2].name, b"nested.txt".to_vec());
    assert_eq!(nodes[2].size, 15);
    assert_eq!(nodes[3].entry_idx, Some(1));
}

#[test]
fn the_tree_answers_listing_lookup_and_metadata() {
    let members = vec![
        member("docs/a.txt", 3, false, 0),
        member("docs/b.txt", 0, false, 1),
        member("top.bin", 9, false, 2),
    ];
    let t = ContainerTree::new(&members);
    assert_eq!(t.root(), 0);
    assert_eq!(names(&t, 0), vec!["docs", "top.bin"]);
    let docs = t.lookup(0, b"docs").ok().unwrap().expect("docs present");
    assert_eq!(names(&t, docs), vec!["a.txt", "b.txt"]);
    let a = t.lookup(docs, b"a.txt").ok().unwrap().expect("a.txt present");
    assert_eq!(t.lookup(docs, b"zzz").ok().unwrap(), None);
    assert_eq!(
        t.meta(a).ok().unwrap(),
        NodeMeta {
            ino: a,
            kind: NodeKind::File,
            size: 3
        }
    );
    assert_eq!(t.extent_len(a).ok().unwrap(), Some(3));
    let b = t.lookup(docs, b"b.txt").ok().unwrap().unwrap();
    assert_eq!(t.extent_len(b).ok().unwrap(), None);
    assert_eq!(t.file_member(a).ok().unwrap(), Some(0));
    assert_eq!(t.file_member(docs).ok().unwrap(), None);
    assert_eq!(t.read_dir(a).err(), Some(TreeError::NotADir(a)));
    assert_eq!(t.lookup(a, b"x").err(), Some(TreeError::NotADir(a)));
    assert_eq!(t.meta(99).err(), Some(TreeError::OutOfRange(99)));
    assert_eq!(t.read_dir(99).err(), Some(TreeError::OutOfRange(99)));
}

#[test]
fn copying_member_content_is_bounded_by_both_ends() {
    let data = b"hello archive\n";
    let mut buf = [0xAAu8; 5];
    assert_eq!(copy_from(data, 6, &mut buf), 5);
    assert_eq!(&buf, b"archi");
    let mut big = [0u8; 64];
    assert_eq!(copy_from(data, 0, &mut big), data.len());
    assert_eq!(&big[..data.len()], data);
    let mut rest = [7u8; 4];
    assert_eq!(copy_from(data, 14, &mut rest), 0);
    assert_eq!(copy_from(data, u64::MAX, &mut rest), 0);
    assert_eq!(rest, [7u8; 4]);
}

#[test]
fn listings_become_members_by_position() {
    let listing = vec![
        (b"x/y".to_vec(), 4u64, false),
        (b"x".to_vec(), 0u64, true),
    ];
    let m = listing_members(&listing);
    assert_eq!(m.len(), 2);
    assert_eq!((m[0].name.clone(), m[0].size, m[0].is_dir, m[0].index), (b"x/y".to_vec(), 4, false, 0));
    assert_eq!((m[1].name.clone(), m[1].size, m[1].is_dir, m[1].index), (b"x".to_vec(), 0, true, 1));
}

#[test]
fn archive_formats_map_to_their_kind() {
    assert_eq!(archive_kind(ArchiveFormat::Zip), ArchiveKind::Zip);
    assert_eq!(archive_kind(ArchiveFormat::SevenZip), ArchiveKind::SevenZip);
    assert_eq!(archive_kind(ArchiveFormat::Tar), ArchiveKind::Tar);
    assert_eq!(archive_kind(ArchiveFormat::TarGz), ArchiveKind::Tar);
    assert_eq!(archive_kind(ArchiveFormat::TarBz2), ArchiveKind::Tar);
}

/// One ustar header block for `name` (typeflag `kind`) holding `size` bytes.
fn tar_header(name: &str, size: usize, kind: u8) -> Vec<u8> {
    let mut h = vec![0u8; 512];
    h[..name.len()].copy_from_slice(name.as_bytes());
    h[100..108].copy_from_slice(b"0000644\0");
    h[108..116].copy_from_slice(b"0000000\0");
    h[116..124].copy_from_slice(b"0000000\0");
    h[124..136].copy_from_slice(format!("{size:011o}\0").as_bytes());
    h[136..148].copy_from_slice(b"00000000000\0");
    h[148..156].copy_from_slice(b"        ");
    h[156] = kind;
    h[257..263].copy_from_slice(b"ustar\0");
    h[263..265].copy_from_slice(b"00");
    let sum: u32 = h.iter().map(|&b| u32::from(b)).sum();
    h[148..156].copy_from_slice(format!("{sum:06o}\0 ").as_bytes());
    h
}

fn tar_of(entries: &[(&str, &[u8], bool)]) -> Vec<u8> {
    let mut out = Vec::new();
    for (name, data, is_dir) in entries {
        out.extend(tar_header(name, data.len(), if *is_dir { b'5' } else { b'0' }));
        out.extend_from_slice(data);
        let pad = (512 - data.len() % 512) % 512;
        out.extend(vec![0u8; pad]);
    }
    out.extend(vec![0u8; 1024]);
    out
}

#[test]
fn a_tar_archive_surfaces_as_a_browsable_tree() {
    let tar = tar_of(&[
        ("hello.txt", b"hello archive\n", false),
        ("sub/", b"", true),
        ("sub/nested.txt", b"nested payload\n", false),
    ]);
    let opened = open_archive(&tar, Some("evidence.tar")).ok().expect("a tar decodes");
    let at = opened.expect("a tar is an archive");
    assert_eq!(at.kind, ArchiveKind::Tar);
    let t = &at.tree;
    assert_eq!(names(t, 0), vec!["hello.txt", "sub"]);
    let sub = t.lookup(0, b"sub").ok().unwrap().expect("sub dir present");
    assert_eq!(names(t, sub), vec!["nested.txt"]);
    let hello = t.lookup(0, b"hello.txt").ok().unwrap().unwrap();
    assert_eq!(t.meta(hello).ok().unwrap().size, 14);
    assert_eq!(t.file_member(hello).ok().unwrap(), Some(0));
}

#[test]
fn bytes_that_are_no_archive_open_to_none() {
    let r = open_archive(&[0u8; 4096], None).ok().expect("no error on plain bytes");
    assert!(r.is_none());
}

#[test]
fn only_member_list_formats_are_worth_decoding() {
    let tar = tar_of(&[("a.txt", b"a", false)]);
    assert!(sniffs_as_archive(None, &tar[..512]));
    assert!(sniffs_as_archive(None, &[0x50, 0x4b, 0x03, 0x04]));
    assert!(sniffs_as_archive(None, &[0x37, 0x7A, 0xBC, 0xAF, 0x27, 0x1C]));
    // A gzip stream is a tar only by its name.
    assert!(sniffs_as_archive(Some("x.tgz"), &[0x1f, 0x8b, 0x08]));
    assert!(!sniffs_as_archive(Some("x.gz"), &[0x1f, 0x8b, 0x08]));
    assert!(!sniffs_as_archive(None, &[0u8; 512]));
    assert!(sniffs_as_archive(Some("evidence.zip"), &[0u8; 16]));
}

#[test]
fn a_node_is_backed_by_the_first_member_with_its_path() {
    let members = vec![
        member("a/b.txt", 1, false, 5),
        member("a", 0, true, 7),
        member("./a/", 0, true, 9),
        member("a/b.txt", 2, false, 11),
    ];
    let nodes = build_tree(&members);
    assert_eq!(nodes.len(), 3);
    // `a` was implied first, then claimed by its first explicit record.
    assert_eq!(nodes[1].entry_idx, Some(7));
    // The later record of `a/b.txt` keeps the first one's backing and size.
    assert_eq!(nodes[2].entry_idx, Some(5));
    assert_eq!(nodes[2].size, 1);
    // Each non-root node is listed once; the root's size is zero.
    assert_eq!(nodes[0].children, vec![1]);
    assert_eq!(nodes[1].children, vec![2]);
    assert_eq!(nodes[0].size, 0);
}

#[test]
fn an_archive_that_fails_to_decode_is_an_error() {
    // A zip local-file header over garbage: the format lists members, and the
    // decoder fails on it.
    let mut z = vec![0u8; 256];
    z[0..4].copy_from_slice(&[0x50, 0x4b, 0x03, 0x04]);
    assert!(open_archive(&z, None).is_err());
}

#[test]
fn a_listing_never_repeats_a_name() {
    let members = vec![
        member("d/x", 1, false, 0),
        member("d/x", 2, false, 1),
        member("d/y", 3, false, 2),
    ];
    let t = ContainerTree::new(&members);
    let d = t.lookup(0, b"d").ok().unwrap().unwrap();
    assert_eq!(names(&t, d), vec!["x", "y"]);
}
