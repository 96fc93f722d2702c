use forensic_vfs_engine::path::{file_name_bounds, is_ewf};

fn name_of(p: &[u8]) -> Option<&[u8]> {
    file_name_bounds(p).map(|(s, e)| &p[s..e])
}

#[test]
fn ewf_segments_are_recognized_in_any_case() {
    assert!(is_ewf(b"/cases/disk.E01"));
    assert!(is_ewf(b"disk.e01"));
    assert!(is_ewf(b"disk.Ex01"));
    assert!(is_ewf(b"/evidence/gpt_ntfs.EX01"));
    assert!(is_ewf(b"/evidence/dir/image.E01/"));
    assert!(is_ewf(b"a.b.E01"));
}

#[test]
fn other_paths_are_not_ewf() {
    assert!(!is_ewf(b"disk.raw"));
    assert!(!is_ewf(b"disk.E02"));
    assert!(!is_ewf(b"disk.E011"));
    assert!(!is_ewf(b"disk.e0"));
    assert!(!is_ewf(b"E01"));
    // A leading dot opens the name; it is no extension.
    assert!(!is_ewf(b"/tmp/.E01"));
    assert!(!is_ewf(b".."));
    assert!(!is_ewf(b"/"));
    assert!(!is_ewf(b""));
    assert!(!is_ewf(b"disk.E01/.."));
    assert!(!is_ewf(b"/x.E01/y"));
}

#[test]
fn the_file_name_is_the_last_real_component() {
    assert_eq!(name_of(b"/a/b/c.txt"), Some(&b"c.txt"[..]));
    assert_eq!(name_of(b"a/b/"), Some(&b"b"[..]));
    assert_eq!(name_of(b"a/b/."), Some(&b"b"[..]));
    assert_eq!(name_of(b"a//b//"), Some(&b"b"[..]));
    assert_eq!(name_of(b"plain"), Some(&b"plain"[..]));
    assert_eq!(name_of(b"."), None);
    assert_eq!(name_of(b"./"), None);
    assert_eq!(name_of(b"a/.."), None);
    assert_eq!(name_of(b"/"), None);
    assert_eq!(name_of(b""), None);
}
