use forensic_vfs_engine::mount::{mount_order, split_evidence, Mount, Split, ZipHead};

#[test]
fn sector_streams_go_to_the_resolver_first() {
    assert_eq!(
        mount_order(ZipHead::NotZip),
        vec![Mount::Resolve, Mount::Archive, Mount::Ad1, Mount::Dar]
    );
    assert_eq!(
        mount_order(ZipHead::Aff4Image),
        vec![Mount::Resolve, Mount::Archive, Mount::Ad1, Mount::Dar]
    );
}

#[test]
fn zips_are_routed_before_the_resolver() {
    assert_eq!(
        mount_order(ZipHead::PlainZip),
        vec![Mount::Archive, Mount::Resolve, Mount::Ad1, Mount::Dar]
    );
    assert_eq!(
        mount_order(ZipHead::Aff4Logical),
        vec![
            Mount::Aff4Logical,
            Mount::Resolve,
            Mount::Archive,
            Mount::Ad1,
            Mount::Dar
        ]
    );
}

#[test]
fn a_partitioned_disk_is_split_on_its_first_claiming_volume_system() {
    assert_eq!(split_evidence(false, &[false, true, true]), Split::Volumes(1));
    assert_eq!(split_evidence(false, &[true, false, false]), Split::Volumes(0));
    // A bare filesystem, or evidence no volume system claims, is opened whole.
    assert_eq!(split_evidence(true, &[true, true, true]), Split::Whole);
    assert_eq!(split_evidence(false, &[false, false, false]), Split::Whole);
    assert_eq!(split_evidence(false, &[]), Split::Whole);
}
