use forensic_vfs_engine::epoch::{epoch_bytes, epoch_from_create_time};
use forensic_vfs_engine::snapshot::{
    lists_snapshots, snapshot_record, snapshot_records, snapshot_source, Found, ListedSnapshot,
    SnapshotRefusal,
};

#[test]
fn epoch_from_create_time_round_trips_and_orders() {
    let t = 0x0123_4567_89ab_cdefu64;
    let tag = epoch_from_create_time(t);
    assert_eq!(&tag.0[0..24], &[0u8; 24], "high 24 bytes are zero");
    assert_eq!(
        u64::from_be_bytes(tag.0[24..32].try_into().unwrap()),
        t,
        "create_time round-trips out of the low 8 bytes"
    );
    assert!(
        epoch_from_create_time(t + 1).0 > tag.0,
        "a later create_time yields a greater tag"
    );
}

#[test]
fn epoch_bytes_place_the_time_big_endian_in_the_low_bytes() {
    let b = epoch_bytes(0x0102_0304_0506_0708);
    assert_eq!(&b[24..32], &[1, 2, 3, 4, 5, 6, 7, 8]);
    assert_eq!(epoch_bytes(0), [0u8; 32]);
    assert_eq!(epoch_bytes(u64::MAX)[24..32], [0xff; 8]);
    assert!(epoch_bytes(255) < epoch_bytes(256));
    assert_eq!(epoch_from_create_time(77).0, epoch_bytes(77));
}

#[test]
fn snapshot_view_carries_epoch_and_snapshot_locator() {
    let v = snapshot_record(42, "daily".to_string(), 1000);
    assert_eq!(v.xid, 42);
    assert_eq!(v.name, "daily");
    assert_eq!(v.epoch, epoch_from_create_time(1000));
}

#[test]
fn a_cohort_keeps_listing_order() {
    let listed = vec![
        ListedSnapshot {
            xid: 7,
            name: "older".to_string(),
            create_time: 10,
        },
        ListedSnapshot {
            xid: 9,
            name: "newer".to_string(),
            create_time: 20,
        },
    ];
    let r = snapshot_records(&listed);
    assert_eq!(r.len(), 2);
    assert_eq!((r[0].xid, r[0].name.as_str()), (7, "older"));
    assert_eq!((r[1].xid, r[1].name.as_str()), (9, "newer"));
    assert!(r[1].epoch.0 > r[0].epoch.0, "newest epoch must exceed oldest");
    assert!(snapshot_records(&[]).is_empty());
}

#[test]
fn only_an_apfs_filesystem_has_a_cohort() {
    assert!(lists_snapshots(Found::Filesystem { apfs: true }));
    assert!(!lists_snapshots(Found::Filesystem { apfs: false }));
    assert!(!lists_snapshots(Found::Nothing));
}

#[test]
fn reopening_a_snapshot_needs_an_apfs_filesystem() {
    assert_eq!(snapshot_source(Found::Nothing), Err(SnapshotRefusal::NoFilesystem));
    assert_eq!(
        snapshot_source(Found::Filesystem { apfs: false }),
        Err(SnapshotRefusal::NotApfs)
    );
    assert_eq!(snapshot_source(Found::Filesystem { apfs: true }), Ok(()));
}
