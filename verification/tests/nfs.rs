use pereprava::error::Error;
use pereprava::ids::{
    decode, encode_real, Kind, DEVICE_ROOT_ID, REAL_FLAG, STORAGE_BASE_ID, VIRT_FLAG,
};
use pereprava::nfs::{
    attr_for, generation_of, keeps_session, nfserr, process_epoch_tag, NfsStat, Ping,
};

#[test]
fn real_id_roundtrip() {
    let id = encode_real(3, 0x1234_5678_9abc);
    assert_eq!(id & REAL_FLAG, REAL_FLAG);
    match decode(id) {
        Some(Kind::Real(d)) => {
            assert_eq!(d.storage_index, 3);
            assert_eq!(d.handle, 0x1234_5678_9abc);
        }
        other => panic!("expected Real, got {other:?}"),
    }
}

#[test]
fn synthetic_ids_are_recognized() {
    assert!(matches!(decode(DEVICE_ROOT_ID), Some(Kind::DeviceRoot)));
    assert!(matches!(decode(STORAGE_BASE_ID + 2), Some(Kind::StorageRoot(2))));
}

#[test]
fn virtual_ids_never_collide_with_real() {
    let virt = VIRT_FLAG | 0x42;
    assert_eq!(virt & REAL_FLAG, 0);
    assert!(decode(virt).is_none(), "virtual ids stay out of decode()");
    let real = encode_real(0, virt & 0xFFFF_FFFF_FFFF);
    assert_ne!(real & VIRT_FLAG, VIRT_FLAG);
}

#[test]
fn zero_and_virtual_decode_to_none() {
    assert!(decode(0).is_none());
    let virt = VIRT_FLAG | 0x42;
    assert!(decode(virt).is_none(), "virtual ids bypass decode()");
}

#[test]
fn wide_storage_range_is_by_contract() {
    assert!(matches!(decode(STORAGE_BASE_ID + 12345), Some(Kind::StorageRoot(12345))));
}

#[test]
fn nfserr_maps_conditions_to_actionable_statuses() {
    assert_eq!(nfserr(&Error::StaleHandle(String::new())), NfsStat::Stale);
    assert_eq!(nfserr(&Error::NotFound(String::new())), NfsStat::Noent);
    assert_eq!(nfserr(&Error::AccessDenied(String::new())), NfsStat::Acces);
    assert_eq!(nfserr(&Error::StorageFull(String::new())), NfsStat::Nospc);
    assert_eq!(nfserr(&Error::Unsupported(String::new())), NfsStat::Notsupp);
    assert_eq!(nfserr(&Error::InvalidArgument(String::new())), NfsStat::Inval);
    assert_eq!(nfserr(&Error::WrongKind(String::new())), NfsStat::Notdir);
}

#[test]
fn nfserr_keeps_transport_failures_as_io() {
    for e in [
        Error::Disconnected,
        Error::SessionReset,
        Error::Timeout,
        Error::Busy(String::new()),
        Error::Io("boom".to_string()),
    ] {
        assert_eq!(nfserr(&e), NfsStat::Io);
    }
}

#[test]
fn process_epoch_tag_is_stable_and_nonzero() {
    let a = process_epoch_tag(1234, 567);
    let b = process_epoch_tag(1234, 567);
    assert_eq!(a, b, "tag must be stable within a process");
    assert_ne!(a, 0, "tag must carry entropy");
    assert_ne!(process_epoch_tag(0, 0), 0);
}

#[test]
fn generations_of_two_processes_differ() {
    assert_eq!(generation_of(1, 2), 0x1_0000_0002);
    assert_ne!(generation_of(7, 3), generation_of(7, 5));
}

#[test]
fn attributes_are_in_whole_blocks() {
    let f = attr_for(9, false, 513, 77);
    assert_eq!((f.size, f.used, f.mode, f.nlink, f.fileid, f.seconds), (513, 1024, 0o644, 1, 9, 77));
    let d = attr_for(9, true, 0, 77);
    assert_eq!((d.size, d.used, d.mode, d.nlink), (0, 0, 0o755, 2));
    assert!(d.is_dir);
}

#[test]
fn a_slow_session_is_kept_and_a_dead_one_is_not() {
    assert!(keeps_session(&Ping::Answered));
    assert!(keeps_session(&Ping::TimedOut));
    assert!(keeps_session(&Ping::Failed(Error::Busy(String::new()))));
    assert!(keeps_session(&Ping::Failed(Error::StaleHandle(String::new()))));
    assert!(!keeps_session(&Ping::Failed(Error::Disconnected)));
    assert!(!keeps_session(&Ping::Failed(Error::ActorClosed)));
}
