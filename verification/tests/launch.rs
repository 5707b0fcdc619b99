use csv_rs::api::launch::types::{
    Attestation, Csv3Init, Csv3LaunchEncryptData, Handle, LaunchMeasure, LaunchSecret, LaunchStart,
    LaunchUpdateData, LaunchUpdateVmsa, Policy, PolicyFlags, Version,
};
use std::mem::MaybeUninit;

const POLICY: Policy = Policy {
    flags: PolicyFlags { bits: 0b100 },
    minfw: Version { major: 1, minor: 2 },
};

fn address<T>(value: &T) -> u64 {
    std::ptr::from_ref(value) as usize as u64
}

#[test]
fn a_start_points_to_certificate_and_session() {
    let certificate = [1u8; 2084];
    let session = (0u64, [2u8; 100]);
    let start = LaunchStart::new(&POLICY, &certificate, &session);
    assert_eq!(start.handle, Handle(0));
    assert_eq!(start.policy, POLICY);
    assert_eq!(start.dh_addr, address(&certificate));
    assert_eq!(start.dh_len, 2084);
    assert_eq!(start.session_addr, address(&session));
    assert_eq!(start.session_len, 112);
}

#[test]
fn a_start_with_the_policy_only_points_to_nothing() {
    let start = LaunchStart::with_policy_only(&POLICY);
    assert_eq!(start.handle, Handle(0));
    assert_eq!(start.policy, POLICY);
    assert_eq!((start.dh_addr, start.dh_len), (0, 0));
    assert_eq!((start.session_addr, start.session_len), (0, 0));
}

#[test]
fn the_handle_is_that_of_the_start() {
    let mut start = LaunchStart::with_addresses(&POLICY, 1, 2, 3, 4);
    assert_eq!((start.dh_addr, start.dh_len), (1, 2));
    assert_eq!((start.session_addr, start.session_len), (3, 4));
    start.handle = Handle(17);
    assert_eq!(Handle::from(start), Handle(17));
}

#[test]
fn data_is_found_by_its_address_and_length() {
    let data = vec![0u8; 300];
    let update = LaunchUpdateData::new(&data);
    assert_eq!(update.addr, data.as_ptr() as u64);
    assert_eq!(update.len, 300);
    assert_eq!(LaunchUpdateData::new(&data[10..20]).addr, update.addr + 10);
    assert_eq!(LaunchUpdateData::new(&data[10..20]).len, 10);
    assert_ne!(LaunchUpdateData::new(&[]).addr, 0);
    assert_eq!(LaunchUpdateData::new(&[]).len, 0);
}

#[test]
fn lengths_keep_their_low_bits() {
    assert_eq!(LaunchUpdateData::with_address(5, 0xffff_ffff).len, 0xffff_ffff);
    assert_eq!(LaunchUpdateData::with_address(5, 0x1_0000_0002).len, 2);
    assert_eq!(LaunchMeasure::with_address(6, usize::MAX).len, u32::MAX);
}

#[test]
fn a_secret_goes_with_its_header_to_the_guest() {
    let header = [0u8; 52];
    let secret = [3u8; 48];
    let launch = LaunchSecret::new(&header, 0x1000, &secret);
    assert_eq!(launch.hdr_addr, address(&header));
    assert_eq!(launch.hdr_len, 52);
    assert_eq!(launch.guest_addr, 0x1000);
    assert_eq!(launch.guest_len, 48);
    assert_eq!(launch.trans_addr, secret.as_ptr() as u64);
    assert_eq!(launch.trans_len, 48);
    let launch = LaunchSecret::with_addresses(1, 2, 3, 4, 5);
    assert_eq!((launch.hdr_addr, launch.hdr_len), (1, 2));
    assert_eq!((launch.guest_addr, launch.guest_len), (3, 5));
    assert_eq!((launch.trans_addr, launch.trans_len), (4, 5));
}

#[test]
fn measurement_and_report_are_written_in_place() {
    let mut measurement: MaybeUninit<[u8; 48]> = MaybeUninit::uninit();
    let place = address(&measurement);
    let measure = LaunchMeasure::new(&mut measurement);
    assert_eq!((measure.addr, measure.len), (place, 48));

    let mut report: MaybeUninit<[u64; 10]> = MaybeUninit::uninit();
    let place = address(&report);
    let attestation = Attestation::new(&mut report, [4; 16]);
    assert_eq!((attestation.addr, attestation.len), (place, 80));
    assert_eq!(attestation.mnonce, [4; 16]);
    let attestation = Attestation::with_address(9, 10, [5; 16]);
    assert_eq!((attestation.addr, attestation.len), (9, 10));
    assert_eq!(attestation.mnonce, [5; 16]);
}

#[test]
fn arguments_without_addresses_hold_what_is_given() {
    assert_eq!(Csv3Init::new(0b101).nodemask, 0b101);
    let data = Csv3LaunchEncryptData {
        gpa: 1,
        uaddr: 2,
        len: 3,
    };
    assert_eq!((data.gpa, data.uaddr, data.len), (1, 2, 3));
    let _ = LaunchUpdateVmsa::new();
}
