use csv_rs::api::guest::report::{
    choose_mnonce, legacy_request, place_request, signer_anonce, AttestationReportWrapper,
    ExchangeAction, ExchangeEvent, ExchangeStep, ReportExchange, ReportFormat, ReportInterface,
    ReportRequest,
};
use csv_rs::api::guest::rtmr::{
    check_attestation_report_v2_supported, check_rtmr_answer, check_rtmr_supported,
    selected_registers, RtmrCommand,
};
use csv_rs::error::{ErrorKind, Failure};

const INTERFACE: ReportInterface = ReportInterface {
    ext_flag: 0b01,
    ext_v3_flag: 0b10,
    v3_min_build: 2500,
    ext_magic: *b"EXT-REPORT-MAGIC",
};

const DATA: Option<[u8; 64]> = Some([5; 64]);
const NONCE: [u8; 16] = [9; 16];

fn answer(request: &ReportRequest) -> AttestationReportWrapper {
    INTERFACE.wrap_response(request, vec![request.flags as u8])
}

fn exchange(
    mut exchange: ReportExchange,
    supported: bool,
    build: Option<u32>,
    fails: Option<ReportFormat>,
) -> (Vec<ReportRequest>, Result<AttestationReportWrapper, &'static str>) {
    let mut made = vec![];
    loop {
        let event = match exchange.action() {
            ExchangeAction::CheckSupport => ExchangeEvent::Support(supported),
            ExchangeAction::Issue(request) => {
                made.push(request);
                ExchangeEvent::Answer(if fails == Some(request.format) {
                    Err("refused")
                } else {
                    Ok(answer(&request))
                })
            }
            ExchangeAction::ReadBuild(report) => {
                assert_eq!(report.flags, INTERFACE.ext_flag);
                ExchangeEvent::Build(build)
            }
        };
        match exchange.advance(event) {
            ExchangeStep::Continue(next) => exchange = next,
            ExchangeStep::Done(result) => return (made, result),
        }
    }
}

fn formats(made: &[ReportRequest]) -> Vec<ReportFormat> {
    for request in made {
        assert_eq!(request.data, DATA);
        assert_eq!(request.mnonce, NONCE);
    }
    made.iter().map(|request| request.format).collect()
}

fn ext(flags: u32) -> ReportExchange {
    ReportExchange::get_report_ext(INTERFACE, DATA, Some(NONCE), flags)
}

#[test]
fn a_legacy_report_takes_one_request() {
    let legacy = ReportExchange::get_report(INTERFACE, DATA, Some(NONCE));
    let (made, report) = exchange(legacy, true, None, None);
    assert_eq!(formats(&made), vec![ReportFormat::V1]);
    let report = report.unwrap();
    assert_eq!((report.magic, report.flags), ([0; 16], 0));

    let legacy = ReportExchange::get_report_with(INTERFACE, DATA, NONCE);
    let (_, report) = exchange(legacy, true, None, Some(ReportFormat::V1));
    assert_eq!(report.unwrap_err(), "refused");
}

#[test]
fn without_support_or_flags_the_legacy_report_is_requested() {
    for (supported, flags) in [(false, 0), (false, 0b11), (true, 0)] {
        let (made, report) = exchange(ext(flags), supported, Some(9999), None);
        assert_eq!(formats(&made), vec![ReportFormat::V1]);
        assert_eq!(report.unwrap().flags, 0);
    }
}

#[test]
fn other_flags_are_requested_as_they_are() {
    for flags in [0b01, 0b100, 0b101] {
        let (made, report) = exchange(ext(flags), true, Some(9999), None);
        assert_eq!(formats(&made), vec![ReportFormat::V2]);
        let report = report.unwrap();
        assert_eq!((report.magic, report.flags), (INTERFACE.ext_magic, flags));
    }
}

#[test]
fn the_csv3_report_is_requested_of_able_builds_only() {
    for flags in [0b10, 0b11, 0b110] {
        for build in [2500, 2501, u32::MAX] {
            let (made, report) = exchange(ext(flags), true, Some(build), None);
            assert_eq!(formats(&made), vec![ReportFormat::V2, ReportFormat::V3]);
            assert_eq!(made[0].flags, INTERFACE.ext_flag);
            assert_eq!(made[1].flags, flags);
            assert_eq!(report.unwrap().flags, flags);
        }
        for build in [Some(2499), Some(0), None] {
            let (made, report) = exchange(ext(flags), true, build, None);
            assert_eq!(formats(&made), vec![ReportFormat::V2]);
            assert_eq!(report.unwrap().flags, INTERFACE.ext_flag);
        }
    }
}

#[test]
fn a_failed_request_ends_the_exchange() {
    let (made, report) = exchange(ext(0b10), true, Some(2500), Some(ReportFormat::V2));
    assert_eq!(made.len(), 1);
    assert_eq!(report.unwrap_err(), "refused");
    let (made, report) = exchange(ext(0b10), true, Some(2500), Some(ReportFormat::V3));
    assert_eq!(made.len(), 2);
    assert_eq!(report.unwrap_err(), "refused");
}

#[test]
fn a_nonce_that_is_given_is_kept_and_others_are_random() {
    assert_eq!(choose_mnonce(Some(NONCE)), NONCE);
    let drawn: Vec<[u8; 16]> = (0..8).map(|_| choose_mnonce(None)).collect();
    for i in 0..drawn.len() {
        for j in 0..i {
            assert_ne!(drawn[i], drawn[j]);
        }
    }
    let a = ReportExchange::get_report_ext(INTERFACE, None, None, 1);
    let b = ReportExchange::get_report_ext(INTERFACE, None, None, 1);
    assert_ne!(a.mnonce, b.mnonce);
    let with = ReportExchange::get_report_ext_with(INTERFACE, None, NONCE, 1);
    assert_eq!(with.mnonce, NONCE);
}

#[test]
fn a_request_starts_the_buffer_of_its_answer() {
    let mut buffer = vec![1, 2, 3, 4, 5];
    place_request(&[9, 8], &mut buffer);
    assert_eq!(buffer, vec![9, 8, 3, 4, 5]);
    place_request(&[], &mut buffer);
    assert_eq!(buffer, vec![9, 8, 3, 4, 5]);
    place_request(&[0; 5], &mut buffer);
    assert_eq!(buffer, vec![0; 5]);
}

#[test]
fn only_the_legacy_report_has_a_mask_of_its_own() {
    assert_eq!(signer_anonce(ReportFormat::V1, 77), 77);
    assert_eq!(signer_anonce(ReportFormat::V2, 77), 0);
    assert_eq!(signer_anonce(ReportFormat::V3, 77), 0);
    assert_eq!(legacy_request(DATA, NONCE).format, ReportFormat::V1);
}

#[test]
fn register_requests_need_zero_from_driver_and_firmware() {
    let check = |command, returned: Result<i64, &'static str>, fw_error| {
        match check_rtmr_answer(command, returned, fw_error) {
            Ok(()) => "good".to_string(),
            Err(Failure::Passed(error)) => format!("passed {error}"),
            Err(Failure::Found(error)) => {
                assert_eq!(error.kind(), ErrorKind::Other);
                error.message
            }
        }
    };
    assert_eq!(check(RtmrCommand::Status, Ok(0), 0), "good");
    assert_eq!(check(RtmrCommand::Status, Err("x"), 5), "passed x");
    assert_eq!(
        check(RtmrCommand::Status, Ok(-1), 5),
        "rtmr_status fail, rc: -1"
    );
    assert_eq!(
        check(RtmrCommand::Start, Ok(0), 22),
        "rtmr_start fail, fw_err: 22"
    );
    assert_eq!(check(RtmrCommand::Read, Ok(7), 0), "rtmr_read fail, rc: 7");
    assert_eq!(
        check(RtmrCommand::Extend, Ok(0), u64::MAX),
        "rtmr_extend fail, fw_err: 18446744073709551615"
    );
}

#[test]
fn extended_reports_are_supported_where_registers_are() {
    let good: Result<u8, ()> = Ok(1);
    let bad: Result<u8, ()> = Err(());
    assert!(check_rtmr_supported(&good));
    assert!(check_attestation_report_v2_supported(&good));
    assert!(!check_rtmr_supported(&bad));
    assert!(!check_attestation_report_v2_supported(&bad));
}

#[test]
fn selected_registers_are_the_bits_that_have_a_register() {
    for bitmap in [0u32, 1, 0b10110, 0xffff_ffff, 0x8000_0001, 0xfff0] {
        for registers in 0..=32u32 {
            let mask = if registers == 32 {
                u32::MAX
            } else {
                (1 << registers) - 1
            };
            assert_eq!(
                selected_registers(bitmap, registers),
                (bitmap & mask).count_ones() as usize
            );
        }
    }
    assert_eq!(selected_registers(0b10110, 5), 3);
    assert_eq!(
        selected_registers(0xffff_ff03, 2),
        selected_registers(0b11, 2)
    );
}

#[test]
fn a_report_is_returned_only_when_its_signer_is_verified() {
    let legacy = legacy_request(DATA, NONCE);
    let extended = INTERFACE.request_report_ext(DATA, NONCE, 0b01);
    for (request, magic, flags) in [
        (legacy, [0; 16], 0),
        (extended, INTERFACE.ext_magic, 0b01),
    ] {
        let conclude = |returned: Result<i64, &'static str>, verified: Result<(), &'static str>| {
            INTERFACE.conclude_request(&request, returned, verified, vec![1, 2, 3])
        };
        for code in [0, 5, -1] {
            let report = conclude(Ok(code), Ok(())).unwrap();
            assert_eq!((report.magic, report.flags), (magic, flags));
            assert_eq!(report.data, vec![1, 2, 3]);
        }
        assert_eq!(conclude(Ok(0), Err("signer")).unwrap_err(), "signer");
        assert_eq!(conclude(Err("request"), Ok(())).unwrap_err(), "request");
        assert_eq!(
            conclude(Err("request"), Err("signer")).unwrap_err(),
            "request"
        );
    }
}
