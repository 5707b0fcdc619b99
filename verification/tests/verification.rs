use csv_rs::api::dcu::verification::{
    save_certificates, save_plan, verify_report, verify_reports, AttestationReport, BatchVerification,
    CertificateRole, ReportBody, Verification, VerificationStep, CERTIFICATE_DIRECTORY,
    VERIFICATION_STEPS,
};
use csv_rs::error::ErrorKind;

const USER_DATA: [u8; 64] = [7; 64];

fn report(user_data: [u8; 64]) -> AttestationReport {
    AttestationReport {
        body: ReportBody {
            user_data,
            chip_id: *b"CHIP000000000001",
        },
    }
}

const STEPS: [VerificationStep; 7] = [
    VerificationStep::DecodeHsk,
    VerificationStep::DecodeCek,
    VerificationStep::DecodeHrk,
    VerificationStep::HrkSignsHrk,
    VerificationStep::HrkSignsHsk,
    VerificationStep::HskSignsCek,
    VerificationStep::CekSignsReport,
];

#[test]
fn a_report_is_accepted_after_all_steps() {
    assert_eq!(VERIFICATION_STEPS, STEPS.len());
    let mut outcomes: Vec<Result<(), u8>> = vec![];
    for expected in STEPS {
        match verify_report(&report(USER_DATA), &USER_DATA, &outcomes) {
            Verification::Perform(step) => assert_eq!(step, expected),
            _ => panic!(),
        }
        outcomes.push(Ok(()));
    }
    assert!(matches!(
        verify_report(&report(USER_DATA), &USER_DATA, &outcomes),
        Verification::Accepted
    ));
}

#[test]
fn other_user_data_is_refused_before_any_step() {
    for place in [0, 31, 63] {
        let mut other = USER_DATA;
        other[place] ^= 1;
        for outcomes in [
            vec![],
            vec![Ok(()), Ok(()), Ok(())],
            vec![Err("hsk")],
            vec![Ok(()), Err("cek")],
            vec![Ok(()); 7],
        ] {
            match verify_report(&report(other), &USER_DATA, &outcomes) {
                Verification::NonceMismatch(error) => {
                    assert_eq!(error.kind(), ErrorKind::InvalidData);
                    assert_eq!(error.message, "Attestation nonce mismatch");
                }
                _ => panic!(),
            }
        }
    }
}

#[test]
fn the_first_step_that_fails_ends_the_verification() {
    for failing in 0..STEPS.len() {
        let mut outcomes: Vec<Result<(), usize>> = vec![Ok(()); failing];
        outcomes.push(Err(failing));
        match verify_report(&report(USER_DATA), &USER_DATA, &outcomes) {
            Verification::Failed(error) => assert_eq!(*error, failing),
            _ => panic!(),
        }
    }
    let outcomes = vec![Ok(()), Err("cek"), Err("not done")];
    match verify_report(&report(USER_DATA), &USER_DATA, &outcomes) {
        Verification::Failed(error) => assert_eq!(*error, "cek"),
        _ => panic!(),
    }
}

#[test]
fn reports_are_verified_one_after_the_other() {
    let reports = [report(USER_DATA), report(USER_DATA)];
    let mut outcomes: Vec<Result<(), &str>> = vec![];
    for i in 0..2 {
        match verify_reports(&reports, &outcomes) {
            BatchVerification::Verify(next) => assert_eq!(next, i),
            _ => panic!(),
        }
        outcomes.push(Ok(()));
    }
    assert!(matches!(
        verify_reports(&reports, &outcomes),
        BatchVerification::Accepted
    ));
    outcomes[0] = Err("first");
    outcomes[1] = Err("second");
    match verify_reports(&reports, &outcomes) {
        BatchVerification::Failed(error) => assert_eq!(*error, "first"),
        _ => panic!(),
    }
    assert!(matches!(
        verify_reports::<&str>(&[], &vec![]),
        BatchVerification::Accepted
    ));
}

#[test]
fn certificates_go_to_files_named_after_their_roles_and_the_chip() {
    assert_eq!(CERTIFICATE_DIRECTORY, "/opt/dcu/certs");
    let plan = save_certificates(*b"CHIP000000000001");
    assert!(plan.failure.is_none());
    let files: Vec<(CertificateRole, &str)> = plan
        .files
        .iter()
        .map(|file| (file.role, file.name.as_str()))
        .collect();
    assert_eq!(
        files,
        vec![
            (CertificateRole::Hsk, "hsk.cert"),
            (CertificateRole::Cek, "CHIP000000000001_cek.cert"),
            (CertificateRole::Hrk, "hrk.cert"),
        ]
    );

    let plan = save_certificates(*b"\xe4\xb8\xad\xe5\x9b\xbd0000000000");
    assert_eq!(plan.files[1].name, "\u{4e2d}\u{56fd}0000000000_cek.cert");
}

#[test]
fn a_chip_whose_identifier_is_no_text_stops_after_the_first_file() {
    let chip_id = *b"CHIP\xff00000000001";
    let plan = save_certificates(chip_id);
    assert_eq!(plan.files.len(), 1);
    assert_eq!(plan.files[0].role, CertificateRole::Hsk);
    assert_eq!(plan.files[0].name, "hsk.cert");
    let error = plan.failure.unwrap();
    assert_eq!(error.kind(), ErrorKind::InvalidData);
    assert_eq!(
        error.message,
        "invalid utf-8 sequence of 1 bytes from index 4"
    );
}

#[test]
fn a_plan_follows_from_the_text_of_the_chip() {
    let plan = save_plan(Ok("X".to_string()));
    assert_eq!(plan.files.len(), 3);
    assert_eq!(plan.files[1].name, "X_cek.cert");
    assert!(plan.failure.is_none());
    let plan = save_plan(Err("why".to_string()));
    assert_eq!(plan.files.len(), 1);
    assert_eq!(plan.failure.unwrap().message, "why");
}

#[test]
fn a_batch_with_other_user_data_is_refused() {
    let verify = |report: &AttestationReport| -> Result<(), String> {
        let steps: Vec<Result<(), String>> = vec![Ok(()); VERIFICATION_STEPS];
        match verify_report(report, &USER_DATA, &steps) {
            Verification::Accepted => Ok(()),
            Verification::NonceMismatch(error) => Err(error.message),
            _ => panic!(),
        }
    };
    let good = [report(USER_DATA), report(USER_DATA)];
    let outcomes: Vec<Result<(), String>> = good.iter().map(verify).collect();
    assert!(matches!(
        verify_reports(&good, &outcomes),
        BatchVerification::Accepted
    ));
    let bad = [report(USER_DATA), report([8; 64])];
    let outcomes: Vec<Result<(), String>> = bad.iter().map(verify).collect();
    match verify_reports(&bad, &outcomes) {
        BatchVerification::Failed(error) => assert_eq!(error, "Attestation nonce mismatch"),
        _ => panic!(),
    }
}
