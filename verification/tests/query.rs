use csv_rs::api::dcu::address_set::PciAddressSet;
use csv_rs::api::dcu::pci::PciAddress;
use csv_rs::api::dcu::query::{
    hyflash_not_started, hyflash_path, hyflash_timed_out, poll_hyflash,
    query_secure_dcu_pci_addresses_with, secure_pci_addresses_from_run, Attempt, HyflashRun,
    PollAction, QueryStep, SecureDcuQuery, HYFLASH_CANDIDATES, HYFLASH_POLL_INTERVAL_MILLIS,
    HYFLASH_TIMEOUT_NANOS,
};
use csv_rs::error::{Error, ErrorKind};

const SECURE_OUTPUT: &str = "0000:c1:00.0 Security state: SECURE";

fn expected() -> PciAddressSet {
    PciAddressSet::from_list(&[PciAddress::parse("0000:c1:00.0").unwrap()])
}

fn run(succeeded: bool, code: Option<i32>, stdout: &[u8], stderr: &[u8]) -> HyflashRun {
    HyflashRun {
        succeeded,
        code,
        status: "exit status: made up".to_string(),
        stdout: stdout.to_vec(),
        stderr: stderr.to_vec(),
    }
}

#[test]
fn a_started_tool_is_waited_for_until_its_time_is_up() {
    assert_eq!(HYFLASH_TIMEOUT_NANOS, 15 * 1_000_000_000);
    assert_eq!(HYFLASH_POLL_INTERVAL_MILLIS, 50);
    assert_eq!(poll_hyflash(true, 0), PollAction::Collect);
    assert_eq!(poll_hyflash(true, u128::MAX), PollAction::Collect);
    assert_eq!(poll_hyflash(false, 0), PollAction::Wait);
    assert_eq!(poll_hyflash(false, 14_999_999_999), PollAction::Wait);
    assert_eq!(poll_hyflash(false, 15_000_000_000), PollAction::Stop);
    assert_eq!(poll_hyflash(false, u128::MAX), PollAction::Stop);
}

#[test]
fn a_tool_that_gives_no_answer_has_its_message() {
    let error = hyflash_timed_out("/bin/hyflash");
    assert_eq!(error.kind(), ErrorKind::TimedOut);
    assert_eq!(
        error.message,
        "/bin/hyflash did not return security states within 15 seconds"
    );

    let cause = Error::new(
        ErrorKind::System(std::io::ErrorKind::PermissionDenied),
        "Permission denied (os error 13)".to_string(),
    );
    let error = hyflash_not_started("/bin/hyflash", cause);
    assert_eq!(
        error.kind(),
        ErrorKind::System(std::io::ErrorKind::PermissionDenied)
    );
    assert_eq!(
        error.message,
        "Failed to execute /bin/hyflash for DCU security states: Permission denied (os error 13)"
    );
}

#[test]
fn both_outputs_are_read_and_bad_bytes_replaced() {
    let ended = run(true, Some(0), b"a\xffb", "\u{e9}".as_bytes());
    assert_eq!(ended.output_text(), "a\u{fffd}b\n\u{e9}");

    for ended in [
        run(true, Some(0), SECURE_OUTPUT.as_bytes(), b"\xff\xfe"),
        run(true, Some(0), b"noise", SECURE_OUTPUT.as_bytes()),
    ] {
        let secure = query_secure_dcu_pci_addresses_with("h", &ended, &expected()).unwrap();
        assert_eq!(secure.len(), 1);
    }
}

#[test]
fn success_and_one_other_exit_code_are_accepted() {
    for (succeeded, code, accepted) in [
        (true, Some(0), true),
        (false, Some(255), true),
        (false, Some(254), false),
        (false, Some(1), false),
        (false, Some(-1), false),
        (false, None, false),
    ] {
        let ended = run(succeeded, code, SECURE_OUTPUT.as_bytes(), b"");
        let answer = query_secure_dcu_pci_addresses_with("h", &ended, &expected());
        if accepted {
            assert!(answer.unwrap().contains(&expected().members()[0]));
        } else {
            let error = answer.unwrap_err();
            assert_eq!(error.kind(), ErrorKind::Other);
            assert_eq!(
                error.message,
                "hyflash exit status was exit status: made up"
            );
        }
    }
}

#[test]
fn an_accepted_ending_does_not_excuse_bad_output() {
    for code in [Some(0), Some(255)] {
        let ended = run(code == Some(0), code, b"", b"");
        let error =
            secure_pci_addresses_from_run("h", &ended, "nothing here", &expected()).unwrap_err();
        assert_eq!(error.kind(), ErrorKind::InvalidData);
        assert_eq!(
            error.message,
            "h returned no parseable DCU security-state records"
        );
    }
}

fn failed(message: &str) -> Attempt {
    Attempt::Asked(Err(Error::new(ErrorKind::Other, message.to_string())))
}

fn outcome(attempts: Vec<Attempt>) -> (usize, Result<PciAddressSet, Error>) {
    let mut query = SecureDcuQuery::new();
    let mut attempts = attempts.into_iter();
    let mut tried = 0;
    while let Some(path) = query.candidate() {
        assert_eq!(path, hyflash_path(tried));
        tried += 1;
        match query.advance(attempts.next().unwrap_or(Attempt::NotInstalled)) {
            QueryStep::Continue(next) => query = next,
            QueryStep::Accepted(secure) => return (tried, Ok(secure)),
        }
    }
    (tried, Err(query.failure()))
}

#[test]
fn the_first_accepted_answer_ends_the_query() {
    let (tried, secure) = outcome(vec![
        Attempt::NotInstalled,
        failed("stale"),
        Attempt::Asked(Ok(expected())),
        failed("not asked"),
    ]);
    assert_eq!(tried, 3);
    assert!(secure.unwrap().contains(&expected().members()[0]));
}

#[test]
fn a_query_without_a_tool_names_all_places() {
    let (tried, answer) = outcome(vec![]);
    assert_eq!(tried, HYFLASH_CANDIDATES);
    let error = answer.unwrap_err();
    assert_eq!(error.kind(), ErrorKind::NotFound);
    assert_eq!(
        error.message,
        "hyflash not found; checked: /usr/local/hyhal/firmware/vbios/hyflash, \
         /usr/local/hyhal/firmware/vbios/hyflash_x86, /opt/hyhal/vbios/hyflash_x86, \
         /opt/hyhal/firmware/vbios/hyflash, /opt/hyhal/firmware/vbios/hyflash_x86"
    );
}

#[test]
fn a_query_with_rejections_only_names_them_all() {
    let (tried, answer) = outcome(vec![
        failed("first"),
        Attempt::NotInstalled,
        Attempt::NotInstalled,
        Attempt::NotInstalled,
        failed("last"),
    ]);
    assert_eq!(tried, HYFLASH_CANDIDATES);
    let error = answer.unwrap_err();
    assert_eq!(error.kind(), ErrorKind::InvalidData);
    assert_eq!(
        error.message,
        "no hyflash candidate returned trustworthy security states: \
         /usr/local/hyhal/firmware/vbios/hyflash: first; \
         /opt/hyhal/firmware/vbios/hyflash_x86: last"
    );
}
