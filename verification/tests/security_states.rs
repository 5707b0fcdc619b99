use csv_rs::api::dcu::address_set::PciAddressSet;
use csv_rs::api::dcu::hyflash::{
    parse_hyflash_security_state_line, parse_hyflash_security_states, unsupported_state,
    DcuSecurityState,
};
use csv_rs::api::dcu::pci::PciAddress;
use csv_rs::api::dcu::security::{
    secure_pci_addresses_from_hyflash_output, secure_pci_addresses_from_records,
};
use csv_rs::error::ErrorKind;

fn address(text: &str) -> PciAddress {
    PciAddress::parse(text).unwrap()
}

#[test]
fn parses_hyflash_security_states_by_exact_final_token() {
    let output = r#"
adapter 0 0000:41:00.0 Security state: PROTO
adapter 5 0000:c1:00.0 Security state: SECURE
adapter 6 0000:c2:00.0 security STATE: secure
unrelated SECURE output
"#;

    assert_eq!(
        parse_hyflash_security_states(output).unwrap(),
        vec![
            (
                PciAddress {
                    domain: 0,
                    bus: 0x41,
                    device: 0,
                    function: 0,
                },
                DcuSecurityState::Proto,
            ),
            (
                PciAddress {
                    domain: 0,
                    bus: 0xc1,
                    device: 0,
                    function: 0,
                },
                DcuSecurityState::Secure,
            ),
            (
                PciAddress {
                    domain: 0,
                    bus: 0xc2,
                    device: 0,
                    function: 0,
                },
                DcuSecurityState::Secure,
            ),
        ]
    );

    let error = parse_hyflash_security_states("adapter 7 0000:c3:00.0 Security state: INSECURE")
        .unwrap_err();
    assert_eq!(error.kind(), ErrorKind::InvalidData);

    let error = parse_hyflash_security_states(
        "adapter 8 0000:c4:00.0 Security state: SECURE trailing-text",
    )
    .unwrap_err();
    assert_eq!(error.kind(), ErrorKind::InvalidData);
}

#[test]
fn hyflash_security_filter_fails_closed() {
    let bdf_41 = PciAddress::parse("0000:41:00.0").unwrap();
    let bdf_c1 = PciAddress::parse("0000:c1:00.0").unwrap();
    let expected = PciAddressSet::from_list(&[bdf_41, bdf_c1]);

    let error =
        secure_pci_addresses_from_hyflash_output("hyflash", "unparseable output", &expected)
            .unwrap_err();
    assert_eq!(error.kind(), ErrorKind::InvalidData);

    let error = secure_pci_addresses_from_hyflash_output(
        "hyflash",
        "adapter 0 0000:41:00.0 Security state: PROTO",
        &expected,
    )
    .unwrap_err();
    assert_eq!(error.kind(), ErrorKind::InvalidData);

    let secure = secure_pci_addresses_from_hyflash_output(
        "hyflash",
        "adapter 0 0000:41:00.0 Security state: PROTO\n\
         adapter 5 0000:c1:00.0 Security state: SECURE",
        &expected,
    )
    .unwrap();
    assert_eq!(secure.len(), 1);
    assert!(secure.contains(&bdf_c1));

    let error = secure_pci_addresses_from_hyflash_output(
        "hyflash",
        "adapter 0 0000:41:00.0 Security state: PROTO\n\
         adapter 5 0000:c1:00.0 Security state: PROTO",
        &expected,
    )
    .unwrap_err();
    assert_eq!(error.kind(), ErrorKind::NotFound);

    let error = secure_pci_addresses_from_hyflash_output(
        "hyflash",
        "adapter 0 0000:41:00.0 Security state: PROTO\n\
         adapter 5 0000:c1:00.0 Security state: SECURE\n\
         adapter 6 0000:c2:00.0 Security state: SECURE",
        &expected,
    )
    .unwrap_err();
    assert_eq!(error.kind(), ErrorKind::InvalidData);
}

#[test]
fn a_line_without_an_announcement_reports_nothing() {
    for line in [
        "",
        "   ",
        "security",
        "adapter 0000:41:00.0 SECURE",
        "Security: state SECURE 0000:41:00.0",
        "Security the state: SECURE",
    ] {
        assert_eq!(parse_hyflash_security_state_line(line).unwrap(), None);
    }
}

#[test]
fn the_colon_may_stand_alone_or_be_left_out() {
    let secure = Some((address("0000:c1:00.0"), DcuSecurityState::Secure));
    for line in [
        "0000:c1:00.0 Security state: SECURE",
        "0000:c1:00.0 Security state : SECURE",
        "0000:c1:00.0 Security state SECURE",
        "0000:c1:00.0 Security state::: SECURE",
        "\tGPU 0000:c1:00.0\u{3000}SECURITY\u{a0}STATE: Secure\r",
    ] {
        assert_eq!(parse_hyflash_security_state_line(line).unwrap(), secure);
    }
}

#[test]
fn the_first_address_before_the_announcement_counts() {
    assert_eq!(
        parse_hyflash_security_state_line(
            "0000:c1:20.0 0000:c2:00.0 0000:c3:00.0 Security state: PROTO"
        )
        .unwrap(),
        Some((address("0000:c2:00.0"), DcuSecurityState::Proto))
    );
}

#[test]
fn malformed_records_are_named_in_the_message() {
    let line = "x 0000:c1:00.0 Security state:";
    let error = parse_hyflash_security_state_line(line).unwrap_err();
    assert_eq!(error.kind(), ErrorKind::InvalidData);
    assert_eq!(
        error.message,
        "malformed hyflash security-state record: x 0000:c1:00.0 Security state:"
    );

    let line = "x 0000:c1:00.0 Security state: SECURE now";
    assert_eq!(
        parse_hyflash_security_state_line(line).unwrap_err().message,
        "malformed hyflash security-state record: x 0000:c1:00.0 Security state: SECURE now"
    );

    let line = "adapter Security state: SECURE";
    let error = parse_hyflash_security_state_line(line).unwrap_err();
    assert_eq!(error.kind(), ErrorKind::InvalidData);
    assert_eq!(
        error.message,
        "hyflash security-state record has no valid PCI address: adapter Security state: SECURE"
    );
}

#[test]
fn an_unsupported_state_is_quoted_with_escapes() {
    let error = parse_hyflash_security_state_line("0001:0a:1f.7 Security state: IN\"SECURE\\")
        .unwrap_err();
    assert_eq!(error.kind(), ErrorKind::InvalidData);
    assert_eq!(
        error.message,
        "hyflash reported unsupported security state \"IN\\\"SECURE\\\\\" for 0001:0a:1f.7"
    );
}

#[test]
fn a_quoted_state_is_put_before_its_address() {
    let error = unsupported_state("'X'", &address("0000:c1:00.0"));
    assert_eq!(error.kind(), ErrorKind::InvalidData);
    assert_eq!(
        error.message,
        "hyflash reported unsupported security state 'X' for 0000:c1:00.0"
    );
}

#[test]
fn one_bad_line_refuses_a_complete_output() {
    let expected = PciAddressSet::from_list(&[address("0000:c1:00.0")]);
    let good = "0000:c1:00.0 Security state: SECURE";
    assert!(secure_pci_addresses_from_hyflash_output("h", good, &expected).is_ok());
    for bad in ["Security state: SECURE", "0000:c1:00.0 Security state: SECURED"] {
        for output in [format!("{good}\n{bad}"), format!("{bad}\n{good}")] {
            let error = secure_pci_addresses_from_hyflash_output("h", &output, &expected)
                .unwrap_err();
            assert_eq!(error.kind(), ErrorKind::InvalidData);
        }
    }
}

#[test]
fn the_first_line_with_a_failure_decides() {
    let error = parse_hyflash_security_states(
        "0000:c1:00.0 Security state: SECURE\n\
         0000:c2:00.0 Security state: A\n\
         0000:c3:00.0 Security state: B\n",
    )
    .unwrap_err();
    assert_eq!(
        error.message,
        "hyflash reported unsupported security state \"A\" for 0000:c2:00.0"
    );
}

#[test]
fn lines_that_report_nothing_change_nothing() {
    let with = "noise\r\n0000:c1:00.0 Security state: SECURE\r\nnoise\r\n\r\n";
    let without = "0000:c1:00.0 Security state: SECURE";
    assert_eq!(
        parse_hyflash_security_states(with).unwrap(),
        parse_hyflash_security_states(without).unwrap()
    );
    assert_eq!(parse_hyflash_security_states("").unwrap(), vec![]);
}

#[test]
fn each_reason_to_refuse_records_has_its_message() {
    let a = address("0000:41:00.0");
    let b = address("0000:c1:00.0");
    let c = address("0001:02:03.4");
    let expected = PciAddressSet::from_list(&[b, a]);
    let refuse = |records: Vec<(PciAddress, DcuSecurityState)>| {
        secure_pci_addresses_from_records("/bin/hyflash", &records, &expected).unwrap_err()
    };
    let proto = DcuSecurityState::Proto;
    let secure = DcuSecurityState::Secure;

    let error = refuse(vec![]);
    assert_eq!(error.kind(), ErrorKind::InvalidData);
    assert_eq!(
        error.message,
        "/bin/hyflash returned no parseable DCU security-state records"
    );

    let error = refuse(vec![(a, proto), (b, secure), (a, secure), (b, proto)]);
    assert_eq!(error.kind(), ErrorKind::InvalidData);
    assert_eq!(
        error.message,
        "/bin/hyflash reported conflicting security states for 0000:41:00.0"
    );

    let error = refuse(vec![(c, secure)]);
    assert_eq!(error.kind(), ErrorKind::InvalidData);
    assert_eq!(
        error.message,
        "/bin/hyflash output is missing KFD GPU BDF record(s): 0000:41:00.0, 0000:c1:00.0"
    );

    let d = address("0001:02:03.3");
    let error = refuse(vec![(c, secure), (b, secure), (d, proto), (a, proto)]);
    assert_eq!(error.kind(), ErrorKind::InvalidData);
    assert_eq!(
        error.message,
        "/bin/hyflash output contains unexpected DCU BDF record(s): 0001:02:03.3, 0001:02:03.4"
    );

    let error = refuse(vec![(a, proto), (b, proto)]);
    assert_eq!(error.kind(), ErrorKind::NotFound);
    assert_eq!(
        error.message,
        "/bin/hyflash reported no SECURE DCU adapters"
    );
}

#[test]
fn order_and_repetition_of_records_do_not_matter() {
    let a = address("0000:41:00.0");
    let b = address("0000:c1:00.0");
    let expected = PciAddressSet::from_list(&[a, b]);
    let once = vec![
        (a, DcuSecurityState::Secure),
        (b, DcuSecurityState::Proto),
    ];
    let often = vec![
        (b, DcuSecurityState::Proto),
        (a, DcuSecurityState::Secure),
        (b, DcuSecurityState::Proto),
    ];
    for records in [once, often] {
        let secure = secure_pci_addresses_from_records("hyflash", &records, &expected).unwrap();
        assert_eq!(secure.members(), &vec![a]);
    }
}

#[test]
fn a_set_holds_each_address_once_in_order() {
    let mut set = PciAddressSet::new();
    assert!(set.is_empty());
    let a = address("0000:00:00.1");
    let b = address("0000:00:01.0");
    let c = address("0000:01:00.0");
    let d = address("0001:00:00.0");
    for address in [d, b, a, c] {
        assert!(set.insert(address));
        assert!(!set.insert(address));
    }
    assert_eq!(set.len(), 4);
    assert!(!set.is_empty());
    assert_eq!(set.members(), &vec![a, b, c, d]);
    assert!(a < b && b < c && c < d);
    assert!(!set.contains(&address("0000:00:00.0")));
}

#[test]
fn neither_case_nor_white_space_changes_what_a_line_reports() {
    for line in [
        "x 0000:c1:0a.0 Security state: secure",
        "x 0000:c1:0a.0 Security state : Proto",
        "x 0000:c1:0a.0 Security state secured",
        "Security state: SECURE",
        "x 0000:c1:0a.0 Security state: SECURE twice",
        "nothing to report",
    ] {
        let upper = line.to_ascii_uppercase();
        let lower = line.to_ascii_lowercase();
        let spread = line.replace(' ', "\u{a0}\t ");
        let here = parse_hyflash_security_state_line(line);
        for other in [upper, lower, spread] {
            match (&here, parse_hyflash_security_state_line(&other)) {
                (Ok(a), Ok(b)) => assert_eq!(*a, b),
                (Err(a), Err(b)) => {
                    assert_eq!(a.kind(), ErrorKind::InvalidData);
                    assert_eq!(b.kind(), ErrorKind::InvalidData);
                }
                _ => panic!("{other}"),
            }
        }
    }
}

#[test]
fn order_and_repetition_of_lines_change_nothing() {
    let expected = PciAddressSet::from_list(&[address("0000:41:00.0"), address("0000:c1:00.0")]);
    let proto = "0000:41:00.0 Security state: PROTO";
    let secure = "0000:c1:00.0 Security state: SECURE";
    let both = "0000:c1:00.0 Security state: PROTO";
    let bad = "Security state: SECURE";
    let outcome = |path: &str, lines: &[&str]| {
        secure_pci_addresses_from_hyflash_output(path, &lines.join("\n"), &expected)
            .map(|set| set.members().clone())
            .map_err(|error| error.kind())
    };
    assert_eq!(
        outcome("a", &[proto, secure]),
        Ok(vec![address("0000:c1:00.0")])
    );
    for lines in [
        vec![proto, secure],
        vec![proto, both],
        vec![proto, secure, both],
        vec![proto],
        vec![proto, secure, bad],
    ] {
        let mut others = lines.clone();
        others.reverse();
        others.push(lines[0]);
        assert_eq!(outcome("a", &lines), outcome("b", &others));
    }
}
