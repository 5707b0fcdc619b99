use csv_rs::api::dcu::address_set::PciAddressSet;
use csv_rs::api::dcu::collection::{
    check_answer, expected_pci_addresses, ReportEvent, ReportRequest, ReportRun,
};
use csv_rs::api::dcu::pci::PciAddress;
use csv_rs::api::dcu::query::{
    query_secure_dcu_pci_addresses_with, Attempt, HyflashRun, QueryStep, SecureDcuQuery,
};
use csv_rs::api::dcu::security::secure_pci_addresses_from_hyflash_output;
use csv_rs::api::dcu::topology::DcuTopologyNode;
use csv_rs::error::{Error, ErrorKind, Failure};

fn node(node_id: u32, address: &str) -> DcuTopologyNode {
    DcuTopologyNode {
        node_id,
        dcu_id: node_id * 100,
        pci_address: PciAddress::parse(address).unwrap(),
    }
}

fn nodes() -> Vec<DcuTopologyNode> {
    vec![
        node(1, "0000:41:00.0"),
        node(2, "0000:c1:00.0"),
        node(3, "0000:c2:00.0"),
    ]
}

fn secure(addresses: &[&str]) -> PciAddressSet {
    let list: Vec<PciAddress> = addresses
        .iter()
        .map(|a| PciAddress::parse(a).unwrap())
        .collect();
    PciAddressSet::from_list(&list)
}

fn collect(
    mut run: ReportRun<String>,
    answer: impl Fn(u32) -> ReportEvent<String, &'static str>,
    extract: impl Fn(u32) -> ReportEvent<String, &'static str>,
) -> (Vec<u32>, Result<Vec<String>, Failure<&'static str>>) {
    let mut asked = vec![];
    loop {
        let event = match run.request() {
            ReportRequest::Issue(node) => {
                asked.push(node.node_id);
                answer(node.node_id)
            }
            ReportRequest::Extract(node) => extract(node.node_id),
            ReportRequest::Finish => return (asked, run.finish().map_err(Failure::Found)),
        };
        match run.advance(event) {
            Ok(next) => run = next,
            Err(failure) => return (asked, Err(failure)),
        }
    }
}

fn good(_: u32) -> ReportEvent<String, &'static str> {
    ReportEvent::Answered {
        returned: 0,
        fw_err: 0,
    }
}

fn found(result: Result<Vec<String>, Failure<&'static str>>) -> Error {
    match result {
        Err(Failure::Found(error)) => error,
        _ => panic!("no failure found"),
    }
}

#[test]
fn the_expected_addresses_are_those_of_the_nodes() {
    let mut list = nodes();
    list.push(node(4, "0000:41:00.0"));
    let set = expected_pci_addresses(&list);
    assert_eq!(set.len(), 3);
    for node in &list {
        assert!(set.contains(&node.pci_address));
    }
    assert!(expected_pci_addresses(&vec![]).is_empty());
}

#[test]
fn only_secure_nodes_are_asked_in_order() {
    let run = ReportRun::new(&nodes(), &secure(&["0000:c2:00.0", "0000:41:00.0"]));
    let (asked, reports) = collect(run, good, |id| {
        ReportEvent::Extracted(Some(format!("report {id}")))
    });
    assert_eq!(asked, vec![1, 3]);
    assert!(matches!(reports, Ok(r) if r == vec!["report 1", "report 3"]));
}

#[test]
fn an_accepted_output_leads_to_at_least_one_request() {
    let nodes = nodes();
    let secure = secure_pci_addresses_from_hyflash_output(
        "h",
        "0000:41:00.0 Security state: PROTO\n\
         0000:c1:00.0 Security state: SECURE\n\
         0000:c2:00.0 Security state: PROTO",
        &expected_pci_addresses(&nodes),
    )
    .unwrap();
    let (asked, _) = collect(ReportRun::new(&nodes, &secure), good, |_| {
        ReportEvent::Extracted(None)
    });
    assert_eq!(asked, vec![2]);
}

#[test]
fn a_run_without_reports_fails() {
    for secure in [secure(&[]), secure(&["0000:c1:00.0"])] {
        let run = ReportRun::new(&nodes(), &secure);
        let (_, reports) = collect(run, good, |_| ReportEvent::Extracted(None));
        let error = found(reports);
        assert_eq!(error.kind(), ErrorKind::NotFound);
        assert_eq!(
            error.message,
            "No valid attestation reports obtained from any DCU node"
        );
    }
}

#[test]
fn an_answer_other_than_zero_ends_the_run() {
    let all = ["0000:41:00.0", "0000:c1:00.0", "0000:c2:00.0"];
    let run = ReportRun::new(&nodes(), &secure(&all));
    let (asked, reports) = collect(
        run,
        |id| ReportEvent::Answered {
            returned: if id == 2 { -5 } else { 0 },
            fw_err: if id == 2 { 1 } else { 0 },
        },
        |id| ReportEvent::Extracted(Some(format!("{id}"))),
    );
    assert_eq!(asked, vec![1, 2]);
    let error = found(reports);
    assert_eq!(error.kind(), ErrorKind::Other);
    assert_eq!(
        error.message,
        "DCU report IOCTL returned -5 for SECURE node 2 (DCU ID 200, PCI 0000:c1:00.0)"
    );
}

#[test]
fn a_firmware_error_is_written_in_hexadecimal() {
    let node = node(3, "0000:c2:00.0");
    let error = check_answer(&node, 0, 0xbad).unwrap_err();
    assert_eq!(error.kind(), ErrorKind::Other);
    assert_eq!(
        error.message,
        "DCU report firmware returned error 0xbad for SECURE node 3 (DCU ID 300, PCI 0000:c2:00.0)"
    );
    assert!(check_answer(&node, 0, 0).is_ok());
}

#[test]
fn failures_from_outside_are_passed_on() {
    let run = ReportRun::new(&nodes(), &secure(&["0000:c1:00.0"]));
    let (_, reports) = collect(run, |_| ReportEvent::Failed("refused"), |_| panic!());
    assert!(matches!(reports, Err(Failure::Passed("refused"))));

    let run = ReportRun::new(&nodes(), &secure(&["0000:c1:00.0"]));
    let (_, reports) = collect(run, good, |_| ReportEvent::Failed("no report"));
    assert!(matches!(reports, Err(Failure::Passed("no report"))));
}

#[test]
fn the_run_that_was_accepted_first_decides_who_is_asked() {
    let nodes = nodes();
    let expected = expected_pci_addresses(&nodes);
    let output = |secure: &str| {
        nodes
            .iter()
            .map(|node| {
                let address = node.pci_address.to_string();
                let state = if address == secure { "SECURE" } else { "PROTO" };
                format!("{address} Security state: {state}\n")
            })
            .collect::<String>()
    };
    let runs = [
        (Some(1), output("0000:41:00.0")),
        (Some(255), "0000:41:00.0 Security state: SECURE".to_string()),
        (Some(255), output("0000:c2:00.0")),
        (Some(255), output("0000:c1:00.0")),
    ];
    let mut query = SecureDcuQuery::new();
    let mut accepted = None;
    for (code, stdout) in runs {
        let run = HyflashRun {
            succeeded: false,
            code,
            status: String::new(),
            stdout: stdout.into_bytes(),
            stderr: vec![],
        };
        let path = query.candidate().unwrap();
        let answer = query_secure_dcu_pci_addresses_with(path, &run, &expected);
        match query.advance(Attempt::Asked(answer)) {
            QueryStep::Continue(next) => query = next,
            QueryStep::Accepted(secure) => {
                accepted = Some(secure);
                break;
            }
        }
    }
    let run = ReportRun::new(&nodes, &accepted.unwrap());
    let (asked, _) = collect(run, good, |_| ReportEvent::Extracted(None));
    assert_eq!(asked, vec![3]);
}
