use csv_rs::api::dcu::discovery::{
    parse_dcu_id, topology_node_ids, ScanRequest, TopologyEntry, TopologyScan,
};
use csv_rs::api::dcu::pci::PciAddress;
use csv_rs::api::dcu::topology::{
    invalid_topology_property, parse_topology_u32, topology_property, DcuTopologyNode,
    KFD_TOPOLOGY_NODES,
};
use csv_rs::error::{Error, ErrorKind};

#[test]
fn converts_kfd_location_and_domain_to_pci_address() {
    let properties = "cpu_cores_count 0\nsimd_count 64\nlocation_id 49408\ndomain 0\n";

    assert_eq!(
        PciAddress::from_kfd_properties(properties).unwrap(),
        PciAddress {
            domain: 0,
            bus: 0xc1,
            device: 0,
            function: 0,
        }
    );

    let location_id = (0x4b_u32 << 8) | (0x1d << 3) | 0x7;
    let properties = format!("location_id 0x{location_id:x}\ndomain 0x12\n");
    assert_eq!(
        PciAddress::from_kfd_properties(&properties).unwrap(),
        PciAddress {
            domain: 0x12,
            bus: 0x4b,
            device: 0x1d,
            function: 0x7,
        }
    );
}

#[test]
fn parses_and_formats_pci_addresses() {
    let address = PciAddress::parse("0001:C1:1f.7").unwrap();
    assert_eq!(
        address,
        PciAddress {
            domain: 1,
            bus: 0xc1,
            device: 0x1f,
            function: 7,
        }
    );
    assert_eq!(address.to_string(), "0001:c1:1f.7");

    assert!(PciAddress::parse("0000:c1:20.0").is_none());
    assert!(PciAddress::parse("0000:c1:00.8").is_none());
    assert!(PciAddress::parse("not-a-pci-address").is_none());
}

#[test]
fn addresses_need_not_be_padded() {
    let address = PciAddress {
        domain: 1,
        bus: 2,
        device: 3,
        function: 4,
    };
    for text in ["1:2:3.4", "+1:+02:003.04", "0000001:2:3.+4"] {
        assert_eq!(PciAddress::parse(text), Some(address));
    }
    for text in [
        "", ".", "1:2:3", "1:2.3", "1:2:3:4.5", "1:2:3.4.5", ":2:3.4", "1::3.4", "1:2:.4",
        "1:2:3.", "10000:2:3.4", "1:100:3.4", "1:2:100.4", "1:2:3.100", "-1:2:3.4", "g:2:3.4",
        " 1:2:3.4", "1:2:3.4 ", "++1:2:3.4", "0x1:2:3.4",
    ] {
        assert_eq!(PciAddress::parse(text), None, "{text}");
    }
}

#[test]
fn every_device_and_function_is_read_back() {
    for (domain, bus) in [(0u16, 0u8), (0xffff, 0xff), (0x0a0b, 0x0c)] {
        for device in 0..=0x1f {
            for function in 0..=0x7 {
                let address = PciAddress {
                    domain,
                    bus,
                    device,
                    function,
                };
                assert_eq!(
                    address.to_string(),
                    format!("{domain:04x}:{bus:02x}:{device:02x}.{function}")
                );
                assert_eq!(PciAddress::parse(&address.to_string()), Some(address));
            }
        }
    }
}

#[test]
fn the_order_of_addresses_is_that_of_their_fields() {
    let low = PciAddress {
        domain: 1,
        bus: 0xff,
        device: 0xff,
        function: 0xff,
    };
    let high = PciAddress {
        domain: 2,
        bus: 0,
        device: 0,
        function: 0,
    };
    assert!(low < high);
    assert!(low.exec_rank() < high.exec_rank());
    assert_eq!(high.exec_rank(), 0x200_0000);
    assert_eq!(low.exec_rank(), 0x1ff_ffff);
}

#[test]
fn every_location_gives_the_address_that_its_bits_spell() {
    for location in 0..=0xffff_u32 {
        let address =
            PciAddress::from_kfd_properties(&format!("domain 7\nlocation_id {location}")).unwrap();
        assert_eq!(address.domain, 7);
        assert_eq!(address.bus as u32, location >> 8);
        assert_eq!(address.device as u32, (location >> 3) & 0x1f);
        assert_eq!(address.function as u32, location & 7);
        if location % 251 != 0 {
            continue;
        }
        assert_eq!(PciAddress::parse(&address.to_string()), Some(address));
    }
}

#[test]
fn each_bad_property_has_its_message() {
    let message = |properties: &str| {
        let error = PciAddress::from_kfd_properties(properties).unwrap_err();
        assert_eq!(error.kind(), ErrorKind::InvalidData);
        error.message
    };
    assert_eq!(message("domain 0"), "location_id is missing");
    assert_eq!(message("location_id\ndomain 0"), "location_id is missing");
    assert_eq!(message("location_id 1"), "domain is missing");
    assert_eq!(
        message("location_id x\n"),
        "failed to parse topology property"
    );
    assert_eq!(
        message("location_id 1\ndomain 4294967296"),
        "failed to parse topology property"
    );
    assert_eq!(
        message("location_id 65536\ndomain 65536"),
        "location_id is out of range"
    );
    assert_eq!(
        message("location_id 65535\ndomain 0x10000"),
        "domain is out of range"
    );
}

#[test]
fn the_first_line_with_a_value_gives_the_property() {
    let properties = "a\n a  1 2\r\na 3\nab 4\nc\u{a0}5\n";
    assert_eq!(topology_property(properties, "a"), Some("1".to_string()));
    assert_eq!(topology_property(properties, "ab"), Some("4".to_string()));
    assert_eq!(topology_property(properties, "c"), Some("5".to_string()));
    assert_eq!(topology_property(properties, "b"), None);
    assert_eq!(topology_property("", ""), None);
}

#[test]
fn property_numbers_are_decimal_or_hexadecimal() {
    for (text, value) in [
        ("0", 0),
        ("4294967295", u32::MAX),
        ("0xffffFFFF", u32::MAX),
        ("0X10", 16),
        ("+7", 7),
        ("0x+7", 7),
        ("00012", 12),
    ] {
        assert_eq!(parse_topology_u32(text).unwrap(), value);
    }
    for text in ["", "0x", "+", "-1", "4294967296", "0x100000000", "1f", " 1", "0x 1"] {
        let error = parse_topology_u32(text).unwrap_err();
        assert_eq!(error.kind(), ErrorKind::InvalidData);
        assert_eq!(error.message, "failed to parse topology property");
    }
    assert_eq!(invalid_topology_property("words").message, "words");
}

fn entry(is_dir: bool, name: Option<&str>) -> TopologyEntry {
    TopologyEntry {
        is_dir,
        name: name.map(str::to_string),
    }
}

#[test]
fn node_ids_are_the_numbers_of_directories_in_order() {
    let entries = vec![
        entry(true, Some("10")),
        entry(true, Some("2")),
        entry(false, Some("1")),
        entry(true, None),
        entry(true, Some("x3")),
        entry(true, Some("4294967296")),
        entry(true, Some("4294967295")),
        entry(true, Some("2")),
        entry(true, Some("0")),
    ];
    assert_eq!(topology_node_ids(&entries), vec![0, 2, 2, 10, u32::MAX]);
    assert_eq!(topology_node_ids(&vec![]), vec![]);
}

#[test]
fn dcu_ids_may_have_white_space_around_them() {
    assert_eq!(parse_dcu_id("\t 51515 \n\u{2029}").unwrap(), 51515);
    for text in ["", " ", "1 2", "0x1", "-1", "4294967296"] {
        let error = parse_dcu_id(text).unwrap_err();
        assert_eq!(error.kind(), ErrorKind::InvalidData);
        assert_eq!(error.message, "Failed to parse DCU ID");
    }
}

fn scan(
    node_ids: Vec<u32>,
    file: impl Fn(&str) -> Result<String, Error>,
) -> (Vec<String>, Result<Vec<DcuTopologyNode>, Error>) {
    let mut read = vec![];
    let mut scan = TopologyScan::new(node_ids);
    loop {
        match scan.request().file_path() {
            None => return (read, scan.finish()),
            Some(path) => {
                read.push(path.strip_prefix(KFD_TOPOLOGY_NODES).unwrap().to_string());
                match scan.advance(file(&path)) {
                    Ok(next) => scan = next,
                    Err(error) => return (read, Err(error)),
                }
            }
        }
    }
}

#[test]
fn a_scan_finds_the_nodes_that_have_an_identifier() {
    let (read, found) = scan(vec![0, 3, 4], |path| {
        Ok(match path.strip_prefix(KFD_TOPOLOGY_NODES).unwrap() {
            "/0/gpu_id" => "0\n",
            "/3/gpu_id" => "300\n",
            "/3/properties" => "location_id 49408\ndomain 0\n",
            "/4/gpu_id" => "400\n",
            "/4/properties" => "location_id 0x4107\ndomain 1\n",
            other => panic!("{other}"),
        }
        .to_string())
    });
    assert_eq!(
        read,
        vec!["/0/gpu_id", "/3/gpu_id", "/3/properties", "/4/gpu_id", "/4/properties"]
    );
    let found = found.unwrap();
    assert_eq!(found.len(), 2);
    assert_eq!((found[0].node_id, found[0].dcu_id), (3, 300));
    assert_eq!(found[0].pci_address.to_string(), "0000:c1:00.0");
    assert_eq!((found[1].node_id, found[1].dcu_id), (4, 400));
    assert_eq!(found[1].pci_address.to_string(), "0001:41:00.7");
}

#[test]
fn a_scan_without_adapters_fails() {
    for node_ids in [vec![], vec![1, 2]] {
        let (_, found) = scan(node_ids, |_| Ok("0".to_string()));
        let error = found.unwrap_err();
        assert_eq!(error.kind(), ErrorKind::NotFound);
        assert_eq!(error.message, "No DCU GPU nodes found in KFD topology");
    }
}

#[test]
fn a_scan_stops_at_the_first_failure_and_keeps_its_kind() {
    let (read, found) = scan(vec![7, 8], |_| {
        Err(Error::new(
            ErrorKind::System(std::io::ErrorKind::PermissionDenied),
            "no access".to_string(),
        ))
    });
    assert_eq!(read.len(), 1);
    let error = found.unwrap_err();
    assert_eq!(
        error.kind(),
        ErrorKind::System(std::io::ErrorKind::PermissionDenied)
    );
    assert_eq!(
        error.message,
        "Failed to read GPU ID for KFD topology node 7: no access"
    );

    let (_, found) = scan(vec![7], |_| Ok("seven".to_string()));
    let error = found.unwrap_err();
    assert_eq!(error.kind(), ErrorKind::InvalidData);
    assert_eq!(
        error.message,
        "Failed to read GPU ID for KFD topology node 7: Failed to parse DCU ID"
    );

    let (_, found) = scan(vec![7], |_| Ok("70".to_string()));
    let error = found.unwrap_err();
    assert_eq!(error.kind(), ErrorKind::InvalidData);
    assert_eq!(
        error.message,
        "Failed to determine PCI address for KFD topology node 7 (DCU ID 70): \
         location_id is missing"
    );
}

#[test]
fn requests_of_a_scan_name_their_files() {
    assert_eq!(
        ScanRequest::GpuId(12).file_path().unwrap(),
        "/sys/devices/virtual/kfd/kfd/topology/nodes/12/gpu_id"
    );
    assert_eq!(
        ScanRequest::Properties(u32::MAX).file_path().unwrap(),
        "/sys/devices/virtual/kfd/kfd/topology/nodes/4294967295/properties"
    );
    assert_eq!(ScanRequest::Finish.file_path(), None);
}
