//! The adapters that the KFD driver's topology lists.

use crate::api::dcu::pci::PciAddress;
use crate::error::{Error, ErrorKind, ErrorView};
use crate::{error, number, text};
use vstd::prelude::*;
use vstd::slice::*;
use vstd::string::*;

verus! {

/// The directory that holds one entry for each node of the topology.
pub const KFD_TOPOLOGY_NODES: &'static str = "/sys/devices/virtual/kfd/kfd/topology/nodes";

/// An adapter of the topology.
#[derive(Clone, Copy, Debug)]
pub struct DcuTopologyNode {
    pub node_id: u32,
    pub dcu_id: u32,
    pub pci_address: PciAddress,
}

/// A failure that says a property has not the expected form.
pub open spec fn invalid_property(message: Seq<char>) -> ErrorView {
    ErrorView { kind: ErrorKind::InvalidData, message }
}

/// The value of a property: the second word of the first line that has one and whose first
/// word is the property's name.
pub open spec fn property_of(lines: Seq<Seq<char>>, property: Seq<char>) -> Option<Seq<char>>
    decreases lines.len(),
{
    if lines.len() == 0 {
        None
    } else {
        let fields = text::words(lines[0]);
        if fields.len() >= 2 && fields[0] == property {
            Some(fields[1])
        } else {
            property_of(lines.drop_first(), property)
        }
    }
}

/// The number that a property denotes: hexadecimal after `0x` or `0X`, else decimal.
pub open spec fn property_number(value: Seq<char>) -> Option<nat> {
    if value.len() >= 2 && value[0] == '0' && (value[1] == 'x' || value[1] == 'X') {
        number::number(value.skip(2), 16, u32::MAX as nat)
    } else {
        number::number(value, 10, u32::MAX as nat)
    }
}

/// The number that the named property denotes, or why there is none.
pub open spec fn number_property(
    properties: Seq<char>,
    property: Seq<char>,
    missing: Seq<char>,
) -> Result<nat, ErrorView> {
    match property_of(text::lines(properties), property) {
        None => Err(invalid_property(missing)),
        Some(value) => match property_number(value) {
            None => Err(invalid_property("failed to parse topology property"@)),
            Some(n) => Ok(n),
        },
    }
}

/// The PCI address at a location in a domain: eight bits of the location for the bus, five for
/// the device and three for the function, the most significant first.
pub open spec fn address_at(location: nat, domain: nat) -> PciAddress {
    PciAddress {
        domain: domain as u16,
        bus: (location / 0x100) as u8,
        device: (location / 0x8 % 0x20) as u8,
        function: (location % 0x8) as u8,
    }
}

/// The location of an address within its domain.
pub open spec fn location_of(address: PciAddress) -> nat {
    (address.bus * 0x100 + address.device * 0x8 + address.function) as nat
}

/// The PCI address that the properties of a node give, or why they give none.
pub open spec fn address_by_properties(properties: Seq<char>) -> Result<PciAddress, ErrorView> {
    match number_property(properties, "location_id"@, "location_id is missing"@) {
        Err(error) => Err(error),
        Ok(location) => match number_property(properties, "domain"@, "domain is missing"@) {
            Err(error) => Err(error),
            Ok(domain) => if location > u16::MAX {
                Err(invalid_property("location_id is out of range"@))
            } else if domain > u16::MAX {
                Err(invalid_property("domain is out of range"@))
            } else {
                Ok(address_at(location, domain))
            },
        },
    }
}

/// An address in range is the one at its own location, and no two locations have the same
/// address.
pub proof fn location_round_trip(address: PciAddress, location: nat, domain: nat)
    requires
        location <= u16::MAX,
        domain <= u16::MAX,
    ensures
        address.in_range() ==> location_of(address) <= u16::MAX && address_at(
            location_of(address),
            address.domain as nat,
        ) == address,
        location_of(address_at(location, domain)) == location,
        address_at(location, domain).domain == domain,
{
    if address.in_range() {
        let bus = address.bus as int;
        let device = address.device as int;
        let function = address.function as int;
        let at = location_of(address);
        assert(at == bus * 0x100 + device * 0x8 + function);
        assert(at / 0x100 == bus);
        assert(at / 0x8 == bus * 0x20 + device);
        assert(at / 0x8 % 0x20 == device);
        assert(at % 0x8 == function);
    }
    assert(location / 0x100 <= 0xff);
    assert(location / 0x8 / 0x20 == location / 0x100);
    assert(location / 0x8 == 0x20 * (location / 0x8 / 0x20) + location / 0x8 % 0x20);
    assert(location == 0x8 * (location / 0x8) + location % 0x8);
}

/// The address that the properties of a node give has a device and a function in range.
pub proof fn address_by_properties_in_range(properties: Seq<char>)
    ensures
        address_by_properties(properties) matches Ok(address) ==> address.in_range(),
{
}

/// The value of a property is the second word of the line at `k`, where that is the first line
/// with two words or more that starts with the property's name; there is none where no line is
/// such a line.
pub proof fn property_is_on_its_first_line(lines: Seq<Seq<char>>, property: Seq<char>, k: int)
    requires
        0 <= k <= lines.len(),
        forall|i: int|
            0 <= i < k ==> !(text::words(#[trigger] lines[i]).len() >= 2 && text::words(lines[i])[0]
                == property),
        k < lines.len() ==> text::words(lines[k]).len() >= 2 && text::words(lines[k])[0]
            == property,
    ensures
        k < lines.len() ==> property_of(lines, property) == Some(text::words(lines[k])[1]),
        k == lines.len() ==> property_of(lines, property) is None,
    decreases lines.len(),
{
    if k > 0 {
        let rest = lines.drop_first();
        assert(!(text::words(lines[0]).len() >= 2 && text::words(lines[0])[0] == property));
        assert forall|i: int| 0 <= i < k - 1 implies !(text::words(#[trigger] rest[i]).len() >= 2
            && text::words(rest[i])[0] == property) by {
            assert(rest[i] == lines[i + 1]);
        }
        property_is_on_its_first_line(rest, property, k - 1);
    }
}

/// A property after `0x` or `0X` is read in hexadecimal, and any other in decimal; no number
/// above 32 bits is.
pub proof fn property_number_is(value: Seq<char>)
    ensures
        property_number(seq!['0', 'x'] + value) == number::number(value, 16, 0xffff_ffff),
        property_number(seq!['0', 'X'] + value) == number::number(value, 16, 0xffff_ffff),
        !(value.len() >= 2 && (value.take(2) == seq!['0', 'x'] || value.take(2) == seq!['0', 'X']))
            ==> property_number(value) == number::number(value, 10, 0xffff_ffff),
{
    assert((seq!['0', 'x'] + value).skip(2) =~= value);
    assert((seq!['0', 'X'] + value).skip(2) =~= value);
    if value.len() >= 2 && value[0] == '0' {
        if value[1] == 'x' {
            assert(value.take(2) =~= seq!['0', 'x']);
        }
        if value[1] == 'X' {
            assert(value.take(2) =~= seq!['0', 'X']);
        }
    }
}

/// Properties that give a location and a domain of at most 16 bits give the address in that
/// domain whose bus, device and function make up the location: eight, five and three bits of it.
pub proof fn properties_give_the_address(
    properties: Seq<char>,
    location_text: Seq<char>,
    domain_text: Seq<char>,
    location: nat,
    domain: nat,
)
    requires
        property_of(text::lines(properties), "location_id"@) == Some(location_text),
        property_of(text::lines(properties), "domain"@) == Some(domain_text),
        property_number(location_text) == Some(location),
        property_number(domain_text) == Some(domain),
        location <= 0xffff,
        domain <= 0xffff,
    ensures
        address_by_properties(properties) matches Ok(address) && {
            &&& address.domain == domain
            &&& address.bus * 256 + address.device * 8 + address.function == location
            &&& address.device <= 31
            &&& address.function <= 7
        },
{
    location_round_trip(address_at(location, domain), location, domain);
}

/// Why properties give no address: the location is looked at first, then the domain, then
/// whether the location has more than 16 bits, then whether the domain does.
pub proof fn bad_properties_are_refused(properties: Seq<char>)
    ensures
        ({
            let lines = text::lines(properties);
            let location = property_of(lines, "location_id"@);
            let domain = property_of(lines, "domain"@);
            let outcome = address_by_properties(properties);
            let refused = |message: Seq<char>|
                outcome == Err::<PciAddress, ErrorView>(
                    ErrorView { kind: ErrorKind::InvalidData, message },
                );
            &&& location is None ==> refused("location_id is missing"@)
            &&& location is Some && property_number(location->0) is None ==> refused(
                "failed to parse topology property"@,
            )
            &&& location is Some && property_number(location->0) is Some ==> {
                &&& domain is None ==> refused("domain is missing"@)
                &&& domain is Some && property_number(domain->0) is None ==> refused(
                    "failed to parse topology property"@,
                )
                &&& domain is Some && property_number(domain->0) is Some ==> {
                    &&& property_number(location->0)->0 > 0xffff ==> refused(
                        "location_id is out of range"@,
                    )
                    &&& property_number(location->0)->0 <= 0xffff && property_number(domain->0)->0
                        > 0xffff ==> refused("domain is out of range"@)
                }
            }
        }),
{
}

/// A failure that says a property has not the expected form.
pub fn invalid_topology_property(message: &str) -> (res: Error)
    ensures
        res@ == invalid_property(message@),
        res.kind == ErrorKind::InvalidData,
        res.message@ == message@,
{
    Error::new(ErrorKind::InvalidData, message.to_string())
}

/// The value of a property: the second word of the first line that has one and whose first
/// word is the property's name.
pub fn topology_property(properties: &str, property: &str) -> (res: Option<String>)
    ensures
        match property_of(text::lines(properties@), property@) {
            Some(value) => res matches Some(found) && found@ == value,
            None => res is None,
        },
{
    let chars = text::chars_of(properties);
    let name = text::chars_of(property);
    let lines = text::split_lines(chars.as_slice());
    let ghost all = text::texts(lines@);
    assert(all.skip(0) =~= all);
    for i in 0..lines.len()
        invariant
            name@ == property@,
            all == text::texts(lines@),
            all == text::lines(properties@),
            property_of(all, property@) == property_of(all.skip(i as int), property@),
    {
        assert(all.skip(i as int)[0] == lines@[i as int]@);
        assert(all.skip(i as int).drop_first() =~= all.skip(i + 1));
        let fields = text::split_words(lines[i]);
        if fields.len() >= 2 {
            assert(text::texts(fields@)[0] == fields@[0]@);
            assert(text::texts(fields@)[1] == fields@[1]@);
            if text::same_text(fields[0], name.as_slice()) {
                return Some(text::string_of(fields[1]));
            }
        }
    }
    None
}

/// Reads a property that denotes a number: hexadecimal after `0x` or `0X`, else decimal.
pub fn parse_topology_u32(value: &str) -> (res: Result<u32, Error>)
    ensures
        match property_number(value@) {
            Some(n) => res == Ok::<u32, Error>(n as u32) && n <= u32::MAX,
            None => res matches Err(error) && error@ == invalid_property(
                "failed to parse topology property"@,
            ),
        },
        res matches Err(error) ==> error.kind == ErrorKind::InvalidData && error.message@
            == "failed to parse topology property"@,
{
    let chars = text::chars_of(value);
    let hexadecimal = chars.len() >= 2 && chars[0] == '0' && (chars[1] == 'x' || chars[1] == 'X');
    let parsed = if hexadecimal {
        let digits = slice_subrange(chars.as_slice(), 2, chars.len());
        assert(digits@ =~= value@.skip(2));
        number::read_number(digits, 16, 0xffff_ffff)
    } else {
        number::read_number(chars.as_slice(), 10, 0xffff_ffff)
    };
    match parsed {
        Some(n) => Ok(n as u32),
        None => Err(invalid_topology_property("failed to parse topology property")),
    }
}

fn read_number_property(properties: &str, property: &str, missing: &str) -> (res: Result<
    u32,
    Error,
>)
    ensures
        match number_property(properties@, property@, missing@) {
            Ok(n) => res == Ok::<u32, Error>(n as u32) && n <= u32::MAX,
            Err(error) => res matches Err(found) && found@ == error,
        },
{
    match topology_property(properties, property) {
        None => Err(invalid_topology_property(missing)),
        Some(value) => parse_topology_u32(value.as_str()),
    }
}

impl PciAddress {
    /// Reads the PCI address that the properties of a topology node give.
    pub fn from_kfd_properties(properties: &str) -> (res: Result<PciAddress, Error>)
        ensures
            error::viewed(res) == address_by_properties(properties@),
            address_by_properties(properties@) == match res {
                Ok(address) => Ok(address),
                Err(error) => Err(ErrorView { kind: error.kind, message: error.message@ }),
            },
    {
        let location_id = match read_number_property(
            properties,
            "location_id",
            "location_id is missing",
        ) {
            Ok(n) => n,
            Err(error) => return Err(error),
        };
        let domain = match read_number_property(properties, "domain", "domain is missing") {
            Ok(n) => n,
            Err(error) => return Err(error),
        };
        if location_id > 0xffff {
            return Err(invalid_topology_property("location_id is out of range"));
        }
        if domain > 0xffff {
            return Err(invalid_topology_property("domain is out of range"));
        }
        assert((location_id >> 8) & 0xff == location_id / 0x100) by (bit_vector)
            requires
                location_id <= 0xffff,
        ;
        assert((location_id >> 3) & 0x1f == location_id / 0x8 % 0x20) by (bit_vector);
        assert(location_id & 0x7 == location_id % 0x8) by (bit_vector);
        Ok(
            PciAddress {
                domain: domain as u16,
                bus: ((location_id >> 8) & 0xff) as u8,
                device: ((location_id >> 3) & 0x1f) as u8,
                function: (location_id & 0x7) as u8,
            },
        )
    }
}

} // verus!
