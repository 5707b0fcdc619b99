//! PCI addresses: reading them, writing them, and their order.

use crate::{number, text};
use vstd::prelude::*;
use vstd::string::*;

verus! {

/// Where a device stands on the PCI buses: domain, bus, device and function.
#[derive(Clone, Copy, Debug, Eq, Hash, Ord, PartialEq, PartialOrd, Structural)]
pub struct PciAddress {
    pub domain: u16,
    pub bus: u8,
    pub device: u8,
    pub function: u8,
}

/// The address that a text of the form `domain:bus:device.function` denotes, all four in
/// hexadecimal.
pub open spec fn address_of(s: Seq<char>) -> Option<PciAddress> {
    let dot = text::before(s, '.') as int;
    let parts = text::pieces(s.take(dot), ':');
    if dot >= s.len() || parts.len() != 3 {
        None
    } else {
        match (
            number::number(parts[0], 16, 0xffff),
            number::number(parts[1], 16, 0xff),
            number::number(parts[2], 16, 0xff),
            number::number(s.skip(dot + 1), 16, 0xff),
        ) {
            (Some(domain), Some(bus), Some(device), Some(function)) => {
                let address = PciAddress {
                    domain: domain as u16,
                    bus: bus as u8,
                    device: device as u8,
                    function: function as u8,
                };
                if address.in_range() {
                    Some(address)
                } else {
                    None
                }
            },
            _ => None,
        }
    }
}

impl PciAddress {
    /// Whether device and function are numbers that a bus has room for.
    pub open spec fn in_range(self) -> bool {
        self.device <= 0x1f && self.function <= 0x7
    }

    /// The address as text.
    pub open spec fn text(self) -> Seq<char> {
        number::last_digits(self.domain as nat, 16, 4) + seq![':'] + number::last_digits(self.bus as nat, 16, 2)
            + seq![':'] + number::last_digits(self.device as nat, 16, 2) + seq!['.'] + number::decimal(
            self.function as int,
        )
    }

    /// The place of the address among all addresses, ordered by domain, then bus, then device,
    /// then function.
    pub open spec fn rank(self) -> int {
        self.domain * 0x100_0000 + self.bus * 0x1_0000 + self.device * 0x100 + self.function
    }

    /// Reads an address of the form `domain:bus:device.function`.
    pub fn parse(value: &str) -> (res: Option<PciAddress>)
        ensures
            res == address_of(value@),
    {
        let value = text::chars_of(value);
        Self::parse_chars(value.as_slice())
    }

    /// Reads an address of the form `domain:bus:device.function`.
    pub fn parse_chars(value: &[char]) -> (res: Option<PciAddress>)
        ensures
            res == address_of(value@),
    {
        let (address, function) = match text::split_at_first(value, '.') {
            Some(halves) => halves,
            None => return None,
        };
        let parts = text::split_at_each(address, ':');
        assert(text::texts(parts@).len() == parts@.len());
        if parts.len() != 3 {
            return None;
        }
        assert(text::texts(parts@)[0] == parts@[0]@);
        assert(text::texts(parts@)[1] == parts@[1]@);
        assert(text::texts(parts@)[2] == parts@[2]@);
        let domain = number::read_number(parts[0], 16, 0xffff);
        let bus = number::read_number(parts[1], 16, 0xff);
        let device = number::read_number(parts[2], 16, 0xff);
        let function = number::read_number(function, 16, 0xff);
        match (domain, bus, device, function) {
            (Some(domain), Some(bus), Some(device), Some(function)) => {
                if device > 0x1f || function > 0x7 {
                    None
                } else {
                    Some(
                        PciAddress {
                            domain: domain as u16,
                            bus: bus as u8,
                            device: device as u8,
                            function: function as u8,
                        },
                    )
                }
            },
            _ => None,
        }
    }

    /// Appends the address as text.
    pub fn push_to(&self, out: &mut String)
        ensures
            final(out)@ == old(out)@ + self.text(),
    {
        number::push_hex_digits(out, self.domain as u64, 4);
        out.push(':');
        number::push_hex_digits(out, self.bus as u64, 2);
        out.push(':');
        number::push_hex_digits(out, self.device as u64, 2);
        out.push('.');
        number::push_decimal(out, self.function as i64);
        assert(out@ =~= old(out)@ + self.text());
    }

    /// The address as text: domain, bus and device in hexadecimal with four, two and two
    /// digits, the function in decimal.
    pub fn to_string(&self) -> (res: String)
        ensures
            res@ == self.text(),
    {
        let mut res = String::new();
        self.push_to(&mut res);
        assert(res@ =~= self.text());
        res
    }

    /// The text of an address whose device and function are in range is read back as the
    /// address.
    pub proof fn text_is_read_back(self)
        requires
            self.in_range(),
        ensures
            address_of(self.text()) == Some(self),
    {
        let domain = number::last_digits(self.domain as nat, 16, 4);
        let bus = number::last_digits(self.bus as nat, 16, 2);
        let device = number::last_digits(self.device as nat, 16, 2);
        let function = number::decimal(self.function as int);
        reveal_with_fuel(number::fits, 5);
        number::last_digits_round_trip(self.domain as nat, 16, 4);
        number::last_digits_round_trip(self.bus as nat, 16, 2);
        number::last_digits_round_trip(self.device as nat, 16, 2);
        assert(function =~= seq![number::digit(self.function as nat)]);
        number::digit_round_trip(self.function as nat, 16);
        assert(number::value(function.drop_last(), 16) == 0);
        assert(number::value(function, 16) == self.function);

        let address = domain + seq![':'] + bus + seq![':'] + device;
        assert(address.len() == 10);
        assert(self.text() =~= address + seq!['.'] + function);
        assert forall|j: int| 0 <= j < address.len() implies address[j] != '.' by {
            if j < 4 {
                assert(address[j] == domain[j]);
            } else if 5 <= j < 7 {
                assert(address[j] == bus[j - 5]);
            } else if 8 <= j {
                assert(address[j] == device[j - 8]);
            }
        }
        text::before_is(self.text(), '.', 10);
        assert(self.text().take(10) =~= address);
        assert(self.text().skip(11) =~= function);

        assert(!domain.contains(':'));
        assert(!bus.contains(':'));
        assert(!device.contains(':'));
        text::pieces_of_one(device, ':');
        text::pieces_of_more(bus, ':', device);
        text::pieces_of_more(domain, ':', bus + seq![':'] + device);
        assert(address =~= domain + seq![':'] + (bus + seq![':'] + device));
        assert(text::pieces(address, ':') =~= seq![domain, bus, device]);
    }

    /// An address that was read has a device and a function in range, and is read back from its
    /// own text.
    pub proof fn parsed_address_is_read_back(s: Seq<char>)
        ensures
            address_of(s) matches Some(address) ==> address.in_range() && address_of(
                address.text(),
            ) == Some(address),
    {
        if let Some(address) = address_of(s) {
            address.text_is_read_back();
        }
    }

    /// Four texts that denote numbers in hexadecimal, the last two at most 31 and 7, with colons
    /// and a full stop between them are read as the address with those numbers.
    pub proof fn address_is_read(
        domain: Seq<char>,
        bus: Seq<char>,
        device: Seq<char>,
        function: Seq<char>,
        address: PciAddress,
    )
        requires
            number::number(domain, 16, 0xffff) == Some(address.domain as nat),
            number::number(bus, 16, 0xff) == Some(address.bus as nat),
            number::number(device, 16, 0xff) == Some(address.device as nat),
            number::number(function, 16, 0xff) == Some(address.function as nat),
            address.device <= 31,
            address.function <= 7,
        ensures
            address_of(
                domain + seq![':'] + bus + seq![':'] + device + seq!['.'] + function,
            ) == Some(address),
    {
        number::number_has_no_separator(domain, 16, 0xffff);
        number::number_has_no_separator(bus, 16, 0xff);
        number::number_has_no_separator(device, 16, 0xff);
        let head = domain + seq![':'] + bus + seq![':'] + device;
        let all = head + seq!['.'] + function;
        let n = head.len();
        assert forall|j: int| 0 <= j < n implies all[j] != '.' by {
            let a = domain.len() as int;
            let b = bus.len() as int;
            if j < a {
                assert(all[j] == domain[j]);
                assert(domain.contains(domain[j]));
            } else if a < j < a + 1 + b {
                assert(all[j] == bus[j - a - 1]);
                assert(bus.contains(bus[j - a - 1]));
            } else if a + 1 + b < j {
                assert(all[j] == device[j - a - b - 2]);
                assert(device.contains(device[j - a - b - 2]));
            }
        }
        text::before_is(all, '.', n);
        assert(all.take(n as int) =~= head);
        assert(all.skip(n as int + 1) =~= function);
        text::pieces_of_one(device, ':');
        text::pieces_of_more(bus, ':', device);
        text::pieces_of_more(domain, ':', bus + seq![':'] + device);
        assert(head =~= domain + seq![':'] + (bus + seq![':'] + device));
        assert(text::pieces(head, ':') =~= seq![domain, bus, device]);
    }

    /// A text that is read as an address is made of four texts that denote its numbers in
    /// hexadecimal, with colons and a full stop between them; its device is at most 31 and its
    /// function at most 7.
    pub proof fn address_was_written_so(s: Seq<char>) -> (parts: (
        Seq<char>,
        Seq<char>,
        Seq<char>,
        Seq<char>,
    ))
        requires
            address_of(s) is Some,
        ensures
            s == parts.0 + seq![':'] + parts.1 + seq![':'] + parts.2 + seq!['.'] + parts.3,
            ({
                let address = address_of(s)->0;
                &&& number::number(parts.0, 16, 0xffff) == Some(address.domain as nat)
                &&& number::number(parts.1, 16, 0xff) == Some(address.bus as nat)
                &&& number::number(parts.2, 16, 0xff) == Some(address.device as nat)
                &&& number::number(parts.3, 16, 0xff) == Some(address.function as nat)
                &&& address.device <= 31
                &&& address.function <= 7
            }),
    {
        let dot = text::before(s, '.') as int;
        text::before_is_first(s, '.');
        let head = s.take(dot);
        let tail = s.skip(dot + 1);
        let p = text::pieces(head, ':');
        text::pieces_are_put_back(head, ':');
        text::joined_is(seq![p[0]], seq![p[1], p[2]], p[0], seq![':']);
        text::joined_is(seq![p[1]], seq![p[2]], p[1], seq![':']);
        text::joined_is(seq![p[2]], seq![p[2]], p[2], seq![':']);
        assert(p =~= seq![p[0]] + seq![p[1], p[2]]);
        assert(seq![p[1], p[2]] =~= seq![p[1]] + seq![p[2]]);
        assert(s =~= head + seq!['.'] + tail);
        assert(s =~= p[0] + seq![':'] + p[1] + seq![':'] + p[2] + seq!['.'] + tail);
        (p[0], p[1], p[2], tail)
    }

    /// The text of an address is four, two and two digits in hexadecimal for domain, bus and
    /// device, in small letters where they are letters, and the function in decimal, with colons
    /// and a full stop between them.
    pub proof fn text_is_laid_out(self)
        ensures
            ({
                let t = self.text();
                &&& t.len() >= 12
                &&& t[4] == ':' && t[7] == ':' && t[10] == '.'
                &&& forall|i: int|
                    0 <= i < 10 && i != 4 && i != 7 ==> number::digit_value(#[trigger] t[i])
                        is Some && !('A' <= t[i] <= 'Z')
                &&& number::number(t.subrange(0, 4), 16, 0xffff) == Some(self.domain as nat)
                &&& number::number(t.subrange(5, 7), 16, 0xff) == Some(self.bus as nat)
                &&& number::number(t.subrange(8, 10), 16, 0xff) == Some(self.device as nat)
                &&& t.skip(11) == number::decimal(self.function as int)
            }),
    {
        let t = self.text();
        let domain = number::last_digits(self.domain as nat, 16, 4);
        let bus = number::last_digits(self.bus as nat, 16, 2);
        let device = number::last_digits(self.device as nat, 16, 2);
        let function = number::decimal(self.function as int);
        reveal_with_fuel(number::fits, 5);
        number::last_digits_round_trip(self.domain as nat, 16, 4);
        number::last_digits_round_trip(self.bus as nat, 16, 2);
        number::last_digits_round_trip(self.device as nat, 16, 2);
        number::last_digits_are(self.domain as nat, 16, 4);
        number::last_digits_are(self.bus as nat, 16, 2);
        number::last_digits_are(self.device as nat, 16, 2);
        number::numeral_is_plain(self.function as nat, 10);
        assert(t.subrange(0, 4) =~= domain);
        assert(t.subrange(5, 7) =~= bus);
        assert(t.subrange(8, 10) =~= device);
        assert(t.skip(11) =~= function);
        assert forall|i: int| 0 <= i < 10 && i != 4 && i != 7 implies number::digit_value(
            #[trigger] t[i],
        ) is Some && !('A' <= t[i] <= 'Z') by {
            if i < 4 {
                assert(t[i] == domain[i]);
            } else if i < 7 {
                assert(t[i] == bus[i - 5]);
            } else {
                assert(t[i] == device[i - 8]);
            }
        }
        assert(number::is_digit(domain[0], 16));
        assert(number::is_digit(bus[0], 16));
        assert(number::is_digit(device[0], 16));
    }

    /// The address that a text denotes does not depend on the case of its digits.
    pub proof fn address_ignores_case(s: Seq<char>, t: Seq<char>)
        requires
            text::same_ignoring_case(s, t),
        ensures
            address_of(s) == address_of(t),
    {
        let dot = text::before(s, '.') as int;
        text::before_ignores_case(s, t, '.');
        if dot < s.len() {
            text::parts_ignore_case(s, t, dot);
            text::parts_ignore_case(s, t, dot + 1);
            text::pieces_ignore_case(s.take(dot), t.take(dot));
            let parts = text::pieces(s.take(dot), ':');
            let others = text::pieces(t.take(dot), ':');
            if parts.len() == 3 {
                number::number_ignores_case(parts[0], others[0], 16, 0xffff);
                number::number_ignores_case(parts[1], others[1], 16, 0xff);
                number::number_ignores_case(parts[2], others[2], 16, 0xff);
                number::number_ignores_case(s.skip(dot + 1), t.skip(dot + 1), 16, 0xff);
            }
        }
    }

    /// The rank orders addresses by domain, then by bus, then by device, then by function.
    pub proof fn rank_orders_by_fields(self, other: PciAddress)
        ensures
            self.rank() < other.rank() <==> {
                ||| self.domain < other.domain
                ||| self.domain == other.domain && self.bus < other.bus
                ||| self.domain == other.domain && self.bus == other.bus && self.device
                    < other.device
                ||| self.domain == other.domain && self.bus == other.bus && self.device
                    == other.device && self.function < other.function
            },
    {
        let x = self.device * 0x100 + self.function;
        let y = other.device * 0x100 + other.function;
        assert(x < y <==> self.device < other.device || self.device == other.device
            && self.function < other.function);
        let u = self.bus * 0x1_0000 + x;
        let v = other.bus * 0x1_0000 + y;
        assert(x < 0x1_0000 && y < 0x1_0000);
        assert(u < v <==> self.bus < other.bus || self.bus == other.bus && x < y);
        assert(u < 0x100_0000 && v < 0x100_0000);
        assert(self.rank() == self.domain * 0x100_0000 + u);
        assert(other.rank() == other.domain * 0x100_0000 + v);
    }

    /// Two addresses of the same rank are the same address.
    pub proof fn rank_tells_apart(self, other: PciAddress)
        requires
            self.rank() == other.rank(),
        ensures
            self == other,
    {
        self.rank_orders_by_fields(other);
        other.rank_orders_by_fields(self);
    }

    /// The place of the address among all addresses, as a machine integer.
    pub fn exec_rank(&self) -> (res: u64)
        ensures
            res == self.rank(),
    {
        self.domain as u64 * 0x100_0000 + self.bus as u64 * 0x1_0000 + self.device as u64 * 0x100
            + self.function as u64
    }
}

} // verus!
