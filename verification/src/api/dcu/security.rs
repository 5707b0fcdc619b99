//! Which adapters are secure, by an output of `hyflash` that covers exactly the adapters that
//! are there.

use crate::api::dcu::address_set::PciAddressSet;
use crate::api::dcu::hyflash::{parse_hyflash_security_states, DcuSecurityState, Record};
use crate::api::dcu::pci::PciAddress;
use crate::api::dcu::{address_set, hyflash};
use crate::error::{Error, ErrorKind, ErrorView};
use crate::{error, text};
use vstd::prelude::*;
use vstd::string::*;

verus! {

/// Whether a record names the adapter.
pub open spec fn names(records: Seq<Record>, address: PciAddress) -> bool {
    exists|i: int| 0 <= i < records.len() && #[trigger] records[i].0 == address
}

/// The adapters that the records name.
pub open spec fn reported(records: Seq<Record>) -> Set<PciAddress> {
    Set::new(|address: PciAddress| names(records, address))
}

/// The adapters of which a record says that they are secure.
pub open spec fn reported_secure(records: Seq<Record>) -> Set<PciAddress> {
    Set::new(|address: PciAddress| records.contains((address, DcuSecurityState::Secure)))
}

/// Whether an earlier record names the adapter of the record at `k` with another state.
pub open spec fn contradicts(records: Seq<Record>, k: int) -> bool {
    exists|j: int|
        0 <= j < k && #[trigger] records[j].0 == records[k].0 && records[j].1 != records[k].1
}

/// The adapter of the first record that contradicts an earlier one.
pub open spec fn first_conflict(records: Seq<Record>) -> Option<PciAddress>
    decreases records.len(),
{
    if records.len() == 0 {
        None
    } else {
        match first_conflict(records.drop_last()) {
            Some(address) => Some(address),
            None => if contradicts(records, records.len() - 1) {
                Some(records.last().0)
            } else {
                None
            },
        }
    }
}

/// The addresses as text, in the given order, with commas between them.
pub open spec fn address_list(addresses: Seq<PciAddress>) -> Seq<char> {
    text::joined(addresses.map_values(|address: PciAddress| address.text()), ", "@)
}

/// Which adapters the records show to be secure, when exactly the `expected` ones are there.
/// Records that are missing, in excess or contradictory fail, and so does it when no adapter
/// is secure.
pub open spec fn secure_by_records(
    path: Seq<char>,
    records: Seq<Record>,
    expected: Set<PciAddress>,
) -> Result<Set<PciAddress>, ErrorView> {
    let missing = expected.difference(reported(records));
    let unexpected = reported(records).difference(expected);
    if records.len() == 0 {
        Err(hyflash::invalid(path + " returned no parseable DCU security-state records"@))
    } else if first_conflict(records) is Some {
        Err(
            hyflash::invalid(
                path + " reported conflicting security states for "@ + first_conflict(
                    records,
                )->0.text(),
            ),
        )
    } else if missing != Set::<PciAddress>::empty() {
        Err(
            hyflash::invalid(
                path + " output is missing KFD GPU BDF record(s): "@ + address_list(
                    address_set::ascending(missing),
                ),
            ),
        )
    } else if unexpected != Set::<PciAddress>::empty() {
        Err(
            hyflash::invalid(
                path + " output contains unexpected DCU BDF record(s): "@ + address_list(
                    address_set::ascending(unexpected),
                ),
            ),
        )
    } else if reported_secure(records) == Set::<PciAddress>::empty() {
        Err(
            ErrorView {
                kind: ErrorKind::NotFound,
                message: path + " reported no SECURE DCU adapters"@,
            },
        )
    } else {
        Ok(reported_secure(records))
    }
}

/// Which adapters an output of the tool at `path` shows to be secure.
pub open spec fn secure_by_output(
    path: Seq<char>,
    output: Seq<char>,
    expected: Set<PciAddress>,
) -> Result<Set<PciAddress>, ErrorView> {
    match hyflash::records_of(text::lines(output)) {
        Err(error) => Err(error),
        Ok(records) => secure_by_records(path, records, expected),
    }
}

/// A result with a set, by the set's contents.
pub open spec fn viewed_set(res: Result<PciAddressSet, Error>) -> Result<
    Set<PciAddress>,
    ErrorView,
> {
    match res {
        Ok(set) => Ok(set@),
        Err(error) => Err(error@),
    }
}

/// Whether no two records name the same adapter with different states.
pub open spec fn consistent(records: Seq<Record>) -> bool {
    forall|i: int, j: int|
        0 <= i < records.len() && 0 <= j < records.len() && #[trigger] records[i].0
            == #[trigger] records[j].0 ==> records[i].1 == records[j].1
}

/// There is a first conflict where two records contradict each other.
pub proof fn conflict_found_unless_consistent(records: Seq<Record>)
    ensures
        first_conflict(records) is None <==> consistent(records),
    decreases records.len(),
{
    if records.len() > 0 {
        let earlier = records.drop_last();
        let last = records.len() - 1;
        conflict_found_unless_consistent(earlier);
        if first_conflict(records) is None {
            assert forall|i: int, j: int|
                0 <= i < records.len() && 0 <= j < records.len() && #[trigger] records[i].0
                    == #[trigger] records[j].0 implies records[i].1 == records[j].1 by {
                if i < last && j < last {
                    assert(earlier[i].0 == earlier[j].0);
                }
            }
        }
        if consistent(records) {
            assert forall|i: int, j: int|
                0 <= i < earlier.len() && 0 <= j < earlier.len() && #[trigger] earlier[i].0
                    == #[trigger] earlier[j].0 implies earlier[i].1 == earlier[j].1 by {
                assert(records[i].0 == records[j].0);
            }
        }
    }
}

/// The records are accepted exactly when there are some, they agree with each other, they name
/// the expected adapters and no others, and an adapter among them is secure. What is then
/// returned are the secure ones. The failure says that nothing was found where only the last of
/// these does not hold, and that the data is invalid otherwise.
pub proof fn accepted_exactly_when(
    path: Seq<char>,
    records: Seq<Record>,
    expected: Set<PciAddress>,
)
    ensures
        secure_by_records(path, records, expected) is Ok <==> records.len() > 0 && consistent(
            records,
        ) && reported(records) == expected && reported_secure(records) != Set::<
            PciAddress,
        >::empty(),
        secure_by_records(path, records, expected) matches Ok(secure) ==> secure
            == reported_secure(records),
        secure_by_records(path, records, expected) matches Err(error) ==> error.kind == (
        if records.len() > 0 && consistent(records) && reported(records) == expected {
            ErrorKind::NotFound
        } else {
            ErrorKind::InvalidData
        }),
{
    conflict_found_unless_consistent(records);
    let missing = expected.difference(reported(records));
    let unexpected = reported(records).difference(expected);
    if missing == Set::<PciAddress>::empty() && unexpected == Set::<PciAddress>::empty() {
        assert forall|a: PciAddress| reported(records).contains(a) <==> expected.contains(a) by {
            assert(!missing.contains(a));
            assert(!unexpected.contains(a));
        }
        assert(reported(records) =~= expected);
    }
    if reported(records) == expected {
        assert(missing =~= Set::<PciAddress>::empty());
        assert(unexpected =~= Set::<PciAddress>::empty());
    }
}

/// What an accepted output says: it names every expected adapter and no other; the returned
/// set is not empty, holds expected adapters only, and holds an adapter exactly when every
/// record of that adapter says that it is secure.
pub proof fn accepted_output_covers_the_adapters(
    path: Seq<char>,
    output: Seq<char>,
    expected: Set<PciAddress>,
)
    requires
        secure_by_output(path, output, expected) is Ok,
    ensures
        hyflash::records_of(text::lines(output)) is Ok,
        ({
            let records = hyflash::records_of(text::lines(output))->Ok_0;
            let secure = secure_by_output(path, output, expected)->Ok_0;
            &&& forall|a: PciAddress| expected.contains(a) <==> names(records, a)
            &&& secure != Set::<PciAddress>::empty()
            &&& secure.subset_of(expected)
            &&& forall|i: int|
                0 <= i < records.len() ==> (secure.contains((#[trigger] records[i]).0)
                    <==> records[i].1 == DcuSecurityState::Secure)
        }),
{
    let records = hyflash::records_of(text::lines(output))->Ok_0;
    let secure = secure_by_output(path, output, expected)->Ok_0;
    accepted_exactly_when(path, records, expected);
    assert forall|a: PciAddress| expected.contains(a) <==> names(records, a) by {
        assert(reported(records).contains(a) <==> names(records, a));
    }
    assert forall|a: PciAddress| secure.contains(a) implies expected.contains(a) by {
        let record = (a, DcuSecurityState::Secure);
        let i = choose|i: int| 0 <= i < records.len() && records[i] == record;
        assert(records[i].0 == a);
    }
    assert forall|i: int| 0 <= i < records.len() implies (secure.contains(
        (#[trigger] records[i]).0,
    ) <==> records[i].1 == DcuSecurityState::Secure) by {
        let record = (records[i].0, DcuSecurityState::Secure);
        if secure.contains(records[i].0) {
            let j = choose|j: int| 0 <= j < records.len() && records[j] == record;
            assert(records[i].0 == records[j].0);
        }
        if records[i].1 == DcuSecurityState::Secure {
            assert(records[i] == record);
            assert(records.contains(record));
        }
    }
}

/// An adapter is taken to be secure only on the word of a line of the output that reports it
/// and whose last word is exactly `SECURE`, in either case.
pub proof fn secure_adapter_has_its_line(
    path: Seq<char>,
    output: Seq<char>,
    expected: Set<PciAddress>,
    address: PciAddress,
)
    requires
        secure_by_output(path, output, expected) is Ok,
        secure_by_output(path, output, expected)->Ok_0.contains(address),
    ensures
        exists|k: int|
            0 <= k < text::lines(output).len() && hyflash::record_of(
                #[trigger] text::lines(output)[k],
            ) == Ok::<Option<Record>, ErrorView>(Some((address, DcuSecurityState::Secure)))
                && text::same_ignoring_case(
                text::words(text::lines(output)[k]).last(),
                "SECURE"@,
            ),
{
    let lines = text::lines(output);
    let records = hyflash::records_of(lines)->Ok_0;
    let record = (address, DcuSecurityState::Secure);
    accepted_exactly_when(path, records, expected);
    assert(records.contains(record));
    hyflash::records_are_those_of_the_lines(lines, record);
    let k = choose|k: int|
        0 <= k < lines.len() && hyflash::record_of(#[trigger] lines[k]) == Ok::<
            Option<Record>,
            ErrorView,
        >(Some(record));
    hyflash::state_is_the_last_word(lines[k]);
}

/// Neither the order of the records, nor how often one is repeated, nor the place of the tool
/// decides what the records show and whether, and as what, they are refused.
pub proof fn order_and_repetition_do_not_matter(
    path: Seq<char>,
    other_path: Seq<char>,
    records: Seq<Record>,
    others: Seq<Record>,
    expected: Set<PciAddress>,
)
    requires
        records.to_set() == others.to_set(),
    ensures
        error::same_outcome(
            secure_by_records(path, records, expected),
            secure_by_records(other_path, others, expected),
        ),
{
    accepted_exactly_when(path, records, expected);
    accepted_exactly_when(other_path, others, expected);
    assert forall|r: Record| records.contains(r) <==> others.contains(r) by {
        assert(records.to_set().contains(r) == records.contains(r));
        assert(others.to_set().contains(r) == others.contains(r));
    }
    no_more_than(records, others);
    no_more_than(others, records);
    assert(reported(others) =~= reported(records));
    assert(reported_secure(others) =~= reported_secure(records));
}

/// Records that are all among others are consistent where those are, and name no adapter that
/// those do not.
proof fn no_more_than(records: Seq<Record>, others: Seq<Record>)
    requires
        forall|r: Record| records.contains(r) ==> others.contains(r),
    ensures
        records.len() > 0 ==> others.len() > 0,
        consistent(others) ==> consistent(records),
        reported(records).subset_of(reported(others)),
{
    if records.len() > 0 {
        assert(records.contains(records[0]));
        assert(others.contains(records[0]));
    }
    if consistent(others) {
        assert forall|i: int, j: int|
            0 <= i < records.len() && 0 <= j < records.len() && #[trigger] records[i].0
                == #[trigger] records[j].0 implies records[i].1 == records[j].1 by {
            assert(records.contains(records[i]));
            assert(records.contains(records[j]));
            let a = choose|a: int| 0 <= a < others.len() && others[a] == records[i];
            let b = choose|b: int| 0 <= b < others.len() && others[b] == records[j];
            assert(others[a].0 == others[b].0);
        }
    }
    assert forall|a: PciAddress| reported(records).contains(a) implies reported(others).contains(
        a,
    ) by {
        let i = choose|i: int| 0 <= i < records.len() && #[trigger] records[i].0 == a;
        assert(records.contains(records[i]));
        let j = choose|j: int| 0 <= j < others.len() && others[j] == records[i];
        assert(others[j].0 == a);
    }
}

/// Neither the order of the lines of an output, nor how often one is repeated, nor the place of
/// the tool decides what the output shows and whether, and as what, it is refused.
pub proof fn order_and_repetition_of_lines_do_not_matter(
    path: Seq<char>,
    other_path: Seq<char>,
    output: Seq<char>,
    other: Seq<char>,
    expected: Set<PciAddress>,
)
    requires
        text::lines(output).to_set() == text::lines(other).to_set(),
    ensures
        error::same_outcome(
            secure_by_output(path, output, expected),
            secure_by_output(other_path, other, expected),
        ),
{
    let lines = text::lines(output);
    let others = text::lines(other);
    assert forall|line: Seq<char>| lines.contains(line) <==> others.contains(line) by {
        assert(lines.to_set().contains(line) == lines.contains(line));
        assert(others.to_set().contains(line) == others.contains(line));
    }
    hyflash::refused_exactly_for_a_bad_line(lines);
    hyflash::refused_exactly_for_a_bad_line(others);
    refused_like(lines, others);
    refused_like(others, lines);
    if hyflash::records_of(lines) is Ok {
        let records = hyflash::records_of(lines)->Ok_0;
        let other_records = hyflash::records_of(others)->Ok_0;
        assert forall|r: Record| records.to_set().contains(r)
            <==> other_records.to_set().contains(r) by {
            records_like(lines, others, r);
            records_like(others, lines, r);
            assert(records.to_set().contains(r) == records.contains(r));
            assert(other_records.to_set().contains(r) == other_records.contains(r));
        }
        assert(records.to_set() =~= other_records.to_set());
        order_and_repetition_do_not_matter(path, other_path, records, other_records, expected);
    }
}

proof fn refused_like(lines: Seq<Seq<char>>, others: Seq<Seq<char>>)
    requires
        forall|line: Seq<char>| lines.contains(line) ==> others.contains(line),
    ensures
        hyflash::records_of(lines) is Err ==> hyflash::records_of(others) is Err,
{
    hyflash::refused_exactly_for_a_bad_line(lines);
    if hyflash::records_of(lines) is Err {
        let k = choose|k: int|
            0 <= k < lines.len() && hyflash::record_of(#[trigger] lines[k]) is Err;
        assert(lines.contains(lines[k]));
        let j = choose|j: int| 0 <= j < others.len() && others[j] == lines[k];
        hyflash::one_bad_line_is_enough(others, j);
    }
}

proof fn records_like(lines: Seq<Seq<char>>, others: Seq<Seq<char>>, record: Record)
    requires
        forall|line: Seq<char>| lines.contains(line) ==> others.contains(line),
        hyflash::records_of(lines) is Ok,
        hyflash::records_of(others) is Ok,
    ensures
        hyflash::records_of(lines)->Ok_0.contains(record) ==> hyflash::records_of(
            others,
        )->Ok_0.contains(record),
{
    hyflash::records_are_those_of_the_lines(lines, record);
    hyflash::records_are_those_of_the_lines(others, record);
    if hyflash::records_of(lines)->Ok_0.contains(record) {
        let k = choose|k: int|
            0 <= k < lines.len() && hyflash::record_of(#[trigger] lines[k]) == Ok::<
                Option<Record>,
                ErrorView,
            >(Some(record));
        assert(lines.contains(lines[k]));
        let j = choose|j: int| 0 <= j < others.len() && others[j] == lines[k];
        assert(hyflash::record_of(others[j]) == Ok::<Option<Record>, ErrorView>(Some(record)));
    }
}

/// Records are accepted exactly when there are some, no two of them name an adapter with
/// different states, they name the expected adapters and no others, and one of them says that
/// its adapter is secure. The set returned holds the adapters of which one says so.
pub proof fn records_are_accepted_exactly_when(
    path: Seq<char>,
    records: Seq<Record>,
    expected: Set<PciAddress>,
)
    ensures
        secure_by_records(path, records, expected) is Ok <==> {
            &&& records.len() > 0
            &&& forall|i: int, j: int|
                0 <= i < records.len() && 0 <= j < records.len() && #[trigger] records[i].0
                    == #[trigger] records[j].0 ==> records[i].1 == records[j].1
            &&& forall|a: PciAddress|
                #[trigger] expected.contains(a) <==> exists|i: int|
                    0 <= i < records.len() && #[trigger] records[i].0 == a
            &&& exists|i: int|
                0 <= i < records.len() && #[trigger] records[i].1 == DcuSecurityState::Secure
        },
        secure_by_records(path, records, expected) matches Ok(secure) ==> forall|a: PciAddress|
            #[trigger] secure.contains(a) <==> exists|i: int|
                0 <= i < records.len() && #[trigger] records[i].0 == a && records[i].1
                    == DcuSecurityState::Secure,
{
    accepted_exactly_when(path, records, expected);
    let named = |a: PciAddress|
        exists|i: int| 0 <= i < records.len() && #[trigger] records[i].0 == a;
    assert forall|a: PciAddress| reported(records).contains(a) <==> named(a) by {
        assert(reported(records).contains(a) <==> names(records, a));
    }
    if forall|a: PciAddress|
        #[trigger] expected.contains(a) <==> exists|i: int|
            0 <= i < records.len() && #[trigger] records[i].0 == a {
        assert forall|a: PciAddress| reported(records).contains(a) <==> expected.contains(a) by {
            assert(named(a) <==> expected.contains(a));
        }
        assert(reported(records) =~= expected);
    }
    if reported(records) == expected {
        assert forall|a: PciAddress|
            #[trigger] expected.contains(a) <==> exists|i: int|
                0 <= i < records.len() && #[trigger] records[i].0 == a by {
            assert(reported(records).contains(a) <==> named(a));
        }
    }
    let secure = reported_secure(records);
    assert forall|a: PciAddress|
        #[trigger] secure.contains(a) <==> exists|i: int|
            0 <= i < records.len() && #[trigger] records[i].0 == a && records[i].1
                == DcuSecurityState::Secure by {
        let record = (a, DcuSecurityState::Secure);
        if secure.contains(a) {
            let i = choose|i: int| 0 <= i < records.len() && records[i] == record;
            assert(records[i].0 == a);
        }
        if exists|i: int|
            0 <= i < records.len() && #[trigger] records[i].0 == a && records[i].1
                == DcuSecurityState::Secure {
            let i = choose|i: int|
                0 <= i < records.len() && #[trigger] records[i].0 == a && records[i].1
                    == DcuSecurityState::Secure;
            assert(records[i] == record);
            assert(records.contains(record));
        }
    }
    if exists|i: int| 0 <= i < records.len() && #[trigger] records[i].1 == DcuSecurityState::Secure {
        let i = choose|i: int|
            0 <= i < records.len() && #[trigger] records[i].1 == DcuSecurityState::Secure;
        assert(records[i].0 == records[i].0);
        assert(secure.contains(records[i].0));
    } else {
        assert(secure =~= Set::<PciAddress>::empty());
    }
}

/// No records are refused as none that can be read.
pub proof fn no_records_are_refused(path: Seq<char>, expected: Set<PciAddress>)
    ensures
        secure_by_records(path, Seq::empty(), expected) == Err::<Set<PciAddress>, ErrorView>(
            ErrorView {
                kind: ErrorKind::InvalidData,
                message: path + " returned no parseable DCU security-state records"@,
            },
        ),
{
}

/// The first record that names an adapter with another state than an earlier one is what a
/// refusal names.
pub proof fn conflict_is_named(
    path: Seq<char>,
    records: Seq<Record>,
    expected: Set<PciAddress>,
    earlier: int,
    k: int,
)
    requires
        0 <= earlier < k < records.len(),
        records[earlier].0 == records[k].0,
        records[earlier].1 != records[k].1,
        forall|i: int, j: int|
            0 <= i < k && 0 <= j < k && #[trigger] records[i].0 == #[trigger] records[j].0
                ==> records[i].1 == records[j].1,
    ensures
        secure_by_records(path, records, expected) == Err::<Set<PciAddress>, ErrorView>(
            ErrorView {
                kind: ErrorKind::InvalidData,
                message: path + " reported conflicting security states for "@ + records[k].0.text(),
            },
        ),
{
    let before = records.take(k);
    let upto = records.take(k + 1);
    assert forall|i: int, j: int|
        0 <= i < before.len() && 0 <= j < before.len() && #[trigger] before[i].0
            == #[trigger] before[j].0 implies before[i].1 == before[j].1 by {
        assert(records[i].0 == records[j].0);
    }
    conflict_found_unless_consistent(before);
    assert(upto.drop_last() =~= before);
    assert(upto[earlier].0 == upto[k].0);
    assert(contradicts(upto, k));
    first_conflict_stays(records, k + 1);
}

/// Expected adapters that consistent records do not name are what a refusal names, all of them
/// and in ascending order.
pub proof fn missing_adapters_are_named(
    path: Seq<char>,
    records: Seq<Record>,
    expected: Set<PciAddress>,
    missing: Seq<PciAddress>,
)
    requires
        records.len() > 0,
        forall|i: int, j: int|
            0 <= i < records.len() && 0 <= j < records.len() && #[trigger] records[i].0
                == #[trigger] records[j].0 ==> records[i].1 == records[j].1,
        missing.len() > 0,
        forall|i: int, j: int|
            0 <= i < j < missing.len() ==> missing[i].rank() < missing[j].rank(),
        forall|a: PciAddress|
            missing.contains(a) <==> expected.contains(a) && !exists|i: int|
                0 <= i < records.len() && #[trigger] records[i].0 == a,
    ensures
        secure_by_records(path, records, expected) == Err::<Set<PciAddress>, ErrorView>(
            ErrorView {
                kind: ErrorKind::InvalidData,
                message: path + " output is missing KFD GPU BDF record(s): "@ + text::joined(
                    Seq::new(missing.len(), |i: int| missing[i].text()),
                    ", "@,
                ),
            },
        ),
{
    conflict_found_unless_consistent(records);
    let set = expected.difference(reported(records));
    assert forall|a: PciAddress| missing.contains(a) <==> set.contains(a) by {
        assert(reported(records).contains(a) <==> names(records, a));
    }
    address_set::ascending_is(missing, set);
    assert(missing.contains(missing[0]));
    assert(set.contains(missing[0]));
    assert(missing.map_values(|address: PciAddress| address.text()) =~= Seq::new(
        missing.len(),
        |i: int| missing[i].text(),
    ));
}

/// Adapters that consistent records name beyond all the expected ones are what a refusal names,
/// all of them and in ascending order.
pub proof fn unexpected_adapters_are_named(
    path: Seq<char>,
    records: Seq<Record>,
    expected: Set<PciAddress>,
    unexpected: Seq<PciAddress>,
)
    requires
        forall|i: int, j: int|
            0 <= i < records.len() && 0 <= j < records.len() && #[trigger] records[i].0
                == #[trigger] records[j].0 ==> records[i].1 == records[j].1,
        forall|a: PciAddress|
            #[trigger] expected.contains(a) ==> exists|i: int|
                0 <= i < records.len() && #[trigger] records[i].0 == a,
        unexpected.len() > 0,
        forall|i: int, j: int|
            0 <= i < j < unexpected.len() ==> unexpected[i].rank() < unexpected[j].rank(),
        forall|a: PciAddress|
            unexpected.contains(a) <==> !expected.contains(a) && exists|i: int|
                0 <= i < records.len() && #[trigger] records[i].0 == a,
    ensures
        secure_by_records(path, records, expected) == Err::<Set<PciAddress>, ErrorView>(
            ErrorView {
                kind: ErrorKind::InvalidData,
                message: path + " output contains unexpected DCU BDF record(s): "@ + text::joined(
                    Seq::new(unexpected.len(), |i: int| unexpected[i].text()),
                    ", "@,
                ),
            },
        ),
{
    conflict_found_unless_consistent(records);
    let missing = expected.difference(reported(records));
    assert forall|a: PciAddress| !missing.contains(a) by {
        if expected.contains(a) {
            let i = choose|i: int| 0 <= i < records.len() && #[trigger] records[i].0 == a;
            assert(names(records, a));
        }
    }
    assert(missing =~= Set::<PciAddress>::empty());
    let set = reported(records).difference(expected);
    assert forall|a: PciAddress| unexpected.contains(a) <==> set.contains(a) by {
        assert(reported(records).contains(a) <==> names(records, a));
    }
    address_set::ascending_is(unexpected, set);
    assert(unexpected.contains(unexpected[0]));
    assert(set.contains(unexpected[0]));
    assert(unexpected.map_values(|address: PciAddress| address.text()) =~= Seq::new(
        unexpected.len(),
        |i: int| unexpected[i].text(),
    ));
}

/// Records of the expected adapters, none of which is secure, are refused as such.
pub proof fn no_secure_adapter_is_refused(
    path: Seq<char>,
    records: Seq<Record>,
    expected: Set<PciAddress>,
)
    requires
        records.len() > 0,
        forall|i: int|
            0 <= i < records.len() ==> (#[trigger] records[i]).1 == DcuSecurityState::Proto,
        forall|a: PciAddress|
            #[trigger] expected.contains(a) <==> exists|i: int|
                0 <= i < records.len() && #[trigger] records[i].0 == a,
    ensures
        secure_by_records(path, records, expected) == Err::<Set<PciAddress>, ErrorView>(
            ErrorView {
                kind: ErrorKind::NotFound,
                message: path + " reported no SECURE DCU adapters"@,
            },
        ),
{
    records_are_accepted_exactly_when(path, records, expected);
    conflict_found_unless_consistent(records);
    let missing = expected.difference(reported(records));
    let unexpected = reported(records).difference(expected);
    assert forall|a: PciAddress| reported(records).contains(a) <==> expected.contains(a) by {
        assert(reported(records).contains(a) <==> names(records, a));
    }
    assert(missing =~= Set::<PciAddress>::empty());
    assert(unexpected =~= Set::<PciAddress>::empty());
    assert forall|a: PciAddress| !reported_secure(records).contains(a) by {
        let record = (a, DcuSecurityState::Secure);
        if records.contains(record) {
            let i = choose|i: int| 0 <= i < records.len() && records[i] == record;
            assert(records[i].1 == DcuSecurityState::Proto);
        }
    }
    assert(reported_secure(records) =~= Set::<PciAddress>::empty());
}

/// An output shows what its records do, and is refused as its lines are where those have no
/// records.
pub proof fn output_shows_its_records(
    path: Seq<char>,
    output: Seq<char>,
    expected: Set<PciAddress>,
)
    ensures
        hyflash::records_of(text::lines(output)) matches Ok(records) ==> secure_by_output(
            path,
            output,
            expected,
        ) == secure_by_records(path, records, expected),
        hyflash::records_of(text::lines(output)) matches Err(error) ==> secure_by_output(
            path,
            output,
            expected,
        ) == Err::<Set<PciAddress>, ErrorView>(error),
{
}

/// The adapter of the first conflict is that of all the records that start with these.
proof fn first_conflict_stays(records: Seq<Record>, k: int)
    requires
        0 <= k <= records.len(),
        first_conflict(records.take(k)) is Some,
    ensures
        first_conflict(records) == first_conflict(records.take(k)),
    decreases records.len(),
{
    if k == records.len() {
        assert(records.take(k) =~= records);
    } else {
        assert(records.drop_last().take(k) =~= records.take(k));
        first_conflict_stays(records.drop_last(), k);
    }
}

/// The adapter of the first record that contradicts an earlier one.
fn find_conflict(records: &Vec<Record>) -> (res: Option<PciAddress>)
    ensures
        res == first_conflict(records@),
{
    for k in 0..records.len()
        invariant
            first_conflict(records@.take(k as int)) is None,
    {
        let ghost upto = records@.take(k + 1);
        assert(upto.drop_last() =~= records@.take(k as int));
        for j in 0..k
            invariant
                k < records@.len(),
                upto == records@.take(k + 1),
                upto.drop_last() == records@.take(k as int),
                first_conflict(records@.take(k as int)) is None,
                forall|i: int|
                    0 <= i < j ==> !(records@[i].0 == records@[k as int].0 && records@[i].1
                        != records@[k as int].1),
        {
            if records[j].0 == records[k].0 && records[j].1 != records[k].1 {
                proof {
                    assert(upto[j as int].0 == upto[k as int].0);
                    assert(contradicts(upto, k as int));
                    first_conflict_stays(records@, k + 1);
                }
                return Some(records[k].0);
            }
        }
        assert(!contradicts(upto, k as int));
    }
    assert(records@.take(records@.len() as int) =~= records@);
    None
}

/// The adapters that the records name.
fn collect_reported(records: &Vec<Record>) -> (res: PciAddressSet)
    ensures
        res@ == reported(records@),
{
    let mut res = PciAddressSet::new();
    for i in 0..records.len()
        invariant
            forall|a: PciAddress|
                res@.contains(a) <==> exists|j: int| 0 <= j < i && #[trigger] records@[j].0 == a,
    {
        res.insert(records[i].0);
    }
    assert(res@ =~= reported(records@));
    res
}

/// The adapters of which a record says that they are secure.
fn collect_secure(records: &Vec<Record>) -> (res: PciAddressSet)
    ensures
        res@ == reported_secure(records@),
{
    let mut res = PciAddressSet::new();
    for i in 0..records.len()
        invariant
            forall|a: PciAddress|
                res@.contains(a) <==> exists|j: int|
                    0 <= j < i && #[trigger] records@[j] == (a, DcuSecurityState::Secure),
    {
        if records[i].1 == DcuSecurityState::Secure {
            res.insert(records[i].0);
        }
    }
    assert(res@ =~= reported_secure(records@));
    res
}

/// The members of `from` that are not in `other`, in ascending order.
fn members_not_in(from: &PciAddressSet, other: &PciAddressSet) -> (res: Vec<PciAddress>)
    ensures
        res@ == address_set::ascending(from@.difference(other@)),
        res@.len() == 0 <==> from@.difference(other@) == Set::<PciAddress>::empty(),
{
    let mut res: Vec<PciAddress> = Vec::new();
    let members = from.members();
    for i in 0..members.len()
        invariant
            address_set::lists(members@, from@),
            address_set::is_ascending(res@),
            forall|a: PciAddress|
                res@.contains(a) <==> !other@.contains(a) && exists|j: int|
                    0 <= j < i && #[trigger] members@[j] == a,
            forall|k: int|
                0 <= k < res@.len() && i < members@.len() ==> (#[trigger] res@[k]).rank()
                    < members@[i as int].rank(),
    {
        let ghost earlier = res@;
        if !other.contains(&members[i]) {
            res.push(members[i]);
            assert(res@[earlier.len() as int] == members@[i as int]);
        }
        assert forall|a: PciAddress|
            res@.contains(a) <==> !other@.contains(a) && exists|j: int|
                0 <= j < i + 1 && #[trigger] members@[j] == a by {
            if res@.contains(a) {
                let k = choose|k: int| 0 <= k < res@.len() && res@[k] == a;
                if k < earlier.len() {
                    assert(earlier[k] == a);
                    assert(earlier.contains(a));
                } else {
                    assert(members@[i as int] == a);
                }
            }
            if earlier.contains(a) {
                let k = choose|k: int| 0 <= k < earlier.len() && earlier[k] == a;
                assert(res@[k] == a);
            }
        }
    }
    proof {
        let set = from@.difference(other@);
        assert forall|a: PciAddress| res@.contains(a) <==> set.contains(a) by {
            if from@.contains(a) {
                assert(members@.contains(a));
                let j = choose|j: int| 0 <= j < members@.len() && members@[j] == a;
                assert(members@[j] == a);
            }
            if exists|j: int| 0 <= j < members@.len() && #[trigger] members@[j] == a {
                assert(members@.contains(a));
            }
        }
        address_set::ascending_is(res@, set);
        if res@.len() == 0 {
            assert(set =~= Set::<PciAddress>::empty());
        } else {
            assert(res@.contains(res@[0]));
            assert(set.contains(res@[0]));
        }
    }
    res
}

/// The addresses as text, in the given order, with commas between them.
fn address_list_string(addresses: &Vec<PciAddress>) -> (res: String)
    ensures
        res@ == address_list(addresses@),
{
    let mut parts: Vec<String> = Vec::new();
    for i in 0..addresses.len()
        invariant
            parts@.len() == i,
            forall|j: int| 0 <= j < i ==> (#[trigger] parts@[j])@ == addresses@[j].text(),
    {
        parts.push(addresses[i].to_string());
    }
    assert(text::string_texts(parts@) =~= addresses@.map_values(
        |address: PciAddress| address.text(),
    ));
    text::join(&parts, ", ")
}

fn path_message(path: &str, rest: &str) -> (res: String)
    ensures
        res@ == path@ + rest@,
{
    let mut message = path.to_string();
    message.append(rest);
    message
}

/// Which adapters the records show to be secure, when exactly the `expected` ones are there.
pub fn secure_pci_addresses_from_records(
    hyflash_path: &str,
    records: &Vec<Record>,
    expected_addresses: &PciAddressSet,
) -> (res: Result<PciAddressSet, Error>)
    ensures
        viewed_set(res) == secure_by_records(hyflash_path@, records@, expected_addresses@),
        secure_by_records(hyflash_path@, records@, expected_addresses@) == match res {
            Ok(secure) => Ok(secure@),
            Err(error) => Err(ErrorView { kind: error.kind, message: error.message@ }),
        },
{
    if records.len() == 0 {
        let message = path_message(
            hyflash_path,
            " returned no parseable DCU security-state records",
        );
        return Err(Error::new(ErrorKind::InvalidData, message));
    }
    if let Some(address) = find_conflict(records) {
        let mut message = path_message(
            hyflash_path,
            " reported conflicting security states for ",
        );
        address.push_to(&mut message);
        return Err(Error::new(ErrorKind::InvalidData, message));
    }
    let found = collect_reported(records);
    let missing = members_not_in(expected_addresses, &found);
    if missing.len() != 0 {
        let mut message = path_message(
            hyflash_path,
            " output is missing KFD GPU BDF record(s): ",
        );
        message.append(address_list_string(&missing).as_str());
        return Err(Error::new(ErrorKind::InvalidData, message));
    }
    let unexpected = members_not_in(&found, expected_addresses);
    if unexpected.len() != 0 {
        let mut message = path_message(
            hyflash_path,
            " output contains unexpected DCU BDF record(s): ",
        );
        message.append(address_list_string(&unexpected).as_str());
        return Err(Error::new(ErrorKind::InvalidData, message));
    }
    let secure = collect_secure(records);
    if secure.is_empty() {
        let message = path_message(hyflash_path, " reported no SECURE DCU adapters");
        return Err(Error::new(ErrorKind::NotFound, message));
    }
    Ok(secure)
}

/// Which adapters an output of the tool at `hyflash_path` shows to be secure, when exactly the
/// expected ones are there.
pub fn secure_pci_addresses_from_hyflash_output(
    hyflash_path: &str,
    output: &str,
    expected_addresses: &PciAddressSet,
) -> (res: Result<PciAddressSet, Error>)
    ensures
        viewed_set(res) == secure_by_output(hyflash_path@, output@, expected_addresses@),
        secure_by_output(hyflash_path@, output@, expected_addresses@) == match res {
            Ok(secure) => Ok(secure@),
            Err(error) => Err(ErrorView { kind: error.kind, message: error.message@ }),
        },
{
    match parse_hyflash_security_states(output) {
        Err(error) => Err(error),
        Ok(records) => secure_pci_addresses_from_records(
            hyflash_path,
            &records,
            expected_addresses,
        ),
    }
}

} // verus!
