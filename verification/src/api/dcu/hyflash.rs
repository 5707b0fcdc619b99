//! The security states that the `hyflash` tool reports for the DCU adapters.

use crate::api::dcu::pci::PciAddress;
use crate::error::{Error, ErrorKind, ErrorView};
use crate::{error, number, text};
use vstd::prelude::*;
use vstd::string::*;

verus! {

/// The security state of an adapter.
#[derive(Clone, Copy, Debug, Eq, PartialEq, Structural)]
pub enum DcuSecurityState {
    Proto,
    Secure,
}

/// One report of `hyflash`: an adapter and its state.
pub type Record = (PciAddress, DcuSecurityState);

/// Whether the words at `i` and after it announce a security state.
pub open spec fn is_marker(fields: Seq<Seq<char>>, i: int) -> bool {
    &&& 0 <= i < fields.len() - 1
    &&& text::same_ignoring_case(fields[i], "security"@)
    &&& text::same_ignoring_case(text::without_trailing(fields[i + 1], ':'), "state"@)
}

/// The place of the first announcement at or after `i`.
pub open spec fn marker_from(fields: Seq<Seq<char>>, i: int) -> Option<int>
    decreases fields.len() - i,
{
    if i + 1 >= fields.len() {
        None
    } else if is_marker(fields, i) {
        Some(i)
    } else {
        marker_from(fields, i + 1)
    }
}

/// Where the state stands when the announcement stands at `marker`: after the colon, which may
/// end the second word of the announcement, be a word of its own, or be left out.
pub open spec fn state_place(fields: Seq<Seq<char>>, marker: int) -> int {
    let named = fields[marker + 1];
    if named.len() > 0 && named.last() == ':' {
        marker + 2
    } else if marker + 2 < fields.len() && fields[marker + 2] == ":"@ {
        marker + 3
    } else {
        marker + 2
    }
}

/// The first word that is a PCI address.
pub open spec fn first_address(fields: Seq<Seq<char>>) -> Option<PciAddress>
    decreases fields.len(),
{
    if fields.len() == 0 {
        None
    } else {
        match crate::api::dcu::pci::address_of(fields[0]) {
            Some(address) => Some(address),
            None => first_address(fields.drop_first()),
        }
    }
}

/// The state that a word names, in either case.
pub open spec fn state_of(word: Seq<char>) -> Option<DcuSecurityState> {
    if text::same_ignoring_case(word, "SECURE"@) {
        Some(DcuSecurityState::Secure)
    } else if text::same_ignoring_case(word, "PROTO"@) {
        Some(DcuSecurityState::Proto)
    } else {
        None
    }
}

/// A failure that says the data has not the expected form.
pub open spec fn invalid(message: Seq<char>) -> ErrorView {
    ErrorView { kind: ErrorKind::InvalidData, message }
}

/// The failure of a line whose last word, given in quotes, names no state.
pub open spec fn unsupported(quoted: Seq<char>, address: PciAddress) -> ErrorView {
    invalid(
        "hyflash reported unsupported security state "@ + quoted + " for "@ + address.text(),
    )
}

/// What a line of the output reports: nothing where it announces no state, else the first
/// address before the announcement with the state, which must be the last word.
pub open spec fn record_of(line: Seq<char>) -> Result<Option<Record>, ErrorView> {
    let fields = text::words(line);
    match marker_from(fields, 0) {
        None => Ok(None),
        Some(marker) => {
            let place = state_place(fields, marker);
            if place + 1 != fields.len() {
                Err(invalid("malformed hyflash security-state record: "@ + line))
            } else {
                match first_address(fields.take(marker)) {
                    None => Err(
                        invalid(
                            "hyflash security-state record has no valid PCI address: "@ + line,
                        ),
                    ),
                    Some(address) => match state_of(fields[place]) {
                        Some(state) => Ok(Some((address, state))),
                        None => Err(unsupported(text::debug_text(fields[place]), address)),
                    },
                }
            }
        },
    }
}

/// What the lines report, in order; the failure of the first line that has one.
pub open spec fn records_of(lines: Seq<Seq<char>>) -> Result<Seq<Record>, ErrorView>
    decreases lines.len(),
{
    if lines.len() == 0 {
        Ok(seq![])
    } else {
        match records_of(lines.drop_last()) {
            Err(error) => Err(error),
            Ok(earlier) => match record_of(lines.last()) {
                Err(error) => Err(error),
                Ok(None) => Ok(earlier),
                Ok(Some(record)) => Ok(earlier.push(record)),
            },
        }
    }
}

/// The announcement found is the first one.
pub proof fn marker_from_is_first(fields: Seq<Seq<char>>, i: int)
    requires
        0 <= i,
    ensures
        match marker_from(fields, i) {
            Some(m) => i <= m && is_marker(fields, m) && forall|j: int|
                i <= j < m ==> !is_marker(fields, j),
            None => forall|j: int| i <= j ==> !is_marker(fields, j),
        },
    decreases fields.len() - i,
{
    if i + 1 < fields.len() && !is_marker(fields, i) {
        marker_from_is_first(fields, i + 1);
    }
}

/// The failure of a line is that of all the lines that start with it and those before it.
pub proof fn first_failure_stays(lines: Seq<Seq<char>>, k: int)
    requires
        0 <= k <= lines.len(),
        records_of(lines.take(k)) is Err,
    ensures
        records_of(lines) == records_of(lines.take(k)),
    decreases lines.len(),
{
    if k == lines.len() {
        assert(lines.take(k) =~= lines);
    } else {
        assert(lines.drop_last().take(k) =~= lines.take(k));
        first_failure_stays(lines.drop_last(), k);
    }
}

/// An adapter is reported with a state only by a line whose last word is exactly the name of
/// that state, in either case, and which holds the address as a word before the announcement.
pub proof fn state_is_the_last_word(line: Seq<char>)
    ensures
        record_of(line) matches Ok(Some((address, state))) ==> {
            let fields = text::words(line);
            &&& fields.len() > 0
            &&& state_of(fields.last()) == Some(state)
            &&& state == DcuSecurityState::Secure ==> text::same_ignoring_case(
                fields.last(),
                "SECURE"@,
            )
            &&& exists|i: int, m: int|
                0 <= i < m && #[trigger] is_marker(fields, m)
                    && crate::api::dcu::pci::address_of(#[trigger] fields[i]) == Some(address)
        },
{
    let fields = text::words(line);
    marker_from_is_first(fields, 0);
    if let Some(m) = marker_from(fields, 0) {
        let earlier = fields.take(m);
        first_address_is_a_word(earlier);
        if let Some(address) = first_address(earlier) {
            let i = choose|i: int|
                0 <= i < earlier.len() && crate::api::dcu::pci::address_of(#[trigger] earlier[i])
                    == Some(address);
            assert(earlier[i] == fields[i]);
        }
    }
}

proof fn first_address_is_a_word(fields: Seq<Seq<char>>)
    ensures
        first_address(fields) matches Some(address) ==> exists|i: int|
            0 <= i < fields.len() && crate::api::dcu::pci::address_of(#[trigger] fields[i])
                == Some(address),
    decreases fields.len(),
{
    if fields.len() > 0 && crate::api::dcu::pci::address_of(fields[0]) is None {
        let rest = fields.drop_first();
        first_address_is_a_word(rest);
        if let Some(address) = first_address(rest) {
            let i = choose|i: int|
                0 <= i < rest.len() && crate::api::dcu::pci::address_of(#[trigger] rest[i])
                    == Some(address);
            assert(fields[i + 1] == rest[i]);
        }
    }
}

/// A line that reports nothing changes nothing of what the other lines report.
pub proof fn silent_line_changes_nothing(
    above: Seq<Seq<char>>,
    line: Seq<char>,
    below: Seq<Seq<char>>,
)
    requires
        record_of(line) == Ok::<Option<Record>, ErrorView>(None),
    ensures
        records_of(above + seq![line] + below) == records_of(above + below),
    decreases below.len(),
{
    let with = above + seq![line] + below;
    if below.len() == 0 {
        assert(with.drop_last() =~= above);
        assert(above + below =~= above);
    } else {
        silent_line_changes_nothing(above, line, below.drop_last());
        assert(with.drop_last() =~= above + seq![line] + below.drop_last());
        assert((above + below).drop_last() =~= above + below.drop_last());
    }
}

/// One line that cannot be read is enough for the whole output to be refused.
pub proof fn one_bad_line_is_enough(lines: Seq<Seq<char>>, k: int)
    requires
        0 <= k < lines.len(),
        record_of(lines[k]) is Err,
    ensures
        records_of(lines) is Err,
    decreases lines.len(),
{
    if k < lines.len() - 1 {
        assert(lines.drop_last()[k] == lines[k]);
        one_bad_line_is_enough(lines.drop_last(), k);
    }
}

/// A record is among those of the output exactly when a line reports it.
pub proof fn records_are_those_of_the_lines(lines: Seq<Seq<char>>, record: Record)
    requires
        records_of(lines) is Ok,
    ensures
        records_of(lines)->Ok_0.contains(record) <==> exists|k: int|
            0 <= k < lines.len() && record_of(#[trigger] lines[k]) == Ok::<
                Option<Record>,
                ErrorView,
            >(Some(record)),
    decreases lines.len(),
{
    if lines.len() > 0 {
        let above = lines.drop_last();
        let last = lines.len() - 1;
        let wanted = Ok::<Option<Record>, ErrorView>(Some(record));
        let earlier = records_of(above)->Ok_0;
        let records = records_of(lines)->Ok_0;
        records_are_those_of_the_lines(above, record);
        if records.contains(record) {
            let i = choose|i: int| 0 <= i < records.len() && records[i] == record;
            if i < earlier.len() {
                assert(earlier[i] == record);
                let k = choose|k: int| 0 <= k < above.len() && record_of(#[trigger] above[k]) == wanted;
                assert(lines[k] == above[k]);
            } else {
                assert(record_of(lines[last]) == wanted);
            }
        }
        if exists|k: int| 0 <= k < lines.len() && record_of(#[trigger] lines[k]) == wanted {
            let k = choose|k: int| 0 <= k < lines.len() && record_of(#[trigger] lines[k]) == wanted;
            if k < last {
                assert(above[k] == lines[k]);
                let i = choose|i: int| 0 <= i < earlier.len() && earlier[i] == record;
                assert(records[i] == record);
            } else {
                assert(records.last() == record);
            }
        }
    }
}

/// An output is refused exactly when a line of it cannot be read, and with a failure that says
/// so.
pub proof fn refused_exactly_for_a_bad_line(lines: Seq<Seq<char>>)
    ensures
        records_of(lines) is Err <==> exists|k: int|
            0 <= k < lines.len() && record_of(#[trigger] lines[k]) is Err,
        records_of(lines) matches Err(error) ==> error.kind == ErrorKind::InvalidData,
    decreases lines.len(),
{
    if exists|k: int| 0 <= k < lines.len() && record_of(#[trigger] lines[k]) is Err {
        let k = choose|k: int| 0 <= k < lines.len() && record_of(#[trigger] lines[k]) is Err;
        one_bad_line_is_enough(lines, k);
    }
    if lines.len() > 0 {
        let above = lines.drop_last();
        refused_exactly_for_a_bad_line(above);
        if records_of(above) is Err {
            let k = choose|k: int| 0 <= k < above.len() && record_of(#[trigger] above[k]) is Err;
            assert(lines[k] == above[k]);
        } else if records_of(lines) is Err {
            assert(record_of(lines[lines.len() - 1]) is Err);
        }
    }
}

proof fn markers_ignore_case(fields: Seq<Seq<char>>, others: Seq<Seq<char>>, i: int)
    requires
        text::all_same_ignoring_case(fields, others),
        0 <= i,
    ensures
        marker_from(fields, i) == marker_from(others, i),
    decreases fields.len() - i,
{
    if i + 1 < fields.len() {
        assert(text::same_ignoring_case(fields[i], others[i]));
        assert(text::same_ignoring_case(fields[i + 1], others[i + 1]));
        text::trailing_ignores_case(fields[i + 1], others[i + 1]);
        same_as_the_same(fields[i], others[i], "security"@);
        same_as_the_same(
            text::without_trailing(fields[i + 1], ':'),
            text::without_trailing(others[i + 1], ':'),
            "state"@,
        );
        markers_ignore_case(fields, others, i + 1);
    }
}

proof fn same_as_the_same(a: Seq<char>, b: Seq<char>, c: Seq<char>)
    requires
        text::same_ignoring_case(a, b),
    ensures
        text::same_ignoring_case(a, c) == text::same_ignoring_case(b, c),
{
    if text::same_ignoring_case(b, c) {
        assert forall|i: int| 0 <= i < a.len() implies text::ascii_lower(#[trigger] a[i])
            == text::ascii_lower(c[i]) by {
            assert(text::ascii_lower(b[i]) == text::ascii_lower(c[i]));
        }
    }
    if text::same_ignoring_case(a, c) {
        assert forall|i: int| 0 <= i < b.len() implies text::ascii_lower(#[trigger] b[i])
            == text::ascii_lower(c[i]) by {
            assert(text::ascii_lower(a[i]) == text::ascii_lower(b[i]));
        }
    }
}

proof fn state_place_ignores_case(fields: Seq<Seq<char>>, others: Seq<Seq<char>>, marker: int)
    requires
        text::all_same_ignoring_case(fields, others),
        0 <= marker < fields.len() - 1,
    ensures
        state_place(fields, marker) == state_place(others, marker),
{
    let named = fields[marker + 1];
    let other = others[marker + 1];
    assert(text::same_ignoring_case(named, other));
    if named.len() > 0 {
        text::case_keeps_the_class(named[named.len() - 1], other[named.len() - 1]);
    }
    if marker + 2 < fields.len() {
        let word = fields[marker + 2];
        let its = others[marker + 2];
        assert(text::same_ignoring_case(word, its));
        reveal_strlit(":");
        if word.len() == 1 {
            text::case_keeps_the_class(word[0], its[0]);
        }
        if word == ":"@ {
            assert(its =~= ":"@);
        }
        if its == ":"@ {
            assert(word =~= ":"@);
        }
    }
}

proof fn first_address_ignores_case(fields: Seq<Seq<char>>, others: Seq<Seq<char>>)
    requires
        text::all_same_ignoring_case(fields, others),
    ensures
        first_address(fields) == first_address(others),
    decreases fields.len(),
{
    if fields.len() > 0 {
        assert(text::same_ignoring_case(fields[0], others[0]));
        PciAddress::address_ignores_case(fields[0], others[0]);
        let rest = fields.drop_first();
        let their = others.drop_first();
        assert forall|i: int| 0 <= i < rest.len() implies text::same_ignoring_case(
            #[trigger] rest[i],
            their[i],
        ) by {
            assert(text::same_ignoring_case(fields[i + 1], others[i + 1]));
        }
        first_address_ignores_case(rest, their);
    }
}

/// Lines whose words differ in ASCII case only report the same, or both cannot be read.
proof fn record_follows_the_words(line: Seq<char>, other: Seq<char>)
    requires
        text::all_same_ignoring_case(text::words(line), text::words(other)),
    ensures
        error::same_outcome(record_of(line), record_of(other)),
{
    let fields = text::words(line);
    let others = text::words(other);
    markers_ignore_case(fields, others, 0);
    marker_from_is_first(fields, 0);
    if let Some(marker) = marker_from(fields, 0) {
        state_place_ignores_case(fields, others, marker);
        let place = state_place(fields, marker);
        let above = fields.take(marker);
        let their = others.take(marker);
        assert forall|i: int| 0 <= i < above.len() implies text::same_ignoring_case(
            #[trigger] above[i],
            their[i],
        ) by {
            assert(text::same_ignoring_case(fields[i], others[i]));
        }
        first_address_ignores_case(above, their);
        if place + 1 == fields.len() {
            assert(text::same_ignoring_case(fields[place], others[place]));
            same_as_the_same(fields[place], others[place], "SECURE"@);
            same_as_the_same(fields[place], others[place], "PROTO"@);
        }
    }
}

/// The case of ASCII letters in a line does not change what it reports, nor whether it can be
/// read; a line that cannot fails as invalid data.
pub proof fn case_does_not_matter(line: Seq<char>, other: Seq<char>)
    requires
        text::same_ignoring_case(line, other),
    ensures
        error::same_outcome(record_of(line), record_of(other)),
        record_of(line) matches Err(error) ==> error.kind == ErrorKind::InvalidData,
{
    text::words_ignore_case(line, other);
    record_follows_the_words(line, other);
}

/// Which white space stands between the words of a line, and how much, does not change what the
/// line reports, nor whether it can be read; a line that cannot fails as invalid data.
pub proof fn kind_of_white_space_does_not_matter(line: Seq<char>, other: Seq<char>)
    requires
        text::collapsed(line) == text::collapsed(other),
    ensures
        error::same_outcome(record_of(line), record_of(other)),
        record_of(line) matches Err(error) ==> error.kind == ErrorKind::InvalidData,
{
    text::collapsed_keeps_the_words(line);
    text::collapsed_keeps_the_words(other);
    record_follows_the_words(line, other);
}

/// A line reports nothing exactly where no two neighbouring words announce a security state: the
/// word `security`, and the word `state` with any number of colons behind it, in either case.
pub proof fn silent_exactly_without_announcement(line: Seq<char>)
    ensures
        record_of(line) == Ok::<Option<Record>, ErrorView>(None) <==> forall|i: int, j: int|
            0 <= i && j == i + 1 && j < text::words(line).len() ==> !(text::same_ignoring_case(
                #[trigger] text::words(line)[i],
                "security"@,
            ) && text::same_ignoring_case(
                text::without_trailing(#[trigger] text::words(line)[j], ':'),
                "state"@,
            )),
{
    let fields = text::words(line);
    marker_from_is_first(fields, 0);
    if record_of(line) == Ok::<Option<Record>, ErrorView>(None) {
        assert forall|i: int, j: int|
            0 <= i && j == i + 1 && j < fields.len() implies !(text::same_ignoring_case(
            #[trigger] fields[i],
            "security"@,
        ) && text::same_ignoring_case(
            text::without_trailing(#[trigger] fields[j], ':'),
            "state"@,
        )) by {
            assert(!is_marker(fields, i));
        }
    } else {
        let m = marker_from(fields, 0)->0;
        assert(is_marker(fields, m));
        let n = m + 1;
        assert(text::same_ignoring_case(fields[m], "security"@));
        assert(text::same_ignoring_case(text::without_trailing(fields[n], ':'), "state"@));
    }
}

/// What a line reports whose first announcement of a security state stands at `marker`. The
/// state stands behind the colon, which may end the announcement, be a word of its own or be
/// left out, and must be the last word. The adapter is that of the first address before the
/// announcement. The state is named in either case.
pub proof fn announced_state_is_reported(line: Seq<char>, marker: int, first: int)
    requires
        0 <= marker < text::words(line).len() - 1,
        text::same_ignoring_case(text::words(line)[marker], "security"@),
        text::same_ignoring_case(
            text::without_trailing(text::words(line)[marker + 1], ':'),
            "state"@,
        ),
        forall|i: int, j: int|
            0 <= i < marker && j == i + 1 ==> !(text::same_ignoring_case(
                #[trigger] text::words(line)[i],
                "security"@,
            ) && text::same_ignoring_case(
                text::without_trailing(#[trigger] text::words(line)[j], ':'),
                "state"@,
            )),
        0 <= first <= marker,
        forall|i: int|
            0 <= i < first ==> crate::api::dcu::pci::address_of(#[trigger] text::words(line)[i])
                is None,
        first < marker ==> crate::api::dcu::pci::address_of(text::words(line)[first]) is Some,
    ensures
        ({
            let fields = text::words(line);
            let place = if fields[marker + 1].len() > 0 && fields[marker + 1].last() == ':' {
                marker + 2
            } else if marker + 2 < fields.len() && fields[marker + 2] == seq![':'] {
                marker + 3
            } else {
                marker + 2
            };
            let address = crate::api::dcu::pci::address_of(fields[first])->0;
            &&& place != fields.len() - 1 ==> record_of(line) == Err::<Option<Record>, ErrorView>(
                ErrorView {
                    kind: ErrorKind::InvalidData,
                    message: "malformed hyflash security-state record: "@ + line,
                },
            )
            &&& place == fields.len() - 1 && first == marker ==> record_of(line) == Err::<
                Option<Record>,
                ErrorView,
            >(
                ErrorView {
                    kind: ErrorKind::InvalidData,
                    message: "hyflash security-state record has no valid PCI address: "@ + line,
                },
            )
            &&& place == fields.len() - 1 && first < marker ==> {
                &&& text::same_ignoring_case(fields[place], "SECURE"@) ==> record_of(line) == Ok::<
                    Option<Record>,
                    ErrorView,
                >(Some((address, DcuSecurityState::Secure)))
                &&& text::same_ignoring_case(fields[place], "PROTO"@) ==> record_of(line) == Ok::<
                    Option<Record>,
                    ErrorView,
                >(Some((address, DcuSecurityState::Proto)))
                &&& !text::same_ignoring_case(fields[place], "SECURE"@)
                    && !text::same_ignoring_case(fields[place], "PROTO"@) ==> record_of(line)
                    == Err::<Option<Record>, ErrorView>(
                    ErrorView {
                        kind: ErrorKind::InvalidData,
                        message: "hyflash reported unsupported security state "@
                            + text::debug_text(fields[place]) + " for "@ + address.text(),
                    },
                )
            }
        }),
{
    let fields = text::words(line);
    marker_from_is_first(fields, 0);
    assert(is_marker(fields, marker));
    match marker_from(fields, 0) {
        Some(m) => {
            if m < marker {
                let n = m + 1;
                assert(is_marker(fields, m));
                assert(text::same_ignoring_case(fields[m], "security"@));
                assert(text::same_ignoring_case(text::without_trailing(fields[n], ':'), "state"@));
            }
            assert(m == marker);
        },
        None => {},
    }
    reveal_strlit(":");
    assert(":"@ =~= seq![':']);
    reveal_strlit("SECURE");
    reveal_strlit("PROTO");
    first_address_is(fields.take(marker), first);
}

proof fn first_address_is(fields: Seq<Seq<char>>, first: int)
    requires
        0 <= first <= fields.len(),
        forall|i: int|
            0 <= i < first ==> crate::api::dcu::pci::address_of(#[trigger] fields[i]) is None,
        first < fields.len() ==> crate::api::dcu::pci::address_of(fields[first]) is Some,
    ensures
        first == fields.len() ==> first_address(fields) is None,
        first < fields.len() ==> first_address(fields) == crate::api::dcu::pci::address_of(
            fields[first],
        ),
    decreases fields.len(),
{
    if first > 0 {
        let rest = fields.drop_first();
        assert(crate::api::dcu::pci::address_of(fields[0]) is None);
        assert forall|i: int| 0 <= i < first - 1 implies crate::api::dcu::pci::address_of(
            #[trigger] rest[i],
        ) is None by {
            assert(rest[i] == fields[i + 1]);
        }
        first_address_is(rest, first - 1);
    }
}

/// A line whose words are some that are no addresses and announce nothing, then the text of an
/// address, then `Security` and `state:`, then the name of a state in either case, reports that
/// state of that address.
pub proof fn reported_state_is_read(
    line: Seq<char>,
    lead: Seq<Seq<char>>,
    address: PciAddress,
    name: Seq<char>,
    state: DcuSecurityState,
)
    requires
        address.device <= 31,
        address.function <= 7,
        text::words(line) == lead + seq![address.text(), "Security"@, "state:"@, name],
        forall|i: int|
            0 <= i < lead.len() ==> crate::api::dcu::pci::address_of(#[trigger] lead[i]) is None,
        forall|i: int, j: int|
            0 <= i && j == i + 1 && j < lead.len() ==> !(text::same_ignoring_case(
                #[trigger] lead[i],
                "security"@,
            ) && text::same_ignoring_case(
                text::without_trailing(#[trigger] lead[j], ':'),
                "state"@,
            )),
        text::same_ignoring_case(
            name,
            match state {
                DcuSecurityState::Secure => "SECURE"@,
                DcuSecurityState::Proto => "PROTO"@,
            },
        ),
    ensures
        record_of(line) == Ok::<Option<Record>, ErrorView>(Some((address, state))),
{
    let fields = text::words(line);
    let n = lead.len() as int;
    reveal_strlit("Security");
    reveal_strlit("security");
    reveal_strlit("state:");
    reveal_strlit("state");
    assert(fields[n] == address.text());
    assert(fields[n + 1] == "Security"@);
    assert(fields[n + 2] == "state:"@);
    assert(fields[n + 3] == name);
    address.text_is_laid_out();
    address.text_is_read_back();
    text::without_trailing_is("state"@, ':', 1);
    assert("state"@ + Seq::new(1, |i: int| ':') =~= "state:"@);
    let t = address.text();
    number::numeral_round_trip(address.function as nat, 10);
    let function = number::decimal(address.function as int);
    assert(t.last() == function.last());
    assert(number::is_digit(function[function.len() - 1], 10));
    assert(text::without_trailing(t, ':') == t);
    assert forall|i: int, j: int|
        0 <= i < n + 1 && j == i + 1 implies !(text::same_ignoring_case(
        #[trigger] fields[i],
        "security"@,
    ) && text::same_ignoring_case(text::without_trailing(#[trigger] fields[j], ':'), "state"@)) by {
        if j < n {
            assert(fields[i] == lead[i]);
            assert(fields[j] == lead[j]);
        }
    }
    assert forall|i: int| 0 <= i < n implies crate::api::dcu::pci::address_of(
        #[trigger] fields[i],
    ) is None by {
        assert(fields[i] == lead[i]);
    }
    announced_state_is_reported(line, n + 1, n);
}

/// The records of lines are those of the first of them and then those of the rest, where none of
/// them fails; a line that fails, fails all of them; and the records of one line are what it
/// reports.
pub proof fn records_of_both(a: Seq<Seq<char>>, b: Seq<Seq<char>>, line: Seq<char>)
    ensures
        records_of(seq![line]) == match record_of(line) {
            Ok(Some(record)) => Ok(seq![record]),
            Ok(None) => Ok(Seq::<Record>::empty()),
            Err(error) => Err(error),
        },
        records_of(a + b) == match (records_of(a), records_of(b)) {
            (Ok(x), Ok(y)) => Ok(x + y),
            (Err(error), _) => Err(error),
            (Ok(_), Err(error)) => Err(error),
        },
    decreases b.len(),
{
    let one = seq![line];
    assert(one.drop_last() =~= Seq::<Seq<char>>::empty());
    assert(records_of(one.drop_last()) == Ok::<Seq<Record>, ErrorView>(seq![]));
    if let Ok(Some(record)) = record_of(line) {
        assert(Seq::<Record>::empty().push(record) =~= seq![record]);
    }
    if b.len() == 0 {
        assert(a + b =~= a);
        if let Ok(x) = records_of(a) {
            assert(x + Seq::<Record>::empty() =~= x);
        }
    } else {
        records_of_both(a, b.drop_last(), line);
        assert((a + b).drop_last() =~= a + b.drop_last());
        assert((a + b).last() == b.last());
        if let (Ok(x), Ok(y)) = (records_of(a), records_of(b.drop_last())) {
            if let Ok(Some(record)) = record_of(b.last()) {
                assert((x + y).push(record) =~= x + y.push(record));
            }
        }
    }
}

fn invalid_data(message: String) -> (res: Error)
    ensures
        res@ == invalid(message@),
{
    Error { kind: ErrorKind::InvalidData, message }
}

/// The place of the first announcement of a security state.
fn find_marker(fields: &Vec<&[char]>) -> (res: Option<usize>)
    ensures
        match marker_from(text::texts(fields@), 0) {
            Some(m) => res == Some(m as usize) && 0 <= m < fields@.len() - 1,
            None => res is None,
        },
{
    let ghost all = text::texts(fields@);
    let mut i: usize = 0;
    while i < fields.len() && fields.len() - i > 1
        invariant
            i <= fields@.len(),
            all == text::texts(fields@),
            marker_from(all, 0) == marker_from(all, i as int),
        decreases fields@.len() - i,
    {
        assert(all[i as int] == fields@[i as int]@);
        assert(all[i + 1] == fields@[i + 1]@);
        if text::eq_ignoring_case(fields[i], "security") && text::eq_ignoring_case(
            text::trim_trailing(fields[i + 1], ':'),
            "state",
        ) {
            return Some(i);
        }
        i += 1;
    }
    None
}

/// The first of the words before `end` that is a PCI address.
fn find_address(fields: &Vec<&[char]>, end: usize) -> (res: Option<PciAddress>)
    requires
        end <= fields@.len(),
    ensures
        res == first_address(text::texts(fields@).take(end as int)),
{
    let ghost all = text::texts(fields@).take(end as int);
    assert(all.skip(0) =~= all);
    for i in 0..end
        invariant
            end <= fields@.len(),
            all == text::texts(fields@).take(end as int),
            first_address(all) == first_address(all.skip(i as int)),
    {
        assert(all.skip(i as int)[0] == fields@[i as int]@);
        assert(all.skip(i as int).drop_first() =~= all.skip(i + 1));
        let address = PciAddress::parse_chars(fields[i]);
        if address.is_some() {
            return address;
        }
    }
    None
}

/// The state that a word names, in either case.
fn read_state(word: &[char]) -> (res: Option<DcuSecurityState>)
    ensures
        res == state_of(word@),
{
    if text::eq_ignoring_case(word, "SECURE") {
        Some(DcuSecurityState::Secure)
    } else if text::eq_ignoring_case(word, "PROTO") {
        Some(DcuSecurityState::Proto)
    } else {
        None
    }
}

/// The failure of a line whose last word, given in quotes, names no state.
pub fn unsupported_state(quoted: &str, address: &PciAddress) -> (res: Error)
    ensures
        res@ == unsupported(quoted@, *address),
        res.kind == ErrorKind::InvalidData,
        res.message@ == "hyflash reported unsupported security state "@ + quoted@ + " for "@
            + address.text(),
{
    let mut message = "hyflash reported unsupported security state ".to_string();
    message.append(quoted);
    message.append(" for ");
    address.push_to(&mut message);
    invalid_data(message)
}

fn parse_record(line: &[char]) -> (res: Result<Option<Record>, Error>)
    ensures
        error::viewed(res) == record_of(line@),
{
    let fields = text::split_words(line);
    let count = fields.len();
    let ghost all = text::texts(fields@);
    let marker = match find_marker(&fields) {
        Some(marker) => marker,
        None => return Ok(None),
    };
    let named = fields[marker + 1];
    assert(all[marker + 1] == named@);
    let colon = text::chars_of(":");
    let place: usize = if named.len() > 0 && named[named.len() - 1] == ':' {
        marker + 2
    } else if marker + 2 < count && text::same_text(fields[marker + 2], colon.as_slice()) {
        marker + 3
    } else {
        marker + 2
    };
    assert(marker + 2 < fields@.len() ==> all[marker + 2] == fields@[marker + 2]@);
    assert(place == state_place(all, marker as int));
    if place >= count || place + 1 != count {
        let mut message = "malformed hyflash security-state record: ".to_string();
        message.append(text::string_of(line).as_str());
        return Err(invalid_data(message));
    }
    let address = match find_address(&fields, marker) {
        Some(address) => address,
        None => {
            let mut message =
                "hyflash security-state record has no valid PCI address: ".to_string();
            message.append(text::string_of(line).as_str());
            return Err(invalid_data(message));
        },
    };
    assert(all[place as int] == fields@[place as int]@);
    match read_state(fields[place]) {
        Some(state) => Ok(Some((address, state))),
        None => {
            let word = text::string_of(fields[place]);
            Err(unsupported_state(text::debug_string(word.as_str()).as_str(), &address))
        },
    }
}

/// Reads one line of the output of `hyflash --node a --securityState`.
///
/// Lines that matter hold a PCI address followed by `Security state: STATE`. The state must be
/// the final word, so that `INSECURE`, or a text that merely holds `SECURE`, is not mistaken
/// for the secure state.
pub fn parse_hyflash_security_state_line(line: &str) -> (res: Result<Option<Record>, Error>)
    ensures
        error::viewed(res) == record_of(line@),
        match res {
            Ok(found) => record_of(line@) == Ok::<Option<Record>, ErrorView>(found),
            Err(error) => record_of(line@) == Err::<Option<Record>, ErrorView>(
                ErrorView { kind: error.kind, message: error.message@ },
            ),
        },
{
    let line = text::chars_of(line);
    parse_record(line.as_slice())
}

/// A list of records, by its contents.
pub open spec fn viewed_records(res: Result<Vec<Record>, Error>) -> Result<
    Seq<Record>,
    ErrorView,
> {
    match res {
        Ok(records) => Ok(records@),
        Err(error) => Err(error@),
    }
}

/// Reads the output of `hyflash --node a --securityState`.
pub fn parse_hyflash_security_states(output: &str) -> (res: Result<Vec<Record>, Error>)
    ensures
        viewed_records(res) == records_of(text::lines(output@)),
        match res {
            Ok(records) => records_of(text::lines(output@)) == Ok::<Seq<Record>, ErrorView>(
                records@,
            ),
            Err(error) => records_of(text::lines(output@)) == Err::<Seq<Record>, ErrorView>(
                ErrorView { kind: error.kind, message: error.message@ },
            ),
        },
{
    let chars = text::chars_of(output);
    let lines = text::split_lines(chars.as_slice());
    let mut records: Vec<Record> = Vec::new();
    let ghost all = text::texts(lines@);
    for i in 0..lines.len()
        invariant
            all == text::texts(lines@),
            all == text::lines(output@),
            records_of(all.take(i as int)) == Ok::<Seq<Record>, ErrorView>(records@),
    {
        let ghost upto = all.take(i + 1);
        assert(upto.drop_last() =~= all.take(i as int));
        assert(upto.last() == lines@[i as int]@);
        match parse_record(lines[i]) {
            Ok(Some(record)) => {
                records.push(record);
            },
            Ok(None) => {},
            Err(error) => {
                proof {
                    first_failure_stays(all, i + 1);
                }
                return Err(error);
            },
        }
    }
    assert(all.take(lines@.len() as int) =~= all);
    Ok(records)
}

} // verus!
