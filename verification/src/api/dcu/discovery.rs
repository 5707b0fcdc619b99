//! The discovery of the adapters in the KFD topology.
//!
//! [`TopologyScan`] says which file to read next and takes what was read; whoever runs it does
//! the reading.

use crate::api::dcu::pci::PciAddress;
use crate::api::dcu::topology;
use crate::api::dcu::topology::{DcuTopologyNode, KFD_TOPOLOGY_NODES};
use crate::error::{Error, ErrorKind, ErrorView};
use crate::{error, number, text};
use vstd::prelude::*;
use vstd::string::*;

verus! {

/// An entry of the topology's directory.
#[derive(Debug)]
pub struct TopologyEntry {
    pub is_dir: bool,
    /// The entry's name, where it is valid Unicode.
    pub name: Option<String>,
}

/// The number of the node that an entry is for: that of a directory whose name is a number.
pub open spec fn node_of(entry: TopologyEntry) -> Option<nat> {
    match entry.name {
        Some(name) => if entry.is_dir {
            number::number(name@, 10, u32::MAX as nat)
        } else {
            None
        },
        None => None,
    }
}

/// The numbers of the nodes that the entries are for, in the order of the entries.
pub open spec fn nodes_of(entries: Seq<TopologyEntry>) -> Seq<u32>
    decreases entries.len(),
{
    if entries.len() == 0 {
        seq![]
    } else {
        match node_of(entries.last()) {
            Some(n) => nodes_of(entries.drop_last()).push(n as u32),
            None => nodes_of(entries.drop_last()),
        }
    }
}

/// Whether no number is followed by a smaller one.
pub open spec fn is_sorted(list: Seq<u32>) -> bool {
    forall|i: int, j: int| 0 <= i <= j < list.len() ==> list[i] <= list[j]
}

/// Inserts a number into a sorted list.
fn insert_sorted(list: &mut Vec<u32>, n: u32)
    requires
        is_sorted(old(list)@),
    ensures
        is_sorted(final(list)@),
        final(list)@.to_multiset() == old(list)@.to_multiset().insert(n),
{
    let ghost earlier = list@;
    let mut at: usize = list.len();
    while at > 0 && list[at - 1] > n
        invariant
            at <= list@.len(),
            list@ == earlier,
            forall|j: int| at <= j < list@.len() ==> list@[j] > n,
        decreases at,
    {
        at -= 1;
    }
    list.insert(at, n);
    proof {
        broadcast use vstd::seq_lib::group_to_multiset_ensures;

        assert(list@ =~= earlier.insert(at as int, n));
        assert(list@.remove(at as int) =~= earlier);
        assert(list@[at as int] == n);
        assert(list@.contains(n));
        assert(list@.to_multiset() =~= earlier.to_multiset().insert(n));
    }
}

/// The numbers of the nodes that the entries are for, sorted.
pub fn topology_node_ids(entries: &Vec<TopologyEntry>) -> (res: Vec<u32>)
    ensures
        is_sorted(res@),
        forall|i: int, j: int| 0 <= i <= j < res@.len() ==> res@[i] <= res@[j],
        res@.to_multiset() == nodes_of(entries@).to_multiset(),
{
    let mut res: Vec<u32> = Vec::new();
    for i in 0..entries.len()
        invariant
            is_sorted(res@),
            res@.to_multiset() == nodes_of(entries@.take(i as int)).to_multiset(),
    {
        broadcast use vstd::seq_lib::group_to_multiset_ensures;

        let ghost upto = entries@.take(i + 1);
        assert(upto.drop_last() =~= entries@.take(i as int));
        assert(upto.last() == entries@[i as int]);
        if entries[i].is_dir {
            if let Some(name) = &entries[i].name {
                let chars = text::chars_of(name.as_str());
                if let Some(n) = number::read_number(chars.as_slice(), 10, 0xffff_ffff) {
                    insert_sorted(&mut res, n as u32);
                }
            }
        }
    }
    assert(entries@.take(entries@.len() as int) =~= entries@);
    res
}

/// The path of a file of a node.
pub open spec fn node_path(node_id: u32, file: Seq<char>) -> Seq<char> {
    KFD_TOPOLOGY_NODES@ + "/"@ + number::decimal(node_id as int) + "/"@ + file
}

fn node_file_path(node_id: u32, file: &str) -> (res: String)
    ensures
        res@ == node_path(node_id, file@),
{
    let mut path = KFD_TOPOLOGY_NODES.to_string();
    path.append("/");
    number::push_decimal(&mut path, node_id as i64);
    path.append("/");
    path.append(file);
    path
}

/// The identifier that the text of a `gpu_id` file gives: a decimal number, with white space
/// around it or not.
pub open spec fn dcu_id_of(content: Seq<char>) -> Result<u32, ErrorView> {
    match number::number(text::trimmed(content), 10, u32::MAX as nat) {
        Some(n) => Ok(n as u32),
        None => Err(
            ErrorView { kind: ErrorKind::InvalidData, message: "Failed to parse DCU ID"@ },
        ),
    }
}

/// Reads the identifier that the text of a `gpu_id` file gives.
pub fn parse_dcu_id(content: &str) -> (res: Result<u32, Error>)
    ensures
        error::viewed(res) == dcu_id_of(content@),
        match number::number(text::trimmed(content@), 10, 0xffff_ffff) {
            Some(n) => res matches Ok(found) && found == n,
            None => res matches Err(error) && error.kind == ErrorKind::InvalidData
                && error.message@ == "Failed to parse DCU ID"@,
        },
{
    let chars = text::chars_of(content);
    match number::read_number(text::trim(chars.as_slice()), 10, 0xffff_ffff) {
        Some(n) => Ok(n as u32),
        None => Err(Error::new(ErrorKind::InvalidData, "Failed to parse DCU ID".to_string())),
    }
}

/// What the reading of a file came to: its text, or why there is none.
pub type Reading = Result<String, Error>;

/// A [`Reading`], by its contents.
pub open spec fn viewed_reading(reading: Reading) -> Result<Seq<char>, ErrorView> {
    match reading {
        Ok(content) => Ok(content@),
        Err(error) => Err(error@),
    }
}

/// What a [`TopologyScan`] asks for.
#[derive(Clone, Copy, Debug, PartialEq, Eq, Structural)]
pub enum ScanRequest {
    /// The text of the node's `gpu_id` file.
    GpuId(u32),
    /// The text of the node's `properties` file.
    Properties(u32),
    /// Nothing more.
    Finish,
}

impl ScanRequest {
    /// The path of the file that is asked for.
    pub open spec fn path(self) -> Option<Seq<char>> {
        match self {
            ScanRequest::GpuId(node_id) => Some(node_path(node_id, "gpu_id"@)),
            ScanRequest::Properties(node_id) => Some(node_path(node_id, "properties"@)),
            ScanRequest::Finish => None,
        }
    }

    /// The path of the file that is asked for.
    pub fn file_path(&self) -> (res: Option<String>)
        ensures
            match self.path() {
                Some(path) => res matches Some(found) && found@ == path,
                None => res is None,
            },
            match *self {
                ScanRequest::GpuId(node_id) => res matches Some(found) && found@
                    == KFD_TOPOLOGY_NODES@ + "/"@ + number::decimal(node_id as int) + "/"@
                    + "gpu_id"@,
                ScanRequest::Properties(node_id) => res matches Some(found) && found@
                    == KFD_TOPOLOGY_NODES@ + "/"@ + number::decimal(node_id as int) + "/"@
                    + "properties"@,
                ScanRequest::Finish => res is None,
            },
    {
        match self {
            ScanRequest::GpuId(node_id) => Some(node_file_path(*node_id, "gpu_id")),
            ScanRequest::Properties(node_id) => Some(node_file_path(*node_id, "properties")),
            ScanRequest::Finish => None,
        }
    }
}

/// How far a scan has come.
pub struct ScanView {
    /// The nodes that are not done yet.
    pub remaining: Seq<u32>,
    /// The identifier of the first of them, once it is known not to be zero.
    pub dcu_id: Option<u32>,
    /// The adapters found so far.
    pub found: Seq<DcuTopologyNode>,
}

/// What a scan that has come this far asks for.
pub open spec fn request_of(scan: ScanView) -> ScanRequest {
    if scan.remaining.len() == 0 {
        ScanRequest::Finish
    } else if scan.dcu_id is Some {
        ScanRequest::Properties(scan.remaining[0])
    } else {
        ScanRequest::GpuId(scan.remaining[0])
    }
}

/// A failure with words before its message.
pub open spec fn explained(words: Seq<char>, error: ErrorView) -> ErrorView {
    ErrorView { kind: error.kind, message: words + error.message }
}

/// How far a scan is after the reading that it asked for.
pub open spec fn after_reading(scan: ScanView, reading: Result<Seq<char>, ErrorView>) -> Result<
    ScanView,
    ErrorView,
> {
    let node_id = scan.remaining[0];
    match scan.dcu_id {
        None => {
            let words = "Failed to read GPU ID for KFD topology node "@ + number::decimal(
                node_id as int,
            ) + ": "@;
            match reading {
                Err(error) => Err(explained(words, error)),
                Ok(content) => match dcu_id_of(content) {
                    Err(error) => Err(explained(words, error)),
                    Ok(dcu_id) => if dcu_id == 0 {
                        Ok(ScanView { remaining: scan.remaining.drop_first(), ..scan })
                    } else {
                        Ok(ScanView { dcu_id: Some(dcu_id), ..scan })
                    },
                },
            }
        },
        Some(dcu_id) => {
            let words = "Failed to determine PCI address for KFD topology node "@ + number::decimal(
                node_id as int,
            ) + " (DCU ID "@ + number::decimal(dcu_id as int) + "): "@;
            match reading {
                Err(error) => Err(explained(words, error)),
                Ok(content) => match topology::address_by_properties(content) {
                    Err(error) => Err(explained(words, error)),
                    Ok(pci_address) => Ok(
                        ScanView {
                            remaining: scan.remaining.drop_first(),
                            dcu_id: None,
                            found: scan.found.push(
                                DcuTopologyNode { node_id, dcu_id, pci_address },
                            ),
                        },
                    ),
                },
            }
        },
    }
}

/// What a finished scan has found: at least one adapter, or a failure.
pub open spec fn found_adapters(found: Seq<DcuTopologyNode>) -> Result<
    Seq<DcuTopologyNode>,
    ErrorView,
> {
    if found.len() == 0 {
        Err(
            ErrorView {
                kind: ErrorKind::NotFound,
                message: "No DCU GPU nodes found in KFD topology"@,
            },
        )
    } else {
        Ok(found)
    }
}

/// A result with a list of adapters, by its contents.
pub open spec fn viewed_nodes(res: Result<Vec<DcuTopologyNode>, Error>) -> Result<
    Seq<DcuTopologyNode>,
    ErrorView,
> {
    match res {
        Ok(nodes) => Ok(nodes@),
        Err(error) => Err(error@),
    }
}

fn explain(mut words: String, error: Error) -> (res: Error)
    ensures
        res@ == explained(words@, error@),
{
    words.append(error.message.as_str());
    Error { kind: error.kind, message: words }
}

/// A scan of the topology for adapters.
#[derive(Debug)]
pub struct TopologyScan {
    node_ids: Vec<u32>,
    position: usize,
    dcu_id: Option<u32>,
    found: Vec<DcuTopologyNode>,
}

impl View for TopologyScan {
    type V = ScanView;

    closed spec fn view(&self) -> ScanView {
        ScanView {
            remaining: self.node_ids@.skip(self.position as int),
            dcu_id: self.dcu_id,
            found: self.found@,
        }
    }
}

impl TopologyScan {
    #[verifier::type_invariant]
    closed spec fn within(self) -> bool {
        self.position <= self.node_ids@.len()
    }

    /// A scan of the given nodes, in the given order.
    pub fn new(node_ids: Vec<u32>) -> (res: TopologyScan)
        ensures
            res@ == (ScanView { remaining: node_ids@, dcu_id: None, found: seq![] }),
    {
        assert(node_ids@.skip(0) =~= node_ids@);
        TopologyScan { node_ids, position: 0, dcu_id: None, found: Vec::new() }
    }

    /// What the scan asks for.
    pub fn request(&self) -> (res: ScanRequest)
        ensures
            res == request_of(self@),
            self@.remaining.len() == 0 <==> res == ScanRequest::Finish,
            self@.remaining.len() > 0 && self@.dcu_id is None ==> res == ScanRequest::GpuId(
                self@.remaining[0],
            ),
            self@.remaining.len() > 0 && self@.dcu_id is Some ==> res == ScanRequest::Properties(
                self@.remaining[0],
            ),
    {
        proof {
            use_type_invariant(self);
        }
        if self.position == self.node_ids.len() {
            ScanRequest::Finish
        } else if self.dcu_id.is_some() {
            ScanRequest::Properties(self.node_ids[self.position])
        } else {
            ScanRequest::GpuId(self.node_ids[self.position])
        }
    }

    /// Takes the reading that the scan asked for.
    pub fn advance(self, reading: Reading) -> (res: Result<TopologyScan, Error>)
        requires
            request_of(self@) != ScanRequest::Finish,
        ensures
            match after_reading(self@, viewed_reading(reading)) {
                Ok(scan) => res matches Ok(next) && next@ == scan,
                Err(error) => res matches Err(found) && found@ == error,
            },
            after_reading(
                self@,
                match reading {
                    Ok(content) => Ok(content@),
                    Err(error) => Err(ErrorView { kind: error.kind, message: error.message@ }),
                },
            ) == match res {
                Ok(next) => Ok(next@),
                Err(error) => Err(ErrorView { kind: error.kind, message: error.message@ }),
            },
    {
        proof {
            use_type_invariant(&self);
        }
        let TopologyScan { node_ids, position, dcu_id, mut found } = self;
        let count = node_ids.len();
        assert(position < count);
        let next = position + 1;
        let node_id = node_ids[position];
        assert(node_ids@.skip(position as int).drop_first() =~= node_ids@.skip(position + 1));
        match dcu_id {
            None => {
                let result = match reading {
                    Ok(content) => parse_dcu_id(content.as_str()),
                    Err(error) => Err(error),
                };
                match result {
                    Ok(dcu_id) => {
                        if dcu_id == 0 {
                            Ok(TopologyScan { node_ids, position: next, dcu_id: None, found })
                        } else {
                            Ok(TopologyScan { node_ids, position, dcu_id: Some(dcu_id), found })
                        }
                    },
                    Err(error) => {
                        let mut words = "Failed to read GPU ID for KFD topology node ".to_string();
                        number::push_decimal(&mut words, node_id as i64);
                        words.append(": ");
                        Err(explain(words, error))
                    },
                }
            },
            Some(dcu_id) => {
                let result = match reading {
                    Ok(content) => PciAddress::from_kfd_properties(content.as_str()),
                    Err(error) => Err(error),
                };
                match result {
                    Ok(pci_address) => {
                        found.push(DcuTopologyNode { node_id, dcu_id, pci_address });
                        Ok(TopologyScan { node_ids, position: next, dcu_id: None, found })
                    },
                    Err(error) => {
                        let mut words =
                            "Failed to determine PCI address for KFD topology node ".to_string();
                        number::push_decimal(&mut words, node_id as i64);
                        words.append(" (DCU ID ");
                        number::push_decimal(&mut words, dcu_id as i64);
                        words.append("): ");
                        Err(explain(words, error))
                    },
                }
            },
        }
    }

    /// The adapters that the scan has found.
    pub fn finish(self) -> (res: Result<Vec<DcuTopologyNode>, Error>)
        requires
            request_of(self@) == ScanRequest::Finish,
        ensures
            viewed_nodes(res) == found_adapters(self@.found),
            self@.found.len() > 0 ==> (res matches Ok(nodes) && nodes@ == self@.found),
            self@.found.len() == 0 ==> (res matches Err(error) && error.kind
                == ErrorKind::NotFound && error.message@
                == "No DCU GPU nodes found in KFD topology"@),
    {
        if self.found.len() == 0 {
            Err(
                Error::new(
                    ErrorKind::NotFound,
                    "No DCU GPU nodes found in KFD topology".to_string(),
                ),
            )
        } else {
            Ok(self.found)
        }
    }
}

/// The contents of the files of the topology, each by the request that asks for it.
pub type Files = spec_fn(ScanRequest) -> Result<Seq<char>, ErrorView>;

/// What a scan comes to when every request is answered with the file that it asks for.
pub open spec fn scan_outcome(scan: ScanView, files: Files) -> Result<
    Seq<DcuTopologyNode>,
    ErrorView,
>
    decreases
            scan.remaining.len(),
            if scan.dcu_id is None {
                1int
            } else {
                0int
            },
{
    if scan.remaining.len() == 0 {
        found_adapters(scan.found)
    } else {
        match after_reading(scan, files(request_of(scan))) {
            Err(error) => Err(error),
            Ok(next) => scan_outcome(next, files),
        }
    }
}

/// The adapter that a node is, none where its identifier is zero, or why that is not known.
pub open spec fn adapter_of(node_id: u32, files: Files) -> Result<
    Option<DcuTopologyNode>,
    ErrorView,
> {
    let scan = ScanView { remaining: seq![node_id], dcu_id: None, found: seq![] };
    match after_reading(scan, files(ScanRequest::GpuId(node_id))) {
        Err(error) => Err(error),
        Ok(known) => if known.dcu_id is None {
            Ok(None)
        } else {
            match after_reading(known, files(ScanRequest::Properties(node_id))) {
                Err(error) => Err(error),
                Ok(done) => Ok(Some(done.found[0])),
            }
        },
    }
}

/// The adapters among the nodes, in order, or the failure of the first node that has one.
pub open spec fn adapters_among(node_ids: Seq<u32>, files: Files) -> Result<
    Seq<DcuTopologyNode>,
    ErrorView,
>
    decreases node_ids.len(),
{
    if node_ids.len() == 0 {
        Ok(seq![])
    } else {
        match adapter_of(node_ids[0], files) {
            Err(error) => Err(error),
            Ok(adapter) => match adapters_among(node_ids.drop_first(), files) {
                Err(error) => Err(error),
                Ok(rest) => match adapter {
                    None => Ok(rest),
                    Some(node) => Ok(seq![node] + rest),
                },
            },
        }
    }
}

/// A scan comes to the adapters among its nodes, with those found before in front.
#[verifier::spinoff_prover]
proof fn scan_continues(scan: ScanView, files: Files)
    requires
        scan.dcu_id is None,
    ensures
        scan_outcome(scan, files) == match adapters_among(scan.remaining, files) {
            Err(error) => Err(error),
            Ok(rest) => found_adapters(scan.found + rest),
        },
    decreases scan.remaining.len(),
{
    if scan.remaining.len() == 0 {
        assert(scan.found + seq![] =~= scan.found);
    } else {
        let node_id = scan.remaining[0];
        let alone = ScanView { remaining: seq![node_id], dcu_id: None, found: seq![] };
        let gpu_id = files(ScanRequest::GpuId(node_id));
        let properties = files(ScanRequest::Properties(node_id));
        let rest = scan.remaining.drop_first();
        assert(request_of(scan) == ScanRequest::GpuId(node_id));
        if let Ok(known) = after_reading(scan, gpu_id) {
            assert(scan_outcome(scan, files) == scan_outcome(known, files));
            let known_alone = after_reading(alone, gpu_id)->Ok_0;
            assert(known.dcu_id == known_alone.dcu_id);
            if known.dcu_id is None {
                scan_continues(known, files);
            } else {
                assert(request_of(known) == ScanRequest::Properties(node_id));
                if let Ok(done) = after_reading(known, properties) {
                    assert(scan_outcome(known, files) == scan_outcome(done, files));
                    let done_alone = after_reading(known_alone, properties)->Ok_0;
                    let node = done_alone.found[0];
                    assert(done.found =~= scan.found.push(node));
                    scan_continues(done, files);
                    if let Ok(later) = adapters_among(rest, files) {
                        assert(done.found + later =~= scan.found + (seq![node] + later));
                    }
                }
            }
        }
    }
}

/// A scan of the topology comes to the adapters among the nodes, in the order of the nodes; it
/// fails where the first node with a failure does, and where there is no adapter.
pub proof fn scan_finds_the_adapters(node_ids: Seq<u32>, files: Files)
    ensures
        scan_outcome(
            ScanView { remaining: node_ids, dcu_id: None, found: seq![] },
            files,
        ) == match adapters_among(node_ids, files) {
            Err(error) => Err(error),
            Ok(adapters) => found_adapters(adapters),
        },
{
    let scan = ScanView { remaining: node_ids, dcu_id: None, found: seq![] };
    scan_continues(scan, files);
    if let Ok(adapters) = adapters_among(node_ids, files) {
        assert(scan.found + adapters =~= adapters);
    }
}

/// Each adapter that is found is one of the nodes, has an identifier other than zero, and has
/// the identifier and the PCI address that its files give.
pub proof fn adapters_are_as_their_files_say(node_ids: Seq<u32>, files: Files, i: int)
    requires
        adapters_among(node_ids, files) is Ok,
        0 <= i < adapters_among(node_ids, files)->Ok_0.len(),
    ensures
        ({
            let node = adapters_among(node_ids, files)->Ok_0[i];
            &&& node_ids.contains(node.node_id)
            &&& node.dcu_id != 0
            &&& files(ScanRequest::GpuId(node.node_id)) matches Ok(gpu_id) && dcu_id_of(gpu_id)
                == Ok::<u32, ErrorView>(node.dcu_id)
            &&& files(ScanRequest::Properties(node.node_id)) matches Ok(properties)
                && topology::address_by_properties(properties) == Ok::<PciAddress, ErrorView>(
                node.pci_address,
            )
        }),
    decreases node_ids.len(),
{
    let rest = node_ids.drop_first();
    let later = adapters_among(rest, files)->Ok_0;
    let adapter = adapter_of(node_ids[0], files)->Ok_0;
    let before: int = if adapter is Some {
        1
    } else {
        0
    };
    if i < before {
        assert(node_ids.contains(node_ids[0]));
    } else {
        adapters_are_as_their_files_say(rest, files, i - before);
        let node = later[i - before];
        let k = choose|k: int| 0 <= k < rest.len() && rest[k] == node.node_id;
        assert(node_ids[k + 1] == node.node_id);
    }
}

/// Of sorted nodes, the adapters that are found are sorted too.
pub proof fn adapters_keep_the_order(node_ids: Seq<u32>, files: Files, i: int, j: int)
    requires
        is_sorted(node_ids),
        adapters_among(node_ids, files) is Ok,
        0 <= i <= j < adapters_among(node_ids, files)->Ok_0.len(),
    ensures
        adapters_among(node_ids, files)->Ok_0[i].node_id <= adapters_among(
            node_ids,
            files,
        )->Ok_0[j].node_id,
    decreases node_ids.len(),
{
    let rest = node_ids.drop_first();
    let before: int = if adapter_of(node_ids[0], files)->Ok_0 is Some {
        1
    } else {
        0
    };
    if j >= before {
        adapters_are_as_their_files_say(rest, files, j - before);
        let node = adapters_among(rest, files)->Ok_0[j - before];
        let k = choose|k: int| 0 <= k < rest.len() && rest[k] == node.node_id;
        assert(node_ids[0] <= node_ids[k + 1]);
        if i >= before {
            adapters_keep_the_order(rest, files, i - before, j - before);
        }
    }
}

/// The nodes are the numbers that name directories in decimal, each entry for itself and in the
/// order of the entries.
pub proof fn nodes_are_the_numbers_of_directories(entries: Seq<TopologyEntry>)
    ensures
        nodes_of(entries) == entries.filter(
            |entry: TopologyEntry|
                entry.is_dir && entry.name is Some && number::number(
                    entry.name->0@,
                    10,
                    0xffff_ffff,
                ) is Some,
        ).map_values(
            |entry: TopologyEntry| number::number(entry.name->0@, 10, 0xffff_ffff)->0 as u32,
        ),
    decreases entries.len(),
{
    let pred = |entry: TopologyEntry|
        entry.is_dir && entry.name is Some && number::number(entry.name->0@, 10, 0xffff_ffff)
            is Some;
    let num = |entry: TopologyEntry| number::number(entry.name->0@, 10, 0xffff_ffff)->0 as u32;
    reveal(Seq::filter);
    if entries.len() == 0 {
        assert(entries.filter(pred).map_values(num) =~= seq![]);
    } else {
        let earlier = entries.drop_last();
        nodes_are_the_numbers_of_directories(earlier);
        if pred(entries.last()) {
            assert(earlier.filter(pred).push(entries.last()).map_values(num)
                =~= earlier.filter(pred).map_values(num).push(num(entries.last())));
        }
    }
}

/// What a scan does with the text of a `gpu_id` file: it goes on to the next node where the
/// number in it is zero, keeps the number where it is not, and fails where there is none.
pub proof fn identifier_is_taken(scan: ScanView, reading: Result<Seq<char>, ErrorView>)
    requires
        scan.remaining.len() > 0,
        scan.dcu_id is None,
    ensures
        ({
            let words = "Failed to read GPU ID for KFD topology node "@ + number::decimal(
                scan.remaining[0] as int,
            ) + ": "@;
            &&& reading matches Err(error) ==> after_reading(scan, reading) == Err::<
                ScanView,
                ErrorView,
            >(ErrorView { kind: error.kind, message: words + error.message })
            &&& reading matches Ok(content) ==> match number::number(
                text::trimmed(content),
                10,
                0xffff_ffff,
            ) {
                None => after_reading(scan, reading) == Err::<ScanView, ErrorView>(
                    ErrorView {
                        kind: ErrorKind::InvalidData,
                        message: words + "Failed to parse DCU ID"@,
                    },
                ),
                Some(n) => after_reading(scan, reading) matches Ok(next) && next.found == scan.found
                    && (n == 0 ==> next.dcu_id is None && next.remaining == scan.remaining.skip(1))
                    && (n != 0 ==> next.dcu_id is Some && next.dcu_id->0 == n && next.remaining
                    == scan.remaining),
            }
        }),
{
    assert(scan.remaining.skip(1) =~= scan.remaining.drop_first());
}

/// What a scan does with the text of a `properties` file: it adds the adapter with the address
/// that the properties give to those found and goes on to the next node, and fails where they
/// give none.
pub proof fn address_is_taken(scan: ScanView, reading: Result<Seq<char>, ErrorView>)
    requires
        scan.remaining.len() > 0,
        scan.dcu_id is Some,
    ensures
        ({
            let words = "Failed to determine PCI address for KFD topology node "@
                + number::decimal(scan.remaining[0] as int) + " (DCU ID "@ + number::decimal(
                scan.dcu_id->0 as int,
            ) + "): "@;
            &&& reading matches Err(error) ==> after_reading(scan, reading) == Err::<
                ScanView,
                ErrorView,
            >(ErrorView { kind: error.kind, message: words + error.message })
            &&& reading matches Ok(content) ==> match topology::address_by_properties(content) {
                Err(error) => after_reading(scan, reading) == Err::<ScanView, ErrorView>(
                    ErrorView { kind: error.kind, message: words + error.message },
                ),
                Ok(pci_address) => after_reading(scan, reading) matches Ok(next) && next.dcu_id
                    is None && next.remaining == scan.remaining.skip(1) && next.found
                    == scan.found + seq![
                    DcuTopologyNode {
                        node_id: scan.remaining[0],
                        dcu_id: scan.dcu_id->0,
                        pci_address,
                    },
                ],
            }
        }),
{
    assert(scan.remaining.skip(1) =~= scan.remaining.drop_first());
    if let Ok(content) = reading {
        if let Ok(pci_address) = topology::address_by_properties(content) {
            let node = DcuTopologyNode {
                node_id: scan.remaining[0],
                dcu_id: scan.dcu_id->0,
                pci_address,
            };
            assert(scan.found.push(node) =~= scan.found + seq![node]);
        }
    }
}

/// The number in the `gpu_id` file of a node, if there is one.
pub open spec fn identifier_by_files(node_id: u32, files: Files) -> Option<nat> {
    match files(ScanRequest::GpuId(node_id)) {
        Ok(content) => number::number(text::trimmed(content), 10, 0xffff_ffff),
        Err(_) => None,
    }
}

/// The address in the `properties` file of a node, if there is one.
pub open spec fn address_by_files(node_id: u32, files: Files) -> Option<PciAddress> {
    match files(ScanRequest::Properties(node_id)) {
        Ok(content) => match topology::address_by_properties(content) {
            Ok(address) => Some(address),
            Err(_) => None,
        },
        Err(_) => None,
    }
}

/// Whether the files of a node say what it is: an identifier, and an address where that is not
/// zero.
pub open spec fn is_readable(node_id: u32, files: Files) -> bool {
    &&& identifier_by_files(node_id, files) is Some
    &&& identifier_by_files(node_id, files)->0 != 0 ==> address_by_files(node_id, files) is Some
}

/// The nodes with an identifier other than zero, with it and with their addresses.
pub open spec fn adapters_by_files(node_ids: Seq<u32>, files: Files) -> Seq<DcuTopologyNode> {
    node_ids.filter(|node_id: u32| identifier_by_files(node_id, files)->0 != 0).map_values(
        |node_id: u32|
            DcuTopologyNode {
                node_id,
                dcu_id: identifier_by_files(node_id, files)->0 as u32,
                pci_address: address_by_files(node_id, files)->0,
            },
    )
}

proof fn readable_nodes_are_found(node_ids: Seq<u32>, files: Files)
    requires
        forall|i: int| 0 <= i < node_ids.len() ==> is_readable(#[trigger] node_ids[i], files),
    ensures
        adapters_among(node_ids, files) == Ok::<Seq<DcuTopologyNode>, ErrorView>(
            adapters_by_files(node_ids, files),
        ),
    decreases node_ids.len(),
{
    let pred = |node_id: u32| identifier_by_files(node_id, files)->0 != 0;
    let node = |node_id: u32|
        DcuTopologyNode {
            node_id,
            dcu_id: identifier_by_files(node_id, files)->0 as u32,
            pci_address: address_by_files(node_id, files)->0,
        };
    reveal(Seq::filter);
    if node_ids.len() == 0 {
        assert(node_ids.filter(pred).map_values(node) =~= seq![]);
    } else {
        let head = node_ids[0];
        let rest = node_ids.drop_first();
        assert forall|i: int| 0 <= i < rest.len() implies is_readable(#[trigger] rest[i], files) by {
            assert(rest[i] == node_ids[i + 1]);
        }
        readable_nodes_are_found(rest, files);
        assert(is_readable(head, files));
        assert(node_ids =~= seq![head] + rest);
        Seq::filter_distributes_over_add(seq![head], rest, pred);
        assert(seq![head].drop_last() =~= Seq::<u32>::empty());
        assert(Seq::<u32>::empty().filter(pred) =~= Seq::<u32>::empty());
        assert(seq![head].last() == head);
        if pred(head) {
            assert(seq![head].filter(pred) =~= seq![head]);
            assert((seq![head] + rest.filter(pred)).map_values(node) =~= seq![node(head)]
                + rest.filter(pred).map_values(node));
            assert(adapter_of(head, files) == Ok::<Option<DcuTopologyNode>, ErrorView>(
                Some(node(head)),
            ));
        } else {
            assert(seq![head].filter(pred) =~= Seq::<u32>::empty());
            assert(Seq::<u32>::empty() + rest.filter(pred) =~= rest.filter(pred));
            assert(adapter_of(head, files) == Ok::<Option<DcuTopologyNode>, ErrorView>(None));
        }
    }
}

proof fn first_unreadable_node_fails(node_ids: Seq<u32>, files: Files, k: int)
    requires
        0 <= k < node_ids.len(),
        forall|i: int| 0 <= i < k ==> is_readable(#[trigger] node_ids[i], files),
        adapter_of(node_ids[k], files) is Err,
    ensures
        adapters_among(node_ids, files) == Err::<Seq<DcuTopologyNode>, ErrorView>(
            adapter_of(node_ids[k], files)->Err_0,
        ),
    decreases node_ids.len(),
{
    if k > 0 {
        let rest = node_ids.drop_first();
        assert forall|i: int| 0 <= i < k - 1 implies is_readable(#[trigger] rest[i], files) by {
            assert(rest[i] == node_ids[i + 1]);
        }
        assert(rest[k - 1] == node_ids[k]);
        assert(is_readable(node_ids[0], files));
        first_unreadable_node_fails(rest, files, k - 1);
    }
}

/// Where the files of every node can be read, a scan returns every node with an identifier
/// other than zero, with that identifier and its address and in the order of the nodes; where
/// there is none, it says so.
pub proof fn scan_returns_every_adapter(node_ids: Seq<u32>, files: Files)
    requires
        forall|i: int| 0 <= i < node_ids.len() ==> is_readable(#[trigger] node_ids[i], files),
    ensures
        ({
            let outcome = scan_outcome(
                ScanView { remaining: node_ids, dcu_id: None, found: seq![] },
                files,
            );
            let adapters = adapters_by_files(node_ids, files);
            &&& adapters.len() > 0 ==> outcome == Ok::<Seq<DcuTopologyNode>, ErrorView>(adapters)
            &&& adapters.len() == 0 ==> outcome == Err::<Seq<DcuTopologyNode>, ErrorView>(
                ErrorView {
                    kind: ErrorKind::NotFound,
                    message: "No DCU GPU nodes found in KFD topology"@,
                },
            )
        }),
{
    readable_nodes_are_found(node_ids, files);
    scan_finds_the_adapters(node_ids, files);
}

/// Where the first node whose files cannot be read is that at `k`, a scan fails with what is
/// wrong with it: its identifier, or its address where it has an identifier other than zero.
pub proof fn scan_fails_at_the_first_bad_node(node_ids: Seq<u32>, files: Files, k: int)
    requires
        0 <= k < node_ids.len(),
        forall|i: int| 0 <= i < k ==> is_readable(#[trigger] node_ids[i], files),
        !is_readable(node_ids[k], files),
    ensures
        ({
            let outcome = scan_outcome(
                ScanView { remaining: node_ids, dcu_id: None, found: seq![] },
                files,
            );
            let node_id = node_ids[k];
            let gpu_id = files(ScanRequest::GpuId(node_id));
            let properties = files(ScanRequest::Properties(node_id));
            let first = "Failed to read GPU ID for KFD topology node "@ + number::decimal(
                node_id as int,
            ) + ": "@;
            let second = "Failed to determine PCI address for KFD topology node "@
                + number::decimal(node_id as int) + " (DCU ID "@ + number::decimal(
                identifier_by_files(node_id, files)->0 as int,
            ) + "): "@;
            &&& gpu_id matches Err(error) ==> outcome == Err::<Seq<DcuTopologyNode>, ErrorView>(
                ErrorView { kind: error.kind, message: first + error.message },
            )
            &&& gpu_id is Ok && identifier_by_files(node_id, files) is None ==> outcome == Err::<
                Seq<DcuTopologyNode>,
                ErrorView,
            >(
                ErrorView {
                    kind: ErrorKind::InvalidData,
                    message: first + "Failed to parse DCU ID"@,
                },
            )
            &&& identifier_by_files(node_id, files) is Some ==> match properties {
                Err(error) => outcome == Err::<Seq<DcuTopologyNode>, ErrorView>(
                    ErrorView { kind: error.kind, message: second + error.message },
                ),
                Ok(content) => topology::address_by_properties(content) matches Err(error)
                    && outcome == Err::<Seq<DcuTopologyNode>, ErrorView>(
                    ErrorView { kind: error.kind, message: second + error.message },
                ),
            }
        }),
{
    let node_id = node_ids[k];
    let alone = ScanView { remaining: seq![node_id], dcu_id: None, found: seq![] };
    identifier_is_taken(alone, files(ScanRequest::GpuId(node_id)));
    assert(adapter_of(node_id, files) is Err);
    first_unreadable_node_fails(node_ids, files, k);
    scan_finds_the_adapters(node_ids, files);
}

} // verus!
