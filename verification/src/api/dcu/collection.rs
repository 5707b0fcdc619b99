//! The collection of attestation reports from the secure adapters.
//!
//! [`ReportRun`] says which adapter to ask next and takes the answers; whoever runs it talks to
//! the device.

use crate::api::dcu::address_set::PciAddressSet;
use crate::api::dcu::hyflash::DcuSecurityState;
use crate::api::dcu::pci::PciAddress;
use crate::api::dcu::query::{AttemptView, HyflashRun, QueryView};
use crate::api::dcu::topology::DcuTopologyNode;
use crate::api::dcu::{hyflash, query, security};
use crate::error::{Error, ErrorKind, ErrorView, Failure, FailureView};
use crate::{number, text};
use vstd::prelude::*;
use vstd::string::*;

verus! {

/// The adapters among the nodes whose addresses are known to be secure, in order.
pub open spec fn secure_nodes(nodes: Seq<DcuTopologyNode>, secure: Set<PciAddress>) -> Seq<
    DcuTopologyNode,
> {
    nodes.filter(|node: DcuTopologyNode| secure.contains(node.pci_address))
}

/// The set of the addresses of the nodes.
pub open spec fn addresses_of(nodes: Seq<DcuTopologyNode>) -> Set<PciAddress> {
    nodes.map_values(|node: DcuTopologyNode| node.pci_address).to_set()
}

/// The set of the addresses of the nodes, which the security states have to cover.
pub fn expected_pci_addresses(nodes: &Vec<DcuTopologyNode>) -> (res: PciAddressSet)
    ensures
        res@ == addresses_of(nodes@),
        forall|a: PciAddress|
            #[trigger] res@.contains(a) <==> exists|i: int|
                0 <= i < nodes@.len() && #[trigger] nodes@[i].pci_address == a,
{
    let mut addresses: Vec<PciAddress> = Vec::new();
    for i in 0..nodes.len()
        invariant
            addresses@ == nodes@.take(i as int).map_values(
                |node: DcuTopologyNode| node.pci_address,
            ),
    {
        addresses.push(nodes[i].pci_address);
        assert(addresses@ =~= nodes@.take(i + 1).map_values(
            |node: DcuTopologyNode| node.pci_address,
        ));
    }
    assert(nodes@.take(nodes@.len() as int) =~= nodes@);
    proof {
        assert forall|a: PciAddress|
            #[trigger] addresses@.to_set().contains(a) <==> exists|i: int|
                0 <= i < nodes@.len() && #[trigger] nodes@[i].pci_address == a by {
            if addresses@.contains(a) {
                let i = choose|i: int| 0 <= i < addresses@.len() && addresses@[i] == a;
                assert(nodes@[i].pci_address == a);
            }
            if exists|i: int| 0 <= i < nodes@.len() && #[trigger] nodes@[i].pci_address == a {
                let i = choose|i: int|
                    0 <= i < nodes@.len() && #[trigger] nodes@[i].pci_address == a;
                assert(addresses@[i] == a);
            }
        }
    }
    PciAddressSet::from_list(addresses.as_slice())
}

/// What a [`ReportRun`] asks for.
#[derive(Clone, Copy, Debug)]
pub enum ReportRequest {
    /// A request for a report, to be made of the adapter.
    Issue(DcuTopologyNode),
    /// The report that the adapter gave, to be taken out of its answer.
    Extract(DcuTopologyNode),
    /// Nothing more.
    Finish,
}

/// An answer to a [`ReportRequest`], with reports `R` and failures `E`.
pub enum ReportEvent<R, E> {
    /// The request was made: what the device's driver returned, and what its firmware did.
    Answered { returned: i64, fw_err: u64 },
    /// The answer was looked at, and there is a report in it or not.
    Extracted(Option<R>),
    /// What was asked for failed.
    Failed(E),
}

/// How far a run has come.
pub struct RunView<R> {
    /// The adapters that are not done yet.
    pub remaining: Seq<DcuTopologyNode>,
    /// Whether the first of them has answered.
    pub answered: bool,
    /// The reports so far.
    pub reports: Seq<R>,
}

/// What a run that has come this far asks for.
pub open spec fn request_of<R>(run: RunView<R>) -> ReportRequest {
    if run.remaining.len() == 0 {
        ReportRequest::Finish
    } else if run.answered {
        ReportRequest::Extract(run.remaining[0])
    } else {
        ReportRequest::Issue(run.remaining[0])
    }
}

/// Whether an event answers what the run asks for.
pub open spec fn answers<R, E>(run: RunView<R>, event: ReportEvent<R, E>) -> bool {
    &&& run.remaining.len() > 0
    &&& event is Answered ==> !run.answered
    &&& event is Extracted ==> run.answered
}

/// The words that tell which adapter a failure is about.
pub open spec fn node_words(node: DcuTopologyNode) -> Seq<char> {
    " for SECURE node "@ + number::decimal(node.node_id as int) + " (DCU ID "@ + number::decimal(
        node.dcu_id as int,
    ) + ", PCI "@ + node.pci_address.text() + ")"@
}

/// A failure of none of the kinds that have a name.
pub open spec fn other(message: Seq<char>) -> ErrorView {
    ErrorView { kind: ErrorKind::Other, message }
}

/// Why an answer is no good, if it is not.
pub open spec fn answer_failure(node: DcuTopologyNode, returned: i64, fw_err: u64) -> Option<
    ErrorView,
> {
    if returned != 0 {
        Some(
            other(
                "DCU report IOCTL returned "@ + number::decimal(returned as int) + node_words(node),
            ),
        )
    } else if fw_err != 0 {
        Some(
            other(
                "DCU report firmware returned error 0x"@ + number::numeral(fw_err as nat, 16)
                    + node_words(node),
            ),
        )
    } else {
        None
    }
}

/// How far a run is after an event.
pub open spec fn after_event<R, E>(run: RunView<R>, event: ReportEvent<R, E>) -> Result<
    RunView<R>,
    FailureView<E>,
> {
    match event {
        ReportEvent::Failed(error) => Err(FailureView::Passed(error)),
        ReportEvent::Answered { returned, fw_err } => match answer_failure(
            run.remaining[0],
            returned,
            fw_err,
        ) {
            Some(error) => Err(FailureView::Found(error)),
            None => Ok(RunView { answered: true, ..run }),
        },
        ReportEvent::Extracted(report) => Ok(
            RunView {
                remaining: run.remaining.drop_first(),
                answered: false,
                reports: match report {
                    Some(report) => run.reports.push(report),
                    None => run.reports,
                },
            },
        ),
    }
}

/// What a finished run has collected: at least one report, or a failure.
pub open spec fn collected<R>(reports: Seq<R>) -> Result<Seq<R>, ErrorView> {
    if reports.len() == 0 {
        Err(
            ErrorView {
                kind: ErrorKind::NotFound,
                message: "No valid attestation reports obtained from any DCU node"@,
            },
        )
    } else {
        Ok(reports)
    }
}

/// A run that collects the reports of the secure adapters.
pub struct ReportRun<R> {
    nodes: Vec<DcuTopologyNode>,
    position: usize,
    answered: bool,
    reports: Vec<R>,
}

impl<R> View for ReportRun<R> {
    type V = RunView<R>;

    closed spec fn view(&self) -> RunView<R> {
        RunView {
            remaining: self.nodes@.skip(self.position as int),
            answered: self.answered,
            reports: self.reports@,
        }
    }
}

fn push_node_words(out: &mut String, node: &DcuTopologyNode)
    ensures
        final(out)@ == old(out)@ + node_words(*node),
{
    out.append(" for SECURE node ");
    number::push_decimal(out, node.node_id as i64);
    out.append(" (DCU ID ");
    number::push_decimal(out, node.dcu_id as i64);
    out.append(", PCI ");
    node.pci_address.push_to(out);
    out.append(")");
    assert(out@ =~= old(out)@ + node_words(*node));
}

/// Whether the answer of an adapter to a request for a report is good, and why it is not.
pub fn check_answer(node: &DcuTopologyNode, returned: i64, fw_err: u64) -> (res: Result<(), Error>)
    ensures
        match answer_failure(*node, returned, fw_err) {
            Some(error) => res matches Err(found) && found@ == error,
            None => res is Ok,
        },
        res is Ok <==> returned == 0 && fw_err == 0,
        res matches Err(error) ==> error.kind == ErrorKind::Other && error.message@ == (
        if returned != 0 {
            "DCU report IOCTL returned "@ + number::decimal(returned as int)
        } else {
            "DCU report firmware returned error 0x"@ + number::numeral(fw_err as nat, 16)
        }) + (" for SECURE node "@ + number::decimal(node.node_id as int) + " (DCU ID "@
            + number::decimal(node.dcu_id as int) + ", PCI "@ + node.pci_address.text() + ")"@),
{
    if returned != 0 {
        let mut message = "DCU report IOCTL returned ".to_string();
        number::push_decimal(&mut message, returned);
        push_node_words(&mut message, node);
        Err(Error::new(ErrorKind::Other, message))
    } else if fw_err != 0 {
        let mut message = "DCU report firmware returned error 0x".to_string();
        number::push_numeral(&mut message, fw_err, 16);
        push_node_words(&mut message, node);
        Err(Error::new(ErrorKind::Other, message))
    } else {
        Ok(())
    }
}

impl<R> ReportRun<R> {
    #[verifier::type_invariant]
    closed spec fn within(self) -> bool {
        self.position <= self.nodes@.len()
    }

    /// A run over the nodes whose addresses are in `secure`.
    pub fn new(nodes: &Vec<DcuTopologyNode>, secure: &PciAddressSet) -> (res: ReportRun<R>)
        ensures
            res@ == (RunView {
                remaining: secure_nodes(nodes@, secure@),
                answered: false,
                reports: Seq::<R>::empty(),
            }),
            res@.remaining == nodes@.filter(
                |node: DcuTopologyNode| secure@.contains(node.pci_address),
            ),
            !res@.answered,
            res@.reports.len() == 0,
    {
        let mut kept: Vec<DcuTopologyNode> = Vec::new();
        assert(nodes@.take(0) =~= seq![]);
        assert(secure_nodes(nodes@.take(0), secure@) =~= seq![]) by {
            reveal(Seq::filter);
        }
        for i in 0..nodes.len()
            invariant
                kept@ == secure_nodes(nodes@.take(i as int), secure@),
        {
            let node = nodes[i];
            proof {
                let pred = |node: DcuTopologyNode| secure@.contains(node.pci_address);
                assert(nodes@.take(i + 1) =~= nodes@.take(i as int).push(node));
                nodes@.take(i as int).lemma_filter_push(node, pred);
            }
            if secure.contains(&node.pci_address) {
                kept.push(node);
            }
        }
        assert(nodes@.take(nodes@.len() as int) =~= nodes@);
        assert(kept@.skip(0) =~= kept@);
        ReportRun { nodes: kept, position: 0, answered: false, reports: Vec::new() }
    }

    /// What the run asks for.
    pub fn request(&self) -> (res: ReportRequest)
        ensures
            res == request_of(self@),
            res is Finish <==> self@.remaining.len() == 0,
            self@.remaining.len() > 0 && !self@.answered ==> res == ReportRequest::Issue(
                self@.remaining[0],
            ),
            self@.remaining.len() > 0 && self@.answered ==> res == ReportRequest::Extract(
                self@.remaining[0],
            ),
    {
        proof {
            use_type_invariant(self);
        }
        if self.position == self.nodes.len() {
            ReportRequest::Finish
        } else if self.answered {
            ReportRequest::Extract(self.nodes[self.position])
        } else {
            ReportRequest::Issue(self.nodes[self.position])
        }
    }

    /// Takes the answer to what the run asked for.
    pub fn advance<E>(self, event: ReportEvent<R, E>) -> (res: Result<ReportRun<R>, Failure<E>>)
        requires
            answers(self@, event),
        ensures
            match after_event(self@, event) {
                Ok(run) => res matches Ok(next) && next@ == run,
                Err(failure) => res matches Err(found) && found@ == failure,
            },
            event matches ReportEvent::Failed(error) ==> (res matches Err(Failure::Passed(passed))
                && passed == error),
            event matches ReportEvent::Answered { returned, fw_err } ==> {
                &&& res is Ok <==> returned == 0 && fw_err == 0
                &&& res is Err ==> (res matches Err(Failure::Found(error)) && answer_failure(
                    self@.remaining[0],
                    returned,
                    fw_err,
                ) == Some(ErrorView { kind: error.kind, message: error.message@ }))
                &&& (res matches Ok(next) ==> next@.answered && next@.remaining == self@.remaining
                    && next@.reports == self@.reports)
            },
            event matches ReportEvent::Extracted(report) ==> (res matches Ok(next) && {
                &&& !next@.answered
                &&& next@.remaining == self@.remaining.skip(1)
                &&& report is Some ==> next@.reports == self@.reports.push(report->0)
                &&& report is None ==> next@.reports == self@.reports
            }),
    {
        proof {
            use_type_invariant(&self);
        }
        let ReportRun { nodes, position, answered, mut reports } = self;
        let count = nodes.len();
        assert(position < count);
        assert(nodes@.skip(position as int).drop_first() =~= nodes@.skip(position + 1));
        match event {
            ReportEvent::Failed(error) => Err(Failure::Passed(error)),
            ReportEvent::Answered { returned, fw_err } => {
                match check_answer(&nodes[position], returned, fw_err) {
                    Ok(()) => Ok(ReportRun { nodes, position, answered: true, reports }),
                    Err(error) => Err(Failure::Found(error)),
                }
            },
            ReportEvent::Extracted(report) => {
                if let Some(report) = report {
                    reports.push(report);
                }
                Ok(ReportRun { nodes, position: position + 1, answered: false, reports })
            },
        }
    }

    /// The reports that the run has collected.
    pub fn finish(self) -> (res: Result<Vec<R>, Error>)
        requires
            self@.remaining.len() == 0,
        ensures
            match collected(self@.reports) {
                Ok(reports) => res matches Ok(found) && found@ == reports,
                Err(error) => res matches Err(found) && found@ == error,
            },
            self@.reports.len() > 0 ==> (res matches Ok(reports) && reports@ == self@.reports),
            self@.reports.len() == 0 ==> (res matches Err(error) && error.kind
                == ErrorKind::NotFound && error.message@
                == "No valid attestation reports obtained from any DCU node"@),
    {
        if self.reports.len() == 0 {
            Err(
                Error::new(
                    ErrorKind::NotFound,
                    "No valid attestation reports obtained from any DCU node".to_string(),
                ),
            )
        } else {
            Ok(self.reports)
        }
    }
}

/// Every secure adapter among the nodes is asked for a report, and no other is.
pub proof fn secure_adapters_are_asked(
    nodes: Seq<DcuTopologyNode>,
    secure: Set<PciAddress>,
    node: DcuTopologyNode,
)
    ensures
        secure_nodes(nodes, secure).contains(node) <==> nodes.contains(node) && secure.contains(
            node.pci_address,
        ),
{
    broadcast use vstd::seq_lib::group_filter_ensures;

    let pred = |node: DcuTopologyNode| secure.contains(node.pci_address);
    let kept = nodes.filter(pred);
    if kept.contains(node) {
        let i = choose|i: int| 0 <= i < kept.len() && kept[i] == node;
        assert(pred(kept[i]));
        nodes.lemma_filter_contains_rev(pred, node);
    }
    if nodes.contains(node) && secure.contains(node.pci_address) {
        assert(pred(node));
        let i = choose|i: int| 0 <= i < nodes.len() && nodes[i] == node;
        assert(kept.contains(nodes[i]));
    }
}

/// When an output of `hyflash` is accepted for the adapters that are there, it names each of
/// them, at least one of them is asked for a report, and each that is asked was reported to be
/// secure.
pub proof fn only_adapters_reported_secure_are_asked(
    path: Seq<char>,
    output: Seq<char>,
    nodes: Seq<DcuTopologyNode>,
)
    requires
        security::secure_by_output(path, output, addresses_of(nodes)) is Ok,
    ensures
        hyflash::records_of(text::lines(output)) is Ok,
        ({
            let records = hyflash::records_of(text::lines(output))->Ok_0;
            let secure = security::secure_by_output(path, output, addresses_of(nodes))->Ok_0;
            let asked = secure_nodes(nodes, secure);
            &&& forall|i: int|
                0 <= i < nodes.len() ==> security::names(records, (#[trigger] nodes[i]).pci_address)
            &&& asked.len() > 0
            &&& forall|i: int|
                0 <= i < asked.len() ==> nodes.contains(#[trigger] asked[i]) && records.contains(
                    (asked[i].pci_address, DcuSecurityState::Secure),
                )
        }),
{
    let expected = addresses_of(nodes);
    let records = hyflash::records_of(text::lines(output))->Ok_0;
    let secure = security::secure_by_output(path, output, expected)->Ok_0;
    let asked = secure_nodes(nodes, secure);
    let addresses = nodes.map_values(|node: DcuTopologyNode| node.pci_address);
    security::accepted_output_covers_the_adapters(path, output, expected);
    security::accepted_exactly_when(path, records, expected);
    assert forall|i: int| 0 <= i < nodes.len() implies security::names(
        records,
        (#[trigger] nodes[i]).pci_address,
    ) by {
        assert(addresses[i] == nodes[i].pci_address);
        assert(addresses.contains(nodes[i].pci_address));
        assert(expected.contains(nodes[i].pci_address));
    }
    let first = choose|a: PciAddress| secure.contains(a);
    assert(exists|a: PciAddress| secure.contains(a)) by {
        if forall|a: PciAddress| !secure.contains(a) {
            assert(secure =~= Set::<PciAddress>::empty());
        }
    }
    assert(expected.contains(first));
    let k = choose|k: int| 0 <= k < addresses.len() && addresses[k] == first;
    assert(nodes.contains(nodes[k]));
    secure_adapters_are_asked(nodes, secure, nodes[k]);
    assert(asked.contains(nodes[k]));
    assert forall|i: int| 0 <= i < asked.len() implies nodes.contains(#[trigger] asked[i])
        && records.contains((asked[i].pci_address, DcuSecurityState::Secure)) by {
        assert(asked.contains(asked[i]));
        secure_adapters_are_asked(nodes, secure, asked[i]);
        assert(secure == security::reported_secure(records));
    }
}

/// Whether a run of `hyflash` accounts for the adapters that are asked for a report: it ended in
/// an accepted way, its output names every node, an adapter is asked, and each that is asked is
/// one of the nodes and is reported to be secure by that output.
pub open spec fn accounts_for(
    run: HyflashRun,
    nodes: Seq<DcuTopologyNode>,
    asked: Seq<DcuTopologyNode>,
) -> bool {
    &&& run.status_is_accepted()
    &&& hyflash::records_of(text::lines(run.output())) matches Ok(records) && {
        &&& forall|i: int|
            0 <= i < nodes.len() ==> security::names(records, (#[trigger] nodes[i]).pci_address)
        &&& asked.len() > 0
        &&& forall|i: int|
            0 <= i < asked.len() ==> nodes.contains(#[trigger] asked[i]) && records.contains(
                (asked[i].pci_address, DcuSecurityState::Secure),
            )
    }
}

/// When the query over the installed tools ends with a set of secure adapters, the run of one
/// tool accounts for all the adapters that are then asked for a report: the run whose answer
/// was accepted first.
pub proof fn one_run_accounts_for_the_asked(
    attempts: Seq<AttemptView>,
    runs: Seq<HyflashRun>,
    nodes: Seq<DcuTopologyNode>,
)
    requires
        runs.len() == attempts.len(),
        forall|i: int|
            0 <= i < attempts.len() ==> (#[trigger] attempts[i] matches AttemptView::Asked(
                Ok(secure),
            ) ==> query::secure_by_run(
                query::hyflash_path_text(i),
                runs[i],
                runs[i].output(),
                addresses_of(nodes),
            ) == Ok::<Set<PciAddress>, ErrorView>(secure)),
    ensures
        query::query_outcome(QueryView { tried: 0, rejections: seq![] }, attempts) matches Ok(
            secure,
        ) ==> exists|k: int|
            0 <= k < attempts.len() && #[trigger] attempts[k] == AttemptView::Asked(Ok(secure)) && (
            forall|j: int|
                0 <= j < k ==> !(#[trigger] attempts[j] matches AttemptView::Asked(Ok(_))))
                && accounts_for(runs[k], nodes, secure_nodes(nodes, secure)),
{
    query::query_returns_the_first_accepted(attempts);
    query::first_accepted_is_first(attempts, 0);
    if let Some(secure) = query::first_accepted(attempts, 0) {
        let k = choose|k: int|
            0 <= k < attempts.len() && #[trigger] attempts[k] == AttemptView::Asked(Ok(secure)) && (
            forall|j: int|
                0 <= j < k ==> !(#[trigger] attempts[j] matches AttemptView::Asked(Ok(_))));
        only_adapters_reported_secure_are_asked(
            query::hyflash_path_text(k),
            runs[k].output(),
            nodes,
        );
        assert(accounts_for(runs[k], nodes, secure_nodes(nodes, secure)));
    }
}

/// How an adapter answers: what the driver returned and the firmware did when the request was
/// made, and the report that is then taken out of the answer.
pub struct Reply<R, E> {
    pub answer: Result<(i64, u64), E>,
    pub report: Result<Option<R>, E>,
}

/// The event that answers the request for a report.
pub open spec fn answer_event<R, E>(reply: Reply<R, E>) -> ReportEvent<R, E> {
    match reply.answer {
        Ok((returned, fw_err)) => ReportEvent::Answered { returned, fw_err },
        Err(error) => ReportEvent::Failed(error),
    }
}

/// The event that hands the report over.
pub open spec fn report_event<R, E>(reply: Reply<R, E>) -> ReportEvent<R, E> {
    match reply.report {
        Ok(report) => ReportEvent::Extracted(report),
        Err(error) => ReportEvent::Failed(error),
    }
}

/// What a run comes to when the adapters answer as given.
pub open spec fn run_outcome<R, E>(
    run: RunView<R>,
    replies: spec_fn(DcuTopologyNode) -> Reply<R, E>,
) -> Result<Seq<R>, FailureView<E>>
    decreases
            run.remaining.len(),
            if run.answered {
                0int
            } else {
                1int
            },
{
    if run.remaining.len() == 0 {
        match collected(run.reports) {
            Ok(reports) => Ok(reports),
            Err(error) => Err(FailureView::Found(error)),
        }
    } else if run.answered {
        match after_event(run, report_event(replies(run.remaining[0]))) {
            Err(failure) => Err(failure),
            Ok(next) => run_outcome(next, replies),
        }
    } else {
        match after_event(run, answer_event(replies(run.remaining[0]))) {
            Err(failure) => Err(failure),
            Ok(next) => run_outcome(next, replies),
        }
    }
}

/// The report that an adapter gives, or why the run fails at it.
pub open spec fn report_of<R, E>(node: DcuTopologyNode, reply: Reply<R, E>) -> Result<
    Option<R>,
    FailureView<E>,
> {
    match reply.answer {
        Err(error) => Err(FailureView::Passed(error)),
        Ok((returned, fw_err)) => match answer_failure(node, returned, fw_err) {
            Some(error) => Err(FailureView::Found(error)),
            None => match reply.report {
                Err(error) => Err(FailureView::Passed(error)),
                Ok(report) => Ok(report),
            },
        },
    }
}

/// The reports that the adapters give, in order, or why the run fails at the first that makes
/// it fail.
pub open spec fn reports_of<R, E>(
    nodes: Seq<DcuTopologyNode>,
    replies: spec_fn(DcuTopologyNode) -> Reply<R, E>,
) -> Result<Seq<R>, FailureView<E>>
    decreases nodes.len(),
{
    if nodes.len() == 0 {
        Ok(seq![])
    } else {
        match report_of(nodes[0], replies(nodes[0])) {
            Err(failure) => Err(failure),
            Ok(report) => match reports_of(nodes.drop_first(), replies) {
                Err(failure) => Err(failure),
                Ok(rest) => match report {
                    Some(report) => Ok(seq![report] + rest),
                    None => Ok(rest),
                },
            },
        }
    }
}

proof fn run_continues<R, E>(
    run: RunView<R>,
    replies: spec_fn(DcuTopologyNode) -> Reply<R, E>,
)
    requires
        !run.answered,
    ensures
        run_outcome(run, replies) == match reports_of(run.remaining, replies) {
            Err(failure) => Err(failure),
            Ok(rest) => match collected(run.reports + rest) {
                Ok(reports) => Ok(reports),
                Err(error) => Err(FailureView::Found(error)),
            },
        },
    decreases run.remaining.len(),
{
    reveal_with_fuel(run_outcome, 3);
    if run.remaining.len() == 0 {
        assert(run.reports + seq![] =~= run.reports);
    } else {
        let reply = replies(run.remaining[0]);
        if let Ok(answered) = after_event(run, answer_event(reply)) {
            if let Ok(done) = after_event(answered, report_event(reply)) {
                run_continues(done, replies);
                if let Ok(rest) = reports_of(run.remaining.drop_first(), replies) {
                    if let Ok(Some(report)) = reply.report {
                        assert(done.reports + rest =~= run.reports + (seq![report] + rest));
                    }
                }
            }
        }
    }
}

/// A run comes to the reports of the secure adapters, in the order of the nodes. It fails where
/// the first adapter with a failure does: one that was passed on, a driver that returned other
/// than zero, or a firmware that did; and it fails where no adapter gave a report.
pub proof fn run_collects_the_reports<R, E>(
    nodes: Seq<DcuTopologyNode>,
    secure: Set<PciAddress>,
    replies: spec_fn(DcuTopologyNode) -> Reply<R, E>,
)
    ensures
        run_outcome(
            RunView {
                remaining: secure_nodes(nodes, secure),
                answered: false,
                reports: Seq::<R>::empty(),
            },
            replies,
        ) == match reports_of(secure_nodes(nodes, secure), replies) {
            Err(failure) => Err(failure),
            Ok(reports) => match collected(reports) {
                Ok(reports) => Ok(reports),
                Err(error) => Err(FailureView::Found(error)),
            },
        },
{
    let run = RunView {
        remaining: secure_nodes(nodes, secure),
        answered: false,
        reports: Seq::<R>::empty(),
    };
    run_continues(run, replies);
    if let Ok(reports) = reports_of(secure_nodes(nodes, secure), replies) {
        assert(run.reports + reports =~= reports);
    }
}

/// The adapters that are asked of two lists of nodes are those of the first and then those of
/// the second; a node alone is asked exactly when its address is secure.
pub proof fn asked_of_both(
    a: Seq<DcuTopologyNode>,
    b: Seq<DcuTopologyNode>,
    node: DcuTopologyNode,
    secure: Set<PciAddress>,
)
    ensures
        secure_nodes(a + b, secure) == secure_nodes(a, secure) + secure_nodes(b, secure),
        secure.contains(node.pci_address) ==> secure_nodes(seq![node], secure) == seq![node],
        !secure.contains(node.pci_address) ==> secure_nodes(seq![node], secure) == Seq::<
            DcuTopologyNode,
        >::empty(),
{
    let pred = |node: DcuTopologyNode| secure.contains(node.pci_address);
    Seq::filter_distributes_over_add(a, b, pred);
    reveal(Seq::filter);
    assert(seq![node].drop_last() =~= Seq::<DcuTopologyNode>::empty());
    assert(Seq::<DcuTopologyNode>::empty().filter(pred) =~= Seq::<DcuTopologyNode>::empty());
    assert(seq![node].last() == node);
    assert(Seq::<DcuTopologyNode>::empty().push(node) =~= seq![node]);
}

/// Whether an adapter makes no run fail: the request for its report was made, driver and
/// firmware came to zero, and its answer could be looked at.
pub open spec fn answers_well<R, E>(reply: Reply<R, E>) -> bool {
    &&& reply.answer matches Ok((returned, fw_err)) && returned == 0 && fw_err == 0
    &&& reply.report is Ok
}

/// The reports in the answers of the adapters, of each that gave one and in the order of the
/// adapters.
pub open spec fn given_reports<R, E>(
    asked: Seq<DcuTopologyNode>,
    replies: spec_fn(DcuTopologyNode) -> Reply<R, E>,
) -> Seq<R> {
    asked.filter(|node: DcuTopologyNode| replies(node).report->Ok_0 is Some).map_values(
        |node: DcuTopologyNode| replies(node).report->Ok_0->0,
    )
}

proof fn good_answers_give_the_reports<R, E>(
    asked: Seq<DcuTopologyNode>,
    replies: spec_fn(DcuTopologyNode) -> Reply<R, E>,
)
    requires
        forall|i: int| 0 <= i < asked.len() ==> answers_well(replies(#[trigger] asked[i])),
    ensures
        reports_of(asked, replies) == Ok::<Seq<R>, FailureView<E>>(given_reports(asked, replies)),
    decreases asked.len(),
{
    let pred = |node: DcuTopologyNode| replies(node).report->Ok_0 is Some;
    let report = |node: DcuTopologyNode| replies(node).report->Ok_0->0;
    reveal(Seq::filter);
    if asked.len() == 0 {
        assert(asked.filter(pred).map_values(report) =~= seq![]);
    } else {
        let head = asked[0];
        let rest = asked.drop_first();
        assert forall|i: int| 0 <= i < rest.len() implies answers_well(
            replies(#[trigger] rest[i]),
        ) by {
            assert(rest[i] == asked[i + 1]);
        }
        good_answers_give_the_reports(rest, replies);
        assert(answers_well(replies(head)));
        assert(asked =~= seq![head] + rest);
        Seq::filter_distributes_over_add(seq![head], rest, pred);
        assert(seq![head].drop_last() =~= Seq::<DcuTopologyNode>::empty());
        assert(Seq::<DcuTopologyNode>::empty().filter(pred) =~= Seq::<DcuTopologyNode>::empty());
        assert(seq![head].last() == head);
        if pred(head) {
            assert(seq![head].filter(pred) =~= seq![head]);
            assert((seq![head] + rest.filter(pred)).map_values(report) =~= seq![report(head)]
                + rest.filter(pred).map_values(report));
        } else {
            assert(seq![head].filter(pred) =~= Seq::<DcuTopologyNode>::empty());
            assert(Seq::<DcuTopologyNode>::empty() + rest.filter(pred) =~= rest.filter(pred));
        }
    }
}

proof fn first_bad_answer_fails<R, E>(
    asked: Seq<DcuTopologyNode>,
    replies: spec_fn(DcuTopologyNode) -> Reply<R, E>,
    k: int,
)
    requires
        0 <= k < asked.len(),
        forall|i: int| 0 <= i < k ==> answers_well(replies(#[trigger] asked[i])),
        report_of(asked[k], replies(asked[k])) is Err,
    ensures
        reports_of(asked, replies) == Err::<Seq<R>, FailureView<E>>(
            report_of(asked[k], replies(asked[k]))->Err_0,
        ),
    decreases asked.len(),
{
    if k > 0 {
        let rest = asked.drop_first();
        assert forall|i: int| 0 <= i < k - 1 implies answers_well(replies(#[trigger] rest[i])) by {
            assert(rest[i] == asked[i + 1]);
        }
        assert(rest[k - 1] == asked[k]);
        assert(answers_well(replies(asked[0])));
        first_bad_answer_fails(rest, replies, k - 1);
    }
}

/// A run over adapters that all answer well returns every report that they gave, each once and
/// in the order of the nodes; where they gave none, it says so.
pub proof fn run_returns_every_report<R, E>(
    nodes: Seq<DcuTopologyNode>,
    secure: Set<PciAddress>,
    replies: spec_fn(DcuTopologyNode) -> Reply<R, E>,
)
    requires
        forall|i: int|
            0 <= i < nodes.len() && secure.contains((#[trigger] nodes[i]).pci_address)
                ==> answers_well(replies(nodes[i])),
    ensures
        ({
            let asked = nodes.filter(
                |node: DcuTopologyNode| secure.contains(node.pci_address),
            );
            let outcome = run_outcome(
                RunView {
                    remaining: secure_nodes(nodes, secure),
                    answered: false,
                    reports: Seq::<R>::empty(),
                },
                replies,
            );
            let given = given_reports(asked, replies);
            &&& given.len() > 0 ==> outcome == Ok::<Seq<R>, FailureView<E>>(given)
            &&& given.len() == 0 ==> outcome == Err::<Seq<R>, FailureView<E>>(
                FailureView::Found(
                    ErrorView {
                        kind: ErrorKind::NotFound,
                        message: "No valid attestation reports obtained from any DCU node"@,
                    },
                ),
            )
        }),
{
    let asked = nodes.filter(|node: DcuTopologyNode| secure.contains(node.pci_address));
    assert(asked == secure_nodes(nodes, secure));
    assert forall|i: int| 0 <= i < asked.len() implies answers_well(
        replies(#[trigger] asked[i]),
    ) by {
        assert(asked.contains(asked[i]));
        secure_adapters_are_asked(nodes, secure, asked[i]);
        let k = choose|k: int| 0 <= k < nodes.len() && nodes[k] == asked[i];
        assert(nodes[k] == asked[i]);
    }
    good_answers_give_the_reports(asked, replies);
    run_collects_the_reports(nodes, secure, replies);
}

/// Where every adapter that is asked answers well and gives a report, a run returns as many
/// reports as adapters were asked, and each is that of its adapter.
pub proof fn full_answers_are_all_returned<R, E>(
    nodes: Seq<DcuTopologyNode>,
    secure: Set<PciAddress>,
    replies: spec_fn(DcuTopologyNode) -> Reply<R, E>,
)
    requires
        secure_nodes(nodes, secure).len() > 0,
        forall|i: int|
            0 <= i < nodes.len() && secure.contains((#[trigger] nodes[i]).pci_address)
                ==> answers_well(replies(nodes[i])) && replies(nodes[i]).report->Ok_0 is Some,
    ensures
        run_outcome(
            RunView {
                remaining: secure_nodes(nodes, secure),
                answered: false,
                reports: Seq::<R>::empty(),
            },
            replies,
        ) matches Ok(reports) && {
            &&& reports.len() == secure_nodes(nodes, secure).len()
            &&& forall|i: int|
                0 <= i < reports.len() ==> #[trigger] reports[i] == replies(
                    secure_nodes(nodes, secure)[i],
                ).report->Ok_0->0
        },
{
    let asked = secure_nodes(nodes, secure);
    let pred = |node: DcuTopologyNode| replies(node).report->Ok_0 is Some;
    run_returns_every_report(nodes, secure, replies);
    assert forall|i: int| 0 <= i < asked.len() implies pred(#[trigger] asked[i]) by {
        assert(asked.contains(asked[i]));
        secure_adapters_are_asked(nodes, secure, asked[i]);
        let k = choose|k: int| 0 <= k < nodes.len() && nodes[k] == asked[i];
        assert(nodes[k] == asked[i]);
    }
    nothing_is_filtered(asked, pred);
}

proof fn nothing_is_filtered(s: Seq<DcuTopologyNode>, pred: spec_fn(DcuTopologyNode) -> bool)
    requires
        forall|i: int| 0 <= i < s.len() ==> pred(#[trigger] s[i]),
    ensures
        s.filter(pred) == s,
    decreases s.len(),
{
    reveal(Seq::filter);
    if s.len() > 0 {
        let rest = s.drop_last();
        assert forall|i: int| 0 <= i < rest.len() implies pred(#[trigger] rest[i]) by {
            assert(rest[i] == s[i]);
        }
        nothing_is_filtered(rest, pred);
        assert(pred(s[s.len() - 1]));
        assert(rest.push(s.last()) =~= s);
    }
}

/// A run fails at the first adapter that does not answer well: with the failure that was passed
/// on, with what the driver returned where that is not zero, or with what the firmware did.
pub proof fn run_fails_at_the_first_bad_answer<R, E>(
    nodes: Seq<DcuTopologyNode>,
    secure: Set<PciAddress>,
    replies: spec_fn(DcuTopologyNode) -> Reply<R, E>,
    k: int,
)
    requires
        0 <= k < secure_nodes(nodes, secure).len(),
        forall|i: int|
            0 <= i < k ==> answers_well(replies(#[trigger] secure_nodes(nodes, secure)[i])),
        !answers_well(replies(secure_nodes(nodes, secure)[k])),
    ensures
        ({
            let outcome = run_outcome(
                RunView {
                    remaining: secure_nodes(nodes, secure),
                    answered: false,
                    reports: Seq::<R>::empty(),
                },
                replies,
            );
            let node = secure_nodes(nodes, secure)[k];
            let words = " for SECURE node "@ + number::decimal(node.node_id as int) + " (DCU ID "@
                + number::decimal(node.dcu_id as int) + ", PCI "@ + node.pci_address.text() + ")"@;
            match replies(node).answer {
                Err(error) => outcome == Err::<Seq<R>, FailureView<E>>(FailureView::Passed(error)),
                Ok((returned, fw_err)) => if returned != 0 {
                    outcome == Err::<Seq<R>, FailureView<E>>(
                        FailureView::Found(
                            ErrorView {
                                kind: ErrorKind::Other,
                                message: "DCU report IOCTL returned "@ + number::decimal(
                                    returned as int,
                                ) + words,
                            },
                        ),
                    )
                } else if fw_err != 0 {
                    outcome == Err::<Seq<R>, FailureView<E>>(
                        FailureView::Found(
                            ErrorView {
                                kind: ErrorKind::Other,
                                message: "DCU report firmware returned error 0x"@
                                    + number::numeral(fw_err as nat, 16) + words,
                            },
                        ),
                    )
                } else {
                    replies(node).report matches Err(error) && outcome == Err::<
                        Seq<R>,
                        FailureView<E>,
                    >(FailureView::Passed(error))
                },
            }
        }),
{
    let asked = secure_nodes(nodes, secure);
    run_collects_the_reports(nodes, secure, replies);
    assert(report_of(asked[k], replies(asked[k])) is Err);
    first_bad_answer_fails(asked, replies, k);
}

} // verus!
