//! Asking `hyflash` which adapters are secure: when an answer is waited for, which one is
//! accepted, and which installed tool is asked next.

use crate::api::dcu::address_set::PciAddressSet;
use crate::api::dcu::pci::PciAddress;
use crate::api::dcu::security;
use crate::api::dcu::security::secure_pci_addresses_from_hyflash_output;
use crate::error::{Error, ErrorKind, ErrorView};
use crate::text;
use vstd::prelude::*;
use vstd::string::*;

verus! {

/// How many nanoseconds `hyflash` has for its answer.
pub const HYFLASH_TIMEOUT_NANOS: u128 = 15_000_000_000;

/// How many milliseconds to wait before looking again whether `hyflash` has ended.
pub const HYFLASH_POLL_INTERVAL_MILLIS: u64 = 50;

/// The exit code that `hyflash` may end with although its output is complete.
pub const HYFLASH_KNOWN_EXIT_CODE: i32 = 255;

/// How many places `hyflash` may be installed at.
pub const HYFLASH_CANDIDATES: usize = 5;

/// What to do about a `hyflash` that was started.
#[derive(Clone, Copy, Debug, PartialEq, Eq, Structural)]
pub enum PollAction {
    /// Collect its output.
    Collect,
    /// Stop it: it had its time.
    Stop,
    /// Look again after [`HYFLASH_POLL_INTERVAL_MILLIS`].
    Wait,
}

/// What to do about a `hyflash` that was started `elapsed_nanos` ago.
pub fn poll_hyflash(exited: bool, elapsed_nanos: u128) -> (res: PollAction)
    ensures
        exited ==> res == PollAction::Collect,
        !exited && elapsed_nanos >= HYFLASH_TIMEOUT_NANOS ==> res == PollAction::Stop,
        !exited && elapsed_nanos < HYFLASH_TIMEOUT_NANOS ==> res == PollAction::Wait,
        res == PollAction::Collect <==> exited,
        res == PollAction::Stop <==> !exited && elapsed_nanos >= 15_000_000_000,
{
    if exited {
        PollAction::Collect
    } else if elapsed_nanos >= HYFLASH_TIMEOUT_NANOS {
        PollAction::Stop
    } else {
        PollAction::Wait
    }
}

/// The failure of a `hyflash` that was stopped.
pub fn hyflash_timed_out(hyflash_path: &str) -> (res: Error)
    ensures
        res@ == (ErrorView {
            kind: ErrorKind::TimedOut,
            message: hyflash_path@ + " did not return security states within 15 seconds"@,
        }),
        res.kind == ErrorKind::TimedOut,
        res.message@ == hyflash_path@ + " did not return security states within 15 seconds"@,
{
    let mut message = hyflash_path.to_string();
    message.append(" did not return security states within 15 seconds");
    Error::new(ErrorKind::TimedOut, message)
}

/// The failure of a `hyflash` that could not be started.
pub fn hyflash_not_started(hyflash_path: &str, error: Error) -> (res: Error)
    ensures
        res@ == (ErrorView {
            kind: error@.kind,
            message: "Failed to execute "@ + hyflash_path@ + " for DCU security states: "@
                + error@.message,
        }),
        res.kind == error.kind,
        res.message@ == "Failed to execute "@ + hyflash_path@ + " for DCU security states: "@
            + error.message@,
{
    let mut message = "Failed to execute ".to_string();
    message.append(hyflash_path);
    message.append(" for DCU security states: ");
    message.append(error.message.as_str());
    Error { kind: error.kind, message }
}

/// What is left of a `hyflash` that ended.
#[derive(Debug)]
pub struct HyflashRun {
    /// Whether it ended with success.
    pub succeeded: bool,
    /// The exit code, where there is one.
    pub code: Option<i32>,
    /// The exit status as text.
    pub status: String,
    pub stdout: Vec<u8>,
    pub stderr: Vec<u8>,
}

impl HyflashRun {
    /// Whether the way it ended leaves its output to be looked at: with success, or with the
    /// one other code that is known to come with complete output.
    pub open spec fn status_is_accepted(self) -> bool {
        self.succeeded || self.code == Some(HYFLASH_KNOWN_EXIT_CODE)
    }

    /// All that it wrote.
    pub open spec fn output(self) -> Seq<char> {
        text::lossy_text(self.stdout@) + "\n"@ + text::lossy_text(self.stderr@)
    }

    /// All that it wrote: what went to the standard output, then what went to the standard
    /// error.
    pub fn output_text(&self) -> (res: String)
        ensures
            res@ == self.output(),
            res@ == text::lossy_text(self.stdout@) + "\n"@ + text::lossy_text(self.stderr@),
    {
        let mut res = text::lossy_string(self.stdout.as_slice());
        res.append("\n");
        res.append(text::lossy_string(self.stderr.as_slice()).as_str());
        res
    }
}

/// Which adapters an ended `hyflash` shows to be secure, when `output` is what it wrote.
pub open spec fn secure_by_run(
    path: Seq<char>,
    run: HyflashRun,
    output: Seq<char>,
    expected: Set<PciAddress>,
) -> Result<Set<PciAddress>, ErrorView> {
    if run.status_is_accepted() {
        security::secure_by_output(path, output, expected)
    } else {
        Err(
            ErrorView {
                kind: ErrorKind::Other,
                message: "hyflash exit status was "@ + run.status@,
            },
        )
    }
}

/// Which adapters an ended `hyflash` shows to be secure, when `output` is what it wrote.
pub fn secure_pci_addresses_from_run(
    hyflash_path: &str,
    run: &HyflashRun,
    output: &str,
    expected_addresses: &PciAddressSet,
) -> (res: Result<PciAddressSet, Error>)
    ensures
        security::viewed_set(res) == secure_by_run(
            hyflash_path@,
            *run,
            output@,
            expected_addresses@,
        ),
        (if run.succeeded || run.code == Some(255i32) {
            security::secure_by_output(hyflash_path@, output@, expected_addresses@)
        } else {
            Err(
                ErrorView {
                    kind: ErrorKind::Other,
                    message: "hyflash exit status was "@ + run.status@,
                },
            )
        }) == match res {
            Ok(secure) => Ok(secure@),
            Err(error) => Err(ErrorView { kind: error.kind, message: error.message@ }),
        },
{
    let known = match run.code {
        Some(code) => code == HYFLASH_KNOWN_EXIT_CODE,
        None => false,
    };
    if !run.succeeded && !known {
        let mut message = "hyflash exit status was ".to_string();
        message.append(run.status.as_str());
        return Err(Error::new(ErrorKind::Other, message));
    }
    secure_pci_addresses_from_hyflash_output(hyflash_path, output, expected_addresses)
}

/// Which adapters a `hyflash` that ended shows to be secure. Exit code 255 is the only one but
/// success that is known to come with complete, valid output; every other ending is rejected.
pub fn query_secure_dcu_pci_addresses_with(
    hyflash_path: &str,
    run: &HyflashRun,
    expected_addresses: &PciAddressSet,
) -> (res: Result<PciAddressSet, Error>)
    ensures
        security::viewed_set(res) == secure_by_run(
            hyflash_path@,
            *run,
            run.output(),
            expected_addresses@,
        ),
        (if run.succeeded || run.code == Some(255i32) {
            security::secure_by_output(
                hyflash_path@,
                text::lossy_text(run.stdout@) + "\n"@ + text::lossy_text(run.stderr@),
                expected_addresses@,
            )
        } else {
            Err(
                ErrorView {
                    kind: ErrorKind::Other,
                    message: "hyflash exit status was "@ + run.status@,
                },
            )
        }) == match res {
            Ok(secure) => Ok(secure@),
            Err(error) => Err(ErrorView { kind: error.kind, message: error.message@ }),
        },
{
    let output = run.output_text();
    secure_pci_addresses_from_run(hyflash_path, run, output.as_str(), expected_addresses)
}

/// The places that `hyflash` may be installed at, the first to be tried first.
pub open spec fn hyflash_path_text(i: int) -> Seq<char> {
    if i == 0 {
        "/usr/local/hyhal/firmware/vbios/hyflash"@
    } else if i == 1 {
        "/usr/local/hyhal/firmware/vbios/hyflash_x86"@
    } else if i == 2 {
        "/opt/hyhal/vbios/hyflash_x86"@
    } else if i == 3 {
        "/opt/hyhal/firmware/vbios/hyflash"@
    } else {
        "/opt/hyhal/firmware/vbios/hyflash_x86"@
    }
}

/// The places that `hyflash` may be installed at, the first to be tried first.
pub fn hyflash_path(i: usize) -> (res: &'static str)
    requires
        i < HYFLASH_CANDIDATES,
    ensures
        res@ == hyflash_path_text(i as int),
        i == 0 ==> res@ == "/usr/local/hyhal/firmware/vbios/hyflash"@,
        i == 1 ==> res@ == "/usr/local/hyhal/firmware/vbios/hyflash_x86"@,
        i == 2 ==> res@ == "/opt/hyhal/vbios/hyflash_x86"@,
        i == 3 ==> res@ == "/opt/hyhal/firmware/vbios/hyflash"@,
        i == 4 ==> res@ == "/opt/hyhal/firmware/vbios/hyflash_x86"@,
{
    if i == 0 {
        "/usr/local/hyhal/firmware/vbios/hyflash"
    } else if i == 1 {
        "/usr/local/hyhal/firmware/vbios/hyflash_x86"
    } else if i == 2 {
        "/opt/hyhal/vbios/hyflash_x86"
    } else if i == 3 {
        "/opt/hyhal/firmware/vbios/hyflash"
    } else {
        "/opt/hyhal/firmware/vbios/hyflash_x86"
    }
}

/// What trying one place came to.
#[derive(Debug)]
pub enum Attempt {
    /// There is no tool there.
    NotInstalled,
    /// The tool's answer was accepted, or it was not.
    Asked(Result<PciAddressSet, Error>),
}

/// What trying one place came to, by its contents.
pub enum AttemptView {
    NotInstalled,
    Asked(Result<Set<PciAddress>, ErrorView>),
}

impl View for Attempt {
    type V = AttemptView;

    open spec fn view(&self) -> AttemptView {
        match *self {
            Attempt::NotInstalled => AttemptView::NotInstalled,
            Attempt::Asked(answer) => AttemptView::Asked(security::viewed_set(answer)),
        }
    }
}

/// How far a query has come: how many places were tried, and what was wrong with the tools
/// that were asked.
pub struct QueryView {
    pub tried: int,
    pub rejections: Seq<Seq<char>>,
}

/// What a query does after an attempt: go on, or return what was accepted.
pub enum QueryStepView {
    Continue(QueryView),
    Accepted(Set<PciAddress>),
}

/// A rejection, with the place of the tool that was rejected.
pub open spec fn rejection(i: int, error: ErrorView) -> Seq<char> {
    hyflash_path_text(i) + ": "@ + error.message
}

/// What a query does after an attempt at the next place.
pub open spec fn after_attempt(query: QueryView, attempt: AttemptView) -> QueryStepView {
    let next = QueryView { tried: query.tried + 1, ..query };
    match attempt {
        AttemptView::NotInstalled => QueryStepView::Continue(next),
        AttemptView::Asked(Ok(secure)) => QueryStepView::Accepted(secure),
        AttemptView::Asked(Err(error)) => QueryStepView::Continue(
            QueryView { rejections: query.rejections.push(rejection(query.tried, error)), ..next },
        ),
    }
}

/// All places, with commas between them.
pub open spec fn all_paths() -> Seq<char> {
    text::joined(
        Seq::new(HYFLASH_CANDIDATES as nat, |i: int| hyflash_path_text(i)),
        ", "@,
    )
}

/// The failure of a query that tried all places and accepted no answer.
pub open spec fn exhausted(rejections: Seq<Seq<char>>) -> ErrorView {
    if rejections.len() == 0 {
        ErrorView {
            kind: ErrorKind::NotFound,
            message: "hyflash not found; checked: "@ + all_paths(),
        }
    } else {
        ErrorView {
            kind: ErrorKind::InvalidData,
            message: "no hyflash candidate returned trustworthy security states: "@
                + text::joined(rejections, "; "@),
        }
    }
}

/// A query for the secure adapters.
#[derive(Debug)]
pub struct SecureDcuQuery {
    tried: usize,
    rejections: Vec<String>,
}

/// What a query does after an attempt: go on, or return what was accepted.
#[derive(Debug)]
pub enum QueryStep {
    Continue(SecureDcuQuery),
    Accepted(PciAddressSet),
}

impl View for SecureDcuQuery {
    type V = QueryView;

    closed spec fn view(&self) -> QueryView {
        QueryView { tried: self.tried as int, rejections: text::string_texts(self.rejections@) }
    }
}

impl View for QueryStep {
    type V = QueryStepView;

    open spec fn view(&self) -> QueryStepView {
        match *self {
            QueryStep::Continue(query) => QueryStepView::Continue(query@),
            QueryStep::Accepted(secure) => QueryStepView::Accepted(secure@),
        }
    }
}

impl SecureDcuQuery {
    /// A query that has tried no place.
    pub fn new() -> (res: SecureDcuQuery)
        ensures
            res@ == (QueryView { tried: 0, rejections: seq![] }),
    {
        let res = SecureDcuQuery { tried: 0, rejections: Vec::new() };
        assert(res@.rejections =~= seq![]);
        res
    }

    /// The place to try next, while there is one.
    pub fn candidate(&self) -> (res: Option<&'static str>)
        ensures
            res is Some <==> self@.tried < HYFLASH_CANDIDATES,
            res matches Some(path) ==> path@ == hyflash_path_text(self@.tried),
    {
        if self.tried < HYFLASH_CANDIDATES {
            Some(hyflash_path(self.tried))
        } else {
            None
        }
    }

    /// Takes what trying the next place came to.
    pub fn advance(self, attempt: Attempt) -> (res: QueryStep)
        requires
            self@.tried < HYFLASH_CANDIDATES,
        ensures
            res@ == after_attempt(self@, attempt@),
            attempt is NotInstalled ==> (res matches QueryStep::Continue(next) && next@.tried
                == self@.tried + 1 && next@.rejections == self@.rejections),
            attempt matches Attempt::Asked(Ok(secure)) ==> (res matches QueryStep::Accepted(found)
                && found@ == secure@),
            attempt matches Attempt::Asked(Err(error)) ==> (res matches QueryStep::Continue(next)
                && next@.tried == self@.tried + 1 && next@.rejections == self@.rejections.push(
                hyflash_path_text(self@.tried) + ": "@ + error.message@,
            )),
    {
        let SecureDcuQuery { tried, mut rejections } = self;
        match attempt {
            Attempt::NotInstalled => QueryStep::Continue(
                SecureDcuQuery { tried: tried + 1, rejections },
            ),
            Attempt::Asked(Ok(secure)) => QueryStep::Accepted(secure),
            Attempt::Asked(Err(error)) => {
                let ghost earlier = rejections@;
                let mut text = hyflash_path(tried).to_string();
                text.append(": ");
                text.append(error.message.as_str());
                let ghost added = text@;
                rejections.push(text);
                assert(text::string_texts(rejections@) =~= text::string_texts(earlier).push(added));
                QueryStep::Continue(SecureDcuQuery { tried: tried + 1, rejections })
            },
        }
    }

    /// The failure of a query that tried all places.
    pub fn failure(self) -> (res: Error)
        ensures
            res@ == exhausted(self@.rejections),
            self@.rejections.len() > 0 ==> res.kind == ErrorKind::InvalidData && res.message@
                == "no hyflash candidate returned trustworthy security states: "@ + text::joined(
                self@.rejections,
                "; "@,
            ),
            self@.rejections.len() == 0 ==> res.kind == ErrorKind::NotFound && res.message@
                == "hyflash not found; checked: "@ + text::joined(
                seq![
                    "/usr/local/hyhal/firmware/vbios/hyflash"@,
                    "/usr/local/hyhal/firmware/vbios/hyflash_x86"@,
                    "/opt/hyhal/vbios/hyflash_x86"@,
                    "/opt/hyhal/firmware/vbios/hyflash"@,
                    "/opt/hyhal/firmware/vbios/hyflash_x86"@,
                ],
                ", "@,
            ),
    {
        assert(self@.rejections.len() == self.rejections@.len());
        if self.rejections.len() == 0 {
            let mut paths: Vec<String> = Vec::new();
            for i in 0..HYFLASH_CANDIDATES
                invariant
                    paths@.len() == i,
                    forall|j: int| 0 <= j < i ==> (#[trigger] paths@[j])@ == hyflash_path_text(j),
            {
                paths.push(hyflash_path(i).to_string());
            }
            assert(text::string_texts(paths@) =~= Seq::new(
                HYFLASH_CANDIDATES as nat,
                |i: int| hyflash_path_text(i),
            ));
            assert(text::string_texts(paths@) =~= seq![
                "/usr/local/hyhal/firmware/vbios/hyflash"@,
                "/usr/local/hyhal/firmware/vbios/hyflash_x86"@,
                "/opt/hyhal/vbios/hyflash_x86"@,
                "/opt/hyhal/firmware/vbios/hyflash"@,
                "/opt/hyhal/firmware/vbios/hyflash_x86"@,
            ]);
            let mut message = "hyflash not found; checked: ".to_string();
            message.append(text::join(&paths, ", ").as_str());
            Error::new(ErrorKind::NotFound, message)
        } else {
            let mut message =
                "no hyflash candidate returned trustworthy security states: ".to_string();
            message.append(text::join(&self.rejections, "; ").as_str());
            Error::new(ErrorKind::InvalidData, message)
        }
    }
}

/// What a query comes to when the attempts at the places are as given.
pub open spec fn query_outcome(query: QueryView, attempts: Seq<AttemptView>) -> Result<
    Set<PciAddress>,
    ErrorView,
>
    decreases attempts.len() - query.tried,
{
    if query.tried >= attempts.len() {
        Err(exhausted(query.rejections))
    } else {
        match after_attempt(query, attempts[query.tried]) {
            QueryStepView::Continue(next) => query_outcome(next, attempts),
            QueryStepView::Accepted(secure) => Ok(secure),
        }
    }
}

/// The first accepted answer among the attempts from place `i` on.
pub open spec fn first_accepted(attempts: Seq<AttemptView>, i: int) -> Option<Set<PciAddress>>
    decreases attempts.len() - i,
{
    if i >= attempts.len() {
        None
    } else {
        match attempts[i] {
            AttemptView::Asked(Ok(secure)) => Some(secure),
            _ => first_accepted(attempts, i + 1),
        }
    }
}

/// The accepted answer found is that of the first attempt that has one.
pub proof fn first_accepted_is_first(attempts: Seq<AttemptView>, i: int)
    requires
        0 <= i,
    ensures
        match first_accepted(attempts, i) {
            Some(secure) => exists|k: int|
                i <= k < attempts.len() && #[trigger] attempts[k] == AttemptView::Asked(Ok(secure))
                    && forall|j: int|
                    i <= j < k ==> !(#[trigger] attempts[j] matches AttemptView::Asked(Ok(_))),
            None => forall|j: int|
                i <= j < attempts.len() ==> !(#[trigger] attempts[j] matches AttemptView::Asked(
                    Ok(_),
                )),
        },
    decreases attempts.len() - i,
{
    if i < attempts.len() {
        match attempts[i] {
            AttemptView::Asked(Ok(secure)) => {
                assert(attempts[i] == AttemptView::Asked(Ok(secure)));
            },
            _ => {
                first_accepted_is_first(attempts, i + 1);
            },
        }
    }
}

/// The rejections among the attempts from place `i` on, in order.
pub open spec fn rejections_from(attempts: Seq<AttemptView>, i: int) -> Seq<Seq<char>>
    decreases attempts.len() - i,
{
    if i >= attempts.len() {
        seq![]
    } else {
        match attempts[i] {
            AttemptView::Asked(Err(error)) => seq![rejection(i, error)] + rejections_from(
                attempts,
                i + 1,
            ),
            _ => rejections_from(attempts, i + 1),
        }
    }
}

proof fn query_continues(query: QueryView, attempts: Seq<AttemptView>)
    requires
        0 <= query.tried,
    ensures
        query_outcome(query, attempts) == match first_accepted(attempts, query.tried) {
            Some(secure) => Ok(secure),
            None => Err(exhausted(query.rejections + rejections_from(attempts, query.tried))),
        },
    decreases attempts.len() - query.tried,
{
    if query.tried >= attempts.len() {
        assert(query.rejections + seq![] =~= query.rejections);
    } else {
        match after_attempt(query, attempts[query.tried]) {
            QueryStepView::Continue(next) => {
                query_continues(next, attempts);
                assert(query.rejections + rejections_from(attempts, query.tried)
                    =~= next.rejections + rejections_from(attempts, next.tried));
            },
            QueryStepView::Accepted(secure) => {},
        }
    }
}

/// A query returns the first accepted answer, whatever tools before it were rejected or not
/// installed; where there is none, it fails with every rejection, or says that no tool is
/// installed.
pub proof fn query_returns_the_first_accepted(attempts: Seq<AttemptView>)
    ensures
        query_outcome(QueryView { tried: 0, rejections: seq![] }, attempts)
            == match first_accepted(attempts, 0) {
            Some(secure) => Ok(secure),
            None => Err(exhausted(rejections_from(attempts, 0))),
        },
{
    let query = QueryView { tried: 0, rejections: seq![] };
    query_continues(query, attempts);
    assert(query.rejections + rejections_from(attempts, 0) =~= rejections_from(attempts, 0));
}

/// What the answer of a `hyflash` that ended is: what its output shows where it ended with
/// success or with exit code 255, and a refusal that tells the status otherwise.
pub proof fn ending_decides_whether_output_counts(
    path: Seq<char>,
    run: HyflashRun,
    output: Seq<char>,
    expected: Set<PciAddress>,
)
    ensures
        run.succeeded || run.code == Some(255i32) ==> secure_by_run(path, run, output, expected)
            == security::secure_by_output(path, output, expected),
        !run.succeeded && run.code != Some(255i32) ==> secure_by_run(path, run, output, expected)
            == Err::<Set<PciAddress>, ErrorView>(
            ErrorView {
                kind: ErrorKind::Other,
                message: "hyflash exit status was "@ + run.status@,
            },
        ),
{
}

/// A query over all places whose answer at `k` is accepted and at none before returns that
/// answer.
pub proof fn accepted_answer_is_returned(
    attempts: Seq<AttemptView>,
    k: int,
    secure: Set<PciAddress>,
)
    requires
        0 <= k < attempts.len(),
        attempts[k] == AttemptView::Asked(Ok(secure)),
        forall|j: int| 0 <= j < k ==> !(#[trigger] attempts[j] matches AttemptView::Asked(Ok(_))),
    ensures
        query_outcome(QueryView { tried: 0, rejections: seq![] }, attempts) == Ok::<
            Set<PciAddress>,
            ErrorView,
        >(secure),
{
    query_returns_the_first_accepted(attempts);
    first_accepted_is_first(attempts, 0);
    match first_accepted(attempts, 0) {
        Some(found) => {
            let m = choose|m: int|
                0 <= m < attempts.len() && #[trigger] attempts[m] == AttemptView::Asked(Ok(found))
                    && forall|j: int|
                    0 <= j < m ==> !(#[trigger] attempts[j] matches AttemptView::Asked(Ok(_)));
            assert(m == k);
        },
        None => {},
    }
}

/// A query over places at which no tool is installed says so, and names all places.
pub proof fn missing_tools_are_reported(attempts: Seq<AttemptView>)
    requires
        forall|j: int| 0 <= j < attempts.len() ==> #[trigger] attempts[j] is NotInstalled,
    ensures
        query_outcome(QueryView { tried: 0, rejections: seq![] }, attempts) == Err::<
            Set<PciAddress>,
            ErrorView,
        >(
            ErrorView {
                kind: ErrorKind::NotFound,
                message: "hyflash not found; checked: "@ + text::joined(
                    seq![
                        "/usr/local/hyhal/firmware/vbios/hyflash"@,
                        "/usr/local/hyhal/firmware/vbios/hyflash_x86"@,
                        "/opt/hyhal/vbios/hyflash_x86"@,
                        "/opt/hyhal/firmware/vbios/hyflash"@,
                        "/opt/hyhal/firmware/vbios/hyflash_x86"@,
                    ],
                    ", "@,
                ),
            },
        ),
{
    query_returns_the_first_accepted(attempts);
    first_accepted_is_first(attempts, 0);
    if let Some(found) = first_accepted(attempts, 0) {
        let m = choose|m: int|
            0 <= m < attempts.len() && #[trigger] attempts[m] == AttemptView::Asked(Ok(found));
        assert(attempts[m] is NotInstalled);
    }
    nothing_rejected(attempts, 0);
    assert(Seq::new(HYFLASH_CANDIDATES as nat, |i: int| hyflash_path_text(i)) =~= seq![
        "/usr/local/hyhal/firmware/vbios/hyflash"@,
        "/usr/local/hyhal/firmware/vbios/hyflash_x86"@,
        "/opt/hyhal/vbios/hyflash_x86"@,
        "/opt/hyhal/firmware/vbios/hyflash"@,
        "/opt/hyhal/firmware/vbios/hyflash_x86"@,
    ]);
}

proof fn nothing_rejected(attempts: Seq<AttemptView>, i: int)
    requires
        0 <= i,
        forall|j: int| 0 <= j < attempts.len() ==> #[trigger] attempts[j] is NotInstalled,
    ensures
        rejections_from(attempts, i) == Seq::<Seq<char>>::empty(),
    decreases attempts.len() - i,
{
    if i < attempts.len() {
        assert(attempts[i] is NotInstalled);
        nothing_rejected(attempts, i + 1);
    }
}

/// What is wrong with the tools that were asked: for each place at which one was rejected, in
/// order, the place and the message.
pub open spec fn rejection_messages(attempts: Seq<AttemptView>) -> Seq<Seq<char>> {
    Seq::new(attempts.len(), |i: int| i).filter(
        |i: int| attempts[i] matches AttemptView::Asked(Err(_)),
    ).map_values(
        |i: int| hyflash_path_text(i) + ": "@ + attempts[i]->Asked_0->Err_0.message,
    )
}

proof fn rejections_are_the_messages(attempts: Seq<AttemptView>, n: nat)
    requires
        n <= attempts.len(),
    ensures
        rejections_from(attempts, 0) == rejection_messages(attempts.take(n as int))
            + rejections_from(attempts, n as int),
    decreases n,
{
    let taken = attempts.take(n as int);
    reveal(Seq::filter);
    if n == 0 {
        assert(rejection_messages(taken) =~= seq![]) by {
            assert(Seq::new(taken.len(), |i: int| i) =~= seq![]);
        }
        assert(seq![] + rejections_from(attempts, 0) =~= rejections_from(attempts, 0));
    } else {
        let fewer = (n - 1) as nat;
        let earlier = attempts.take(fewer as int);
        rejections_are_the_messages(attempts, fewer);
        let all = Seq::new(taken.len(), |i: int| i);
        let before = Seq::new(earlier.len(), |i: int| i);
        let pred = |i: int| taken[i] matches AttemptView::Asked(Err(_));
        let earlier_pred = |i: int| earlier[i] matches AttemptView::Asked(Err(_));
        let message = |i: int| hyflash_path_text(i) + ": "@ + taken[i]->Asked_0->Err_0.message;
        let earlier_message = |i: int|
            hyflash_path_text(i) + ": "@ + earlier[i]->Asked_0->Err_0.message;
        assert(all.drop_last() =~= before);
        assert(all.last() == fewer);
        same_filter(before, pred, earlier_pred, message, earlier_message);
        let kept = before.filter(pred);
        assert(rejection_messages(earlier) == kept.map_values(message));
        assert(taken[fewer as int] == attempts[fewer as int]);
        let rest = rejections_from(attempts, n as int);
        if pred(fewer as int) {
            assert(kept.push(fewer as int).map_values(message) =~= kept.map_values(message).push(
                message(fewer as int),
            ));
            assert(rejection_messages(taken) == kept.map_values(message).push(
                message(fewer as int),
            ));
            assert(rejections_from(attempts, fewer as int) == seq![message(fewer as int)] + rest);
            assert(rejection_messages(earlier) + (seq![message(fewer as int)] + rest)
                =~= rejection_messages(taken) + rest);
        } else {
            assert(rejections_from(attempts, fewer as int) == rest);
        }
    }
}

proof fn same_filter(
    s: Seq<int>,
    p: spec_fn(int) -> bool,
    q: spec_fn(int) -> bool,
    f: spec_fn(int) -> Seq<char>,
    g: spec_fn(int) -> Seq<char>,
)
    requires
        forall|i: int| 0 <= i < s.len() ==> p(#[trigger] s[i]) == q(s[i]) && f(s[i]) == g(s[i]),
    ensures
        s.filter(p).map_values(f) == s.filter(q).map_values(g),
    decreases s.len(),
{
    reveal(Seq::filter);
    if s.len() == 0 {
        assert(s.filter(p).map_values(f) =~= s.filter(q).map_values(g));
    } else {
        let rest = s.drop_last();
        assert forall|i: int| 0 <= i < rest.len() implies p(#[trigger] rest[i]) == q(rest[i]) && f(
            rest[i],
        ) == g(rest[i]) by {
            assert(rest[i] == s[i]);
        }
        same_filter(rest, p, q, f, g);
        let last = s[s.len() - 1];
        if p(last) {
            assert(rest.filter(p).push(last).map_values(f) =~= rest.filter(p).map_values(f).push(
                f(last),
            ));
            assert(rest.filter(q).push(last).map_values(g) =~= rest.filter(q).map_values(g).push(
                g(last),
            ));
        }
    }
}

/// A query over places of which none gave an accepted answer and one at least gave an answer
/// fails, and tells for each answer the place and what was wrong with it, in order.
pub proof fn rejections_are_reported(attempts: Seq<AttemptView>, k: int)
    requires
        0 <= k < attempts.len(),
        attempts[k] matches AttemptView::Asked(Err(_)),
        forall|j: int|
            0 <= j < attempts.len() ==> !(#[trigger] attempts[j] matches AttemptView::Asked(Ok(_))),
    ensures
        query_outcome(QueryView { tried: 0, rejections: seq![] }, attempts) == Err::<
            Set<PciAddress>,
            ErrorView,
        >(
            ErrorView {
                kind: ErrorKind::InvalidData,
                message: "no hyflash candidate returned trustworthy security states: "@
                    + text::joined(rejection_messages(attempts), "; "@),
            },
        ),
{
    query_returns_the_first_accepted(attempts);
    first_accepted_is_first(attempts, 0);
    if let Some(found) = first_accepted(attempts, 0) {
        let m = choose|m: int|
            0 <= m < attempts.len() && #[trigger] attempts[m] == AttemptView::Asked(Ok(found));
        assert(attempts[m] matches AttemptView::Asked(Ok(_)));
    }
    rejections_are_the_messages(attempts, attempts.len());
    assert(attempts.take(attempts.len() as int) =~= attempts);
    assert(rejection_messages(attempts) + Seq::<Seq<char>>::empty() =~= rejection_messages(
        attempts,
    ));
    let all = Seq::new(attempts.len(), |i: int| i);
    let pred = |i: int| attempts[i] matches AttemptView::Asked(Err(_));
    assert(all[k] == k);
    all.lemma_filter_contains(pred, k);
    assert(all.filter(pred).len() > 0);
}

} // verus!
