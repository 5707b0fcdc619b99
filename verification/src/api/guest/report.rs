//! Requests for attestation reports of a guest.
//!
//! [`ReportExchange`] says which request to make next and takes the answers; whoever runs it
//! talks to the device.

use rand::Rng;
use vstd::prelude::*;

verus! {

/// The layout of an attestation report.
#[derive(Clone, Copy, Debug, PartialEq, Eq, Structural)]
pub enum ReportFormat {
    /// The legacy report.
    V1,
    /// The extended report.
    V2,
    /// The extended report of CSV3.
    V3,
}

/// The numbers that the device's interface fixes for reports.
#[derive(Clone, Copy, Debug)]
pub struct ReportInterface {
    /// The flag that asks for the extended report.
    pub ext_flag: u32,
    /// The flag that asks for the extended report of CSV3.
    pub ext_v3_flag: u32,
    /// The first firmware build that can give the extended report of CSV3.
    pub v3_min_build: u32,
    /// The mark of extended reports.
    pub ext_magic: [u8; 16],
}

/// A request for a report.
#[derive(Clone, Copy, Debug)]
pub struct ReportRequest {
    pub data: Option<[u8; 64]>,
    pub mnonce: [u8; 16],
    pub flags: u32,
    pub format: ReportFormat,
}

/// A report as the device gave it, with the mark and the flags that tell its layout.
#[derive(Debug)]
pub struct AttestationReportWrapper {
    pub magic: [u8; 16],
    pub flags: u32,
    pub data: Vec<u8>,
}

impl ReportInterface {
    /// Whether flags ask for the extended report of CSV3.
    pub open spec fn wants_v3(self, flags: u32) -> bool {
        flags & self.ext_v3_flag != 0
    }

    /// The layout of the answer to an extended request with the given flags.
    pub open spec fn ext_format(self, flags: u32) -> ReportFormat {
        if self.wants_v3(flags) {
            ReportFormat::V3
        } else {
            ReportFormat::V2
        }
    }

    /// An extended request.
    pub open spec fn ext_request(
        self,
        data: Option<[u8; 64]>,
        mnonce: [u8; 16],
        flags: u32,
    ) -> ReportRequest {
        ReportRequest { data, mnonce, flags, format: self.ext_format(flags) }
    }

    /// An extended request, whose answer has the layout that the flags ask for.
    pub fn request_report_ext(
        &self,
        data: Option<[u8; 64]>,
        mnonce: [u8; 16],
        flags: u32,
    ) -> (res: ReportRequest)
        ensures
            res == self.ext_request(data, mnonce, flags),
            res.data == data,
            res.mnonce == mnonce,
            res.flags == flags,
            res.format == ReportFormat::V3 <==> flags & self.ext_v3_flag != 0,
            res.format == ReportFormat::V2 <==> flags & self.ext_v3_flag == 0,
    {
        let format = if flags & self.ext_v3_flag != 0 {
            ReportFormat::V3
        } else {
            ReportFormat::V2
        };
        ReportRequest { data, mnonce, flags, format }
    }

    /// Whether a report is the answer to a request, with the mark and the flags that tell its
    /// layout: neither for the legacy report, the mark of extended reports and the flags of the
    /// request for the others.
    pub open spec fn wraps(
        self,
        request: ReportRequest,
        response: Vec<u8>,
        report: AttestationReportWrapper,
    ) -> bool {
        &&& report.data == response
        &&& request.format == ReportFormat::V1 ==> report.flags == 0 && forall|i: int|
            0 <= i < 16 ==> #[trigger] report.magic@[i] == 0
        &&& request.format != ReportFormat::V1 ==> report.flags == request.flags && report.magic
            == self.ext_magic
    }

    /// The answer to a request, with the mark and the flags that tell its layout: neither for
    /// the legacy report, the mark of extended reports and the flags of the request for the
    /// others.
    pub fn wrap_response(&self, request: &ReportRequest, response: Vec<u8>) -> (res:
        AttestationReportWrapper)
        ensures
            self.wraps(*request, response, res),
            res.data@ == response@,
            request.format == ReportFormat::V1 ==> res.flags == 0 && res.magic@ == Seq::new(
                16,
                |i: int| 0u8,
            ),
            request.format != ReportFormat::V1 ==> res.flags == request.flags && res.magic@
                == self.ext_magic@,
    {
        match request.format {
            ReportFormat::V1 => {
                let magic = [0u8; 16];
                assert(magic@ =~= Seq::new(16, |i: int| 0u8));
                AttestationReportWrapper { magic, flags: 0, data: response }
            },
            _ => AttestationReportWrapper {
                magic: self.ext_magic,
                flags: request.flags,
                data: response,
            },
        }
    }

    /// Whether a request comes to `result` when the device's interface gave `returned`, the
    /// check of the answer's signer came to `verified`, and `response` is the answer: a report
    /// where both went well, else the failure of the request, or that of the check where the
    /// request went well.
    pub open spec fn concludes<E>(
        self,
        request: ReportRequest,
        returned: Result<i64, E>,
        verified: Result<(), E>,
        response: Vec<u8>,
        result: Result<AttestationReportWrapper, E>,
    ) -> bool {
        match (returned, verified) {
            (Err(error), _) => result == Err::<AttestationReportWrapper, E>(error),
            (Ok(_), Err(error)) => result == Err::<AttestationReportWrapper, E>(error),
            (Ok(_), Ok(_)) => result matches Ok(report) && self.wraps(request, response, report),
        }
    }

    /// What a request comes to. A report is returned only when the request went well and the
    /// signer of the answer was verified; `verified` does not count where the request failed.
    pub fn conclude_request<E>(
        &self,
        request: &ReportRequest,
        returned: Result<i64, E>,
        verified: Result<(), E>,
        response: Vec<u8>,
    ) -> (res: Result<AttestationReportWrapper, E>)
        ensures
            res is Ok <==> returned is Ok && verified is Ok,
            self.concludes(*request, returned, verified, response, res),
            returned matches Err(error) ==> res == Err::<AttestationReportWrapper, E>(error),
            returned is Ok ==> (verified matches Err(error) ==> res == Err::<
                AttestationReportWrapper,
                E,
            >(error)),
            res matches Ok(report) ==> {
                &&& report.data@ == response@
                &&& request.format == ReportFormat::V1 ==> report.flags == 0 && report.magic@
                    == Seq::new(16, |i: int| 0u8)
                &&& request.format != ReportFormat::V1 ==> report.flags == request.flags
                    && report.magic@ == self.ext_magic@
            },
    {
        match returned {
            Err(error) => Err(error),
            Ok(_) => match verified {
                Err(error) => Err(error),
                Ok(_) => Ok(self.wrap_response(request, response)),
            },
        }
    }
}

/// A request for the legacy report.
pub open spec fn legacy(data: Option<[u8; 64]>, mnonce: [u8; 16]) -> ReportRequest {
    ReportRequest { data, mnonce, flags: 0, format: ReportFormat::V1 }
}

/// A request for the legacy report.
pub fn legacy_request(data: Option<[u8; 64]>, mnonce: [u8; 16]) -> (res: ReportRequest)
    ensures
        res == legacy(data, mnonce),
        res.data == data,
        res.mnonce == mnonce,
        res.flags == 0,
        res.format == ReportFormat::V1,
{
    ReportRequest { data, mnonce, flags: 0, format: ReportFormat::V1 }
}

/// The number that the answer's mask is taken with: the one in the legacy report, none in the
/// others.
pub fn signer_anonce(format: ReportFormat, report_anonce: u32) -> (res: u32)
    ensures
        res == if format == ReportFormat::V1 {
            report_anonce
        } else {
            0
        },
{
    match format {
        ReportFormat::V1 => report_anonce,
        _ => 0,
    }
}

/// Puts the bytes of a request at the start of the buffer that its answer will fill.
pub fn place_request(request: &[u8], response: &mut Vec<u8>)
    requires
        request@.len() <= old(response)@.len(),
    ensures
        final(response)@ == request@ + old(response)@.skip(request@.len() as int),
{
    let ghost earlier = response@;
    for i in 0..request.len()
        invariant
            request@.len() <= earlier.len(),
            response@ == request@.take(i as int) + earlier.skip(i as int),
    {
        response.set(i, request[i]);
        assert(response@ =~= request@.take(i + 1) + earlier.skip(i + 1));
    }
    assert(request@.take(request@.len() as int) =~= request@);
}

/// Calls `rand`'s `Rng::gen` for one byte, with the generator that `thread_rng` gives. Nothing is
/// claimed of the byte. The call panics where the machine fails it: where the operating system
/// has no seed for a new generator, where it has none when the generator is due for another, and
/// where the handler that reseeds after a fork cannot be set.
#[verifier::external_body]
fn random_byte() -> u8 {
    rand::thread_rng().gen()
}

/// The nonce of a request: the given one, or a random one where none is given. Of a random one
/// nothing is claimed.
pub fn choose_mnonce(mnonce: Option<[u8; 16]>) -> (res: [u8; 16])
    ensures
        mnonce matches Some(given) ==> res == given,
{
    match mnonce {
        Some(given) => given,
        None => {
            let mut value = [0u8; 16];
            for i in 0..16 {
                value[i] = random_byte();
            }
            value
        },
    }
}

/// What a [`ReportExchange`] waits for.
pub enum Stage {
    /// To hear whether extended reports are supported.
    Support,
    /// The answer to a request that tells the firmware build.
    Probe,
    /// The build that this report tells, if it tells one.
    Build(AttestationReportWrapper),
    /// The answer to this request, which ends the exchange.
    Last(ReportRequest),
}

/// An exchange with the device that ends with a report.
pub struct ReportExchange {
    pub interface: ReportInterface,
    pub data: Option<[u8; 64]>,
    pub mnonce: [u8; 16],
    pub flags: u32,
    pub stage: Stage,
}

/// What an exchange asks for.
pub enum ExchangeAction<'a> {
    /// Find out whether extended reports are supported.
    CheckSupport,
    /// Make the request.
    Issue(ReportRequest),
    /// Read the firmware build in the report, if it is of the extended layout.
    ReadBuild(&'a AttestationReportWrapper),
}

/// What came of what an exchange asked for, with failures `E`.
pub enum ExchangeEvent<E> {
    /// Whether extended reports are supported.
    Support(bool),
    /// The answer to the request.
    Answer(Result<AttestationReportWrapper, E>),
    /// The firmware build, where the report is of the extended layout.
    Build(Option<u32>),
}

/// What an exchange does after an event: go on, or end.
pub enum ExchangeStep<E> {
    Continue(ReportExchange),
    Done(Result<AttestationReportWrapper, E>),
}

/// Whether an event answers what the exchange asked for.
pub open spec fn answers<E>(exchange: ReportExchange, event: ExchangeEvent<E>) -> bool {
    match exchange.stage {
        Stage::Support => event is Support,
        Stage::Probe | Stage::Last(_) => event is Answer,
        Stage::Build(_) => event is Build,
    }
}

/// What an exchange at its present stage asks for.
pub open spec fn action_of<'a>(exchange: ReportExchange) -> ExchangeAction<'a> {
    match exchange.stage {
        Stage::Support => ExchangeAction::CheckSupport,
        Stage::Probe => ExchangeAction::Issue(
            exchange.interface.ext_request(
                exchange.data,
                exchange.mnonce,
                exchange.interface.ext_flag,
            ),
        ),
        Stage::Build(report) => ExchangeAction::ReadBuild(&report),
        Stage::Last(request) => ExchangeAction::Issue(request),
    }
}

/// What an exchange does after an event that answers what it asked for.
pub open spec fn step_of<E>(exchange: ReportExchange, event: ExchangeEvent<E>) -> ExchangeStep<E> {
    let last = exchange.interface.ext_request(exchange.data, exchange.mnonce, exchange.flags);
    match (exchange.stage, event) {
        (Stage::Support, ExchangeEvent::Support(supported)) => {
            let stage = if !supported || exchange.flags == 0 {
                Stage::Last(legacy(exchange.data, exchange.mnonce))
            } else if exchange.interface.wants_v3(exchange.flags) {
                Stage::Probe
            } else {
                Stage::Last(last)
            };
            ExchangeStep::Continue(ReportExchange { stage, ..exchange })
        },
        (Stage::Probe, ExchangeEvent::Answer(answer)) => match answer {
            Ok(report) => ExchangeStep::Continue(
                ReportExchange { stage: Stage::Build(report), ..exchange },
            ),
            Err(error) => ExchangeStep::Done(Err(error)),
        },
        (Stage::Build(report), ExchangeEvent::Build(build)) => match build {
            Some(build) => if build >= exchange.interface.v3_min_build {
                ExchangeStep::Continue(ReportExchange { stage: Stage::Last(last), ..exchange })
            } else {
                ExchangeStep::Done(Ok(report))
            },
            None => ExchangeStep::Done(Ok(report)),
        },
        (Stage::Last(_), ExchangeEvent::Answer(answer)) => ExchangeStep::Done(answer),
        _ => ExchangeStep::Continue(exchange),
    }
}

/// The exchange for the legacy report, with a nonce that is known.
pub open spec fn legacy_exchange(
    interface: ReportInterface,
    data: Option<[u8; 64]>,
    mnonce: [u8; 16],
) -> ReportExchange {
    ReportExchange { interface, data, mnonce, flags: 0, stage: Stage::Last(legacy(data, mnonce)) }
}

/// The exchange for the best report that the flags ask for, with a nonce that is known.
pub open spec fn ext_exchange(
    interface: ReportInterface,
    data: Option<[u8; 64]>,
    mnonce: [u8; 16],
    flags: u32,
) -> ReportExchange {
    ReportExchange { interface, data, mnonce, flags, stage: Stage::Support }
}

impl ReportExchange {
    /// The exchange for the legacy report. The nonce is random where none is given.
    pub fn get_report(
        interface: ReportInterface,
        data: Option<[u8; 64]>,
        mnonce: Option<[u8; 16]>,
    ) -> (res: ReportExchange)
        ensures
            res == legacy_exchange(interface, data, res.mnonce),
            mnonce matches Some(given) ==> res.mnonce == given,
            res.interface == interface,
            res.stage == Stage::Last(
                ReportRequest { data, mnonce: res.mnonce, flags: 0, format: ReportFormat::V1 },
            ),
    {
        Self::get_report_with(interface, data, choose_mnonce(mnonce))
    }

    /// The exchange for the legacy report, with the given nonce.
    pub fn get_report_with(
        interface: ReportInterface,
        data: Option<[u8; 64]>,
        mnonce: [u8; 16],
    ) -> (res: ReportExchange)
        ensures
            res == legacy_exchange(interface, data, mnonce),
            res.interface == interface,
            res.stage == Stage::Last(
                ReportRequest { data, mnonce, flags: 0, format: ReportFormat::V1 },
            ),
    {
        ReportExchange {
            interface,
            data,
            mnonce,
            flags: 0,
            stage: Stage::Last(legacy_request(data, mnonce)),
        }
    }

    /// The exchange for the report that the flags ask for. The nonce is random where none is
    /// given.
    ///
    /// The legacy report is requested where extended reports are not supported, and where there
    /// are no flags. Where the flags ask for the extended report of CSV3, an extended report is
    /// requested first, and the other only if the build that it tells can give it.
    pub fn get_report_ext(
        interface: ReportInterface,
        data: Option<[u8; 64]>,
        mnonce: Option<[u8; 16]>,
        flags: u32,
    ) -> (res: ReportExchange)
        ensures
            res == ext_exchange(interface, data, res.mnonce, flags),
            mnonce matches Some(given) ==> res.mnonce == given,
            res.interface == interface,
            res.data == data,
            res.flags == flags,
            res.stage is Support,
    {
        Self::get_report_ext_with(interface, data, choose_mnonce(mnonce), flags)
    }

    /// The exchange for the report that the flags ask for, with the given nonce.
    pub fn get_report_ext_with(
        interface: ReportInterface,
        data: Option<[u8; 64]>,
        mnonce: [u8; 16],
        flags: u32,
    ) -> (res: ReportExchange)
        ensures
            res == ext_exchange(interface, data, mnonce, flags),
            res.interface == interface,
            res.data == data,
            res.mnonce == mnonce,
            res.flags == flags,
            res.stage is Support,
    {
        ReportExchange { interface, data, mnonce, flags, stage: Stage::Support }
    }

    /// What the exchange asks for.
    pub fn action<'a>(&'a self) -> (res: ExchangeAction<'a>)
        ensures
            res == action_of(*self),
            self.stage is Support ==> res is CheckSupport,
            self.stage is Probe ==> (res matches ExchangeAction::Issue(request) && request.data
                == self.data && request.mnonce == self.mnonce && request.flags
                == self.interface.ext_flag && (request.format == ReportFormat::V3
                <==> self.interface.ext_flag & self.interface.ext_v3_flag != 0) && request.format
                != ReportFormat::V1),
            self.stage matches Stage::Build(report) ==> (res matches ExchangeAction::ReadBuild(
                found,
            ) && *found == report),
            self.stage matches Stage::Last(last) ==> (res matches ExchangeAction::Issue(request)
                && request == last),
    {
        match &self.stage {
            Stage::Support => ExchangeAction::CheckSupport,
            Stage::Probe => ExchangeAction::Issue(
                self.interface.request_report_ext(
                    self.data,
                    self.mnonce,
                    self.interface.ext_flag,
                ),
            ),
            Stage::Build(report) => ExchangeAction::ReadBuild(report),
            Stage::Last(request) => ExchangeAction::Issue(*request),
        }
    }

    /// Takes what came of what the exchange asked for.
    pub fn advance<E>(self, event: ExchangeEvent<E>) -> (res: ExchangeStep<E>)
        requires
            answers(self, event),
        ensures
            res == step_of(self, event),
            self.stage is Probe ==> match event {
                ExchangeEvent::Answer(Ok(report)) => res == ExchangeStep::<E>::Continue(
                    ReportExchange {
                        interface: self.interface,
                        data: self.data,
                        mnonce: self.mnonce,
                        flags: self.flags,
                        stage: Stage::Build(report),
                    },
                ),
                ExchangeEvent::Answer(Err(error)) => res == ExchangeStep::<E>::Done(Err(error)),
                _ => true,
            },
            self.stage is Last ==> (event matches ExchangeEvent::Answer(answer) ==> res
                == ExchangeStep::Done(answer)),
    {
        let ReportExchange { interface, data, mnonce, flags, stage } = self;
        match (stage, event) {
            (Stage::Support, ExchangeEvent::Support(supported)) => {
                let stage = if !supported || flags == 0 {
                    Stage::Last(legacy_request(data, mnonce))
                } else if flags & interface.ext_v3_flag != 0 {
                    Stage::Probe
                } else {
                    Stage::Last(interface.request_report_ext(data, mnonce, flags))
                };
                ExchangeStep::Continue(ReportExchange { interface, data, mnonce, flags, stage })
            },
            (Stage::Probe, ExchangeEvent::Answer(answer)) => match answer {
                Ok(report) => ExchangeStep::Continue(
                    ReportExchange { interface, data, mnonce, flags, stage: Stage::Build(report) },
                ),
                Err(error) => ExchangeStep::Done(Err(error)),
            },
            (Stage::Build(report), ExchangeEvent::Build(build)) => {
                let able = match build {
                    Some(build) => build >= interface.v3_min_build,
                    None => false,
                };
                if able {
                    let last = interface.request_report_ext(data, mnonce, flags);
                    ExchangeStep::Continue(
                        ReportExchange { interface, data, mnonce, flags, stage: Stage::Last(last) },
                    )
                } else {
                    ExchangeStep::Done(Ok(report))
                }
            },
            (Stage::Last(_), ExchangeEvent::Answer(answer)) => ExchangeStep::Done(answer),
            (stage, _) => ExchangeStep::Continue(
                ReportExchange { interface, data, mnonce, flags, stage },
            ),
        }
    }
}

/// A device: whether it supports extended reports, how it answers requests, and the builds that
/// its reports tell.
pub struct Device<E> {
    pub supported: bool,
    pub answer: spec_fn(ReportRequest) -> Result<AttestationReportWrapper, E>,
    pub build: spec_fn(AttestationReportWrapper) -> Option<u32>,
}

/// What comes of what an exchange asks for.
pub open spec fn event_of<E>(exchange: ReportExchange, device: Device<E>) -> ExchangeEvent<E> {
    match action_of(exchange) {
        ExchangeAction::CheckSupport => ExchangeEvent::Support(device.supported),
        ExchangeAction::Issue(request) => ExchangeEvent::Answer((device.answer)(request)),
        ExchangeAction::ReadBuild(report) => ExchangeEvent::Build((device.build)(*report)),
    }
}

/// How many steps an exchange can still take.
pub open spec fn steps_left(exchange: ReportExchange) -> nat {
    match exchange.stage {
        Stage::Support => 3,
        Stage::Probe => 2,
        Stage::Build(_) => 1,
        Stage::Last(_) => 0,
    }
}

/// What an exchange with a device comes to.
pub open spec fn exchange_outcome<E>(exchange: ReportExchange, device: Device<E>) -> Result<
    AttestationReportWrapper,
    E,
>
    decreases steps_left(exchange),
{
    match step_of(exchange, event_of(exchange, device)) {
        ExchangeStep::Continue(next) => exchange_outcome(next, device),
        ExchangeStep::Done(result) => result,
    }
}

/// The requests that an exchange makes of a device, in order.
pub open spec fn requests_made<E>(exchange: ReportExchange, device: Device<E>) -> Seq<ReportRequest>
    decreases steps_left(exchange),
{
    let made = match action_of(exchange) {
        ExchangeAction::Issue(request) => seq![request],
        _ => seq![],
    };
    match step_of(exchange, event_of(exchange, device)) {
        ExchangeStep::Continue(next) => made + requests_made(next, device),
        ExchangeStep::Done(_) => made,
    }
}

/// The legacy exchange comes to the answer to the one request that it makes.
pub proof fn legacy_exchange_makes_one_request<E>(
    interface: ReportInterface,
    data: Option<[u8; 64]>,
    mnonce: [u8; 16],
    device: Device<E>,
)
    ensures
        exchange_outcome(legacy_exchange(interface, data, mnonce), device) == (device.answer)(
            legacy(data, mnonce),
        ),
        requests_made(legacy_exchange(interface, data, mnonce), device) == seq![
            legacy(data, mnonce),
        ],
{
}

/// What an extended exchange comes to. Without support, or without flags, it is the legacy
/// report; where the flags do not ask for the extended report of CSV3, it is the report that
/// they do ask for. Where they do, it is that one only if the extended report tells a build
/// that can give it, and the extended report otherwise.
pub proof fn ext_exchange_falls_back<E>(
    interface: ReportInterface,
    data: Option<[u8; 64]>,
    mnonce: [u8; 16],
    flags: u32,
    device: Device<E>,
)
    ensures
        exchange_outcome(ext_exchange(interface, data, mnonce, flags), device) == {
            let last = interface.ext_request(data, mnonce, flags);
            if !device.supported || flags == 0 {
                (device.answer)(legacy(data, mnonce))
            } else if !interface.wants_v3(flags) {
                (device.answer)(last)
            } else {
                match (device.answer)(interface.ext_request(data, mnonce, interface.ext_flag)) {
                    Err(error) => Err(error),
                    Ok(report) => match (device.build)(report) {
                        Some(build) => if build >= interface.v3_min_build {
                            (device.answer)(last)
                        } else {
                            Ok(report)
                        },
                        None => Ok(report),
                    },
                }
            }
        },
{
    reveal_with_fuel(exchange_outcome, 5);
}

/// All requests of an extended exchange carry the same data and nonce, there are at most two of
/// them, and the extended report of CSV3 is requested only after an extended report has told a
/// build that can give it.
pub proof fn v3_is_requested_only_of_able_builds<E>(
    interface: ReportInterface,
    data: Option<[u8; 64]>,
    mnonce: [u8; 16],
    flags: u32,
    device: Device<E>,
    i: int,
)
    requires
        !interface.wants_v3(interface.ext_flag),
        0 <= i < requests_made(ext_exchange(interface, data, mnonce, flags), device).len(),
    ensures
        ({
            let made = requests_made(ext_exchange(interface, data, mnonce, flags), device);
            &&& made.len() <= 2
            &&& made[i].data == data
            &&& made[i].mnonce == mnonce
            &&& made[i].format == ReportFormat::V3 ==> {
                &&& device.supported
                &&& i == 1
                &&& made[0].format == ReportFormat::V2
                &&& (device.answer)(made[0]) matches Ok(report) && (device.build)(
                    report,
                ) matches Some(build) && build >= interface.v3_min_build
            }
        }),
{
    reveal_with_fuel(requests_made, 5);
}

/// What the requests that an exchange makes come to at the device's interface: what it returns,
/// what the check of the answer's signer comes to, and the answer.
pub struct Replies<E> {
    pub returned: spec_fn(ReportRequest) -> Result<i64, E>,
    pub verified: spec_fn(ReportRequest) -> Result<(), E>,
    pub response: spec_fn(ReportRequest) -> Vec<u8>,
}

/// Whether a device answers each request with what the request comes to at its interface.
pub open spec fn answers_with<E>(
    device: Device<E>,
    interface: ReportInterface,
    replies: Replies<E>,
) -> bool {
    forall|request: ReportRequest|
        interface.concludes(
            request,
            (replies.returned)(request),
            (replies.verified)(request),
            (replies.response)(request),
            #[trigger] (device.answer)(request),
        )
}

/// Whether a report is the answer to a request that went well and whose signer was verified.
pub open spec fn verified_answer<E>(
    interface: ReportInterface,
    replies: Replies<E>,
    request: ReportRequest,
    report: AttestationReportWrapper,
) -> bool {
    &&& (replies.returned)(request) is Ok
    &&& (replies.verified)(request) is Ok
    &&& interface.wraps(request, (replies.response)(request), report)
}

proof fn exchange_returns_an_answer<E>(exchange: ReportExchange, device: Device<E>)
    requires
        exchange.stage !is Build,
    ensures
        exchange_outcome(exchange, device) matches Ok(report) ==> exists|i: int|
            0 <= i < requests_made(exchange, device).len() && (device.answer)(
                #[trigger] requests_made(exchange, device)[i],
            ) == Ok::<AttestationReportWrapper, E>(report),
    decreases steps_left(exchange),
{
    reveal_with_fuel(exchange_outcome, 3);
    reveal_with_fuel(requests_made, 3);
    let made = requests_made(exchange, device);
    match exchange.stage {
        Stage::Support => {
            if let ExchangeStep::Continue(next) = step_of(exchange, event_of(exchange, device)) {
                exchange_returns_an_answer(next, device);
                assert(made =~= requests_made(next, device));
            }
        },
        Stage::Probe => {
            if let Ok(report) = exchange_outcome(exchange, device) {
                if made.len() == 1 {
                    assert((device.answer)(made[0]) == Ok::<AttestationReportWrapper, E>(report));
                } else {
                    assert((device.answer)(made[1]) == Ok::<AttestationReportWrapper, E>(report));
                }
            }
        },
        Stage::Last(request) => {
            assert(made =~= seq![request]);
            assert(made[0] == request);
        },
        Stage::Build(_) => {},
    }
}

/// A report that an exchange returns is the answer to one of the requests that it made, that
/// request went well, and the signer of the answer was verified: no exchange returns a report
/// that was not.
pub proof fn unverified_report_is_never_returned<E>(
    interface: ReportInterface,
    data: Option<[u8; 64]>,
    mnonce: [u8; 16],
    flags: u32,
    device: Device<E>,
    replies: Replies<E>,
)
    requires
        answers_with(device, interface, replies),
    ensures
        exchange_outcome(legacy_exchange(interface, data, mnonce), device) matches Ok(report)
            ==> verified_answer(interface, replies, legacy(data, mnonce), report),
        exchange_outcome(ext_exchange(interface, data, mnonce, flags), device) matches Ok(report)
            ==> exists|i: int|
            0 <= i < requests_made(ext_exchange(interface, data, mnonce, flags), device).len()
                && verified_answer(
                interface,
                replies,
                #[trigger] requests_made(
                    ext_exchange(interface, data, mnonce, flags),
                    device,
                )[i],
                report,
            ),
{
    legacy_exchange_makes_one_request(interface, data, mnonce, device);
    let exchange = ext_exchange(interface, data, mnonce, flags);
    exchange_returns_an_answer(exchange, device);
    let made = requests_made(exchange, device);
    if let Ok(report) = exchange_outcome(exchange, device) {
        let i = choose|i: int|
            0 <= i < made.len() && (device.answer)(#[trigger] made[i]) == Ok::<
                AttestationReportWrapper,
                E,
            >(report);
        assert(verified_answer(interface, replies, made[i], report));
    }
}

/// A request for an extended report carries its data, nonce and flags as they are, and its
/// answer is in the layout of CSV3 exactly when the flags have a bit in common with the flag for
/// that report. A legacy request carries data and nonce, and no flags.
pub proof fn requests_carry_what_is_asked(
    interface: ReportInterface,
    data: Option<[u8; 64]>,
    mnonce: [u8; 16],
    flags: u32,
)
    ensures
        ({
            let request = interface.ext_request(data, mnonce, flags);
            &&& request.data == data
            &&& request.mnonce == mnonce
            &&& request.flags == flags
            &&& request.format == ReportFormat::V3 <==> flags & interface.ext_v3_flag != 0
            &&& request.format == ReportFormat::V2 <==> flags & interface.ext_v3_flag == 0
        }),
        ({
            let request = legacy(data, mnonce);
            &&& request.data == data
            &&& request.mnonce == mnonce
            &&& request.flags == 0
            &&& request.format == ReportFormat::V1
        }),
{
}

/// A report that concludes a request is its answer, byte for byte. It has the mark of extended
/// reports and the flags of the request where that asked for an extended layout, either of
/// them, and no mark and no flags where it asked for the legacy one.
pub proof fn report_is_marked<E>(
    interface: ReportInterface,
    request: ReportRequest,
    returned: Result<i64, E>,
    verified: Result<(), E>,
    response: Vec<u8>,
    report: AttestationReportWrapper,
)
    requires
        interface.concludes(request, returned, verified, response, Ok(report)),
    ensures
        returned is Ok,
        verified is Ok,
        report.data@ == response@,
        request.format == ReportFormat::V2 || request.format == ReportFormat::V3 ==> report.magic@
            == interface.ext_magic@ && report.flags == request.flags,
        request.format == ReportFormat::V1 ==> report.flags == 0 && report.magic@ == Seq::new(
            16,
            |i: int| 0u8,
        ),
{
    if request.format == ReportFormat::V1 {
        assert(report.magic@ =~= Seq::new(16, |i: int| 0u8));
    }
}

/// What an extended exchange comes to with a device whose requests come to `replies`. The
/// report returned has no mark and no flags where extended reports are not supported or no flags
/// were given. Otherwise it has the mark of extended reports, and the flags that were asked for,
/// unless those ask for the report of CSV3 and the build that the extended report tells cannot
/// give it: then it has the flag of the extended report alone.
pub proof fn returned_report_is_marked<E>(
    interface: ReportInterface,
    data: Option<[u8; 64]>,
    mnonce: [u8; 16],
    flags: u32,
    device: Device<E>,
    replies: Replies<E>,
    report: AttestationReportWrapper,
)
    requires
        answers_with(device, interface, replies),
        exchange_outcome(ext_exchange(interface, data, mnonce, flags), device) == Ok::<
            AttestationReportWrapper,
            E,
        >(report),
    ensures
        !device.supported || flags == 0 ==> report.flags == 0 && report.magic@ == Seq::new(
            16,
            |i: int| 0u8,
        ),
        device.supported && flags != 0 ==> report.magic@ == interface.ext_magic@,
        device.supported && flags != 0 && flags & interface.ext_v3_flag == 0 ==> report.flags
            == flags,
        device.supported && flags & interface.ext_v3_flag != 0 && flags != 0 ==> {
            let format = if interface.ext_flag & interface.ext_v3_flag != 0 {
                ReportFormat::V3
            } else {
                ReportFormat::V2
            };
            let probe = (device.answer)(
                ReportRequest { data, mnonce, flags: interface.ext_flag, format },
            );
            &&& probe is Ok
            &&& ((device.build)(probe->Ok_0) matches Some(build) && build
                >= interface.v3_min_build) ==> report.flags == flags
            &&& !((device.build)(probe->Ok_0) matches Some(build) && build
                >= interface.v3_min_build) ==> report == probe->Ok_0 && report.flags
                == interface.ext_flag
        },
{
    ext_exchange_falls_back(interface, data, mnonce, flags, device);
    let first = legacy(data, mnonce);
    let last = interface.ext_request(data, mnonce, flags);
    let probe = interface.ext_request(data, mnonce, interface.ext_flag);
    let asked = if !device.supported || flags == 0 {
        first
    } else if (device.answer)(last) == Ok::<AttestationReportWrapper, E>(report) {
        last
    } else {
        probe
    };
    if device.supported && flags != 0 && interface.wants_v3(flags) {
        let answer = (device.answer)(probe);
        if let Ok(probed) = answer {
            report_is_marked(
                interface,
                probe,
                (replies.returned)(probe),
                (replies.verified)(probe),
                (replies.response)(probe),
                probed,
            );
        }
    }
    if (device.answer)(asked) == Ok::<AttestationReportWrapper, E>(report) {
        report_is_marked(
            interface,
            asked,
            (replies.returned)(asked),
            (replies.verified)(asked),
            (replies.response)(asked),
            report,
        );
    }
}

/// What an extended exchange asks for first, and what it does with the answer: it asks for
/// support; without it, or without flags, it goes on to the legacy request; with flags that ask
/// for the report of CSV3 it goes on to the probe; with other flags to the request with those.
pub proof fn support_decides_the_next_stage<E>(exchange: ReportExchange, supported: bool)
    requires
        exchange.stage is Support,
    ensures
        step_of::<E>(exchange, ExchangeEvent::Support(supported)) matches ExchangeStep::Continue(
            next,
        ) && {
            &&& next.interface == exchange.interface
            &&& next.data == exchange.data
            &&& next.mnonce == exchange.mnonce
            &&& next.flags == exchange.flags
            &&& !supported || exchange.flags == 0 ==> next.stage == Stage::Last(
                ReportRequest {
                    data: exchange.data,
                    mnonce: exchange.mnonce,
                    flags: 0,
                    format: ReportFormat::V1,
                },
            )
            &&& supported && exchange.flags != 0 && exchange.flags & exchange.interface.ext_v3_flag
                != 0 ==> next.stage is Probe
            &&& supported && exchange.flags != 0 && exchange.flags & exchange.interface.ext_v3_flag
                == 0 ==> next.stage == Stage::Last(
                ReportRequest {
                    data: exchange.data,
                    mnonce: exchange.mnonce,
                    flags: exchange.flags,
                    format: ReportFormat::V2,
                },
            )
        },
{
}

/// What an exchange does with a report that tells a build: it goes on to the request for the
/// report of CSV3 where the build is that of the first able firmware or a later one, and returns
/// the report at hand otherwise.
pub proof fn build_decides_the_last_request<E>(
    exchange: ReportExchange,
    report: AttestationReportWrapper,
    build: Option<u32>,
)
    requires
        exchange.stage == Stage::Build(report),
    ensures
        build is Some && build->0 >= exchange.interface.v3_min_build ==> (step_of::<E>(
            exchange,
            ExchangeEvent::Build(build),
        ) matches ExchangeStep::Continue(next) && next.interface == exchange.interface && (
        next.stage matches Stage::Last(request) && request.data == exchange.data && request.mnonce
            == exchange.mnonce && request.flags == exchange.flags && (request.format
            == ReportFormat::V3 <==> exchange.flags & exchange.interface.ext_v3_flag != 0))),
        build is None || build->0 < exchange.interface.v3_min_build ==> step_of::<E>(
            exchange,
            ExchangeEvent::Build(build),
        ) == ExchangeStep::<E>::Done(Ok(report)),
{
}

} // verus!
