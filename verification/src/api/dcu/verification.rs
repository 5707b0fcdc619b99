//! The verification of attestation reports against the certificate chain of the chip, and the
//! files that the chain is kept in.
//!
//! Decoding a certificate and checking a signature are steps that are done elsewhere; what is
//! decided here is which step comes next and what the outcomes add up to.

use crate::error::{Error, ErrorKind, ErrorView};
use crate::text;
use vstd::prelude::*;
use vstd::string::*;

verus! {

/// What the verification reads of an attestation report.
#[derive(Clone, Copy, Debug)]
pub struct AttestationReport {
    pub body: ReportBody,
}

/// The signed part of an attestation report.
#[derive(Clone, Copy, Debug)]
pub struct ReportBody {
    /// What the requester gave, to be found again in the report.
    pub user_data: [u8; 64],
    /// The identifier of the chip, which its certificate is found by.
    pub chip_id: [u8; 16],
}

/// A step of the verification of a report. HRK is the root key, HSK the signing key and CEK
/// the chip endorsement key.
#[derive(Clone, Copy, Debug, PartialEq, Eq, Structural)]
pub enum VerificationStep {
    /// Decode the HSK certificate, which starts the certificate data.
    DecodeHsk,
    /// Decode the CEK certificate, which follows it.
    DecodeCek,
    /// Decode the built-in HRK certificate.
    DecodeHrk,
    /// Check the HRK certificate with the HRK.
    HrkSignsHrk,
    /// Check the HSK certificate with the HRK.
    HrkSignsHsk,
    /// Check the CEK certificate with the HSK.
    HskSignsCek,
    /// Check the report with the CEK.
    CekSignsReport,
}

/// How many steps there are.
pub const VERIFICATION_STEPS: usize = 7;

/// The steps in the order in which they are done.
pub open spec fn step_at(i: int) -> VerificationStep {
    if i == 0 {
        VerificationStep::DecodeHsk
    } else if i == 1 {
        VerificationStep::DecodeCek
    } else if i == 2 {
        VerificationStep::DecodeHrk
    } else if i == 3 {
        VerificationStep::HrkSignsHrk
    } else if i == 4 {
        VerificationStep::HrkSignsHsk
    } else if i == 5 {
        VerificationStep::HskSignsCek
    } else {
        VerificationStep::CekSignsReport
    }
}

/// Where the verification of a report stands.
pub enum Verification<'a, E> {
    /// The step is to be done.
    Perform(VerificationStep),
    /// The report is verified.
    Accepted,
    /// A step failed.
    Failed(&'a E),
    /// The user data of the report is not that of the request.
    NonceMismatch(Error),
}

/// Where the verification of a report stands, by its contents.
pub enum VerificationView<E> {
    Perform(VerificationStep),
    Accepted,
    Failed(E),
    NonceMismatch(ErrorView),
}

impl<'a, E> View for Verification<'a, E> {
    type V = VerificationView<E>;

    open spec fn view(&self) -> VerificationView<E> {
        match *self {
            Verification::Perform(step) => VerificationView::Perform(step),
            Verification::Accepted => VerificationView::Accepted,
            Verification::Failed(error) => VerificationView::Failed(*error),
            Verification::NonceMismatch(error) => VerificationView::NonceMismatch(error@),
        }
    }
}

/// The failure of a report with other user data than that of the request.
pub open spec fn nonce_mismatch() -> ErrorView {
    ErrorView { kind: ErrorKind::InvalidData, message: "Attestation nonce mismatch"@ }
}

/// Where the verification stands when the first `i` steps went well. User data other than the
/// expected one counts before any step.
pub open spec fn verification_from<E>(
    same_user_data: bool,
    outcomes: Seq<Result<(), E>>,
    i: int,
) -> VerificationView<E>
    decreases VERIFICATION_STEPS - i,
{
    if !same_user_data {
        VerificationView::NonceMismatch(nonce_mismatch())
    } else if i >= VERIFICATION_STEPS {
        VerificationView::Accepted
    } else if i >= outcomes.len() {
        VerificationView::Perform(step_at(i))
    } else {
        match outcomes[i] {
            Ok(_) => verification_from(same_user_data, outcomes, i + 1),
            Err(error) => VerificationView::Failed(error),
        }
    }
}

fn exec_step_at(i: usize) -> (res: VerificationStep)
    ensures
        res == step_at(i as int),
{
    if i == 0 {
        VerificationStep::DecodeHsk
    } else if i == 1 {
        VerificationStep::DecodeCek
    } else if i == 2 {
        VerificationStep::DecodeHrk
    } else if i == 3 {
        VerificationStep::HrkSignsHrk
    } else if i == 4 {
        VerificationStep::HrkSignsHsk
    } else if i == 5 {
        VerificationStep::HskSignsCek
    } else {
        VerificationStep::CekSignsReport
    }
}

fn same_user_data(a: &[u8; 64], b: &[u8; 64]) -> (res: bool)
    ensures
        res == (a@ == b@),
{
    for i in 0..64
        invariant
            forall|j: int| 0 <= j < i ==> a@[j] == b@[j],
    {
        if a[i] != b[i] {
            return false;
        }
    }
    assert(a@ =~= b@);
    true
}

/// Where the verification of a report stands when the steps done so far ended as `outcomes`
/// says, in order.
///
/// The user data of the report is compared with that of the request first, the certificates are
/// then decoded, and the chain is checked last: HRK, HSK, CEK, report. The first failure ends
/// the verification.
pub fn verify_report<'a, E>(
    report: &AttestationReport,
    userdata: &[u8; 64],
    outcomes: &'a Vec<Result<(), E>>,
) -> (res: Verification<'a, E>)
    ensures
        res@ == verification_from(userdata@ == report.body.user_data@, outcomes@, 0),
        res is NonceMismatch <==> userdata@ != report.body.user_data@,
        res matches Verification::NonceMismatch(error) ==> error.kind == ErrorKind::InvalidData
            && error.message@ == "Attestation nonce mismatch"@,
        res is Accepted <==> userdata@ == report.body.user_data@ && outcomes@.len() >= 7
            && forall|i: int| 0 <= i < 7 ==> (#[trigger] outcomes@[i]) is Ok,
        res matches Verification::Failed(error) ==> exists|k: int|
            0 <= k < 7 && k < outcomes@.len() && #[trigger] outcomes@[k] == Err::<(), E>(*error)
                && forall|i: int| 0 <= i < k ==> (#[trigger] outcomes@[i]) is Ok,
        res matches Verification::Perform(step) ==> outcomes@.len() < 7 && step == seq![
            VerificationStep::DecodeHsk,
            VerificationStep::DecodeCek,
            VerificationStep::DecodeHrk,
            VerificationStep::HrkSignsHrk,
            VerificationStep::HrkSignsHsk,
            VerificationStep::HskSignsCek,
            VerificationStep::CekSignsReport,
        ][outcomes@.len() as int] && forall|i: int|
            0 <= i < outcomes@.len() ==> (#[trigger] outcomes@[i]) is Ok,
{
    if !same_user_data(userdata, &report.body.user_data) {
        return Verification::NonceMismatch(
            Error::new(ErrorKind::InvalidData, "Attestation nonce mismatch".to_string()),
        );
    }
    for i in 0..VERIFICATION_STEPS
        invariant
            userdata@ == report.body.user_data@,
            verification_from(true, outcomes@, 0) == verification_from(true, outcomes@, i as int),
            i <= outcomes@.len(),
            forall|j: int| 0 <= j < i ==> (#[trigger] outcomes@[j]) is Ok,
    {
        if i >= outcomes.len() {
            return Verification::Perform(exec_step_at(i));
        }
        match &outcomes[i] {
            Ok(_) => {},
            Err(error) => {
                assert(outcomes@[i as int] == Err::<(), E>(*error));
                return Verification::Failed(error);
            },
        }
    }
    Verification::Accepted
}

/// Whether the first `n` steps went well.
pub open spec fn all_well<E>(outcomes: Seq<Result<(), E>>, n: int) -> bool {
    &&& n <= outcomes.len()
    &&& forall|i: int| 0 <= i < n ==> (#[trigger] outcomes[i]) is Ok
}

proof fn verification_continues<E>(outcomes: Seq<Result<(), E>>, i: int)
    requires
        0 <= i <= VERIFICATION_STEPS,
        all_well(outcomes, i),
    ensures
        verification_from(true, outcomes, i) !is NonceMismatch,
        verification_from(true, outcomes, i) is Accepted <==> all_well(
            outcomes,
            VERIFICATION_STEPS as int,
        ),
        verification_from(true, outcomes, i) matches VerificationView::Failed(error) ==> exists|
            k: int,
        |
            i <= k < outcomes.len() && k < VERIFICATION_STEPS && all_well(outcomes, k)
                && #[trigger] outcomes[k] == Err::<(), E>(error),
        verification_from(true, outcomes, i) matches VerificationView::Perform(step) ==> step
            == step_at(outcomes.len() as int) && all_well(outcomes, outcomes.len() as int)
            && outcomes.len() < VERIFICATION_STEPS,
    decreases VERIFICATION_STEPS - i,
{
    if i < VERIFICATION_STEPS && i < outcomes.len() {
        match outcomes[i] {
            Ok(_) => {
                verification_continues(outcomes, i + 1);
            },
            Err(error) => {
                assert(!all_well(outcomes, VERIFICATION_STEPS as int));
                assert(outcomes[i] == Err::<(), E>(error));
            },
        }
    }
}

/// A report is refused for its user data exactly when that is not the user data of the request,
/// whatever the steps came to. With the user data of the request, it is accepted exactly when
/// every step went well; a step is reported to have failed, and one is asked for, only where
/// all before it went well.
pub proof fn accepted_only_when_all_is_well<E>(
    report: AttestationReport,
    userdata: [u8; 64],
    outcomes: Seq<Result<(), E>>,
)
    ensures
        ({
            let same = userdata@ == report.body.user_data@;
            let standing = verification_from(same, outcomes, 0);
            &&& standing is NonceMismatch <==> !same
            &&& standing is Accepted <==> same && all_well(outcomes, VERIFICATION_STEPS as int)
            &&& standing matches VerificationView::Failed(error) ==> same && exists|k: int|
                0 <= k < outcomes.len() && k < VERIFICATION_STEPS && all_well(outcomes, k)
                    && #[trigger] outcomes[k] == Err::<(), E>(error)
            &&& standing matches VerificationView::Perform(step) ==> same && step == step_at(
                outcomes.len() as int,
            ) && all_well(outcomes, outcomes.len() as int) && outcomes.len() < VERIFICATION_STEPS
        }),
{
    verification_continues(outcomes, 0);
}

/// Where the verification of several reports stands.
pub enum BatchVerification<'a, E> {
    /// The certificate data for the chip of this report is to be fetched, and the report to be
    /// verified with it.
    Verify(usize),
    /// All reports are verified.
    Accepted,
    /// The verification of a report failed.
    Failed(&'a E),
}

/// Where the verification of `count` reports stands when the first `i` are verified.
pub open spec fn batch_from<E>(count: int, outcomes: Seq<Result<(), E>>, i: int) -> Result<
    Option<int>,
    E,
>
    decreases count - i,
{
    if i >= count {
        Ok(None)
    } else if i >= outcomes.len() {
        Ok(Some(i))
    } else {
        match outcomes[i] {
            Ok(_) => batch_from(count, outcomes, i + 1),
            Err(error) => Err(error),
        }
    }
}

/// Where the verification of several reports stands when those done so far ended as `outcomes`
/// says, in order. The first failure ends it.
pub fn verify_reports<'a, E>(
    reports: &[AttestationReport],
    outcomes: &'a Vec<Result<(), E>>,
) -> (res: BatchVerification<'a, E>)
    ensures
        match batch_from(reports@.len() as int, outcomes@, 0) {
            Ok(Some(i)) => res matches BatchVerification::Verify(n) && n == i,
            Ok(None) => res is Accepted,
            Err(error) => res matches BatchVerification::Failed(found) && *found == error,
        },
        res is Accepted <==> outcomes@.len() >= reports@.len() && forall|i: int|
            0 <= i < reports@.len() ==> (#[trigger] outcomes@[i]) is Ok,
        res matches BatchVerification::Failed(error) ==> exists|k: int|
            0 <= k < reports@.len() && k < outcomes@.len() && #[trigger] outcomes@[k] == Err::<
                (),
                E,
            >(*error) && forall|i: int| 0 <= i < k ==> (#[trigger] outcomes@[i]) is Ok,
        res matches BatchVerification::Verify(n) ==> n == outcomes@.len() && n < reports@.len()
            && forall|i: int| 0 <= i < n ==> (#[trigger] outcomes@[i]) is Ok,
{
    for i in 0..reports.len()
        invariant
            batch_from(reports@.len() as int, outcomes@, 0) == batch_from(
                reports@.len() as int,
                outcomes@,
                i as int,
            ),
            i <= outcomes@.len(),
            forall|j: int| 0 <= j < i ==> (#[trigger] outcomes@[j]) is Ok,
    {
        if i >= outcomes.len() {
            return BatchVerification::Verify(i);
        }
        match &outcomes[i] {
            Ok(_) => {},
            Err(error) => {
                assert(outcomes@[i as int] == Err::<(), E>(*error));
                return BatchVerification::Failed(error);
            },
        }
    }
    BatchVerification::Accepted
}

proof fn batch_continues<E>(count: int, outcomes: Seq<Result<(), E>>, i: int)
    requires
        0 <= i <= count,
        all_well(outcomes, i),
    ensures
        batch_from(count, outcomes, i) == Ok::<Option<int>, E>(None) <==> all_well(
            outcomes,
            count,
        ),
        batch_from(count, outcomes, i) matches Err(error) ==> exists|k: int|
            i <= k < outcomes.len() && k < count && all_well(outcomes, k) && #[trigger] outcomes[k]
                == Err::<(), E>(error),
        batch_from(count, outcomes, i) matches Ok(Some(n)) ==> n == outcomes.len() && n < count
            && all_well(outcomes, n),
    decreases count - i,
{
    if i < count && i < outcomes.len() {
        match outcomes[i] {
            Ok(_) => {
                batch_continues(count, outcomes, i + 1);
            },
            Err(error) => {
                assert(!all_well(outcomes, count));
                assert(outcomes[i] == Err::<(), E>(error));
            },
        }
    }
}

/// Several reports are accepted exactly when each of them is verified. The failure is that of
/// the first report that has one, and a report is taken up only after all before it are
/// verified.
pub proof fn batch_accepted_only_when_all_are<E>(
    reports: Seq<AttestationReport>,
    outcomes: Seq<Result<(), E>>,
)
    ensures
        ({
            let count = reports.len() as int;
            let standing = batch_from(count, outcomes, 0);
            &&& standing == Ok::<Option<int>, E>(None) <==> all_well(outcomes, count)
            &&& standing matches Err(error) ==> exists|k: int|
                0 <= k < outcomes.len() && k < count && all_well(outcomes, k)
                    && #[trigger] outcomes[k] == Err::<(), E>(error)
            &&& standing matches Ok(Some(n)) ==> n == outcomes.len() && n < count && all_well(
                outcomes,
                n,
            )
        }),
{
    batch_continues(reports.len() as int, outcomes, 0);
}

/// Whether a report has the user data of the request and every step of its verification went
/// well.
pub open spec fn is_verified<E>(
    report: AttestationReport,
    userdata: [u8; 64],
    outcomes: Seq<Result<(), E>>,
) -> bool {
    &&& report.body.user_data@ == userdata@
    &&& all_well(outcomes, VERIFICATION_STEPS as int)
}

/// When each report that counts as verified is one whose own verification accepted it, a batch
/// that is accepted has the user data of the request in every report, and every step of the
/// verification of each went well.
pub proof fn accepted_batch_answers_the_request<E>(
    reports: Seq<AttestationReport>,
    userdata: [u8; 64],
    steps: Seq<Seq<Result<(), E>>>,
    outcomes: Seq<Result<(), E>>,
)
    requires
        steps.len() == reports.len(),
        forall|i: int|
            0 <= i < reports.len() && i < outcomes.len() && (#[trigger] outcomes[i]) is Ok
                ==> verification_from(
                userdata@ == reports[i].body.user_data@,
                steps[i],
                0,
            ) is Accepted,
        batch_from(reports.len() as int, outcomes, 0) == Ok::<Option<int>, E>(None),
    ensures
        forall|i: int|
            0 <= i < reports.len() ==> is_verified(#[trigger] reports[i], userdata, steps[i]),
{
    batch_accepted_only_when_all_are(reports, outcomes);
    assert forall|i: int| 0 <= i < reports.len() implies is_verified(
        #[trigger] reports[i],
        userdata,
        steps[i],
    ) by {
        assert(outcomes[i] is Ok);
        accepted_only_when_all_is_well(reports[i], userdata, steps[i]);
    }
}

/// The directory that the certificates are kept in.
pub const CERTIFICATE_DIRECTORY: &'static str = "/opt/dcu/certs";

/// A certificate of the chain.
#[derive(Clone, Copy, Debug, PartialEq, Eq, Structural)]
pub enum CertificateRole {
    Hsk,
    Cek,
    Hrk,
}

/// A certificate, and the name of the file that it goes to.
#[derive(Debug)]
pub struct CertificateFile {
    pub role: CertificateRole,
    pub name: String,
}

/// What saving the certificates takes: the files to write, in order, and the failure to end
/// with after that, if there is one.
#[derive(Debug)]
pub struct SavePlan {
    pub files: Vec<CertificateFile>,
    pub failure: Option<Error>,
}

/// The files of a plan, each by its role and its name.
pub open spec fn file_names(files: Seq<CertificateFile>) -> Seq<(CertificateRole, Seq<char>)> {
    Seq::new(files.len(), |i: int| (files[i].role, files[i].name@))
}

/// What saving the certificates takes when the identifier of the chip is the given text, or
/// when it is none for the given reason.
pub open spec fn is_save_plan(plan: SavePlan, chip: Result<Seq<char>, Seq<char>>) -> bool {
    match chip {
        Ok(name) => {
            &&& file_names(plan.files@) == seq![
                (CertificateRole::Hsk, "hsk.cert"@),
                (CertificateRole::Cek, name + "_cek.cert"@),
                (CertificateRole::Hrk, "hrk.cert"@),
            ]
            &&& plan.failure is None
        },
        Err(reason) => {
            &&& file_names(plan.files@) == seq![(CertificateRole::Hsk, "hsk.cert"@)]
            &&& plan.failure matches Some(error) && error@ == (ErrorView {
                kind: ErrorKind::InvalidData,
                message: reason,
            })
        },
    }
}

/// The identifier of a chip as text, or why it is none.
pub open spec fn chip_text(chip_id: Seq<u8>) -> Result<Seq<char>, Seq<char>> {
    if vstd::utf8::valid_utf8(chip_id) {
        Ok(vstd::utf8::decode_utf8(chip_id))
    } else {
        Err(text::utf8_error_text(chip_id))
    }
}

/// What saving the certificates takes when the identifier of the chip is the given text, or
/// when it is none for the given reason.
pub fn save_plan(chip: Result<String, String>) -> (res: SavePlan)
    ensures
        is_save_plan(
            res,
            match chip {
                Ok(name) => Ok(name@),
                Err(reason) => Err(reason@),
            },
        ),
        chip matches Ok(name) ==> {
            &&& res.failure is None
            &&& res.files@.len() == 3
            &&& res.files@[0].role == CertificateRole::Hsk && res.files@[0].name@ == "hsk.cert"@
            &&& res.files@[1].role == CertificateRole::Cek && res.files@[1].name@ == name@
                + "_cek.cert"@
            &&& res.files@[2].role == CertificateRole::Hrk && res.files@[2].name@ == "hrk.cert"@
        },
        chip matches Err(reason) ==> {
            &&& res.files@.len() == 1
            &&& res.files@[0].role == CertificateRole::Hsk && res.files@[0].name@ == "hsk.cert"@
            &&& res.failure matches Some(error) && error.kind == ErrorKind::InvalidData
                && error.message@ == reason@
        },
{
    let mut files: Vec<CertificateFile> = Vec::new();
    files.push(CertificateFile { role: CertificateRole::Hsk, name: "hsk.cert".to_string() });
    match chip {
        Ok(mut name) => {
            name.append("_cek.cert");
            let ghost cek = name@;
            files.push(CertificateFile { role: CertificateRole::Cek, name });
            files.push(
                CertificateFile { role: CertificateRole::Hrk, name: "hrk.cert".to_string() },
            );
            assert(file_names(files@) =~= seq![
                (CertificateRole::Hsk, "hsk.cert"@),
                (CertificateRole::Cek, cek),
                (CertificateRole::Hrk, "hrk.cert"@),
            ]);
            SavePlan { files, failure: None }
        },
        Err(reason) => {
            assert(file_names(files@) =~= seq![(CertificateRole::Hsk, "hsk.cert"@)]);
            SavePlan { files, failure: Some(Error::new(ErrorKind::InvalidData, reason)) }
        },
    }
}

/// What saving the certificates of a chip takes. The HSK certificate is written first; the name
/// of the CEK certificate holds the identifier of the chip, which has to be text for that, and
/// nothing more is written where it is not.
pub fn save_certificates(chip_id: [u8; 16]) -> (res: SavePlan)
    ensures
        is_save_plan(res, chip_text(chip_id@)),
        res.files@.len() > 0,
        res.files@[0].role == CertificateRole::Hsk && res.files@[0].name@ == "hsk.cert"@,
        vstd::utf8::valid_utf8(chip_id@) ==> {
            &&& res.failure is None
            &&& res.files@.len() == 3
            &&& res.files@[1].role == CertificateRole::Cek && res.files@[1].name@
                == vstd::utf8::decode_utf8(chip_id@) + "_cek.cert"@
            &&& res.files@[2].role == CertificateRole::Hrk && res.files@[2].name@ == "hrk.cert"@
        },
        !vstd::utf8::valid_utf8(chip_id@) ==> {
            &&& res.files@.len() == 1
            &&& res.failure matches Some(error) && error.kind == ErrorKind::InvalidData
                && error.message@ == text::utf8_error_text(chip_id@)
        },
{
    let mut bytes: Vec<u8> = Vec::new();
    for i in 0..16
        invariant
            bytes@ == chip_id@.take(i as int),
    {
        bytes.push(chip_id[i]);
        assert(bytes@ =~= chip_id@.take(i + 1));
    }
    assert(bytes@ =~= chip_id@);
    save_plan(text::utf8_string(bytes))
}

/// Where the verification of a report stands, for user data of the request or other, and for
/// what the steps came to. Other user data is a mismatch, whatever the steps came to. With the
/// user data of the request, the report is accepted exactly when each of the seven steps went
/// well, fails with the failure of the first step that failed, and else waits for the first step
/// that was not done.
pub proof fn standing_is<E>(same: bool, outcomes: Seq<Result<(), E>>, k: int)
    requires
        0 <= k <= outcomes.len(),
        forall|i: int| 0 <= i < k ==> (#[trigger] outcomes[i]) is Ok,
        k < outcomes.len() ==> outcomes[k] is Err,
    ensures
        !same ==> verification_from(same, outcomes, 0) == VerificationView::<E>::NonceMismatch(
            ErrorView { kind: ErrorKind::InvalidData, message: "Attestation nonce mismatch"@ },
        ),
        same && k >= 7 ==> verification_from(same, outcomes, 0) == VerificationView::<
            E,
        >::Accepted,
        same && k < 7 && k < outcomes.len() ==> verification_from(same, outcomes, 0)
            == VerificationView::Failed(outcomes[k]->Err_0),
        same && k < 7 && k == outcomes.len() ==> verification_from(same, outcomes, 0)
            == VerificationView::<E>::Perform(
            seq![
                VerificationStep::DecodeHsk,
                VerificationStep::DecodeCek,
                VerificationStep::DecodeHrk,
                VerificationStep::HrkSignsHrk,
                VerificationStep::HrkSignsHsk,
                VerificationStep::HskSignsCek,
                VerificationStep::CekSignsReport,
            ][k],
        ),
{
    reveal_with_fuel(verification_from, 8);
    if same {
        steps_up_to(outcomes, if k < 7 {
            k
        } else {
            7
        });
    }
}

proof fn steps_up_to<E>(outcomes: Seq<Result<(), E>>, k: int)
    requires
        0 <= k <= outcomes.len(),
        k <= VERIFICATION_STEPS,
        forall|i: int| 0 <= i < k ==> (#[trigger] outcomes[i]) is Ok,
    ensures
        verification_from(true, outcomes, 0) == verification_from(true, outcomes, k),
    decreases k,
{
    if k > 0 {
        steps_up_to(outcomes, k - 1);
        assert(outcomes[k - 1] is Ok);
    }
}

/// Where the verification of several reports stands: it is done exactly when each went well,
/// fails with the failure of the first that failed, and else waits for the first that was not
/// done.
pub proof fn batch_standing_is<E>(count: nat, outcomes: Seq<Result<(), E>>, k: int)
    requires
        0 <= k <= outcomes.len(),
        forall|i: int| 0 <= i < k ==> (#[trigger] outcomes[i]) is Ok,
        k < outcomes.len() ==> outcomes[k] is Err,
    ensures
        k >= count ==> batch_from(count as int, outcomes, 0) == Ok::<Option<int>, E>(None),
        k < count && k < outcomes.len() ==> batch_from(count as int, outcomes, 0) == Err::<
            Option<int>,
            E,
        >(outcomes[k]->Err_0),
        k < count && k == outcomes.len() ==> batch_from(count as int, outcomes, 0) == Ok::<
            Option<int>,
            E,
        >(Some(k)),
{
    batch_up_to(
        count as int,
        outcomes,
        if k < count {
            k
        } else {
            count as int
        },
    );
}

proof fn batch_up_to<E>(count: int, outcomes: Seq<Result<(), E>>, k: int)
    requires
        0 <= k <= outcomes.len(),
        k <= count,
        forall|i: int| 0 <= i < k ==> (#[trigger] outcomes[i]) is Ok,
    ensures
        batch_from(count, outcomes, 0) == batch_from(count, outcomes, k),
    decreases k,
{
    if k > 0 {
        batch_up_to(count, outcomes, k - 1);
        assert(outcomes[k - 1] is Ok);
    }
}

} // verus!
