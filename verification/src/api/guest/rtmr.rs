//! The run-time measurement registers of a guest: what the answers of the device mean, and how
//! many registers a request selects.

use crate::error::{Error, ErrorKind, ErrorView, Failure, FailureView};
use crate::number;
use vstd::prelude::*;
use vstd::string::*;

verus! {

/// A request about the measurement registers.
#[derive(Clone, Copy, Debug, PartialEq, Eq, Structural)]
pub enum RtmrCommand {
    Status,
    Start,
    Read,
    Extend,
}

impl RtmrCommand {
    /// The name of the request.
    pub open spec fn text(self) -> Seq<char> {
        match self {
            RtmrCommand::Status => "rtmr_status"@,
            RtmrCommand::Start => "rtmr_start"@,
            RtmrCommand::Read => "rtmr_read"@,
            RtmrCommand::Extend => "rtmr_extend"@,
        }
    }

    /// The name of the request.
    pub fn name(&self) -> (res: &'static str)
        ensures
            res@ == self.text(),
            *self == RtmrCommand::Status ==> res@ == "rtmr_status"@,
            *self == RtmrCommand::Start ==> res@ == "rtmr_start"@,
            *self == RtmrCommand::Read ==> res@ == "rtmr_read"@,
            *self == RtmrCommand::Extend ==> res@ == "rtmr_extend"@,
    {
        match self {
            RtmrCommand::Status => "rtmr_status",
            RtmrCommand::Start => "rtmr_start",
            RtmrCommand::Read => "rtmr_read",
            RtmrCommand::Extend => "rtmr_extend",
        }
    }
}

/// What the answer to a request means: a failure that the device's interface had is passed on;
/// otherwise what the driver returned and then what the firmware did have to be zero.
pub open spec fn rtmr_outcome<E>(
    command: RtmrCommand,
    returned: Result<i64, E>,
    fw_error: u64,
) -> Result<(), FailureView<E>> {
    match returned {
        Err(error) => Err(FailureView::Passed(error)),
        Ok(code) => if code != 0 {
            Err(
                FailureView::Found(
                    ErrorView {
                        kind: ErrorKind::Other,
                        message: command.text() + " fail, rc: "@ + number::decimal(code as int),
                    },
                ),
            )
        } else if fw_error != 0 {
            Err(
                FailureView::Found(
                    ErrorView {
                        kind: ErrorKind::Other,
                        message: command.text() + " fail, fw_err: "@ + number::decimal(
                            fw_error as int,
                        ),
                    },
                ),
            )
        } else {
            Ok(())
        },
    }
}

/// What the answer to a request means: `returned` is what the device's interface gave, and
/// `fw_error` what the firmware left in the request.
pub fn check_rtmr_answer<E>(
    command: RtmrCommand,
    returned: Result<i64, E>,
    fw_error: u64,
) -> (res: Result<(), Failure<E>>)
    ensures
        match rtmr_outcome(command, returned, fw_error) {
            Ok(_) => res is Ok,
            Err(failure) => res matches Err(found) && found@ == failure,
        },
        res is Ok <==> returned == Ok::<i64, E>(0) && fw_error == 0,
        returned matches Err(error) ==> (res matches Err(Failure::Passed(passed)) && passed
            == error),
        returned matches Ok(code) ==> (res matches Err(failure) ==> (failure matches Failure::Found(
            error,
        ) && error.kind == ErrorKind::Other && error.message@ == (match command {
            RtmrCommand::Status => "rtmr_status"@,
            RtmrCommand::Start => "rtmr_start"@,
            RtmrCommand::Read => "rtmr_read"@,
            RtmrCommand::Extend => "rtmr_extend"@,
        }) + (if code != 0 {
            " fail, rc: "@ + number::decimal(code as int)
        } else {
            " fail, fw_err: "@ + number::decimal(fw_error as int)
        }))),
{
    match returned {
        Err(error) => Err(Failure::Passed(error)),
        Ok(code) => {
            let mut message = command.name().to_string();
            if code != 0 {
                message.append(" fail, rc: ");
                number::push_decimal(&mut message, code);
                Err(Failure::Found(Error::new(ErrorKind::Other, message)))
            } else if fw_error != 0 {
                message.append(" fail, fw_err: ");
                number::push_numeral(&mut message, fw_error, 10);
                Err(Failure::Found(Error::new(ErrorKind::Other, message)))
            } else {
                Ok(())
            }
        },
    }
}

/// Whether the guest has measurement registers: it does when a request for their status
/// succeeds.
pub fn check_rtmr_supported<T, E>(status: &Result<T, E>) -> (res: bool)
    ensures
        res == (status is Ok),
{
    status.is_ok()
}

/// Whether the guest can give the second version of the attestation report: it can when it has
/// measurement registers.
pub fn check_attestation_report_v2_supported<T, E>(status: &Result<T, E>) -> (res: bool)
    ensures
        res == (status is Ok),
{
    check_rtmr_supported(status)
}

/// Whether a bitmap selects a register.
pub open spec fn selects(bitmap: u32, register: int) -> bool {
    bitmap & (1u32 << (register as u32)) != 0
}

/// How many of the first `registers` registers a bitmap selects.
pub open spec fn selected(bitmap: u32, registers: nat) -> nat
    decreases registers,
{
    if registers == 0 {
        0
    } else {
        selected(bitmap, (registers - 1) as nat) + if selects(bitmap, registers - 1) {
            1nat
        } else {
            0nat
        }
    }
}

/// How many of the first `registers` registers a bitmap selects.
pub fn selected_registers(bitmap: u32, registers: u32) -> (res: usize)
    requires
        registers <= 32,
    ensures
        res == selected(bitmap, registers as nat),
        res == Set::new(
            |i: int| 0 <= i < registers && bitmap & (1u32 << (i as u32)) != 0,
        ).len(),
{
    let mut count: usize = 0;
    for i in 0..registers
        invariant
            registers <= 32,
            count == selected(bitmap, i as nat),
            count <= i,
    {
        if bitmap & (1u32 << i) != 0 {
            count += 1;
        }
    }
    proof {
        selected_counts_the_selection(bitmap, registers as nat);
        assert(selection(bitmap, registers as nat) =~= Set::new(
            |i: int| 0 <= i < registers && bitmap & (1u32 << (i as u32)) != 0,
        ));
    }
    count
}

/// The registers among the first `registers` that a bitmap selects.
pub open spec fn selection(bitmap: u32, registers: nat) -> Set<int> {
    Set::new(|i: int| 0 <= i < registers && selects(bitmap, i))
}

/// What is counted is the number of registers selected.
pub proof fn selected_counts_the_selection(bitmap: u32, registers: nat)
    ensures
        selection(bitmap, registers).finite(),
        selected(bitmap, registers) == selection(bitmap, registers).len(),
        selected(bitmap, registers) <= registers,
    decreases registers,
{
    if registers == 0 {
        assert(selection(bitmap, 0) =~= Set::<int>::empty());
    } else {
        let fewer = (registers - 1) as nat;
        selected_counts_the_selection(bitmap, fewer);
        if selects(bitmap, registers - 1) {
            assert(selection(bitmap, registers) =~= selection(bitmap, fewer).insert(
                registers - 1,
            ));
        } else {
            assert(selection(bitmap, registers) =~= selection(bitmap, fewer));
        }
    }
}

/// Bits of a bitmap beyond the last register do not count.
pub proof fn bits_beyond_do_not_count(bitmap: u32, other: u32, registers: nat)
    requires
        forall|i: int| 0 <= i < registers ==> selects(bitmap, i) == selects(other, i),
    ensures
        selected(bitmap, registers) == selected(other, registers),
    decreases registers,
{
    if registers > 0 {
        bits_beyond_do_not_count(bitmap, other, (registers - 1) as nat);
        assert(selects(bitmap, registers - 1) == selects(other, registers - 1));
    }
}

/// An answer is good exactly when the device's interface gave zero and the firmware left zero,
/// whatever was requested; a failure of the interface is passed on, and any other is told with
/// the name of the request, by what the driver returned where that is not zero, and else by what
/// the firmware left.
pub proof fn only_zeros_are_good<E>(
    command: RtmrCommand,
    returned: Result<i64, E>,
    fw_error: u64,
)
    ensures
        rtmr_outcome(command, returned, fw_error) is Ok <==> returned == Ok::<i64, E>(0) && fw_error
            == 0,
        returned matches Err(error) ==> rtmr_outcome(command, returned, fw_error) == Err::<
            (),
            FailureView<E>,
        >(FailureView::Passed(error)),
        returned matches Ok(code) && code != 0 ==> rtmr_outcome(command, returned, fw_error)
            == Err::<(), FailureView<E>>(
            FailureView::Found(
                ErrorView {
                    kind: ErrorKind::Other,
                    message: command.text() + " fail, rc: "@ + number::decimal(
                        returned->Ok_0 as int,
                    ),
                },
            ),
        ),
        returned == Ok::<i64, E>(0) && fw_error != 0 ==> rtmr_outcome(command, returned, fw_error)
            == Err::<(), FailureView<E>>(
            FailureView::Found(
                ErrorView {
                    kind: ErrorKind::Other,
                    message: command.text() + " fail, fw_err: "@ + number::decimal(
                        fw_error as int,
                    ),
                },
            ),
        ),
{
}

/// One bit more in a bitmap selects one register more, where the bit has a register.
pub proof fn one_bit_selects_one_register(bitmap: u32, other: u32, registers: nat, k: int)
    requires
        0 <= k < registers,
        bitmap & (1u32 << (k as u32)) == 0,
        other & (1u32 << (k as u32)) != 0,
        forall|i: int|
            0 <= i < registers && i != k ==> #[trigger] selects(bitmap, i) == selects(other, i),
    ensures
        selected(other, registers) == selected(bitmap, registers) + 1,
    decreases registers,
{
    let last = registers - 1;
    if k < last {
        assert(selects(bitmap, last) == selects(other, last));
        one_bit_selects_one_register(bitmap, other, (registers - 1) as nat, k);
    } else {
        bits_beyond_do_not_count(bitmap, other, (registers - 1) as nat);
    }
}

} // verus!
