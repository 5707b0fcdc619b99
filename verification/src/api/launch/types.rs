//! The arguments of the requests that manage the launch of a CSV guest.
//!
//! The kernel takes data by its address and its length. The address of a value is what the
//! machine gives it; each request that needs one has a constructor that takes references, and
//! one that takes addresses.

use std::marker::PhantomData;
use std::mem::MaybeUninit;
use vstd::prelude::*;

verus! {

/// Calls `std::ptr::from_ref` for the address of a value. Of the address it is claimed only
/// that it is not null, as no reference is.
#[verifier::external_body]
fn address_of<T: ?Sized>(value: &T) -> (address: u64)
    ensures
        address != 0,
{
    std::ptr::from_ref(value).cast::<u8>() as usize as u64
}

/// Calls `std::ptr::from_mut` for the address of a value that is to be filled. Of the address
/// it is claimed only that it is not null, as no reference is; of the value nothing is, since
/// it may be filled while the reference lasts.
#[verifier::external_body]
fn address_of_mut<T>(value: &mut T) -> (address: u64)
    ensures
        address != 0,
{
    std::ptr::from_mut(value) as usize as u64
}

/// The low 32 bits of a number, which is what a length field has room for.
pub open spec fn low_32(n: nat) -> u32 {
    (n % 0x1_0000_0000) as u32
}

/// A length that fits in 32 bits is kept as it is.
pub proof fn fitting_length_is_kept(n: nat)
    requires
        n < 0x1_0000_0000,
    ensures
        low_32(n) == n,
{
}

/// A length keeps its low 32 bits and loses the others: lengths that differ by a multiple of
/// 2^32 are kept alike.
pub proof fn higher_bits_are_lost(n: nat, k: nat)
    ensures
        low_32(n + k * 0x1_0000_0000) == low_32(n),
        low_32(n) as nat == n % 0x1_0000_0000,
{
    assert((n + k * 0x1_0000_0000) % 0x1_0000_0000 == n % 0x1_0000_0000) by (nonlinear_arith);
}

fn length_32(n: usize) -> (res: u32)
    ensures
        res == low_32(n as nat),
{
    let wide = n as u64;
    assert(wide as u32 == wide % 0x1_0000_0000) by (bit_vector);
    wide as u32
}

/// Initialize the CSV platform context.
pub struct Init;

/// Initialize the CSV2 platform context.
pub struct EsInit;

/// Initialize the CSV3 platform context.
#[derive(Clone, Copy, Debug)]
pub struct Csv3Init {
    /// NUMA node mask for memory allocation.
    pub nodemask: u64,
}

impl Csv3Init {
    /// Makes the argument of the initialization of CSV3.
    ///
    /// `nodemask` has one bit for each NUMA node that memory may come from; zero leaves the
    /// choice to the system.
    pub fn new(nodemask: u64) -> (res: Csv3Init)
        ensures
            res.nodemask == nodemask,
    {
        Csv3Init { nodemask }
    }
}

/// Set guest private memory for CSV3.
pub struct Csv3SetGuestPrivateMemory;

/// Encrypt guest data with its VEK for CSV3.
#[derive(Clone, Copy, Debug)]
pub struct Csv3LaunchEncryptData {
    /// Guest physical address of the memory to encrypt.
    pub gpa: u64,
    /// Userspace address of the data to encrypt.
    pub uaddr: u64,
    /// Length of the data to encrypt.
    pub len: u32,
}

/// Encrypt the VMCB contents for CSV3.
pub struct Csv3LaunchEncryptVmcb;

/// The handle of a guest, which the platform gives.
#[derive(Clone, Copy, Debug, PartialEq, Eq, Structural)]
pub struct Handle(pub u32);

/// A firmware version.
#[derive(Clone, Copy, Debug, PartialEq, Eq, Structural)]
pub struct Version {
    pub major: u8,
    pub minor: u8,
}

/// What the platform has to enforce for a guest, one bit for each rule.
#[derive(Clone, Copy, Debug, PartialEq, Eq, Structural)]
pub struct PolicyFlags {
    pub bits: u16,
}

/// What the platform has to enforce for a guest, and the oldest firmware that may.
#[derive(Clone, Copy, Debug, PartialEq, Eq, Structural)]
pub struct Policy {
    pub flags: PolicyFlags,
    pub minfw: Version,
}

/// Initiate the CSV launch flow.
pub struct LaunchStart<'a> {
    pub handle: Handle,
    pub policy: Policy,
    pub dh_addr: u64,
    pub dh_len: u32,
    pub session_addr: u64,
    pub session_len: u32,
    pub _phantom: PhantomData<&'a ()>,
}

impl<'a> LaunchStart<'a> {
    /// Starts a launch with the certificate `dh` and the session of the guest's owner. The
    /// platform will generate the handle.
    pub fn new<C, S>(policy: &'a Policy, dh: &'a C, session: &'a S) -> (res: LaunchStart<'a>)
        ensures
            res.handle == Handle(0),
            res.policy == *policy,
            res.dh_addr != 0,
            res.dh_len == low_32(vstd::layout::size_of::<C>()),
            res.session_addr != 0,
            res.session_len == low_32(vstd::layout::size_of::<S>()),
    {
        Self::with_addresses(
            policy,
            address_of(dh),
            std::mem::size_of::<C>(),
            address_of(session),
            std::mem::size_of::<S>(),
        )
    }

    /// Starts a launch with a certificate and a session of the given lengths at the given
    /// addresses.
    pub fn with_addresses(
        policy: &'a Policy,
        dh_addr: u64,
        dh_len: usize,
        session_addr: u64,
        session_len: usize,
    ) -> (res: LaunchStart<'a>)
        ensures
            res.handle == Handle(0),
            res.policy == *policy,
            res.dh_addr == dh_addr,
            res.dh_len == low_32(dh_len as nat),
            res.session_addr == session_addr,
            res.session_len == low_32(session_len as nat),
    {
        LaunchStart {
            handle: Handle(0),
            policy: *policy,
            dh_addr,
            dh_len: length_32(dh_len),
            session_addr,
            session_len: length_32(session_len),
            _phantom: PhantomData,
        }
    }

    /// Starts a launch without a certificate and without a session.
    pub fn with_policy_only(policy: &'a Policy) -> (res: LaunchStart<'a>)
        ensures
            res.handle == Handle(0),
            res.policy == *policy,
            res.dh_addr == 0,
            res.dh_len == 0,
            res.session_addr == 0,
            res.session_len == 0,
    {
        LaunchStart {
            handle: Handle(0),
            policy: *policy,
            dh_addr: 0,
            dh_len: 0,
            session_addr: 0,
            session_len: 0,
            _phantom: PhantomData,
        }
    }
}

impl<'a> From<LaunchStart<'a>> for Handle {
    fn from(ls: LaunchStart<'a>) -> (res: Handle) {
        ls.handle
    }
}

impl<'a> vstd::std_specs::convert::FromSpecImpl<LaunchStart<'a>> for Handle {
    open spec fn obeys_from_spec() -> bool {
        true
    }

    open spec fn from_spec(ls: LaunchStart<'a>) -> Handle {
        ls.handle
    }
}

/// Encrypt guest data with its VEK.
pub struct LaunchUpdateData<'a> {
    pub addr: u64,
    pub len: u32,
    pub _phantom: PhantomData<&'a ()>,
}

impl<'a> LaunchUpdateData<'a> {
    /// Encrypts the data where it stands.
    pub fn new(data: &'a [u8]) -> (res: LaunchUpdateData<'a>)
        ensures
            res.addr != 0,
            res.len == low_32(data@.len()),
    {
        Self::with_address(address_of(data), data.len())
    }

    /// Encrypts data of the given length at the given address.
    pub fn with_address(addr: u64, len: usize) -> (res: LaunchUpdateData<'a>)
        ensures
            res.addr == addr,
            res.len == low_32(len as nat),
    {
        LaunchUpdateData { addr, len: length_32(len), _phantom: PhantomData }
    }
}

/// Update VMSA for setting up vCPUs on CSV2.
pub struct LaunchUpdateVmsa;

impl LaunchUpdateVmsa {
    pub fn new() -> (res: LaunchUpdateVmsa)
        ensures
            res == LaunchUpdateVmsa,
    {
        LaunchUpdateVmsa
    }
}

/// Inject a secret into the guest.
pub struct LaunchSecret<'a> {
    pub hdr_addr: u64,
    pub hdr_len: u32,
    pub guest_addr: u64,
    pub guest_len: u32,
    pub trans_addr: u64,
    pub trans_len: u32,
    pub _phantom: PhantomData<&'a ()>,
}

impl<'a> LaunchSecret<'a> {
    /// Injects the secret `trans`, with its header, at the address `guest` of the guest.
    pub fn new<H>(header: &'a H, guest: usize, trans: &'a [u8]) -> (res: LaunchSecret<'a>)
        ensures
            res.hdr_addr != 0,
            res.hdr_len == low_32(vstd::layout::size_of::<H>()),
            res.guest_addr == guest,
            res.guest_len == low_32(trans@.len()),
            res.trans_addr != 0,
            res.trans_len == low_32(trans@.len()),
    {
        Self::with_addresses(
            address_of(header),
            std::mem::size_of::<H>(),
            guest,
            address_of(trans),
            trans.len(),
        )
    }

    /// Injects a secret, with its header, of the given lengths at the given addresses.
    pub fn with_addresses(
        hdr_addr: u64,
        hdr_len: usize,
        guest: usize,
        trans_addr: u64,
        trans_len: usize,
    ) -> (res: LaunchSecret<'a>)
        ensures
            res.hdr_addr == hdr_addr,
            res.hdr_len == low_32(hdr_len as nat),
            res.guest_addr == guest,
            res.guest_len == low_32(trans_len as nat),
            res.trans_addr == trans_addr,
            res.trans_len == low_32(trans_len as nat),
    {
        LaunchSecret {
            hdr_addr,
            hdr_len: length_32(hdr_len),
            guest_addr: guest as u64,
            guest_len: length_32(trans_len),
            trans_addr,
            trans_len: length_32(trans_len),
            _phantom: PhantomData,
        }
    }
}

/// Get the guest's measurement.
pub struct LaunchMeasure<'a> {
    pub addr: u64,
    pub len: u32,
    pub _phantom: PhantomData<&'a ()>,
}

impl<'a> LaunchMeasure<'a> {
    /// Has the measurement written to where `measurement` stands.
    pub fn new<M>(measurement: &'a mut MaybeUninit<M>) -> (res: LaunchMeasure<'a>)
        ensures
            res.addr != 0,
            res.len == low_32(vstd::layout::size_of::<M>()),
    {
        let len = std::mem::size_of::<M>();
        Self::with_address(address_of_mut(measurement), len)
    }

    /// Has the measurement written to the given address, where there is room for `len` bytes.
    pub fn with_address(addr: u64, len: usize) -> (res: LaunchMeasure<'a>)
        ensures
            res.addr == addr,
            res.len == low_32(len as nat),
    {
        LaunchMeasure { addr, len: length_32(len), _phantom: PhantomData }
    }
}

/// Complete the CSV launch flow and transition the guest into the ready state.
pub struct LaunchFinish;

/// Get an attestation report of the guest.
pub struct Attestation<'a> {
    pub mnonce: [u8; 16],
    pub addr: u64,
    pub len: u32,
    pub _phantom: PhantomData<&'a ()>,
}

impl<'a> Attestation<'a> {
    /// Has the report for the nonce written to where `ar` stands.
    pub fn new<R>(ar: &'a mut MaybeUninit<R>, mnonce: [u8; 16]) -> (res: Attestation<'a>)
        ensures
            res.mnonce == mnonce,
            res.addr != 0,
            res.len == low_32(vstd::layout::size_of::<R>()),
    {
        let len = std::mem::size_of::<R>();
        Self::with_address(address_of_mut(ar), len, mnonce)
    }

    /// Has the report for the nonce written to the given address, where there is room for `len`
    /// bytes.
    pub fn with_address(addr: u64, len: usize, mnonce: [u8; 16]) -> (res: Attestation<'a>)
        ensures
            res.mnonce == mnonce,
            res.addr == addr,
            res.len == low_32(len as nat),
    {
        Attestation { mnonce, addr, len: length_32(len), _phantom: PhantomData }
    }
}

} // verus!
