//! Interpretation of what the attestation pseudo-syscall hands back.

use vstd::prelude::*;

verus! {

/// Selector of the attestation pseudo-syscall.
pub const SYS_ATTEST: usize = 0xEA01;

/// The attestation that was performed.
#[derive(Clone, Copy, Debug, PartialEq, Eq, Structural)]
pub enum Attestation {
    /// No attestation was performed.
    NoTee,
    /// SEV attestation; the field is the length of valid output bytes.
    Sev(usize),
    /// SGX attestation; the field is the length of valid output bytes.
    Sgx(usize),
}

/// Why an attestation yielded no report.
#[derive(Clone, Copy, Debug, PartialEq, Eq, Structural)]
pub enum AttestError {
    /// The platform gave this `errno`.
    Os(i32),
    /// The platform named a technology this loader does not know.
    Other,
    /// The platform announced a report longer than the buffer it was
    /// given.
    TooLong,
}

/// The `errno` carried by a negative length: its negation, reduced to the
/// 32 bits an `errno` has.
pub open spec fn errno_of(len: int) -> int {
    let low = (-len) % 0x1_0000_0000;
    if low >= 0x8000_0000 {
        low - 0x1_0000_0000
    } else {
        low
    }
}

/// What a returned pair of registers means after a call with a buffer of
/// `capacity` bytes: a negative length is an OS error whatever the
/// discriminator says; otherwise the discriminator selects the
/// technology, and an unknown one is an error. After a call with an empty
/// buffer the length is the size that the buffer should have; after a
/// call with a buffer, a length beyond the buffer is an error.
pub open spec fn interpret_spec(len: int, kind: int, capacity: int) -> Result<
    Attestation,
    AttestError,
> {
    if len < 0 {
        Err(AttestError::Os(errno_of(len) as i32))
    } else if kind == 0 {
        Ok(Attestation::NoTee)
    } else if kind != 1 && kind != 2 {
        Err(AttestError::Other)
    } else if capacity > 0 && len > capacity {
        Err(AttestError::TooLong)
    } else if kind == 1 {
        Ok(Attestation::Sev(len as usize))
    } else {
        Ok(Attestation::Sgx(len as usize))
    }
}

impl Attestation {
    /// Number of valid bytes in the caller's buffer, or, after a call with
    /// an empty buffer, the size the buffer should have.
    pub open spec fn len_spec(self) -> usize {
        match self {
            Attestation::NoTee => 0,
            Attestation::Sev(n) => n,
            Attestation::Sgx(n) => n,
        }
    }

    /// The number of bytes of a report that a buffer of `capacity` bytes
    /// holds: the length that the call returned, which may be less than
    /// the length that an earlier call announced, and counts as it is. A
    /// length beyond the buffer is no length of a report in it.
    pub fn valid_len(&self, capacity: usize) -> (n: Option<usize>)
        ensures
            n == if self.len_spec() <= capacity {
                Some(self.len_spec())
            } else {
                None
            },
    {
        let len = self.len();
        if len <= capacity {
            Some(len)
        } else {
            None
        }
    }

    /// Number of valid bytes in the caller's buffer, or, after a call with
    /// an empty buffer, the size the buffer should have.
    pub fn len(&self) -> (n: usize)
        ensures
            n == self.len_spec(),
    {
        match self {
            Attestation::NoTee => 0,
            Attestation::Sev(n) => *n,
            Attestation::Sgx(n) => *n,
        }
    }
}

/// Interprets the two registers the attestation pseudo-syscall returns,
/// the signed length and the technology discriminator, after a call with
/// a buffer of `capacity` bytes. A report that it returns for a buffer
/// that is not empty is no longer than the buffer.
pub fn interpret(len: isize, kind: usize, capacity: usize) -> (r: Result<Attestation, AttestError>)
    ensures
        r == interpret_spec(len as int, kind as int, capacity as int),
        r matches Ok(report) ==> capacity == 0 || report.len_spec() <= capacity,
{
    if len < 0 {
        let negated: i128 = -(len as i128);
        let low: i128 = negated % 0x1_0000_0000;
        let code: i128 = if low >= 0x8000_0000 {
            low - 0x1_0000_0000
        } else {
            low
        };
        return Err(AttestError::Os(code as i32));
    }
    if kind == 0 {
        return Ok(Attestation::NoTee);
    }
    if kind != 1 && kind != 2 {
        return Err(AttestError::Other);
    }
    let len = len as usize;
    if capacity > 0 && len > capacity {
        return Err(AttestError::TooLong);
    }
    if kind == 1 {
        Ok(Attestation::Sev(len))
    } else {
        Ok(Attestation::Sgx(len))
    }
}

/// Whatever the platform returns to a call with a buffer of the size that
/// an earlier call announced, the loader takes an error or a report of no
/// more bytes than were announced.
pub proof fn law_report_fits_the_buffer(len: int, kind: int, hint: int)
    requires
        hint > 0,
    ensures
        interpret_spec(len, kind, hint) matches Ok(report) ==> report.len_spec() <= hint,
{
}

} // verus!
