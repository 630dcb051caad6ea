use wasmldr::attestation::{interpret, AttestError, Attestation, SYS_ATTEST};

#[test]
fn selector_of_the_call() {
    assert_eq!(SYS_ATTEST, 0xEA01);
}

#[test]
fn discriminator_selects_the_technology() {
    assert_eq!(interpret(4096, 0, 0), Ok(Attestation::NoTee));
    assert_eq!(interpret(4096, 1, 0), Ok(Attestation::Sev(4096)));
    assert_eq!(interpret(4096, 2, 0), Ok(Attestation::Sgx(4096)));
    assert_eq!(interpret(0, 1, 0), Ok(Attestation::Sev(0)));
    assert_eq!(interpret(isize::MAX, 2, 0), Ok(Attestation::Sgx(isize::MAX as usize)));
}

#[test]
fn zero_discriminator_is_no_attestation_whatever_the_length() {
    assert_eq!(interpret(0, 0, 0), Ok(Attestation::NoTee));
    assert_eq!(interpret(17, 0, 0), Ok(Attestation::NoTee));
    assert_eq!(interpret(isize::MAX, 0, 0), Ok(Attestation::NoTee));
}

#[test]
fn unknown_discriminator_is_other() {
    assert_eq!(interpret(0, 3, 0), Err(AttestError::Other));
    assert_eq!(interpret(10, usize::MAX, 0), Err(AttestError::Other));
}

#[test]
fn negative_length_is_an_errno() {
    assert_eq!(interpret(-1, 1, 0), Err(AttestError::Os(1)));
    assert_eq!(interpret(-22, 0, 0), Err(AttestError::Os(22)));
    assert_eq!(interpret(-38, 2, 0), Err(AttestError::Os(38)));
    assert_eq!(interpret(-38, 77, 0), Err(AttestError::Os(38)));
    assert_eq!(interpret(-(i32::MAX as isize), 0, 0), Err(AttestError::Os(i32::MAX)));
}

#[test]
fn errno_keeps_its_low_bits() {
    assert_eq!(interpret(-0x8000_0000, 0, 0), Err(AttestError::Os(i32::MIN)));
    assert_eq!(interpret(-0x1_0000_0005, 0, 0), Err(AttestError::Os(5)));
    assert_eq!(interpret(isize::MIN, 0, 0), Err(AttestError::Os(0)));
}

#[test]
fn length_of_a_report() {
    assert_eq!(Attestation::NoTee.len(), 0);
    assert_eq!(Attestation::Sev(12).len(), 12);
    assert_eq!(Attestation::Sgx(34).len(), 34);
}

#[test]
fn a_report_counts_as_long_as_the_call_returned() {
    let hint = interpret(4096, 1, 0).unwrap().len();
    assert_eq!(interpret(4000, 1, 0).unwrap().valid_len(hint), Some(4000));
    assert_eq!(interpret(4096, 2, 0).unwrap().valid_len(hint), Some(4096));
    assert_eq!(interpret(0, 1, 0).unwrap().valid_len(hint), Some(0));
    assert_eq!(interpret(0, 0, 0).unwrap().valid_len(0), Some(0));
}

#[test]
fn a_report_beyond_the_buffer_is_none() {
    let hint = interpret(4096, 1, 0).unwrap().len();
    assert_eq!(interpret(4097, 1, 0).unwrap().valid_len(hint), None);
    assert_eq!(Attestation::Sgx(1).valid_len(0), None);
    assert_eq!(Attestation::NoTee.valid_len(0), Some(0));
}

#[test]
fn a_report_within_the_buffer_is_taken() {
    assert_eq!(interpret(4096, 1, 4096), Ok(Attestation::Sev(4096)));
    assert_eq!(interpret(4000, 2, 4096), Ok(Attestation::Sgx(4000)));
    assert_eq!(interpret(0, 1, 1), Ok(Attestation::Sev(0)));
}

#[test]
fn a_report_beyond_the_buffer_is_an_error() {
    assert_eq!(interpret(4097, 1, 4096), Err(AttestError::TooLong));
    assert_eq!(interpret(2, 2, 1), Err(AttestError::TooLong));
    assert_eq!(interpret(isize::MAX, 1, usize::MAX / 2 - 1), Err(AttestError::TooLong));
}

#[test]
fn other_outcomes_do_not_look_at_the_buffer() {
    assert_eq!(interpret(4097, 0, 4096), Ok(Attestation::NoTee));
    assert_eq!(interpret(4097, 3, 4096), Err(AttestError::Other));
    assert_eq!(interpret(-22, 1, 4096), Err(AttestError::Os(22)));
    assert_eq!(interpret(4097, 1, 0), Ok(Attestation::Sev(4097)));
}
