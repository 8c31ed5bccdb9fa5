use samply_core::kernel_error::{
    IntoResult, KernelError, KERN_INSUFFICIENT_BUFFER_SIZE, KERN_INVALID_ADDRESS, KERN_SUCCESS,
    MACH_RCV_INVALID_REPLY, MACH_SEND_INVALID_CONTEXT, MACH_SEND_NO_GRANT_DEST,
};

#[test]
fn kernel_return_codes_map_to_errors() {
    assert_eq!(KernelError::from(1), KernelError::InvalidAddress);
    assert_eq!(KernelError::from(KERN_INVALID_ADDRESS), KernelError::InvalidAddress);
    assert_eq!(KernelError::from(5), KernelError::Failure);
    assert_eq!(KernelError::from(51), KernelError::PolicyStatic);
    assert_eq!(KernelError::from(KERN_INSUFFICIENT_BUFFER_SIZE), KernelError::InsufficientBufferSize);
    assert_eq!(KernelError::from(0x1000_0004), KernelError::MachSendTimedOut);
    assert_eq!(KernelError::from(MACH_SEND_INVALID_CONTEXT), KernelError::MachSendInvalidContext);
    assert_eq!(KernelError::from(MACH_SEND_NO_GRANT_DEST), KernelError::MachSendNoGrantDest);
    assert_eq!(KernelError::from(0x1000_4003), KernelError::MachRcvTimedOut);
    assert_eq!(KernelError::from(MACH_RCV_INVALID_REPLY), KernelError::MachRcvInvalidReply);
    assert_eq!(KernelError::from(1234), KernelError::Unknown(1234));
    assert_eq!(KernelError::from(-1), KernelError::Unknown(-1));
    // Success is not an error code of its own.
    assert_eq!(KernelError::from(KERN_SUCCESS), KernelError::Unknown(0));
}

#[test]
fn into_result_succeeds_only_on_success() {
    assert_eq!(KERN_SUCCESS.into_result(), Ok(()));
    assert_eq!(3i32.into_result(), Err(KernelError::NoSpace));
    assert_eq!(0x1000_400fi32.into_result(), Err(KernelError::MachRcvInvalidTrailer));
}
