//! Mach kernel return codes and the errors they stand for.
use vstd::prelude::*;

verus! {

/// The type of a Mach kernel return code.
#[allow(non_camel_case_types)]
pub type kern_return_t = i32;

pub const KERN_SUCCESS: kern_return_t = 0;
pub const KERN_INVALID_ADDRESS: kern_return_t = 1;
pub const KERN_PROTECTION_FAILURE: kern_return_t = 2;
pub const KERN_NO_SPACE: kern_return_t = 3;
pub const KERN_INVALID_ARGUMENT: kern_return_t = 4;
pub const KERN_FAILURE: kern_return_t = 5;
pub const KERN_RESOURCE_SHORTAGE: kern_return_t = 6;
pub const KERN_NOT_RECEIVER: kern_return_t = 7;
pub const KERN_NO_ACCESS: kern_return_t = 8;
pub const KERN_MEMORY_FAILURE: kern_return_t = 9;
pub const KERN_MEMORY_ERROR: kern_return_t = 10;
pub const KERN_ALREADY_IN_SET: kern_return_t = 11;
pub const KERN_NOT_IN_SET: kern_return_t = 12;
pub const KERN_NAME_EXISTS: kern_return_t = 13;
pub const KERN_ABORTED: kern_return_t = 14;
pub const KERN_INVALID_NAME: kern_return_t = 15;
pub const KERN_INVALID_TASK: kern_return_t = 16;
pub const KERN_INVALID_RIGHT: kern_return_t = 17;
pub const KERN_INVALID_VALUE: kern_return_t = 18;
pub const KERN_UREFS_OVERFLOW: kern_return_t = 19;
pub const KERN_INVALID_CAPABILITY: kern_return_t = 20;
pub const KERN_RIGHT_EXISTS: kern_return_t = 21;
pub const KERN_INVALID_HOST: kern_return_t = 22;
pub const KERN_MEMORY_PRESENT: kern_return_t = 23;
pub const KERN_MEMORY_DATA_MOVED: kern_return_t = 24;
pub const KERN_MEMORY_RESTART_COPY: kern_return_t = 25;
pub const KERN_INVALID_PROCESSOR_SET: kern_return_t = 26;
pub const KERN_POLICY_LIMIT: kern_return_t = 27;
pub const KERN_INVALID_POLICY: kern_return_t = 28;
pub const KERN_INVALID_OBJECT: kern_return_t = 29;
pub const KERN_ALREADY_WAITING: kern_return_t = 30;
pub const KERN_DEFAULT_SET: kern_return_t = 31;
pub const KERN_EXCEPTION_PROTECTED: kern_return_t = 32;
pub const KERN_INVALID_LEDGER: kern_return_t = 33;
pub const KERN_INVALID_MEMORY_CONTROL: kern_return_t = 34;
pub const KERN_INVALID_SECURITY: kern_return_t = 35;
pub const KERN_NOT_DEPRESSED: kern_return_t = 36;
pub const KERN_TERMINATED: kern_return_t = 37;
pub const KERN_LOCK_SET_DESTROYED: kern_return_t = 38;
pub const KERN_LOCK_UNSTABLE: kern_return_t = 39;
pub const KERN_LOCK_OWNED: kern_return_t = 40;
pub const KERN_LOCK_OWNED_SELF: kern_return_t = 41;
pub const KERN_SEMAPHORE_DESTROYED: kern_return_t = 42;
pub const KERN_RPC_SERVER_TERMINATED: kern_return_t = 43;
pub const KERN_RPC_TERMINATE_ORPHAN: kern_return_t = 44;
pub const KERN_RPC_CONTINUE_ORPHAN: kern_return_t = 45;
pub const KERN_NOT_SUPPORTED: kern_return_t = 46;
pub const KERN_NODE_DOWN: kern_return_t = 47;
pub const KERN_NOT_WAITING: kern_return_t = 48;
pub const KERN_OPERATION_TIMED_OUT: kern_return_t = 49;
pub const KERN_CODESIGN_ERROR: kern_return_t = 50;
pub const KERN_POLICY_STATIC: kern_return_t = 51;
pub const KERN_INSUFFICIENT_BUFFER_SIZE: kern_return_t = 52;
pub const MACH_SEND_IN_PROGRESS: kern_return_t = 0x1000_0001;
pub const MACH_SEND_INVALID_DATA: kern_return_t = 0x1000_0002;
pub const MACH_SEND_INVALID_DEST: kern_return_t = 0x1000_0003;
pub const MACH_SEND_TIMED_OUT: kern_return_t = 0x1000_0004;
pub const MACH_SEND_INVALID_VOUCHER: kern_return_t = 0x1000_0005;
pub const MACH_SEND_INTERRUPTED: kern_return_t = 0x1000_0007;
pub const MACH_SEND_MSG_TOO_SMALL: kern_return_t = 0x1000_0008;
pub const MACH_SEND_INVALID_REPLY: kern_return_t = 0x1000_0009;
pub const MACH_SEND_INVALID_RIGHT: kern_return_t = 0x1000_000a;
pub const MACH_SEND_INVALID_NOTIFY: kern_return_t = 0x1000_000b;
pub const MACH_SEND_INVALID_MEMORY: kern_return_t = 0x1000_000c;
pub const MACH_SEND_NO_BUFFER: kern_return_t = 0x1000_000d;
pub const MACH_SEND_TOO_LARGE: kern_return_t = 0x1000_000e;
pub const MACH_SEND_INVALID_TYPE: kern_return_t = 0x1000_000f;
pub const MACH_SEND_INVALID_HEADER: kern_return_t = 0x1000_0010;
pub const MACH_SEND_INVALID_TRAILER: kern_return_t = 0x1000_0011;
pub const MACH_SEND_INVALID_CONTEXT: kern_return_t = 0x1000_0012;
pub const MACH_SEND_INVALID_RT_OOL_SIZE: kern_return_t = 0x1000_0015;
pub const MACH_SEND_NO_GRANT_DEST: kern_return_t = 0x1000_0016;
pub const MACH_RCV_IN_PROGRESS: kern_return_t = 0x1000_4001;
pub const MACH_RCV_INVALID_NAME: kern_return_t = 0x1000_4002;
pub const MACH_RCV_TIMED_OUT: kern_return_t = 0x1000_4003;
pub const MACH_RCV_TOO_LARGE: kern_return_t = 0x1000_4004;
pub const MACH_RCV_INTERRUPTED: kern_return_t = 0x1000_4005;
pub const MACH_RCV_PORT_CHANGED: kern_return_t = 0x1000_4006;
pub const MACH_RCV_INVALID_NOTIFY: kern_return_t = 0x1000_4007;
pub const MACH_RCV_INVALID_DATA: kern_return_t = 0x1000_4008;
pub const MACH_RCV_PORT_DIED: kern_return_t = 0x1000_4009;
pub const MACH_RCV_IN_SET: kern_return_t = 0x1000_400a;
pub const MACH_RCV_HEADER_ERROR: kern_return_t = 0x1000_400b;
pub const MACH_RCV_BODY_ERROR: kern_return_t = 0x1000_400c;
pub const MACH_RCV_INVALID_TYPE: kern_return_t = 0x1000_400d;
pub const MACH_RCV_SCATTER_SMALL: kern_return_t = 0x1000_400e;
pub const MACH_RCV_INVALID_TRAILER: kern_return_t = 0x1000_400f;
pub const MACH_RCV_IN_PROGRESS_TIMED: kern_return_t = 0x1000_4011;
pub const MACH_RCV_INVALID_REPLY: kern_return_t = 0x1000_4012;

/// Turns a kernel return code into a `Result`.
pub trait IntoResult {
    type Value;
    type Error;

    fn into_result(self) -> std::result::Result<Self::Value, Self::Error>;
}

impl IntoResult for kern_return_t {
    type Value = ();
    type Error = KernelError;

    /// `Ok` for `KERN_SUCCESS`, else the error that the code stands for.
    fn into_result(self) -> (r: std::result::Result<(), KernelError>)
        ensures
            self == KERN_SUCCESS ==> r == Ok::<(), KernelError>(()),
            self != KERN_SUCCESS ==> r == Err::<(), KernelError>(kernel_error_of(self)),
    {
        if self == KERN_SUCCESS {
            Ok(())
        } else {
            Err(KernelError::from(self))
        }
    }
}

pub type Result<T> = std::result::Result<T, KernelError>;

/// An error reported by the Mach kernel.
#[derive(Debug, PartialEq, Eq, Structural)]
pub enum KernelError {
    InvalidAddress,
    ProtectionFailure,
    NoSpace,
    InvalidArgument,
    Failure,
    ResourceShortage,
    NotReceiver,
    NoAccess,
    MemoryFailure,
    MemoryError,
    AlreadyInSet,
    NotInSet,
    NameExists,
    Aborted,
    InvalidName,
    InvalidTask,
    InvalidRight,
    InvalidValue,
    UrefsOverflow,
    InvalidCapability,
    RightExists,
    InvalidHost,
    MemoryPresent,
    MemoryDataMoved,
    MemoryRestartCopy,
    InvalidProcessorSet,
    PolicyLimit,
    InvalidPolicy,
    InvalidObject,
    AlreadyWaiting,
    DefaultSet,
    ExceptionProtected,
    InvalidLedger,
    InvalidMemoryControl,
    InvalidSecurity,
    NotDepressed,
    Terminated,
    LockSetDestroyed,
    LockUnstable,
    LockOwned,
    LockOwnedSelf,
    SemaphoreDestroyed,
    RpcServerTerminated,
    RpcTerminateOrphan,
    RpcContinueOrphan,
    NotSupported,
    NodeDown,
    NotWaiting,
    OperationTimedOut,
    CodesignError,
    PolicyStatic,
    InsufficientBufferSize,
    MachSendInProgress,
    MachSendInvalidData,
    MachSendInvalidDest,
    MachSendTimedOut,
    MachSendInvalidVoucher,
    MachSendInterrupted,
    MachSendMsgTooSmall,
    MachSendInvalidReply,
    MachSendInvalidRight,
    MachSendInvalidNotify,
    MachSendInvalidMemory,
    MachSendNoBuffer,
    MachSendTooLarge,
    MachSendInvalidType,
    MachSendInvalidHeader,
    MachSendInvalidTrailer,
    MachSendInvalidContext,
    MachSendInvalidRtOolSize,
    MachSendNoGrantDest,
    MachRcvInProgress,
    MachRcvInvalidName,
    MachRcvTimedOut,
    MachRcvTooLarge,
    MachRcvInterrupted,
    MachRcvPortChanged,
    MachRcvInvalidNotify,
    MachRcvInvalidData,
    MachRcvPortDied,
    MachRcvInSet,
    MachRcvHeaderError,
    MachRcvBodyError,
    MachRcvInvalidType,
    MachRcvScatterSmall,
    MachRcvInvalidTrailer,
    MachRcvInProgressTimed,
    MachRcvInvalidReply,
    Unknown(kern_return_t),
}

/// The error that a kernel return code stands for.
pub open spec fn kernel_error_of(err: kern_return_t) -> KernelError {
    if err == KERN_INVALID_ADDRESS {
        KernelError::InvalidAddress
    } else if err == KERN_PROTECTION_FAILURE {
        KernelError::ProtectionFailure
    } else if err == KERN_NO_SPACE {
        KernelError::NoSpace
    } else if err == KERN_INVALID_ARGUMENT {
        KernelError::InvalidArgument
    } else if err == KERN_FAILURE {
        KernelError::Failure
    } else if err == KERN_RESOURCE_SHORTAGE {
        KernelError::ResourceShortage
    } else if err == KERN_NOT_RECEIVER {
        KernelError::NotReceiver
    } else if err == KERN_NO_ACCESS {
        KernelError::NoAccess
    } else if err == KERN_MEMORY_FAILURE {
        KernelError::MemoryFailure
    } else if err == KERN_MEMORY_ERROR {
        KernelError::MemoryError
    } else if err == KERN_ALREADY_IN_SET {
        KernelError::AlreadyInSet
    } else if err == KERN_NOT_IN_SET {
        KernelError::NotInSet
    } else if err == KERN_NAME_EXISTS {
        KernelError::NameExists
    } else if err == KERN_ABORTED {
        KernelError::Aborted
    } else if err == KERN_INVALID_NAME {
        KernelError::InvalidName
    } else if err == KERN_INVALID_TASK {
        KernelError::InvalidTask
    } else if err == KERN_INVALID_RIGHT {
        KernelError::InvalidRight
    } else if err == KERN_INVALID_VALUE {
        KernelError::InvalidValue
    } else if err == KERN_UREFS_OVERFLOW {
        KernelError::UrefsOverflow
    } else if err == KERN_INVALID_CAPABILITY {
        KernelError::InvalidCapability
    } else if err == KERN_RIGHT_EXISTS {
        KernelError::RightExists
    } else if err == KERN_INVALID_HOST {
        KernelError::InvalidHost
    } else if err == KERN_MEMORY_PRESENT {
        KernelError::MemoryPresent
    } else if err == KERN_MEMORY_DATA_MOVED {
        KernelError::MemoryDataMoved
    } else if err == KERN_MEMORY_RESTART_COPY {
        KernelError::MemoryRestartCopy
    } else if err == KERN_INVALID_PROCESSOR_SET {
        KernelError::InvalidProcessorSet
    } else if err == KERN_POLICY_LIMIT {
        KernelError::PolicyLimit
    } else if err == KERN_INVALID_POLICY {
        KernelError::InvalidPolicy
    } else if err == KERN_INVALID_OBJECT {
        KernelError::InvalidObject
    } else if err == KERN_ALREADY_WAITING {
        KernelError::AlreadyWaiting
    } else if err == KERN_DEFAULT_SET {
        KernelError::DefaultSet
    } else if err == KERN_EXCEPTION_PROTECTED {
        KernelError::ExceptionProtected
    } else if err == KERN_INVALID_LEDGER {
        KernelError::InvalidLedger
    } else if err == KERN_INVALID_MEMORY_CONTROL {
        KernelError::InvalidMemoryControl
    } else if err == KERN_INVALID_SECURITY {
        KernelError::InvalidSecurity
    } else if err == KERN_NOT_DEPRESSED {
        KernelError::NotDepressed
    } else if err == KERN_TERMINATED {
        KernelError::Terminated
    } else if err == KERN_LOCK_SET_DESTROYED {
        KernelError::LockSetDestroyed
    } else if err == KERN_LOCK_UNSTABLE {
        KernelError::LockUnstable
    } else if err == KERN_LOCK_OWNED {
        KernelError::LockOwned
    } else if err == KERN_LOCK_OWNED_SELF {
        KernelError::LockOwnedSelf
    } else if err == KERN_SEMAPHORE_DESTROYED {
        KernelError::SemaphoreDestroyed
    } else if err == KERN_RPC_SERVER_TERMINATED {
        KernelError::RpcServerTerminated
    } else if err == KERN_RPC_TERMINATE_ORPHAN {
        KernelError::RpcTerminateOrphan
    } else if err == KERN_RPC_CONTINUE_ORPHAN {
        KernelError::RpcContinueOrphan
    } else if err == KERN_NOT_SUPPORTED {
        KernelError::NotSupported
    } else if err == KERN_NODE_DOWN {
        KernelError::NodeDown
    } else if err == KERN_NOT_WAITING {
        KernelError::NotWaiting
    } else if err == KERN_OPERATION_TIMED_OUT {
        KernelError::OperationTimedOut
    } else if err == KERN_CODESIGN_ERROR {
        KernelError::CodesignError
    } else if err == KERN_POLICY_STATIC {
        KernelError::PolicyStatic
    } else if err == KERN_INSUFFICIENT_BUFFER_SIZE {
        KernelError::InsufficientBufferSize
    } else if err == MACH_SEND_IN_PROGRESS {
        KernelError::MachSendInProgress
    } else if err == MACH_SEND_INVALID_DATA {
        KernelError::MachSendInvalidData
    } else if err == MACH_SEND_INVALID_DEST {
        KernelError::MachSendInvalidDest
    } else if err == MACH_SEND_TIMED_OUT {
        KernelError::MachSendTimedOut
    } else if err == MACH_SEND_INVALID_VOUCHER {
        KernelError::MachSendInvalidVoucher
    } else if err == MACH_SEND_INTERRUPTED {
        KernelError::MachSendInterrupted
    } else if err == MACH_SEND_MSG_TOO_SMALL {
        KernelError::MachSendMsgTooSmall
    } else if err == MACH_SEND_INVALID_REPLY {
        KernelError::MachSendInvalidReply
    } else if err == MACH_SEND_INVALID_RIGHT {
        KernelError::MachSendInvalidRight
    } else if err == MACH_SEND_INVALID_NOTIFY {
        KernelError::MachSendInvalidNotify
    } else if err == MACH_SEND_INVALID_MEMORY {
        KernelError::MachSendInvalidMemory
    } else if err == MACH_SEND_NO_BUFFER {
        KernelError::MachSendNoBuffer
    } else if err == MACH_SEND_TOO_LARGE {
        KernelError::MachSendTooLarge
    } else if err == MACH_SEND_INVALID_TYPE {
        KernelError::MachSendInvalidType
    } else if err == MACH_SEND_INVALID_HEADER {
        KernelError::MachSendInvalidHeader
    } else if err == MACH_SEND_INVALID_TRAILER {
        KernelError::MachSendInvalidTrailer
    } else if err == MACH_SEND_INVALID_CONTEXT {
        KernelError::MachSendInvalidContext
    } else if err == MACH_SEND_INVALID_RT_OOL_SIZE {
        KernelError::MachSendInvalidRtOolSize
    } else if err == MACH_SEND_NO_GRANT_DEST {
        KernelError::MachSendNoGrantDest
    } else if err == MACH_RCV_IN_PROGRESS {
        KernelError::MachRcvInProgress
    } else if err == MACH_RCV_INVALID_NAME {
        KernelError::MachRcvInvalidName
    } else if err == MACH_RCV_TIMED_OUT {
        KernelError::MachRcvTimedOut
    } else if err == MACH_RCV_TOO_LARGE {
        KernelError::MachRcvTooLarge
    } else if err == MACH_RCV_INTERRUPTED {
        KernelError::MachRcvInterrupted
    } else if err == MACH_RCV_PORT_CHANGED {
        KernelError::MachRcvPortChanged
    } else if err == MACH_RCV_INVALID_NOTIFY {
        KernelError::MachRcvInvalidNotify
    } else if err == MACH_RCV_INVALID_DATA {
        KernelError::MachRcvInvalidData
    } else if err == MACH_RCV_PORT_DIED {
        KernelError::MachRcvPortDied
    } else if err == MACH_RCV_IN_SET {
        KernelError::MachRcvInSet
    } else if err == MACH_RCV_HEADER_ERROR {
        KernelError::MachRcvHeaderError
    } else if err == MACH_RCV_BODY_ERROR {
        KernelError::MachRcvBodyError
    } else if err == MACH_RCV_INVALID_TYPE {
        KernelError::MachRcvInvalidType
    } else if err == MACH_RCV_SCATTER_SMALL {
        KernelError::MachRcvScatterSmall
    } else if err == MACH_RCV_INVALID_TRAILER {
        KernelError::MachRcvInvalidTrailer
    } else if err == MACH_RCV_IN_PROGRESS_TIMED {
        KernelError::MachRcvInProgressTimed
    } else if err == MACH_RCV_INVALID_REPLY {
        KernelError::MachRcvInvalidReply
    } else {
        KernelError::Unknown(err)
    }
}

impl From<kern_return_t> for KernelError {
    fn from(err: kern_return_t) -> (r: KernelError) {
        match err {
            KERN_INVALID_ADDRESS => KernelError::InvalidAddress,
            KERN_PROTECTION_FAILURE => KernelError::ProtectionFailure,
            KERN_NO_SPACE => KernelError::NoSpace,
            KERN_INVALID_ARGUMENT => KernelError::InvalidArgument,
            KERN_FAILURE => KernelError::Failure,
            KERN_RESOURCE_SHORTAGE => KernelError::ResourceShortage,
            KERN_NOT_RECEIVER => KernelError::NotReceiver,
            KERN_NO_ACCESS => KernelError::NoAccess,
            KERN_MEMORY_FAILURE => KernelError::MemoryFailure,
            KERN_MEMORY_ERROR => KernelError::MemoryError,
            KERN_ALREADY_IN_SET => KernelError::AlreadyInSet,
            KERN_NOT_IN_SET => KernelError::NotInSet,
            KERN_NAME_EXISTS => KernelError::NameExists,
            KERN_ABORTED => KernelError::Aborted,
            KERN_INVALID_NAME => KernelError::InvalidName,
            KERN_INVALID_TASK => KernelError::InvalidTask,
            KERN_INVALID_RIGHT => KernelError::InvalidRight,
            KERN_INVALID_VALUE => KernelError::InvalidValue,
            KERN_UREFS_OVERFLOW => KernelError::UrefsOverflow,
            KERN_INVALID_CAPABILITY => KernelError::InvalidCapability,
            KERN_RIGHT_EXISTS => KernelError::RightExists,
            KERN_INVALID_HOST => KernelError::InvalidHost,
            KERN_MEMORY_PRESENT => KernelError::MemoryPresent,
            KERN_MEMORY_DATA_MOVED => KernelError::MemoryDataMoved,
            KERN_MEMORY_RESTART_COPY => KernelError::MemoryRestartCopy,
            KERN_INVALID_PROCESSOR_SET => KernelError::InvalidProcessorSet,
            KERN_POLICY_LIMIT => KernelError::PolicyLimit,
            KERN_INVALID_POLICY => KernelError::InvalidPolicy,
            KERN_INVALID_OBJECT => KernelError::InvalidObject,
            KERN_ALREADY_WAITING => KernelError::AlreadyWaiting,
            KERN_DEFAULT_SET => KernelError::DefaultSet,
            KERN_EXCEPTION_PROTECTED => KernelError::ExceptionProtected,
            KERN_INVALID_LEDGER => KernelError::InvalidLedger,
            KERN_INVALID_MEMORY_CONTROL => KernelError::InvalidMemoryControl,
            KERN_INVALID_SECURITY => KernelError::InvalidSecurity,
            KERN_NOT_DEPRESSED => KernelError::NotDepressed,
            KERN_TERMINATED => KernelError::Terminated,
            KERN_LOCK_SET_DESTROYED => KernelError::LockSetDestroyed,
            KERN_LOCK_UNSTABLE => KernelError::LockUnstable,
            KERN_LOCK_OWNED => KernelError::LockOwned,
            KERN_LOCK_OWNED_SELF => KernelError::LockOwnedSelf,
            KERN_SEMAPHORE_DESTROYED => KernelError::SemaphoreDestroyed,
            KERN_RPC_SERVER_TERMINATED => KernelError::RpcServerTerminated,
            KERN_RPC_TERMINATE_ORPHAN => KernelError::RpcTerminateOrphan,
            KERN_RPC_CONTINUE_ORPHAN => KernelError::RpcContinueOrphan,
            KERN_NOT_SUPPORTED => KernelError::NotSupported,
            KERN_NODE_DOWN => KernelError::NodeDown,
            KERN_NOT_WAITING => KernelError::NotWaiting,
            KERN_OPERATION_TIMED_OUT => KernelError::OperationTimedOut,
            KERN_CODESIGN_ERROR => KernelError::CodesignError,
            KERN_POLICY_STATIC => KernelError::PolicyStatic,
            KERN_INSUFFICIENT_BUFFER_SIZE => KernelError::InsufficientBufferSize,
            MACH_SEND_IN_PROGRESS => KernelError::MachSendInProgress,
            MACH_SEND_INVALID_DATA => KernelError::MachSendInvalidData,
            MACH_SEND_INVALID_DEST => KernelError::MachSendInvalidDest,
            MACH_SEND_TIMED_OUT => KernelError::MachSendTimedOut,
            MACH_SEND_INVALID_VOUCHER => KernelError::MachSendInvalidVoucher,
            MACH_SEND_INTERRUPTED => KernelError::MachSendInterrupted,
            MACH_SEND_MSG_TOO_SMALL => KernelError::MachSendMsgTooSmall,
            MACH_SEND_INVALID_REPLY => KernelError::MachSendInvalidReply,
            MACH_SEND_INVALID_RIGHT => KernelError::MachSendInvalidRight,
            MACH_SEND_INVALID_NOTIFY => KernelError::MachSendInvalidNotify,
            MACH_SEND_INVALID_MEMORY => KernelError::MachSendInvalidMemory,
            MACH_SEND_NO_BUFFER => KernelError::MachSendNoBuffer,
            MACH_SEND_TOO_LARGE => KernelError::MachSendTooLarge,
            MACH_SEND_INVALID_TYPE => KernelError::MachSendInvalidType,
            MACH_SEND_INVALID_HEADER => KernelError::MachSendInvalidHeader,
            MACH_SEND_INVALID_TRAILER => KernelError::MachSendInvalidTrailer,
            MACH_SEND_INVALID_CONTEXT => KernelError::MachSendInvalidContext,
            MACH_SEND_INVALID_RT_OOL_SIZE => KernelError::MachSendInvalidRtOolSize,
            MACH_SEND_NO_GRANT_DEST => KernelError::MachSendNoGrantDest,
            MACH_RCV_IN_PROGRESS => KernelError::MachRcvInProgress,
            MACH_RCV_INVALID_NAME => KernelError::MachRcvInvalidName,
            MACH_RCV_TIMED_OUT => KernelError::MachRcvTimedOut,
            MACH_RCV_TOO_LARGE => KernelError::MachRcvTooLarge,
            MACH_RCV_INTERRUPTED => KernelError::MachRcvInterrupted,
            MACH_RCV_PORT_CHANGED => KernelError::MachRcvPortChanged,
            MACH_RCV_INVALID_NOTIFY => KernelError::MachRcvInvalidNotify,
            MACH_RCV_INVALID_DATA => KernelError::MachRcvInvalidData,
            MACH_RCV_PORT_DIED => KernelError::MachRcvPortDied,
            MACH_RCV_IN_SET => KernelError::MachRcvInSet,
            MACH_RCV_HEADER_ERROR => KernelError::MachRcvHeaderError,
            MACH_RCV_BODY_ERROR => KernelError::MachRcvBodyError,
            MACH_RCV_INVALID_TYPE => KernelError::MachRcvInvalidType,
            MACH_RCV_SCATTER_SMALL => KernelError::MachRcvScatterSmall,
            MACH_RCV_INVALID_TRAILER => KernelError::MachRcvInvalidTrailer,
            MACH_RCV_IN_PROGRESS_TIMED => KernelError::MachRcvInProgressTimed,
            MACH_RCV_INVALID_REPLY => KernelError::MachRcvInvalidReply,
            unknown => KernelError::Unknown(unknown),
        }
    }
}

impl vstd::std_specs::convert::FromSpecImpl<kern_return_t> for KernelError {
    open spec fn obeys_from_spec() -> bool {
        true
    }

    open spec fn from_spec(err: kern_return_t) -> KernelError {
        kernel_error_of(err)
    }
}

} // verus!
