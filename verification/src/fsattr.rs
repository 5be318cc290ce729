//! Filesystem attribute probing and error classification.

use vstd::prelude::*;

verus! {

/// Legacy HSM/archive bit.
pub const FILE_ATTRIBUTE_OFFLINE: u32 = 0x0000_1000;

/// Set by providers that hydrate on open rather than on read.
pub const FILE_ATTRIBUTE_RECALL_ON_OPEN: u32 = 0x0004_0000;

/// Set by OneDrive Files-On-Demand on a placeholder and cleared once the file is hydrated.
pub const FILE_ATTRIBUTE_RECALL_ON_DATA_ACCESS: u32 = 0x0040_0000;

/// The attributes that a file's metadata carries.
#[derive(Debug, Clone, Copy, PartialEq, Eq, Structural)]
pub enum FileAttributes {
    /// The attribute bits of a Windows file.
    Windows(u32),
    /// A platform that does not mark cloud placeholders.
    Unmarked,
}

/// Whether a file is an online-only placeholder: any one of the three bits says so.
pub open spec fn marks_placeholder(attributes: FileAttributes) -> bool {
    match attributes {
        FileAttributes::Windows(bits) => {
            ||| bits & FILE_ATTRIBUTE_OFFLINE != 0
            ||| bits & FILE_ATTRIBUTE_RECALL_ON_OPEN != 0
            ||| bits & FILE_ATTRIBUTE_RECALL_ON_DATA_ACCESS != 0
        },
        FileAttributes::Unmarked => false,
    }
}

/// Whether a file is an un-hydrated (online-only) cloud placeholder.
///
/// The bits are binary, so a partially hydrated file still reports `true`.
pub fn is_dehydrated(attributes: FileAttributes) -> (r: bool)
    ensures
        r == marks_placeholder(attributes),
{
    match attributes {
        FileAttributes::Windows(bits) => {
            let mask: u32 = FILE_ATTRIBUTE_OFFLINE | FILE_ATTRIBUTE_RECALL_ON_OPEN
                | FILE_ATTRIBUTE_RECALL_ON_DATA_ACCESS;
            assert(bits & (0x0000_1000u32 | 0x0004_0000u32 | 0x0040_0000u32) != 0 <==> (bits
                & 0x0000_1000u32 != 0 || bits & 0x0004_0000u32 != 0 || bits & 0x0040_0000u32 != 0))
                by (bit_vector);
            bits & mask != 0
        },
        FileAttributes::Unmarked => false,
    }
}

/// The kinds of I/O error that are told apart.
#[derive(Debug, Clone, Copy, PartialEq, Eq, Structural)]
pub enum ErrorKind {
    NotFound,
    Interrupted,
    TimedOut,
    WouldBlock,
    Other,
}

/// A failed filesystem operation.
#[derive(Debug, Clone, Copy, PartialEq, Eq, Structural)]
pub struct IoError {
    pub kind: ErrorKind,
    /// The operating system's own code, where the error came from it.
    pub raw_os_error: Option<i32>,
}

/// Whose error codes an [`IoError`] carries.
#[derive(Debug, Clone, Copy, PartialEq, Eq, Structural)]
pub enum Platform {
    Windows,
    Other,
}

pub const CLOUD_FILE_PROVIDER_NOT_RUNNING: i32 = 362;

pub const CLOUD_FILE_INSUFFICIENT_RESOURCES: i32 = 387;

pub const CLOUD_FILE_NETWORK_UNAVAILABLE: i32 = 388;

pub const CLOUD_FILE_UNSUCCESSFUL: i32 = 389;

pub const CLOUD_FILE_IN_USE: i32 = 391;

pub const CLOUD_FILE_REQUEST_ABORTED: i32 = 393;

pub const CLOUD_FILE_PROPERTY_LOCK_CONFLICT: i32 = 397;

pub const CLOUD_FILE_REQUEST_CANCELED: i32 = 398;

pub const CLOUD_FILE_PROVIDER_TERMINATED: i32 = 404;

pub const CLOUD_FILE_REQUEST_TIMEOUT: i32 = 426;

pub const CLOUD_FILE_US_MESSAGE_TIMEOUT: i32 = 475;

pub const SHARING_VIOLATION: i32 = 32;

pub const LOCK_VIOLATION: i32 = 33;

pub const UNEXP_NET_ERR: i32 = 59;

pub const NETNAME_DELETED: i32 = 64;

pub const SEM_TIMEOUT: i32 = 121;

pub const NO_SYSTEM_RESOURCES: i32 = 1450;

/// Transient cloud-provider conditions, as `winerror.h` numbers them.
pub open spec fn cloud_codes() -> Set<i32> {
    set![
        CLOUD_FILE_PROVIDER_NOT_RUNNING,
        CLOUD_FILE_INSUFFICIENT_RESOURCES,
        CLOUD_FILE_NETWORK_UNAVAILABLE,
        CLOUD_FILE_UNSUCCESSFUL,
        CLOUD_FILE_IN_USE,
        CLOUD_FILE_REQUEST_ABORTED,
        CLOUD_FILE_PROPERTY_LOCK_CONFLICT,
        CLOUD_FILE_REQUEST_CANCELED,
        CLOUD_FILE_PROVIDER_TERMINATED,
        CLOUD_FILE_REQUEST_TIMEOUT,
        CLOUD_FILE_US_MESSAGE_TIMEOUT,
    ]
}

/// Generic transient conditions that also show up mid-hydration.
pub open spec fn generic_codes() -> Set<i32> {
    set![
        SHARING_VIOLATION,
        LOCK_VIOLATION,
        UNEXP_NET_ERR,
        NETNAME_DELETED,
        SEM_TIMEOUT,
        NO_SYSTEM_RESOURCES,
    ]
}

/// Whether an I/O error is transient.
pub open spec fn is_transient(e: IoError, platform: Platform) -> bool {
    match platform {
        Platform::Windows => match e.raw_os_error {
            Some(code) => cloud_codes().contains(code) || generic_codes().contains(code),
            None => false,
        },
        Platform::Other => {
            ||| e.kind is Interrupted
            ||| e.kind is TimedOut
            ||| e.kind is WouldBlock
        },
    }
}

/// Whether an I/O error is transient enough to be worth retrying.
///
/// Values verified against `winerror.h` (Windows SDK 10.0.22621.0).
pub fn is_retryable(e: &IoError, platform: Platform) -> (r: bool)
    ensures
        r == is_transient(*e, platform),
{
    match platform {
        Platform::Windows => match e.raw_os_error {
            Some(c) => {
                c == CLOUD_FILE_PROVIDER_NOT_RUNNING || c == CLOUD_FILE_INSUFFICIENT_RESOURCES || c
                    == CLOUD_FILE_NETWORK_UNAVAILABLE || c == CLOUD_FILE_UNSUCCESSFUL || c
                    == CLOUD_FILE_IN_USE || c == CLOUD_FILE_REQUEST_ABORTED || c
                    == CLOUD_FILE_PROPERTY_LOCK_CONFLICT || c == CLOUD_FILE_REQUEST_CANCELED || c
                    == CLOUD_FILE_PROVIDER_TERMINATED || c == CLOUD_FILE_REQUEST_TIMEOUT || c
                    == CLOUD_FILE_US_MESSAGE_TIMEOUT || c == SHARING_VIOLATION || c
                    == LOCK_VIOLATION || c == UNEXP_NET_ERR || c == NETNAME_DELETED || c
                    == SEM_TIMEOUT || c == NO_SYSTEM_RESOURCES
            },
            None => false,
        },
        Platform::Other => matches!(
            e.kind,
            ErrorKind::Interrupted | ErrorKind::TimedOut | ErrorKind::WouldBlock
        ),
    }
}

/// On Windows a file is a placeholder exactly if one of the bits 12, 18 and 22 is set, whatever
/// other bits are; elsewhere none is.
pub proof fn law_three_bits_mark_a_placeholder(bits: u32, others: u32)
    ensures
        marks_placeholder(FileAttributes::Windows(bits)) <==> bits & 0x0044_1000 != 0,
        bits & 0x0044_1000 == others & 0x0044_1000 ==> marks_placeholder(
            FileAttributes::Windows(bits),
        ) == marks_placeholder(FileAttributes::Windows(others)),
        marks_placeholder(FileAttributes::Windows(bits)) ==> marks_placeholder(
            FileAttributes::Windows(bits | others),
        ),
        !marks_placeholder(FileAttributes::Unmarked),
{
    assert(bits & 0x0044_1000 != 0 <==> (bits & 0x0000_1000 != 0 || bits & 0x0004_0000 != 0 || bits
        & 0x0040_0000 != 0)) by (bit_vector);
    assert(others & 0x0044_1000 != 0 <==> (others & 0x0000_1000 != 0 || others & 0x0004_0000 != 0
        || others & 0x0040_0000 != 0)) by (bit_vector);
    let both = bits | others;
    assert(both & 0x0044_1000 != 0 <==> (both & 0x0000_1000 != 0 || both & 0x0004_0000 != 0 || both
        & 0x0040_0000 != 0)) by (bit_vector);
    assert(bits & 0x0044_1000 != 0 ==> (bits | others) & 0x0044_1000 != 0) by (bit_vector);
}

/// On Windows the code alone decides whether an error is transient; elsewhere its kind alone does.
pub proof fn law_one_thing_decides_what_is_transient(a: IoError, b: IoError)
    ensures
        a.raw_os_error == b.raw_os_error ==> is_transient(a, Platform::Windows) == is_transient(
            b,
            Platform::Windows,
        ),
        a.kind == b.kind ==> is_transient(a, Platform::Other) == is_transient(b, Platform::Other),
        is_transient(a, Platform::Other) <==> a.kind is Interrupted || a.kind is TimedOut
            || a.kind is WouldBlock,
        a.raw_os_error is None ==> !is_transient(a, Platform::Windows),
{
}

/// Every cloud-provider condition that passes, and every other that shows up while a file is
/// pulled down, is transient on Windows, and nothing else is.
pub proof fn law_passing_conditions_are_transient(kind: ErrorKind, code: i32)
    ensures
        is_transient(IoError { kind, raw_os_error: Some(code) }, Platform::Windows) <==> {
            ||| code == 362 || code == 404
            ||| 387 <= code <= 389
            ||| code == 391 || code == 393
            ||| 397 <= code <= 398
            ||| code == 426 || code == 475
            ||| 32 <= code <= 33
            ||| code == 59 || code == 64 || code == 121 || code == 1450
        },
{
}

} // verus!
