use deepcopy::fsattr::{
    is_dehydrated, is_retryable, ErrorKind, FileAttributes, IoError, Platform,
};

fn os(code: i32) -> IoError {
    IoError { kind: ErrorKind::Other, raw_os_error: Some(code) }
}

fn kind(kind: ErrorKind) -> IoError {
    IoError { kind, raw_os_error: None }
}

#[test]
fn any_recall_bit_marks_a_placeholder() {
    for bits in [0x1000, 0x4_0000, 0x40_0000, 0x44_1000, 0x40_0020] {
        assert!(is_dehydrated(FileAttributes::Windows(bits)));
    }
    for bits in [0, 0x20, 0x80, 0x8_0000, !0x44_1000] {
        assert!(!is_dehydrated(FileAttributes::Windows(bits)));
    }
    assert!(!is_dehydrated(FileAttributes::Unmarked));
}

#[test]
fn transient_codes_are_retried_on_windows() {
    let transient = [
        362, 387, 388, 389, 391, 393, 397, 398, 404, 426, 475, 32, 33, 59, 64, 121, 1450,
    ];
    for code in 0..2000 {
        assert_eq!(
            is_retryable(&os(code), Platform::Windows),
            transient.contains(&code),
            "code {code}"
        );
    }
    assert!(!is_retryable(&kind(ErrorKind::TimedOut), Platform::Windows));
}

#[test]
fn transient_kinds_are_retried_elsewhere() {
    assert!(is_retryable(&kind(ErrorKind::Interrupted), Platform::Other));
    assert!(is_retryable(&kind(ErrorKind::TimedOut), Platform::Other));
    assert!(is_retryable(&kind(ErrorKind::WouldBlock), Platform::Other));
    assert!(!is_retryable(&kind(ErrorKind::NotFound), Platform::Other));
    assert!(!is_retryable(&os(362), Platform::Other));
}
