use openab_pty::containment::{
    judge_barrier, judge_dumpable, judge_set_dumpable, BarrierAnswers, ContainmentStatus,
    SecretBytes,
};
use openab_pty::Error;
use std::io::Error as IoError;

#[test]
fn secret_bytes_zeroize_explicitly() {
    let mut secret = SecretBytes::from_slice(b"synthetic-test-secret");
    secret.zeroize();
    assert!(secret.as_bytes().iter().all(|byte| *byte == 0));
}

#[test]
fn a_secret_keeps_its_bytes_until_it_is_erased() {
    let mut secret = SecretBytes::from(vec![1, 2, 3]);
    assert_eq!(secret.as_bytes(), &[1, 2, 3]);
    assert_eq!(secret.len(), 3);
    assert!(!secret.is_empty());
    secret.zeroize();
    assert_eq!(secret.as_bytes(), &[0, 0, 0]);
    assert!(SecretBytes::new(Vec::new()).is_empty());
}

#[test]
fn the_barrier_is_up_only_when_the_kernel_says_so() {
    assert!(judge_set_dumpable(0, IoError::from_raw_os_error(1)).is_ok());
    assert!(judge_set_dumpable(-1, IoError::from_raw_os_error(1)).is_err());
    assert!(judge_dumpable(0, IoError::from_raw_os_error(1)).is_ok());
    assert!(judge_dumpable(1, IoError::from_raw_os_error(1)).is_err());
    assert!(judge_dumpable(-1, IoError::from_raw_os_error(1)).is_err());
}

#[test]
fn the_barrier_is_active_only_where_it_was_set_and_read_back() {
    let judged = |set_result: i32, value: i32| {
        judge_barrier(Some(BarrierAnswers {
            set_result,
            set_error: IoError::from_raw_os_error(1),
            value,
            read_error: IoError::from_raw_os_error(2),
        }))
    };
    assert!(matches!(judged(0, 0), Ok(ContainmentStatus::Active)));
    assert!(matches!(judge_barrier(None), Ok(ContainmentStatus::Unsupported)));
    match judged(-1, 0) {
        Err(Error::Io(error)) => assert_eq!(error.raw_os_error(), Some(1)),
        _ => panic!("setting it failed"),
    }
    match judged(0, -1) {
        Err(Error::Io(error)) => assert_eq!(error.raw_os_error(), Some(2)),
        _ => panic!("reading it back failed"),
    }
    match judged(0, 1) {
        Err(Error::Other(message)) => assert_eq!(
            message,
            "PR_GET_DUMPABLE returned 1; refusing to handle transient secrets"
        ),
        _ => panic!("it was not in force"),
    }
}
