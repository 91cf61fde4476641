use tcp_webserver::{rv_handler, SyscallFailed};

#[test]
fn negative_one_is_the_failure_sentinel() {
    assert_eq!(rv_handler(-1i32), Err(SyscallFailed));
    assert_eq!(rv_handler(-1isize), Err(SyscallFailed));
}

#[test]
fn other_values_pass_through() {
    assert_eq!(rv_handler(0i32), Ok(0));
    assert_eq!(rv_handler(7i32), Ok(7));
    assert_eq!(rv_handler(-2isize), Ok(-2));
    assert_eq!(rv_handler(isize::MAX), Ok(isize::MAX));
}
