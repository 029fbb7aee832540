use maestro::trace::{sample, CALLSTACK_DEPTH};

#[test]
fn sample_is_laid_out() {
    let mut callstack = [0; CALLSTACK_DEPTH];
    callstack[0] = 0x1122;
    callstack[1] = 0x33;
    callstack[3] = 0x44;
    let bytes = sample("buddy", 2, 0x0a0b0c, 0x100, &callstack);
    let mut expected = vec![5, 0, 0, 0, 0, 0, 0, 0];
    expected.extend_from_slice(b"buddy");
    expected.push(2);
    expected.extend_from_slice(&[0x0c, 0x0b, 0x0a, 0, 0, 0, 0, 0]);
    expected.extend_from_slice(&[0, 1, 0, 0, 0, 0, 0, 0]);
    expected.push(2);
    expected.extend_from_slice(&[0x22, 0x11, 0, 0, 0, 0, 0, 0]);
    expected.extend_from_slice(&[0x33, 0, 0, 0, 0, 0, 0, 0]);
    assert_eq!(bytes, expected);
}

#[test]
fn sample_of_an_empty_callstack() {
    let bytes = sample("", 0, 0, 0, &[0; CALLSTACK_DEPTH]);
    assert_eq!(bytes, vec![0; 26]);
}

#[test]
fn sample_of_a_full_callstack() {
    let bytes = sample("malloc", 1, u64::MAX, 1, &[u64::MAX; CALLSTACK_DEPTH]);
    assert_eq!(bytes.len(), 26 + 6 + 8 * CALLSTACK_DEPTH);
    assert_eq!(bytes[31], 64);
    assert!(bytes[32..].iter().all(|b| *b == 0xff));
}
