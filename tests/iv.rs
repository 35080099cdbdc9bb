use otr_engine::iv::Iv;

#[test]
fn check_add_iv() {
    let mut iv = Iv::default();
    for _ in 0..=4080 {
        iv.add_one();
    }
    let mut expected = [0u8; 16];
    expected[0] = 0xF1;
    expected[1] = 0x0F;
    assert_eq!(iv.0, expected);
}

#[test]
fn first_step_from_zero() {
    let mut iv = Iv::default();
    iv.add_one();
    let mut expected = [0u8; 16];
    expected[0] = 1;
    assert_eq!(iv.0, expected);
}

#[test]
fn saturated_low_byte_carries_into_next() {
    let mut start = [0u8; 16];
    start[0] = 255;
    let mut iv = Iv(start);
    iv.add_one();
    let mut expected = [0u8; 16];
    expected[1] = 1;
    assert_eq!(iv.0, expected);
}

#[test]
fn carry_runs_through_several_bytes() {
    let mut start = [0u8; 16];
    start[0] = 255;
    start[1] = 255;
    start[2] = 7;
    let mut iv = Iv(start);
    iv.add_one();
    let mut expected = [0u8; 16];
    expected[2] = 8;
    assert_eq!(iv.0, expected);
}

#[test]
fn all_ones_wraps_to_zero() {
    let mut iv = Iv([255u8; 16]);
    iv.add_one();
    assert_eq!(iv.0, [0u8; 16]);
}

#[test]
fn rekey_predicate_reads_byte_eight() {
    let mut bytes = [0u8; 16];
    assert!(!Iv(bytes).check_rekying_should_be_done());
    bytes[8] = 255;
    assert!(Iv(bytes).check_rekying_should_be_done());
    bytes[8] = 254;
    bytes[9] = 255;
    assert!(!Iv(bytes).check_rekying_should_be_done());
}

#[test]
fn rekey_byte_fills_by_carry_long_before_wrap() {
    let mut start = [255u8; 16];
    start[8] = 254;
    for b in start.iter_mut().skip(9) {
        *b = 0;
    }
    let mut iv = Iv(start);
    assert!(!iv.check_rekying_should_be_done());
    iv.add_one();
    let mut expected = [0u8; 16];
    expected[8] = 255;
    assert_eq!(iv.0, expected);
    assert!(iv.check_rekying_should_be_done());
}
