use ber_encode::encode_boolean;

#[test]
fn true_is_one_byte_of_one() {
    let mut buffer = Vec::new();
    encode_boolean(&mut buffer, true);
    assert_eq!(buffer, vec![0x01]);
}

#[test]
fn false_is_one_byte_of_zero() {
    let mut buffer = Vec::new();
    encode_boolean(&mut buffer, false);
    assert_eq!(buffer, vec![0x00]);
}

#[test]
fn boolean_is_appended_behind_what_is_there() {
    let mut buffer = vec![0xAA, 0xBB];
    encode_boolean(&mut buffer, true);
    encode_boolean(&mut buffer, false);
    assert_eq!(buffer, vec![0xAA, 0xBB, 0x01, 0x00]);
}

#[test]
fn boolean_twice_on_fresh_buffers_is_the_same() {
    for value in [true, false] {
        let mut first = Vec::new();
        let mut second = Vec::new();
        encode_boolean(&mut first, value);
        encode_boolean(&mut second, value);
        assert_eq!(first, second);
    }
}
