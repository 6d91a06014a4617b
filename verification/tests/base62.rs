use zqlu::base62::{decode, encode, encode_base62};

#[test]
fn keeps_encoding_for_non_leading_zero_input() {
    let input = [0x12, 0x34, 0x56];
    assert_eq!(encode(&input), codeckit::Base62::encode(&input));
}

#[test]
fn rewrites_leading_zero_marker_to_zero_digit() {
    assert_eq!(encode(&[0]), "0");
    assert_eq!(encode(&[0, 0]), "00");
    assert_eq!(encode(&[0, 1]), "01");
    assert_eq!(encode(&[0, 0, 0xff]), "0047");
}

#[test]
fn decode_restores_leading_zero_bytes() {
    assert_eq!(decode("0"), vec![0]);
    assert_eq!(decode("00"), vec![0, 0]);
    assert_eq!(decode("01"), vec![0, 1]);
    assert_eq!(decode("0047"), vec![0, 0, 0xff]);
}

#[test]
fn round_trips_byte_sequences_with_leading_zeroes() {
    for input in [
        vec![0],
        vec![0, 1],
        vec![0, 0, 1],
        vec![0, 0xff],
        vec![0, 0, 0xff],
        vec![0, 0x12, 0x34, 0x56],
    ] {
        assert_eq!(decode(&encode(&input)), input);
    }
}

#[test]
fn encodes_the_empty_input_as_nothing() {
    assert_eq!(encode(&[]), "");
    assert_eq!(decode(""), Vec::<u8>::new());
}

#[test]
fn encodes_big_endian_value_in_base_62() {
    // 0x0100 = 256 = 4 * 62 + 8
    assert_eq!(encode(&[1, 0]), "48");
    // 61 is the last digit, z
    assert_eq!(encode(&[61]), "z");
    assert_eq!(encode(&[62]), "10");
    assert_eq!(decode("48"), vec![1, 0]);
    assert_eq!(decode("z"), vec![61]);
}

#[test]
fn decode_passes_over_white_space_inside_the_digits() {
    assert_eq!(decode("4 8"), vec![1, 0]);
    assert_eq!(decode("0 47"), vec![0, 0xff]);
}

#[test]
fn round_trips_bytes_without_leading_zeroes() {
    let input: Vec<u8> = (1..=40).collect();
    assert_eq!(decode(&encode(&input)), input);
    let all_zero = vec![0u8; 5];
    assert_eq!(encode(&all_zero), "00000");
    assert_eq!(decode(&encode(&all_zero)), all_zero);
}

#[test]
fn both_encoders_write_the_same_text() {
    for input in [
        vec![],
        vec![0],
        vec![0, 0],
        vec![0, 1],
        vec![0, 0, 0xff],
        vec![0x12, 0x34, 0x56],
        vec![0, 0x12, 0x34, 0x56],
    ] {
        assert_eq!(encode_base62(&input), encode(&input));
    }
}

#[test]
fn decoding_then_encoding_gives_the_text_back() {
    for text in ["00AbC", "1", "0", "Zz09", "000"] {
        assert_eq!(encode(&decode(text)), text);
    }
}
