use ziplist::consts::{
    ZIP_INT_16B, ZIP_INT_24B, ZIP_INT_32B, ZIP_INT_64B, ZIP_INT_8B, ZIP_INT_IMM_MAX,
    ZIP_INT_IMM_MIN, ZIP_STR_06B, ZIP_STR_14B, ZIP_STR_32B,
};
use ziplist::error::ZipListError;
use ziplist::number::{int_size, string_to_number, try_encoding};

#[test]
fn to_number() {
    let s = "-1234567899999999".to_string();
    let n = string_to_number(&s);
    match n {
        Ok(n) => {
            println!("number: {}", n);
        }
        Err(e) => {
            println!("Err: {:?}", e);
        }
    }
}

#[test]
fn to_number_gives_the_value() {
    assert_eq!(string_to_number("-1234567899999999"), Ok(-1234567899999999));
    assert_eq!(string_to_number("0"), Ok(0));
    assert_eq!(string_to_number("7"), Ok(7));
    assert_eq!(string_to_number("10"), Ok(10));
    assert_eq!(string_to_number("-1"), Ok(-1));
    assert_eq!(string_to_number("1000000"), Ok(1_000_000));
}

#[test]
fn to_number_reaches_both_ends_of_i64() {
    assert_eq!(string_to_number("9223372036854775807"), Ok(i64::MAX));
    assert_eq!(string_to_number("-9223372036854775808"), Ok(i64::MIN));
    assert_eq!(string_to_number("-9223372036854775807"), Ok(i64::MIN + 1));
}

#[test]
fn empty_string_is_invalid() {
    assert_eq!(string_to_number(""), Err(ZipListError::InvalidString));
}

#[test]
fn long_string_is_invalid() {
    // twenty bytes are read, twenty-one are not
    assert_eq!(string_to_number("-1000000000000000000"), Ok(-1_000_000_000_000_000_000));
    assert_eq!(
        string_to_number("-10000000000000000000"),
        Err(ZipListError::InvalidString)
    );
    assert_eq!(
        string_to_number("123456789012345678901"),
        Err(ZipListError::InvalidString)
    );
    assert_eq!(
        string_to_number("abcdefghijklmnopqrstuvwxyz"),
        Err(ZipListError::InvalidString)
    );
}

#[test]
fn leading_zero_is_rejected() {
    assert_eq!(string_to_number("00"), Err(ZipListError::InvalidFirstDigit));
    assert_eq!(string_to_number("01"), Err(ZipListError::InvalidFirstDigit));
    assert_eq!(string_to_number("-0"), Err(ZipListError::InvalidFirstDigit));
    assert_eq!(string_to_number("-01"), Err(ZipListError::InvalidFirstDigit));
}

#[test]
fn sign_without_digits_is_rejected() {
    assert_eq!(string_to_number("-"), Err(ZipListError::InvalidFirstDigit));
    assert_eq!(string_to_number("--1"), Err(ZipListError::InvalidFirstDigit));
}

#[test]
fn plus_sign_is_rejected() {
    assert_eq!(string_to_number("+1"), Err(ZipListError::InvalidFirstDigit));
}

#[test]
fn letters_are_rejected() {
    assert_eq!(string_to_number("abc"), Err(ZipListError::InvalidFirstDigit));
    assert_eq!(string_to_number("1a"), Err(ZipListError::InvalidChar));
    assert_eq!(string_to_number("12x4"), Err(ZipListError::InvalidChar));
    assert_eq!(string_to_number("-5-"), Err(ZipListError::InvalidChar));
}

#[test]
fn blanks_are_rejected() {
    assert_eq!(string_to_number(" 1"), Err(ZipListError::InvalidFirstDigit));
    assert_eq!(string_to_number("1 "), Err(ZipListError::InvalidChar));
    assert_eq!(string_to_number("1\n"), Err(ZipListError::InvalidChar));
}

#[test]
fn bytes_beyond_ascii_are_rejected() {
    assert_eq!(string_to_number("é"), Err(ZipListError::InvalidFirstDigit));
    assert_eq!(string_to_number("1é"), Err(ZipListError::InvalidChar));
}

#[test]
fn one_above_i64_max_overflows() {
    assert_eq!(
        string_to_number("9223372036854775808"),
        Err(ZipListError::OverFlowPositive)
    );
    assert_eq!(
        string_to_number("18446744073709551615"),
        Err(ZipListError::OverFlowPositive)
    );
}

#[test]
fn one_below_i64_min_overflows() {
    assert_eq!(
        string_to_number("-9223372036854775809"),
        Err(ZipListError::OverFlowNegative)
    );
    assert_eq!(
        string_to_number("-9999999999999999999"),
        Err(ZipListError::OverFlowNegative)
    );
}

#[test]
fn twentieth_digit_overflows_the_product() {
    assert_eq!(
        string_to_number("99999999999999999999"),
        Err(ZipListError::OverFlowMul)
    );
    assert_eq!(
        string_to_number("18446744073709551620"),
        Err(ZipListError::OverFlowMul)
    );
}

#[test]
fn twentieth_digit_overflows_the_sum() {
    assert_eq!(
        string_to_number("18446744073709551616"),
        Err(ZipListError::OverFlowAdd)
    );
    assert_eq!(
        string_to_number("18446744073709551619"),
        Err(ZipListError::OverFlowAdd)
    );
}

#[test]
fn bad_byte_comes_before_overflow() {
    assert_eq!(
        string_to_number("9999999999999999999x"),
        Err(ZipListError::InvalidChar)
    );
    assert_eq!(
        string_to_number("99999x99999999999999"),
        Err(ZipListError::InvalidChar)
    );
}

#[test]
fn printed_integers_are_read_back() {
    let values: Vec<i64> = vec![
        0,
        11,
        12,
        -1,
        i8::MIN as i64,
        i8::MAX as i64,
        i16::MIN as i64,
        i16::MAX as i64,
        -8388608,
        8388607,
        i32::MIN as i64,
        i32::MAX as i64,
        i64::MIN,
        i64::MAX,
    ];
    for v in values {
        assert_eq!(string_to_number(&format!("{}", v)), Ok(v));
    }
}

#[test]
fn accepted_strings_print_back_the_same() {
    let strings = vec![
        "0", "1", "-1", "00", "+1", "-0", "007", "12", "-12", " 12", "1e3", "0x10", "255", "-255",
        "9223372036854775807", "9223372036854775808",
    ];
    for s in strings {
        if let Ok(v) = string_to_number(s) {
            assert_eq!(format!("{}", v), s);
        }
    }
}

#[test]
fn try_encoding_picks_the_smallest_form() {
    assert_eq!(try_encoding("0"), Some((0, ZIP_INT_IMM_MIN)));
    assert_eq!(try_encoding("5"), Some((5, ZIP_INT_IMM_MIN + 5)));
    assert_eq!(try_encoding("11"), Some((11, ZIP_INT_IMM_MIN + 11)));
    assert_eq!(try_encoding("12"), Some((12, ZIP_INT_8B)));
    assert_eq!(try_encoding("-1"), Some((-1, ZIP_INT_8B)));
    assert_eq!(try_encoding("127"), Some((127, ZIP_INT_8B)));
    assert_eq!(try_encoding("-128"), Some((-128, ZIP_INT_8B)));
    assert_eq!(try_encoding("128"), Some((128, ZIP_INT_16B)));
    assert_eq!(try_encoding("-129"), Some((-129, ZIP_INT_16B)));
    assert_eq!(try_encoding("32767"), Some((32767, ZIP_INT_16B)));
    assert_eq!(try_encoding("-32768"), Some((-32768, ZIP_INT_16B)));
    assert_eq!(try_encoding("32768"), Some((32768, ZIP_INT_24B)));
    assert_eq!(try_encoding("-32769"), Some((-32769, ZIP_INT_24B)));
    assert_eq!(try_encoding("8388607"), Some((8388607, ZIP_INT_24B)));
    assert_eq!(try_encoding("-8388608"), Some((-8388608, ZIP_INT_24B)));
    assert_eq!(try_encoding("8388608"), Some((8388608, ZIP_INT_32B)));
    assert_eq!(try_encoding("-8388609"), Some((-8388609, ZIP_INT_32B)));
    assert_eq!(try_encoding("2147483647"), Some((2147483647, ZIP_INT_32B)));
    assert_eq!(try_encoding("-2147483648"), Some((-2147483648, ZIP_INT_32B)));
    assert_eq!(try_encoding("2147483648"), Some((2147483648, ZIP_INT_64B)));
    assert_eq!(try_encoding("-2147483649"), Some((-2147483649, ZIP_INT_64B)));
    assert_eq!(
        try_encoding("9223372036854775807"),
        Some((i64::MAX, ZIP_INT_64B))
    );
    assert_eq!(
        try_encoding("-9223372036854775808"),
        Some((i64::MIN, ZIP_INT_64B))
    );
}

#[test]
fn try_encoding_of_printed_integers() {
    let cases: Vec<(i64, u8)> = vec![
        (0, 0xf1),
        (11, 0xfc),
        (12, 0xfe),
        (-1, 0xfe),
        (i8::MIN as i64, 0xfe),
        (i8::MAX as i64, 0xfe),
        (i16::MIN as i64, 0xc0),
        (i16::MAX as i64, 0xc0),
        (-8388608, 0xf0),
        (8388607, 0xf0),
        (i32::MIN as i64, 0xd0),
        (i32::MAX as i64, 0xd0),
        (i64::MIN, 0xe0),
        (i64::MAX, 0xe0),
    ];
    for (v, tag) in cases {
        assert_eq!(try_encoding(&format!("{}", v)), Some((v, tag)));
    }
}

#[test]
fn try_encoding_leaves_strings_alone() {
    assert_eq!(try_encoding(""), None);
    assert_eq!(try_encoding("abc"), None);
    assert_eq!(try_encoding("00"), None);
    assert_eq!(try_encoding("+1"), None);
    assert_eq!(try_encoding("-0"), None);
    assert_eq!(try_encoding("1.5"), None);
    assert_eq!(try_encoding("9223372036854775808"), None);
    assert_eq!(try_encoding("-9223372036854775809"), None);
    assert_eq!(try_encoding("99999999999999999999"), None);
    assert_eq!(try_encoding("1234567890123456789012345678901"), None);
    assert_eq!(try_encoding("12345678901234567890123456789012"), None);
    assert_eq!(
        try_encoding("1234567890123456789012345678901234567890"),
        None
    );
}

#[test]
fn int_size_of_every_tag() {
    assert_eq!(int_size(ZIP_INT_8B), 1);
    assert_eq!(int_size(ZIP_INT_16B), 2);
    assert_eq!(int_size(ZIP_INT_24B), 3);
    assert_eq!(int_size(ZIP_INT_32B), 4);
    assert_eq!(int_size(ZIP_INT_64B), 8);
    let mut tag = ZIP_INT_IMM_MIN;
    while tag <= ZIP_INT_IMM_MAX {
        assert_eq!(int_size(tag), 0);
        tag += 1;
    }
    assert_eq!(int_size(ZIP_STR_06B), 0);
    assert_eq!(int_size(ZIP_STR_14B), 0);
    assert_eq!(int_size(ZIP_STR_32B), 0);
    assert_eq!(int_size(0xff), 0);
}

#[test]
fn canonical_rejection() {
    assert_eq!(string_to_number(""), Err(ZipListError::InvalidString));
    assert_eq!(string_to_number("00"), Err(ZipListError::InvalidFirstDigit));
    assert_eq!(string_to_number("+1"), Err(ZipListError::InvalidFirstDigit));
    assert_eq!(string_to_number("-0"), Err(ZipListError::InvalidFirstDigit));
    assert_eq!(string_to_number("0"), Ok(0));
    assert_eq!(string_to_number("abc"), Err(ZipListError::InvalidFirstDigit));
    assert_eq!(
        string_to_number("9223372036854775808"),
        Err(ZipListError::OverFlowPositive)
    );
    assert_eq!(
        string_to_number("-9223372036854775809"),
        Err(ZipListError::OverFlowNegative)
    );
}

#[test]
fn many_printed_integers_are_read_back() {
    let mut state: u64 = 0x9e3779b97f4a7c15;
    for round in 0..2000 {
        state = state
            .wrapping_mul(6364136223846793005)
            .wrapping_add(1442695040888963407);
        let v = (state as i64) >> (round % 64);
        let printed = format!("{}", v);
        assert_eq!(string_to_number(&printed), Ok(v));
        let (value, tag) = try_encoding(&printed).unwrap();
        assert_eq!(value, v);
        let wanted = if (0..12).contains(&v) {
            ZIP_INT_IMM_MIN + v as u8
        } else if v >= -128 && v <= 127 {
            ZIP_INT_8B
        } else if v >= -32768 && v <= 32767 {
            ZIP_INT_16B
        } else if v >= -8388608 && v <= 8388607 {
            ZIP_INT_24B
        } else if v >= -2147483648 && v <= 2147483647 {
            ZIP_INT_32B
        } else {
            ZIP_INT_64B
        };
        assert_eq!(tag, wanted);
    }
}
