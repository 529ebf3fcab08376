use lbasedb::error::Error;
use lbasedb::ieee::{narrow, widen};
use lbasedb::le::{u32_from_le, u32_to_le, u64_from_le, u64_to_le};
use lbasedb::utils::{
    bytes_to_str, from_bytes, from_bytes_many, str_to_bytes, to_bytes, to_bytes_many,
    trimmed_length, try_bytes_to_str, validate_allowed_name,
};

#[test]
fn test_str_to_bytes() {
    assert_eq!(str_to_bytes::<4>("qwer"), [113, 119, 101, 114]);
    assert_eq!(str_to_bytes::<4>("qwerty"), [113, 119, 101, 114]);
    assert_eq!(str_to_bytes::<4>("qwe"), [113, 119, 101, 0]);
}

#[test]
fn test_bytes_to_str() {
    assert_eq!(bytes_to_str(&[113, 119, 101, 114]), "qwer");
    assert_eq!(bytes_to_str(&[113, 119, 101, 0, 0]), "qwe");
}

#[test]
fn test_validate_allowed_name() {
    assert!(validate_allowed_name("qwe").is_ok());
    assert!(validate_allowed_name("qwe1.rty2").is_ok());
    assert!(validate_allowed_name("Qwe_123.Rty_456.Uio_789").is_ok());
    assert!(validate_allowed_name(".qwe").is_err());
    assert!(validate_allowed_name("rty.").is_err());
    assert!(validate_allowed_name("qwe..rty").is_err());
    assert!(validate_allowed_name("1qwe").is_err());
    assert!(validate_allowed_name("qwe.2rty").is_err());
    assert!(validate_allowed_name("qwe-rty").is_err());
}

#[test]
fn test_validate_allowed_name_edges() {
    assert_eq!(validate_allowed_name(""), Err(Error::InvalidInput));
    assert_eq!(validate_allowed_name("qwe\n"), Err(Error::InvalidInput));
    assert_eq!(validate_allowed_name("a b"), Err(Error::InvalidInput));
    assert_eq!(validate_allowed_name("é"), Err(Error::InvalidInput));
    assert_eq!(validate_allowed_name("_"), Ok(()));
    assert_eq!(validate_allowed_name("_9._"), Ok(()));
}

#[test]
fn test_str_round_trip() {
    // A text that fits comes back; a longer one comes back cut.
    assert_eq!(bytes_to_str(&str_to_bytes::<8>("abc")), "abc");
    assert_eq!(bytes_to_str(&str_to_bytes::<3>("abc")), "abc");
    assert_eq!(bytes_to_str(&str_to_bytes::<2>("abc")), "ab");
    assert_eq!(bytes_to_str(&str_to_bytes::<4>("")), "");
    assert_eq!(bytes_to_str(&str_to_bytes::<4>("a\0")), "a");
    // A cut inside a character leaves bytes that are no text.
    assert_eq!(try_bytes_to_str(&str_to_bytes::<1>("é")), None);
    assert_eq!(try_bytes_to_str(&str_to_bytes::<2>("é")), Some("é"));
}

#[test]
fn test_trimmed_length() {
    assert_eq!(trimmed_length(&[]), 0);
    assert_eq!(trimmed_length(&[0, 0]), 0);
    assert_eq!(trimmed_length(&[1, 0, 2, 0, 0]), 3);
    assert_eq!(trimmed_length(&[1, 2]), 2);
}

#[test]
fn test_little_endian() {
    assert_eq!(u64_to_le(0x0102030405060708), vec![8, 7, 6, 5, 4, 3, 2, 1]);
    assert_eq!(u64_from_le(&[8, 7, 6, 5, 4, 3, 2, 1]), 0x0102030405060708);
    assert_eq!(u32_to_le(0x01020304), vec![4, 3, 2, 1]);
    assert_eq!(u32_from_le(&[4, 3, 2, 1, 9]), 0x01020304);
    assert_eq!(u64_to_le(u64::MAX), 0xffff_ffff_ffff_ffffu64.to_le_bytes().to_vec());
}

#[test]
fn test_pod_numbers() {
    assert_eq!(to_bytes(&65i64), vec![65, 0, 0, 0, 0, 0, 0, 0]);
    assert_eq!(to_bytes(&-2i64), (-2i64).to_le_bytes().to_vec());
    assert_eq!(to_bytes(&-2i32), (-2i32).to_le_bytes().to_vec());
    assert_eq!(from_bytes::<i64>(&[65, 0, 0, 0, 0, 0, 0, 0]), Some(65));
    assert_eq!(from_bytes::<i32>(&[0xfe, 0xff, 0xff, 0xff]), Some(-2));
    assert_eq!(from_bytes::<u32>(&[1, 0, 0, 0, 7, 7]), Some(1));
    let many = to_bytes_many(&[1i32, -1, 300]);
    assert_eq!(many, vec![1, 0, 0, 0, 255, 255, 255, 255, 44, 1, 0, 0]);
    assert_eq!(from_bytes_many::<i32>(&many), Some(vec![1, -1, 300]));
    // Bytes after the last whole block are not looked at.
    assert_eq!(from_bytes_many::<i32>(&[1, 0, 0, 0, 9]), Some(vec![1]));
    assert_eq!(from_bytes_many::<u64>(&[]), Some(vec![]));
}

fn next(state: &mut u64) -> u64 {
    *state = state.wrapping_mul(6364136223846793005).wrapping_add(1442695040888963407);
    *state ^ (*state >> 29)
}

#[test]
fn test_narrow_is_the_cast() {
    let mut cases: Vec<u64> = vec![
        0,
        1,
        0x8000_0000_0000_0000,
        3.14f64.to_bits(),
        2.718281828f64.to_bits(),
        f64::MAX.to_bits(),
        f64::MIN.to_bits(),
        f64::MIN_POSITIVE.to_bits(),
        f64::INFINITY.to_bits(),
        f64::NEG_INFINITY.to_bits(),
        (f32::MAX as f64).to_bits(),
        (f32::MAX as f64 * 1.0000001).to_bits(),
        (f32::MIN_POSITIVE as f64).to_bits(),
        (f32::MIN_POSITIVE as f64 / 3.0).to_bits(),
        1.0e-45f64.to_bits(),
        0.7e-45f64.to_bits(),
        0.5e-46f64.to_bits(),
        1.0000000596046448f64.to_bits(),
        1.0000001788139343f64.to_bits(),
    ];
    let mut state = 7u64;
    for _ in 0..200000 {
        let bits = next(&mut state);
        cases.push(bits);
        // Numbers near the range of single precision.
        let e = 1023 - 160 + (next(&mut state) % 300);
        cases.push((bits & 0x800f_ffff_ffff_ffff) | (e << 52));
        // Numbers half way between two single precision numbers.
        cases.push(((bits & 0x800f_ffff_e000_0000) | (e << 52)) | 0x1000_0000);
    }
    for bits in cases {
        let x = f64::from_bits(bits);
        let want = x as f32;
        let got = f32::from_bits(narrow(bits));
        if want.is_nan() {
            assert!(got.is_nan());
        } else {
            assert_eq!(got.to_bits(), want.to_bits(), "narrowing {:e}", x);
        }
    }
}

#[test]
fn test_widen_is_the_cast() {
    let mut cases: Vec<u32> = vec![0, 1, 2, 3, 0x7f_ffff, 0x80_0000, 0x7f7f_ffff, 0x7f80_0000];
    cases.push(0x8000_0000);
    cases.push(0xff80_0000);
    cases.push(3.14f32.to_bits());
    let mut state = 11u64;
    for _ in 0..200000 {
        let bits = next(&mut state) as u32;
        cases.push(bits);
        cases.push(bits & 0x807f_ffff);
        cases.push(bits & 0x8000_ffff);
    }
    for bits in cases {
        let x = f32::from_bits(bits);
        let want = x as f64;
        let got = f64::from_bits(widen(bits));
        if want.is_nan() {
            assert!(got.is_nan());
        } else {
            assert_eq!(got.to_bits(), want.to_bits(), "widening {:e}", x);
            assert_eq!(narrow(widen(bits)), bits);
        }
    }
}
