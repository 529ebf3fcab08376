use lbasedb::datatype::{fit, Datatype, Dataunit};
use lbasedb::error::Error;
use lbasedb::series::{decode_series, encode_series};
use lbasedb::types::Types;

#[test]
fn test_size() {
    assert_eq!(Datatype::Int64.size(), 8);
    assert_eq!(Datatype::Int32.size(), 4);
    assert_eq!(Datatype::Float64.size(), 8);
    assert_eq!(Datatype::Float32.size(), 4);
    assert_eq!(Datatype::Bytes(5).size(), 5);
    assert_eq!(Datatype::String(6).size(), 6);
    assert_eq!(Datatype::Blob.size(), 0);
    assert_eq!(Datatype::Text.size(), 0);
}

#[test]
fn test_convert_string() {
    assert_eq!(Datatype::Int32.to_string(), "Int32");
    assert_eq!(Datatype::Bytes(25).to_string(), "Bytes[25]");
    assert_eq!(Datatype::String(26).to_string(), "String[26]");

    assert_eq!("Int32".parse::<Datatype>(), Ok(Datatype::Int32));
    assert_eq!("Bytes[25]".parse::<Datatype>(), Ok(Datatype::Bytes(25)));
    assert_eq!("String[26]".parse::<Datatype>(), Ok(Datatype::String(26)));

    assert_eq!("Boolean".parse::<Datatype>(), Err("Unknown datatype".to_string()));
    assert_eq!("Bytes[xxx]".parse::<Datatype>(), Err("Unknown datatype".to_string()));
    assert_eq!("Bytes[-12]".parse::<Datatype>(), Err("Unknown datatype".to_string()));
    assert_eq!("String[xxx]".parse::<Datatype>(), Err("Unknown datatype".to_string()));
    assert_eq!("String[-12]".parse::<Datatype>(), Err("Unknown datatype".to_string()));
}

#[test]
fn test_parse_edges() {
    let unknown = Err("Unknown datatype".to_string());
    assert_eq!(Datatype::parse("Int64"), Ok(Datatype::Int64));
    assert_eq!(Datatype::parse("Float64"), Ok(Datatype::Float64));
    assert_eq!(Datatype::parse("Float32"), Ok(Datatype::Float32));
    assert_eq!(Datatype::parse("Blob"), Ok(Datatype::Blob));
    assert_eq!(Datatype::parse("Text"), Ok(Datatype::Text));
    assert_eq!(Datatype::parse("Bytes[+7]"), Ok(Datatype::Bytes(7)));
    assert_eq!(Datatype::parse("Bytes[007]"), Ok(Datatype::Bytes(7)));
    assert_eq!(Datatype::parse("Bytes[0]"), unknown);
    assert_eq!(Datatype::parse("Bytes[]"), unknown);
    assert_eq!(Datatype::parse("Bytes[+]"), unknown);
    assert_eq!(Datatype::parse("Bytes[1 ]"), unknown);
    assert_eq!(Datatype::parse("Bytes[1"), unknown);
    assert_eq!(Datatype::parse("Bytes]"), unknown);
    assert_eq!(Datatype::parse("bytes[1]"), unknown);
    assert_eq!(Datatype::parse("int64"), unknown);
    assert_eq!(Datatype::parse(""), unknown);
    assert_eq!(Datatype::parse("Bytes[٣]"), unknown);
    assert_eq!(Datatype::parse("Bytes[99999999999999999999999999]"), unknown);
    let max = format!("String[{}]", usize::MAX);
    assert_eq!(Datatype::parse(&max), Ok(Datatype::String(usize::MAX)));
    assert_eq!(Datatype::String(usize::MAX).to_string(), max);
    assert_eq!(Datatype::Bytes(0).to_string(), "Bytes[0]");
    assert_eq!(Datatype::Float64.to_string(), "Float64");
}

#[test]
fn test_dataunit_convert() {
    assert_eq!(
        Datatype::Int64.to_bytes(&Dataunit::I(25)).unwrap(),
        vec![25, 0, 0, 0, 0, 0, 0, 0]
    );
    assert_eq!(Datatype::Int32.to_bytes(&Dataunit::I(25)).unwrap(), vec![25, 0, 0, 0]);
    assert_eq!(
        Datatype::Float64.to_bytes(&Dataunit::F(3.14f64.to_bits())).unwrap(),
        vec![31, 133, 235, 81, 184, 30, 9, 64]
    );
    assert_eq!(
        Datatype::Float32.to_bytes(&Dataunit::F(3.14f64.to_bits())).unwrap(),
        vec![195, 245, 72, 64]
    );
    assert_eq!(
        Datatype::Bytes(5).to_bytes(&Dataunit::S("+uwgVQA=".to_string())).unwrap(),
        vec![250, 236, 32, 85, 0]
    );
    assert_eq!(
        Datatype::String(6).to_bytes(&Dataunit::S("Qwe".to_string())).unwrap(),
        vec![81, 119, 101, 0, 0, 0]
    );
    assert_eq!(
        Datatype::Blob.to_bytes(&Dataunit::S("+uwgVQA=".to_string())).unwrap(),
        vec![250, 236, 32, 85, 0]
    );
    assert_eq!(
        Datatype::Text.to_bytes(&Dataunit::S("Qwe".to_string())).unwrap(),
        vec![81, 119, 101]
    );

    assert_eq!(Datatype::Int64.from_bytes(&[25, 0, 0, 0, 0, 0, 0, 0]), Dataunit::I(25));
    assert_eq!(Datatype::Int32.from_bytes(&[25, 0, 0, 0]), Dataunit::I(25));
    assert_eq!(
        Datatype::Float64.from_bytes(&[31, 133, 235, 81, 184, 30, 9, 64]),
        Dataunit::F(3.14f64.to_bits())
    );
    assert_eq!(
        Datatype::Float32.from_bytes(&[195, 245, 72, 64]),
        Dataunit::F(3.140000104904175f64.to_bits())
    );
    assert_eq!(
        Datatype::Bytes(5).from_bytes(&[250, 236, 32, 85, 0]),
        Dataunit::S("+uwgVQA=".to_string())
    );
    assert_eq!(
        Datatype::String(5).from_bytes(&[81, 119, 101, 0, 0, 0]),
        Dataunit::S("Qwe".to_string())
    );
    assert_eq!(
        Datatype::Blob.from_bytes(&[250, 236, 32, 85, 0]),
        Dataunit::S("+uwgVQA=".to_string())
    );
    assert_eq!(Datatype::Text.from_bytes(&[81, 119, 101, 0]), Dataunit::S("Qwe".to_string()));
}

#[test]
fn test_mismatch_is_none() {
    let i = Dataunit::I(1);
    let f = Dataunit::F(1.5f64.to_bits());
    let s = Dataunit::S("QQ==".to_string());
    assert_eq!(Datatype::Int64.to_bytes(&f), None);
    assert_eq!(Datatype::Int32.to_bytes(&s), None);
    assert_eq!(Datatype::Float64.to_bytes(&i), None);
    assert_eq!(Datatype::Float32.to_bytes(&s), None);
    assert_eq!(Datatype::Bytes(2).to_bytes(&i), None);
    assert_eq!(Datatype::String(2).to_bytes(&f), None);
    assert_eq!(Datatype::Blob.to_bytes(&i), None);
    assert_eq!(Datatype::Text.to_bytes(&f), None);
    assert_eq!(Datatype::Int64.try_to_bytes(&f), Err(Error::InvalidData));
    assert_eq!(Datatype::Int64.try_to_bytes(&i), Ok(vec![1, 0, 0, 0, 0, 0, 0, 0]));
}

#[test]
fn test_base64_that_does_not_decode() {
    let bad = Dataunit::S("not base64!".to_string());
    assert_eq!(Datatype::Bytes(4).try_to_bytes(&bad), Err(Error::InvalidData));
    assert_eq!(Datatype::Blob.try_to_bytes(&bad), Err(Error::InvalidData));
    // The same text is a text for a column of strings.
    assert_eq!(Datatype::String(3).try_to_bytes(&bad), Ok(vec![110, 111, 116]));
}

#[test]
fn test_bytes_cut_and_fill() {
    // "AQID" is the Base64 of the bytes 1, 2, 3.
    let unit = Dataunit::S("AQID".to_string());
    assert_eq!(Datatype::Bytes(2).to_bytes(&unit), Some(vec![1, 2]));
    assert_eq!(Datatype::Bytes(3).to_bytes(&unit), Some(vec![1, 2, 3]));
    assert_eq!(Datatype::Bytes(5).to_bytes(&unit), Some(vec![1, 2, 3, 0, 0]));
    assert_eq!(Datatype::Bytes(3).from_bytes(&[1, 2, 3, 9, 9]), unit);
    assert_eq!(fit(vec![1, 2, 3], 0), Vec::<u8>::new());
    assert_eq!(fit(vec![], 2), vec![0, 0]);
}

#[test]
fn test_unit_round_trip() {
    for v in [0i64, 1, -1, i64::MAX, i64::MIN, 1 << 40] {
        let b = Datatype::Int64.to_bytes(&Dataunit::I(v)).unwrap();
        assert_eq!(Datatype::Int64.from_bytes(&b), Dataunit::I(v));
    }
    for v in [0i64, 1, -1, i32::MAX as i64, i32::MIN as i64] {
        let b = Datatype::Int32.to_bytes(&Dataunit::I(v)).unwrap();
        assert_eq!(Datatype::Int32.from_bytes(&b), Dataunit::I(v));
    }
    // An integer that 32 bits do not hold loses its upper bits.
    let b = Datatype::Int32.to_bytes(&Dataunit::I((1 << 32) + 5)).unwrap();
    assert_eq!(Datatype::Int32.from_bytes(&b), Dataunit::I(5));
    for x in [0.0f64, -0.0, 2.15, 5.55, f64::MAX, f64::MIN_POSITIVE, f64::INFINITY] {
        let u = Dataunit::F(x.to_bits());
        let b = Datatype::Float64.to_bytes(&u).unwrap();
        assert_eq!(Datatype::Float64.from_bytes(&b), u);
    }
    for x in [0.0f32, -0.0, 2.5, 0.1, f32::MAX, f32::MIN_POSITIVE, 1.0e-40, f32::INFINITY] {
        let u = Dataunit::F((x as f64).to_bits());
        let b = Datatype::Float32.to_bytes(&u).unwrap();
        assert_eq!(b, x.to_le_bytes().to_vec());
        assert_eq!(Datatype::Float32.from_bytes(&b), u);
    }
    let text = Dataunit::S("AAECAwQ=".to_string());
    let b = Datatype::Bytes(5).to_bytes(&text).unwrap();
    assert_eq!(b, vec![0, 1, 2, 3, 4]);
    assert_eq!(Datatype::Bytes(5).from_bytes(&b), text);
}

#[test]
fn test_lossy_text() {
    assert_eq!(
        Datatype::String(3).from_bytes(&[0xff, 65, 0]),
        Dataunit::S("\u{fffd}A".to_string())
    );
    assert_eq!(
        Datatype::Text.from_bytes(&[0xe2, 0x82, 0, 0]),
        Dataunit::S(String::from_utf8_lossy(&[0xe2, 0x82, 0, 0]).trim_end_matches('\0').to_string())
    );
    assert_eq!(Datatype::Text.from_bytes("héllo".as_bytes()), Dataunit::S("héllo".to_string()));
}

#[test]
fn test_series() {
    let units = vec![Dataunit::I(2), Dataunit::I(5)];
    let block = encode_series(&Datatype::Int32, &units).unwrap();
    assert_eq!(block, vec![2, 0, 0, 0, 5, 0, 0, 0]);
    assert_eq!(decode_series(&Datatype::Int32, &block), Ok(units));
    assert_eq!(encode_series(&Datatype::Int32, &vec![]), Ok(vec![]));
    assert_eq!(decode_series(&Datatype::Int32, &[]), Ok(vec![]));
    let mixed = vec![Dataunit::I(2), Dataunit::F(0)];
    assert_eq!(encode_series(&Datatype::Int32, &mixed), Err(Error::InvalidData));
    assert_eq!(decode_series(&Datatype::Int32, &[1, 2, 3]), Err(Error::InvalidData));
    assert_eq!(decode_series(&Datatype::Blob, &[]), Err(Error::InvalidData));
}

#[test]
fn test_to_bytes() {
    assert_eq!(
        Types::Int.to_bytes(&Dataunit::I(65)),
        Some(vec![65, 0, 0, 0, 0, 0, 0, 0])
    );
    assert_eq!(
        Types::Float.to_bytes(&Dataunit::F(2.718281828f64.to_bits())),
        Some(vec![155, 145, 4, 139, 10, 191, 5, 64])
    );
    assert_eq!(Types::Int.to_bytes(&Dataunit::F(0)), None);
    assert_eq!(Types::Float.to_bytes(&Dataunit::I(0)), None);
}

#[test]
fn test_from_bytes() {
    assert_eq!(Types::Int.from_bytes(&[65, 0, 0, 0, 0, 0, 0, 0]), Dataunit::I(65));
    assert_eq!(
        Types::Float.from_bytes(&[155, 145, 4, 139, 10, 191, 5, 64]),
        Dataunit::F(2.718281828f64.to_bits())
    );
}
