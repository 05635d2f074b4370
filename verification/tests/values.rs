use machina::scan_value::{ConvertError, ScanValue, ScanValueType};

#[test]
fn numbers_are_little_endian() {
    assert_eq!(ScanValue::Byte(0xab).as_bytes(), vec![0xab]);
    assert_eq!(ScanValue::Word(0x1234).as_bytes(), vec![0x34, 0x12]);
    assert_eq!(ScanValue::DWord(0x01020304).as_bytes(), vec![4, 3, 2, 1]);
    assert_eq!(ScanValue::QWord(0x0102030405060708).as_bytes(), vec![8, 7, 6, 5, 4, 3, 2, 1]);
    assert_eq!(ScanValue::String("hé".to_string()).as_bytes(), vec![b'h', 0xc3, 0xa9]);
}

#[test]
fn floats_are_their_bit_patterns() {
    assert_eq!(ScanValue::Float(1.5f32.to_bits()).as_bytes(), 1.5f32.to_le_bytes().to_vec());
    assert_eq!(ScanValue::Double((-2.25f64).to_bits()).as_bytes(), (-2.25f64).to_le_bytes().to_vec());
    match ScanValue::convert_from_bytes(&0.5f32.to_le_bytes(), ScanValueType::Float) {
        Ok(ScanValue::Float(bits)) => assert_eq!(f32::from_bits(bits), 0.5),
        other => panic!("unexpected {:?}", other),
    }
}

#[test]
fn convert_from_bytes_reads_each_type() {
    assert!(matches!(ScanValue::convert_from_bytes(&[7], ScanValueType::Byte), Ok(ScanValue::Byte(7))));
    assert!(matches!(ScanValue::convert_from_bytes(&[0x34, 0x12], ScanValueType::Word), Ok(ScanValue::Word(0x1234))));
    assert!(matches!(ScanValue::convert_from_bytes(&[4, 3, 2, 1], ScanValueType::DWord), Ok(ScanValue::DWord(0x01020304))));
    assert!(matches!(
        ScanValue::convert_from_bytes(&[8, 7, 6, 5, 4, 3, 2, 1], ScanValueType::QWord),
        Ok(ScanValue::QWord(0x0102030405060708))
    ));
    match ScanValue::convert_from_bytes(b"hello", ScanValueType::String(2)) {
        Ok(ScanValue::String(s)) => assert_eq!(s, "hello"),
        other => panic!("unexpected {:?}", other),
    }
}

#[test]
fn convert_from_bytes_errors() {
    assert!(matches!(ScanValue::convert_from_bytes(&[1, 2], ScanValueType::Byte), Err(ConvertError::WrongLength)));
    assert!(matches!(ScanValue::convert_from_bytes(&[1, 2, 3], ScanValueType::DWord), Err(ConvertError::WrongLength)));
    assert!(matches!(ScanValue::convert_from_bytes(&[], ScanValueType::Double), Err(ConvertError::WrongLength)));
    assert!(matches!(ScanValue::convert_from_bytes(&[0xff, 0xfe], ScanValueType::String(2)), Err(ConvertError::InvalidUtf8)));
}

#[test]
fn write_then_read_gives_the_value_back() {
    let values = vec![
        ScanValue::Byte(200),
        ScanValue::Word(65535),
        ScanValue::DWord(123456789),
        ScanValue::QWord(u64::MAX - 3),
        ScanValue::Float(3.25f32.to_bits()),
        ScanValue::Double(1e300f64.to_bits()),
        ScanValue::String("zażółć".to_string()),
    ];
    for v in values {
        let t = ScanValueType::from(&v);
        let back = ScanValue::convert_from_bytes(&v.as_bytes(), t).unwrap();
        assert_eq!(format!("{:?}", back), format!("{:?}", v));
    }
}

#[test]
fn lengths_and_types() {
    assert_eq!(ScanValueType::Byte.len(), 1);
    assert_eq!(ScanValueType::Word.len(), 2);
    assert_eq!(ScanValueType::DWord.len(), 4);
    assert_eq!(ScanValueType::QWord.len(), 8);
    assert_eq!(ScanValueType::Float.len(), 4);
    assert_eq!(ScanValueType::Double.len(), 8);
    assert_eq!(ScanValueType::String(13).len(), 13);
    let s = ScanValue::String("héllo".to_string());
    assert_eq!(s.len(), 6);
    assert_eq!(ScanValueType::from(&s), ScanValueType::String(6));
    assert_eq!(ScanValueType::from_value(&ScanValue::Double(0)), ScanValueType::Double);
    assert_eq!(ScanValue::Float(0).len(), 4);
}

#[test]
fn read_then_write_gives_the_bytes_back() {
    let cases: Vec<(Vec<u8>, ScanValueType)> = vec![
        (vec![0x80], ScanValueType::Byte),
        (vec![0xff, 0x00], ScanValueType::Word),
        (vec![1, 2, 3, 4], ScanValueType::Float),
        (vec![9, 8, 7, 6, 5, 4, 3, 2], ScanValueType::Double),
        ("ünï".as_bytes().to_vec(), ScanValueType::String(0)),
    ];
    for (bytes, t) in cases {
        let v = ScanValue::convert_from_bytes(&bytes, t).unwrap();
        assert_eq!(v.as_bytes(), bytes);
    }
}
