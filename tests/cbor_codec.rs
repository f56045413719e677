use ctap_core::cbor::{Reader, Writer};
use ctap_core::status::CtapStatus;

fn encode_u32(v: u32) -> Vec<u8> {
    let mut w = Writer::new(16);
    w.u32(v).unwrap();
    w.as_slice().to_vec()
}

fn encode_nint(v: i32) -> Vec<u8> {
    let mut w = Writer::new(16);
    w.nint(v).unwrap();
    w.as_slice().to_vec()
}

#[test]
fn uint_round_trip() {
    for v in [0u32, 23, 24, 0xFF, 0x100, 0xFFFF, 0x10000, 0xFFFF_FFFF] {
        let bytes = encode_u32(v);
        let mut r = Reader::new(&bytes);
        assert_eq!(r.u32(), Ok(v));
        assert!(matches!(r.skip(), Err(CtapStatus::InvalidCbor)));
    }
}

#[test]
fn nint_round_trip() {
    for v in [-1i32, -24, -25, -256, -0x10000, -0x7FFF_FFFF] {
        let bytes = encode_nint(v);
        let mut r = Reader::new(&bytes);
        assert_eq!(r.nint(), Ok(v));
    }
}

#[test]
fn uint_uses_shortest_form() {
    assert_eq!(encode_u32(0), vec![0x00]);
    assert_eq!(encode_u32(23), vec![0x17]);
    assert_eq!(encode_u32(24), vec![0x18, 0x18]);
    assert_eq!(encode_u32(0xFF), vec![0x18, 0xFF]);
    assert_eq!(encode_u32(0x100), vec![0x19, 0x01, 0x00]);
    assert_eq!(encode_u32(0xFFFF), vec![0x19, 0xFF, 0xFF]);
    assert_eq!(encode_u32(0x10000), vec![0x1A, 0x00, 0x01, 0x00, 0x00]);
    assert_eq!(encode_u32(0xFFFF_FFFF), vec![0x1A, 0xFF, 0xFF, 0xFF, 0xFF]);
}

#[test]
fn nint_encoding() {
    assert_eq!(encode_nint(-1), vec![0x20]);
    assert_eq!(encode_nint(-7), vec![0x26]);
    assert_eq!(encode_nint(-24), vec![0x37]);
    assert_eq!(encode_nint(-25), vec![0x38, 0x18]);
    assert_eq!(encode_nint(-256), vec![0x38, 0xFF]);
    assert_eq!(encode_nint(-0x10000), vec![0x39, 0xFF, 0xFF]);
    assert_eq!(encode_nint(-0x7FFF_FFFF), vec![0x3A, 0x7F, 0xFF, 0xFF, 0xFE]);
    assert_eq!(encode_nint(i32::MIN), vec![0x3A, 0x7F, 0xFF, 0xFF, 0xFF]);
}

#[test]
fn nint_refuses_non_negative() {
    let mut w = Writer::new(16);
    assert_eq!(w.nint(0), Err(CtapStatus::InvalidParameter));
    assert_eq!(w.nint(5), Err(CtapStatus::InvalidParameter));
    assert_eq!(w.len(), 0);
}

#[test]
fn writer_overflow_is_invalid_length_and_leaves_writer() {
    let mut w = Writer::new(2);
    assert_eq!(w.u32(0x100), Err(CtapStatus::InvalidLength));
    assert_eq!(w.len(), 0);
    assert_eq!(w.u8(1), Ok(()));
    assert_eq!(w.bstr(&[1, 2]), Err(CtapStatus::InvalidLength));
    assert_eq!(w.as_slice(), &[0x01]);
    assert_eq!(w.bool(true), Ok(()));
    assert_eq!(w.bool(false), Err(CtapStatus::InvalidLength));
    assert_eq!(w.as_slice(), &[0x01, 0xF5]);
}

#[test]
fn strings_maps_arrays_and_bools() {
    let mut w = Writer::new(64);
    w.map(2).unwrap();
    w.tstr("id").unwrap();
    w.bstr(&[0xAA; 24]).unwrap();
    w.array(1).unwrap();
    w.bool(false).unwrap();
    let out = w.as_slice();
    assert_eq!(&out[..4], &[0xA2, 0x62, 0x69, 0x64]);
    assert_eq!(&out[4..6], &[0x58, 24]);
    assert_eq!(&out[30..], &[0x81, 0xF4]);

    let mut r = Reader::new(out);
    assert_eq!(r.map(), Ok(2));
    assert_eq!(r.tstr(), Ok("id"));
    assert_eq!(r.bstr(), Ok(&[0xAA; 24][..]));
    assert_eq!(r.array(), Ok(1));
    assert_eq!(r.bool(), Ok(false));
}

#[test]
fn indefinite_lengths_are_invalid_cbor() {
    assert_eq!(Reader::new(&[0xBF, 0xFF]).map(), Err(CtapStatus::InvalidCbor));
    assert_eq!(Reader::new(&[0x9F, 0xFF]).array(), Err(CtapStatus::InvalidCbor));
    assert_eq!(Reader::new(&[0x5F, 0xFF]).bstr(), Err(CtapStatus::InvalidCbor));
    assert_eq!(Reader::new(&[0x7F, 0xFF]).tstr(), Err(CtapStatus::InvalidCbor));
    assert_eq!(Reader::new(&[0xBF, 0xFF]).skip(), Err(CtapStatus::InvalidCbor));
}

#[test]
fn reader_type_and_length_errors() {
    assert_eq!(Reader::new(&[0x01]).map(), Err(CtapStatus::CborUnexpectedType));
    assert_eq!(Reader::new(&[0x20]).u32(), Err(CtapStatus::CborUnexpectedType));
    assert_eq!(Reader::new(&[]).u32(), Err(CtapStatus::InvalidCbor));
    assert_eq!(Reader::new(&[0x19, 0x01]).u32(), Err(CtapStatus::InvalidCbor));
    assert_eq!(Reader::new(&[0x1B, 0, 0, 0, 0, 0, 0, 0, 1]).u32(), Err(CtapStatus::InvalidCbor));
    assert_eq!(Reader::new(&[0x43, 0x01]).bstr(), Err(CtapStatus::InvalidLength));
    assert_eq!(Reader::new(&[0x3A, 0x80, 0, 0, 0]).nint(), Err(CtapStatus::InvalidParameter));
    assert_eq!(Reader::new(&[0xF6]).bool(), Err(CtapStatus::CborUnexpectedType));
    assert_eq!(Reader::new(&[0xF5]).bool(), Ok(true));
}

#[test]
fn text_must_be_utf8() {
    assert_eq!(Reader::new(&[0x62, 0xC3, 0x28]).tstr(), Err(CtapStatus::InvalidCbor));
    assert_eq!(Reader::new(&[0x62, 0xC3, 0xA9]).tstr(), Ok("\u{e9}"));
}

#[test]
fn skip_consumes_one_nested_item() {
    // [1, {"a": h'0102'}, tag(1, 5), true, simple(24, 0x20)] followed by 0x07
    let data = [
        0x85, 0x01, 0xA1, 0x61, 0x61, 0x42, 0x01, 0x02, 0xC1, 0x05, 0xF5, 0xF8, 0x20, 0x07,
    ];
    let mut r = Reader::new(&data);
    assert_eq!(r.skip(), Ok(()));
    assert_eq!(r.u32(), Ok(7));
}

#[test]
fn skip_refuses_floats_and_truncation() {
    assert_eq!(Reader::new(&[0xF9, 0x3C, 0x00]).skip(), Err(CtapStatus::CborUnexpectedType));
    assert_eq!(Reader::new(&[0x82, 0x01]).skip(), Err(CtapStatus::InvalidCbor));
    assert_eq!(Reader::new(&[0x44, 0x01]).skip(), Err(CtapStatus::InvalidLength));
}
