use mp4box::boxes::{BoxHeader, BoxKey, FourCC};
use mp4box::get_boxes_with_registry;
use mp4box::registry::{default_registry, BoxDecoder, BoxValue, DecodeError, Registry};

struct DummyDecoder;

impl BoxDecoder for DummyDecoder {
    fn decode(
        &self,
        payload: &[u8],
        _hdr: &BoxHeader,
        _version: Option<u8>,
        _flags: Option<u32>,
    ) -> Result<BoxValue, DecodeError> {
        Ok(BoxValue::Bytes(payload.to_vec()))
    }
}

#[test]
fn registry_invokes_decoder() {
    let reg = Registry::new().with_decoder(BoxKey::FourCC(FourCC(*b"test")), "test", DummyDecoder);

    let hdr = BoxHeader { start: 0, size: 12, header_size: 8, typ: FourCC(*b"test"), uuid: None };

    let payload = [1u8, 2, 3, 4];
    let res = reg.decode(&BoxKey::FourCC(FourCC(*b"test")), &payload, &hdr, None, None);
    assert!(res.is_some());

    match res.unwrap().unwrap() {
        BoxValue::Bytes(b) => assert_eq!(b, payload),
        _ => panic!("expected bytes"),
    }
}

struct XyzDecoder;

impl BoxDecoder for XyzDecoder {
    fn decode(
        &self,
        payload: &[u8],
        _hdr: &BoxHeader,
        _version: Option<u8>,
        _flags: Option<u32>,
    ) -> Result<BoxValue, DecodeError> {
        Ok(BoxValue::Text(format!("xyz payload={} bytes", payload.len())))
    }
}

fn ftyp_and_xyz() -> Vec<u8> {
    let mut data = Vec::new();
    data.extend_from_slice(&16u32.to_be_bytes());
    data.extend_from_slice(b"ftypisom");
    data.extend_from_slice(&0u32.to_be_bytes());
    data.extend_from_slice(&12u32.to_be_bytes());
    data.extend_from_slice(b"xyz ....");
    data
}

/// A custom decoder added on top of the default registry must fire through
/// the high-level get_boxes_with_registry API, alongside the built-ins.
#[test]
fn custom_decoder_extends_default_registry_in_get_boxes() {
    let reg = default_registry().with_decoder(BoxKey::FourCC(FourCC(*b"xyz ")), "xyz ", XyzDecoder);
    let data = ftyp_and_xyz();
    let boxes = get_boxes_with_registry(&data, true, &reg).unwrap();

    let ftyp = boxes.iter().find(|b| b.typ == "ftyp").unwrap();
    assert!(
        ftyp.decoded.as_deref().unwrap_or("").contains("major=isom"),
        "built-in ftyp decoder must still fire"
    );
    let xyz = boxes.iter().find(|b| b.typ == "xyz ").unwrap();
    assert_eq!(xyz.decoded.as_deref(), Some("xyz payload=4 bytes"));
}

#[test]
fn registry_without_builtins_decodes_only_its_keys() {
    let reg = Registry::new().with_decoder(BoxKey::FourCC(FourCC(*b"xyz ")), "xyz ", XyzDecoder);
    let data = ftyp_and_xyz();
    let boxes = get_boxes_with_registry(&data, true, &reg).unwrap();
    assert_eq!(boxes[0].decoded, None);
    assert_eq!(boxes[1].decoded.as_deref(), Some("xyz payload=4 bytes"));
    assert!(!reg.contains_key(&BoxKey::FourCC(FourCC(*b"ftyp"))));
    assert!(reg.contains_key(&BoxKey::FourCC(FourCC(*b"xyz "))));
}

#[test]
fn later_decoder_for_a_key_replaces_earlier_one() {
    let reg = Registry::new()
        .with_decoder(BoxKey::FourCC(FourCC(*b"test")), "first", XyzDecoder)
        .with_decoder(BoxKey::FourCC(FourCC(*b"test")), "second", XyzDecoder);
    let hdr = BoxHeader { start: 0, size: 10, header_size: 8, typ: FourCC(*b"test"), uuid: None };
    let res = reg.decode(&BoxKey::FourCC(FourCC(*b"test")), &[0u8, 1], &hdr, None, None);
    match res {
        Some(Ok(BoxValue::Text(t))) => assert_eq!(t, "xyz payload=2 bytes"),
        _ => panic!("expected text"),
    }
    assert!(reg.decode(&BoxKey::FourCC(FourCC(*b"none")), &[], &hdr, None, None).is_none());
}
