use mp4box::registry::{StructuredData, TkhdData};
use mp4box::samples::find_track_id;

fn plain_box(typ: &str, kind: &str, full_name: &str) -> mp4box::Box {
    mp4box::Box {
        offset: 0,
        size: 0,
        header_size: 0,
        payload_offset: None,
        payload_size: None,
        typ: typ.to_string(),
        uuid: None,
        version: None,
        flags: None,
        kind: kind.to_string(),
        full_name: full_name.to_string(),
        decoded: None,
        structured_data: None,
        children: None,
        field_spans: None,
    }
}

fn trak_with_tkhd(track_id: u32, duration: u64, width: u32, height: u32) -> mp4box::Box {
    let tkhd_data = TkhdData { version: 0, flags: 0, track_id, duration, width, height };
    let mut tkhd_box = plain_box("tkhd", "full", "Track Header Box");
    tkhd_box.version = Some(0);
    tkhd_box.flags = Some(0);
    tkhd_box.structured_data = Some(StructuredData::TrackHeader(tkhd_data));
    let mut trak_box = plain_box("trak", "container", "Track Box");
    trak_box.children = Some(vec![tkhd_box]);
    trak_box
}

#[test]
fn test_find_track_id_from_structured_data() {
    let trak_box = trak_with_tkhd(42, 48000, 1920 << 16, 1080 << 16);
    let track_id = find_track_id(&trak_box).unwrap();
    assert_eq!(track_id, 42);
}

#[test]
fn test_find_track_id_multiple_tracks() {
    for expected_id in [1, 3, 7, 255] {
        let trak_box = trak_with_tkhd(expected_id, 24000, 0, 0);
        let track_id = find_track_id(&trak_box).unwrap();
        assert_eq!(track_id, expected_id);
    }
}

#[test]
fn test_find_track_id_no_tkhd_box() {
    let mut trak_box = plain_box("trak", "container", "Track Box");
    trak_box.children = Some(vec![]);
    let result = find_track_id(&trak_box);
    assert!(result.is_err());
    assert!(result.unwrap_err().to_string().contains("No tkhd box found"));
}
