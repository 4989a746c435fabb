use mp4box::get_boxes;
use mp4box::info::{find_box, media_info, table_stats, TableStats};

fn plain_box(typ: &[u8; 4], payload: &[u8]) -> Vec<u8> {
    let mut v = Vec::with_capacity(8 + payload.len());
    v.extend_from_slice(&((8 + payload.len()) as u32).to_be_bytes());
    v.extend_from_slice(typ);
    v.extend_from_slice(payload);
    v
}

fn full_box(typ: &[u8; 4], version: u8, flags: u32, payload: &[u8]) -> Vec<u8> {
    let mut inner = Vec::with_capacity(4 + payload.len());
    inner.push(version);
    inner.extend_from_slice(&flags.to_be_bytes()[1..4]);
    inner.extend_from_slice(payload);
    plain_box(typ, &inner)
}

fn concat(parts: &[Vec<u8>]) -> Vec<u8> {
    parts.iter().flatten().copied().collect()
}

fn avc1_entry() -> Vec<u8> {
    let mut p = vec![0u8; 78];
    p[6..8].copy_from_slice(&1u16.to_be_bytes());
    p[24..26].copy_from_slice(&640u16.to_be_bytes());
    p[26..28].copy_from_slice(&360u16.to_be_bytes());
    p.extend_from_slice(&plain_box(b"avcC", &[1, 100, 0, 31, 0xFF, 0xE1]));
    plain_box(b"avc1", &p)
}

fn trak(handler: &[u8; 4], with_stss: bool) -> Vec<u8> {
    let tkhd = {
        let mut p = Vec::new();
        p.extend_from_slice(&[0u8; 8]);
        p.extend_from_slice(&1u32.to_be_bytes());
        p.extend_from_slice(&[0u8; 4]);
        p.extend_from_slice(&300u32.to_be_bytes());
        p.extend_from_slice(&[0u8; 8 + 8 + 36]);
        p.extend_from_slice(&(640u32 << 16).to_be_bytes());
        p.extend_from_slice(&(360u32 << 16).to_be_bytes());
        full_box(b"tkhd", 0, 3, &p)
    };
    let mdhd = {
        let mut p = Vec::new();
        p.extend_from_slice(&[0u8; 8]);
        p.extend_from_slice(&1000u32.to_be_bytes());
        p.extend_from_slice(&300u32.to_be_bytes());
        p.extend_from_slice(&0x55C4u16.to_be_bytes());
        p.extend_from_slice(&[0u8; 2]);
        full_box(b"mdhd", 0, 0, &p)
    };
    let hdlr = {
        let mut p = Vec::new();
        p.extend_from_slice(&[0u8; 4]);
        p.extend_from_slice(handler);
        p.extend_from_slice(&[0u8; 12]);
        p.push(0);
        full_box(b"hdlr", 0, 0, &p)
    };
    let stsd = {
        let mut p = 1u32.to_be_bytes().to_vec();
        p.extend_from_slice(&avc1_entry());
        full_box(b"stsd", 0, 0, &p)
    };
    let stts = full_box(b"stts", 0, 0, &concat(&[1u32.to_be_bytes().to_vec(), 3u32.to_be_bytes().to_vec(), 100u32.to_be_bytes().to_vec()]));
    let stsc = full_box(b"stsc", 0, 0, &concat(&[1u32.to_be_bytes().to_vec(), 1u32.to_be_bytes().to_vec(), 3u32.to_be_bytes().to_vec(), 1u32.to_be_bytes().to_vec()]));
    let stco = full_box(b"stco", 0, 0, &concat(&[2u32.to_be_bytes().to_vec(), 100u32.to_be_bytes().to_vec(), 200u32.to_be_bytes().to_vec()]));
    let mut tables = vec![stsd, stts, stsc, stco];
    if with_stss {
        tables.push(full_box(b"stss", 0, 0, &concat(&[1u32.to_be_bytes().to_vec(), 1u32.to_be_bytes().to_vec()])));
    }
    let stbl = plain_box(b"stbl", &concat(&tables));
    let minf = plain_box(b"minf", &stbl);
    let mdia = plain_box(b"mdia", &concat(&[mdhd, hdlr, minf]));
    plain_box(b"trak", &concat(&[tkhd, mdia]))
}

fn movie() -> Vec<u8> {
    let ftyp = plain_box(b"ftyp", &concat(&[b"isom".to_vec(), 512u32.to_be_bytes().to_vec(), b"isomiso2".to_vec()]));
    let mvhd = {
        let mut p = Vec::new();
        p.extend_from_slice(&[0u8; 8]);
        p.extend_from_slice(&600u32.to_be_bytes());
        p.extend_from_slice(&1200u32.to_be_bytes());
        p.extend_from_slice(&0x0001_0000u32.to_be_bytes());
        p.extend_from_slice(&[0u8; 2 + 10 + 36 + 24 + 4]);
        full_box(b"mvhd", 0, 0, &p)
    };
    let moov = plain_box(b"moov", &concat(&[mvhd, trak(b"vide", true), trak(b"soun", false)]));
    concat(&[ftyp, moov])
}

#[test]
fn media_info_reads_brands_timing_and_tracks() {
    let boxes = get_boxes(&movie(), true).unwrap();
    let info = media_info(&boxes);
    assert_eq!(info.major_brand.as_deref(), Some("isom"));
    assert_eq!(info.minor_version, Some(512));
    assert_eq!(info.compatible_brands, vec!["isom".to_string(), "iso2".to_string()]);
    assert_eq!(info.movie_timescale, Some(600));
    assert_eq!(info.movie_duration_ticks, Some(1200));
    assert_eq!(info.tracks.len(), 2);

    let v = &info.tracks[0];
    assert_eq!(v.index, 1);
    assert_eq!(v.track_type.as_deref(), Some("video"));
    assert_eq!(v.codec.as_deref(), Some("avc1"));
    assert_eq!(v.timescale, Some(1000));
    assert_eq!(v.duration_ticks, Some(300));
    assert_eq!(v.language.as_deref(), Some("und"));

    let a = &info.tracks[1];
    assert_eq!(a.index, 2);
    // the handler decides the type, not the codec
    assert_eq!(a.track_type.as_deref(), Some("audio"));
}

#[test]
fn media_info_without_decoding_has_no_fields() {
    let boxes = get_boxes(&movie(), false).unwrap();
    let info = media_info(&boxes);
    assert_eq!(info.major_brand, None);
    assert_eq!(info.movie_timescale, None);
    assert_eq!(info.tracks.len(), 2);
    assert_eq!(info.tracks[0].track_type, None);
    assert_eq!(info.tracks[0].codec, None);
}

#[test]
fn media_info_of_no_boxes_is_empty() {
    let info = media_info(&Vec::new());
    assert!(info.tracks.is_empty());
    assert!(info.compatible_brands.is_empty());
}

#[test]
fn table_stats_count_entries_per_track() {
    let boxes = get_boxes(&movie(), true).unwrap();
    let stats = table_stats(&boxes);
    assert_eq!(
        stats,
        vec![
            TableStats { stts_entries: 1, stsc_entries: 1, stco_entries: 2, keyframe_count: 1 },
            TableStats { stts_entries: 1, stsc_entries: 1, stco_entries: 2, keyframe_count: 0 },
        ]
    );
}

#[test]
fn find_box_follows_indexed_paths() {
    let data = movie();
    let boxes = get_boxes(&data, false).unwrap();
    let first = find_box(&boxes, "moov/trak/mdia/mdhd").unwrap().unwrap();
    let second = find_box(&boxes, "moov/trak[1]/mdia/mdhd").unwrap().unwrap();
    assert_eq!(first.typ, "mdhd");
    assert!(second.offset > first.offset);
    assert!(find_box(&boxes, "moov/trak[2]").unwrap().is_none());
    assert!(find_box(&boxes, "moov/mvhd/abcd").unwrap().is_none());
    assert!(find_box(&boxes, "moov/x").is_err());
    assert!(find_box(&boxes, "").is_err());
    assert!(find_box(&boxes, "moov/trak[").is_err());
}
