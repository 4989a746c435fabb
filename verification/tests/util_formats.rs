use mp4box::hex_range;
use mp4box::util::{base64_decode, decimal_string, hex_dump, hex_string};

#[test]
fn hex_dump_pads_the_hex_column_and_shows_printable_ascii() {
    let dump = hex_dump(b"AB\x00", 16);
    let expected = format!("00000010  {:<48}  |AB.|\n", "41 42 00 ");
    assert_eq!(dump, expected);
}

#[test]
fn hex_dump_breaks_lines_every_sixteen_bytes() {
    let data: Vec<u8> = (0x30u8..0x30 + 20).collect();
    let dump = hex_dump(&data, 0);
    let lines: Vec<&str> = dump.lines().collect();
    assert_eq!(lines.len(), 2);
    assert!(lines[0].starts_with("00000000  30 31 32"));
    assert!(lines[0].ends_with("|0123456789:;<=>?|"));
    assert!(lines[1].starts_with("00000010  40 41 42 43 "));
    assert!(lines[1].ends_with("|@ABC|"));
    assert_eq!(hex_dump(&[], 5), "");
}

#[test]
fn hex_range_clamps_to_the_buffer() {
    let buf: Vec<u8> = (0u8..10).collect();
    let d = hex_range(&buf, 8, 100);
    assert_eq!(d.offset, 8);
    assert_eq!(d.length, 2);
    assert_eq!(d.hex, hex_dump(&[8, 9], 8));
    let past = hex_range(&buf, 20, 4);
    assert_eq!(past.length, 0);
    assert_eq!(past.hex, "");
}

#[test]
fn decimal_and_hex_strings() {
    assert_eq!(decimal_string(0), "0");
    assert_eq!(decimal_string(u64::MAX), "18446744073709551615");
    assert_eq!(hex_string(&[0x00, 0xab, 0x10]), "00ab10");
}

#[test]
fn base64_padding_rules() {
    assert_eq!(base64_decode("").unwrap(), Vec::<u8>::new());
    assert_eq!(base64_decode("TWFu").unwrap(), b"Man");
    assert_eq!(base64_decode("TWE=").unwrap(), b"Ma");
    assert_eq!(base64_decode("TQ==").unwrap(), b"M");
    assert!(base64_decode("T===").is_none());
    assert!(base64_decode("TWFu=").is_none());
}
