//! Encoding metadata into JPEG buffers and reading it back.

use iptc::FormatError;
use iptc::IPTCTag;
use iptc::JPEGReader;
use iptc::IPTC;

/// A JPEG with an APP0 segment, optional APP13 content, scan data and
/// an end-of-image marker.
fn sample_jpeg(app13_fields: &[u8]) -> Vec<u8> {
    let mut j = vec![0xff, 0xd8];
    j.extend_from_slice(&[0xff, 0xe0, 0x00, 0x06, 0x4a, 0x46, 0x49, 0x46]);
    if !app13_fields.is_empty() {
        let mut b = Vec::new();
        b.extend_from_slice(b"Photoshop 3.0\0");
        b.push(0x00);
        b.extend_from_slice(b"8BIM");
        b.extend_from_slice(&[0x04, 0x04, 0x00, 0x00]);
        b.extend_from_slice(&(app13_fields.len() as u32).to_be_bytes());
        b.extend_from_slice(app13_fields);
        if b.len() % 2 == 1 {
            b.push(0x00);
        }
        j.extend_from_slice(&[0xff, 0xed]);
        j.extend_from_slice(&((b.len() + 2) as u16).to_be_bytes());
        j.extend_from_slice(&b);
    }
    j.extend_from_slice(&[0xff, 0xda, 0x00, 0x04, 0x01, 0x02, 0x11, 0x22, 0x33]);
    j.extend_from_slice(&[0xff, 0xd9]);
    j
}

fn one_field(record: u8, dataset: u8, value: &[u8]) -> Vec<u8> {
    let mut f = vec![0x1c, record, dataset];
    f.push((value.len() / 256) as u8);
    f.push((value.len() % 256) as u8);
    f.extend_from_slice(value);
    f
}

#[test]
fn write_then_read_reproduces_tags() {
    let jpeg = sample_jpeg(&one_field(2, 90, b"London"));

    let mut iptc = IPTC::read_from_buffer(&jpeg).unwrap();
    assert_eq!(iptc.get(IPTCTag::City), "London");

    iptc.set_tag(IPTCTag::City, "Oslo");
    for keyword in ["rust", "metadata", "testing", "iptc"] {
        iptc.set_tag(IPTCTag::Keywords, keyword);
    }
    let updated = iptc.write_to_buffer(&jpeg).unwrap();

    let back = IPTC::read_from_buffer(&updated).unwrap();
    assert_eq!(back.get(IPTCTag::City), "Oslo");
    let keywords = back.get(IPTCTag::Keywords);
    for keyword in ["rust", "metadata", "testing", "iptc"] {
        assert!(keywords.contains(keyword), "Missing keyword: {}", keyword);
    }
}

#[test]
fn write_without_existing_app13_inserts_one() {
    let jpeg = sample_jpeg(&[]);
    let mut iptc = IPTC::new();
    iptc.set_tag(IPTCTag::City, "Bergen");
    iptc.set_tag(IPTCTag::ModelVersion, "4");

    let updated = iptc.write_to_buffer(&jpeg).unwrap();
    let back = IPTC::read_from_buffer(&updated).unwrap();
    assert_eq!(back.get(IPTCTag::City), "Bergen");
    assert_eq!(back.get(IPTCTag::ModelVersion), "4");
}

#[test]
fn write_is_idempotent() {
    let jpeg = sample_jpeg(&one_field(2, 25, b"Sunset"));
    let mut iptc = IPTC::read_from_buffer(&jpeg).unwrap();
    iptc.set_tag(IPTCTag::City, "Oslo");

    let once = iptc.write_to_buffer(&jpeg).unwrap();
    let twice = iptc.write_to_buffer(&once).unwrap();
    assert_eq!(once, twice);
}

#[test]
fn write_keeps_other_segments_verbatim() {
    let jpeg = sample_jpeg(&one_field(2, 90, b"London"));
    let mut iptc = IPTC::read_from_buffer(&jpeg).unwrap();
    iptc.set_tag(IPTCTag::City, "Oslo");
    let updated = iptc.write_to_buffer(&jpeg).unwrap();

    // The APP0 segment and the whole scan tail are untouched.
    let app0: &[u8] = &[0xff, 0xe0, 0x00, 0x06, 0x4a, 0x46, 0x49, 0x46];
    let tail: &[u8] = &[0xff, 0xda, 0x00, 0x04, 0x01, 0x02, 0x11, 0x22, 0x33, 0xff, 0xd9];
    assert_eq!(&updated[2..10], app0);
    assert_eq!(&updated[updated.len() - tail.len()..], tail);
    // The start-of-image marker leads, and the fresh APP13 follows APP0.
    assert_eq!(&updated[0..2], &[0xff, 0xd8]);
    assert_eq!(&updated[10..12], &[0xff, 0xed]);
}

#[test]
fn write_non_jpeg_fails() {
    let iptc = IPTC::new();
    let buffer = vec![0x49, 0x49, 0x2a, 0x00];
    assert_eq!(iptc.write_to_buffer(&buffer), Err(FormatError::NotJpeg));
    let empty: Vec<u8> = Vec::new();
    assert_eq!(iptc.write_to_buffer(&empty), Err(FormatError::NotJpeg));
    assert_eq!(JPEGReader::write_iptc(&vec![0x12, 0x34], &Vec::new()), Err(FormatError::NotJpeg));
}

#[test]
fn oversized_store_fails() {
    let jpeg = sample_jpeg(&[]);
    let mut iptc = IPTC::new();
    let huge = "x".repeat(70000);
    iptc.set_tag(IPTCTag::Caption, &huge);
    assert_eq!(iptc.write_to_buffer(&jpeg), Err(FormatError::TooLarge));
}

#[test]
fn unparsable_short_value_encodes_as_zero() {
    let jpeg = sample_jpeg(&[]);
    let mut iptc = IPTC::new();
    iptc.set_tag(IPTCTag::ModelVersion, "99999");
    let updated = iptc.write_to_buffer(&jpeg).unwrap();
    let back = IPTC::read_from_buffer(&updated).unwrap();
    assert_eq!(back.get(IPTCTag::ModelVersion), "0");
}

#[test]
fn later_app13_segments_are_dropped() {
    // Two APP13 segments in the input: the first is replaced, the
    // second dropped, so exactly one remains.
    let mut j = vec![0xff, 0xd8];
    let mut seg = Vec::new();
    let mut b = Vec::new();
    b.extend_from_slice(b"Photoshop 3.0\0");
    b.push(0x00);
    b.extend_from_slice(b"8BIM");
    b.extend_from_slice(&[0x04, 0x04, 0x00, 0x00]);
    let fields = one_field(2, 90, b"London");
    b.extend_from_slice(&(fields.len() as u32).to_be_bytes());
    b.extend_from_slice(&fields);
    if b.len() % 2 == 1 {
        b.push(0x00);
    }
    seg.extend_from_slice(&[0xff, 0xed]);
    seg.extend_from_slice(&((b.len() + 2) as u16).to_be_bytes());
    seg.extend_from_slice(&b);
    j.extend_from_slice(&seg);
    j.extend_from_slice(&seg);
    j.extend_from_slice(&[0xff, 0xda, 0x00, 0x04, 0x01, 0x02, 0x11]);
    j.extend_from_slice(&[0xff, 0xd9]);

    let mut iptc = IPTC::read_from_buffer(&j).unwrap();
    iptc.set_tag(IPTCTag::City, "Oslo");
    let updated = iptc.write_to_buffer(&j).unwrap();
    let count = updated.windows(2).filter(|w| w == &[0xff, 0xed]).count();
    assert_eq!(count, 1);
}

#[test]
fn round_trip_reproduces_store_exactly() {
    let jpeg = sample_jpeg(&[]);
    let mut iptc = IPTC::new();
    iptc.set_tag(IPTCTag::City, "Oslo");
    iptc.set_tag(IPTCTag::Keywords, "street");
    iptc.set_tag(IPTCTag::Keywords, "night");
    iptc.set_tag(IPTCTag::ModelVersion, "4");

    let updated = iptc.write_to_buffer(&jpeg).unwrap();
    let back = IPTC::read_from_buffer(&updated).unwrap();

    // The decoded entries come back in dictionary key order.
    let expected = vec![
        (IPTCTag::ModelVersion, vec!["4".to_string()]),
        (IPTCTag::Keywords, vec!["street".to_string(), "night".to_string()]),
        (IPTCTag::City, vec!["Oslo".to_string()]),
    ];
    assert_eq!(back.get_all(), &expected);
}

#[test]
fn insertion_happens_before_late_application_segment() {
    // An APP14 segment lies past the conventional application range,
    // so the fresh APP13 segment is inserted just before it.
    let app14: &[u8] = &[0xff, 0xee, 0x00, 0x04, 0x41, 0x64];
    let mut j = vec![0xff, 0xd8];
    j.extend_from_slice(&[0xff, 0xe0, 0x00, 0x06, 0x4a, 0x46, 0x49, 0x46]);
    j.extend_from_slice(app14);
    j.extend_from_slice(&[0xff, 0xda, 0x00, 0x04, 0x01, 0x02, 0x11]);
    j.extend_from_slice(&[0xff, 0xd9]);

    let mut iptc = IPTC::new();
    iptc.set_tag(IPTCTag::City, "Oslo");
    let updated = iptc.write_to_buffer(&j).unwrap();

    let app13_pos = updated.windows(2).position(|w| w == [0xff, 0xed]).unwrap();
    let app14_pos = updated
        .windows(app14.len())
        .position(|w| w == app14)
        .unwrap();
    assert!(app13_pos < app14_pos);

    let back = IPTC::read_from_buffer(&updated).unwrap();
    assert_eq!(back.get(IPTCTag::City), "Oslo");
}

#[test]
fn convert_produces_even_length_block() {
    let mut iptc = IPTC::new();
    iptc.set_tag(IPTCTag::City, "Oslo");
    let block = JPEGReader::convert_iptc_to_binary(&iptc.data).unwrap();
    assert_eq!(block.len() % 2, 0);
    assert!(block.starts_with(b"Photoshop 3.0\0"));
    let oslo_field = one_field(2, 90, b"Oslo");
    assert!(block.windows(oslo_field.len()).any(|w| w == oslo_field.as_slice()));
}

#[test]
fn fields_are_sorted_by_record_and_dataset() {
    let mut iptc = IPTC::new();
    iptc.set_tag(IPTCTag::City, "Oslo");  // 2:90
    iptc.set_tag(IPTCTag::ModelVersion, "7");  // 1:0
    iptc.set_tag(IPTCTag::Keywords, "sea");  // 2:25
    let block = JPEGReader::convert_iptc_to_binary(&iptc.data).unwrap();
    let pos_model = block
        .windows(5)
        .position(|w| w == [0x1c, 1, 0, 0x00, 0x02])
        .unwrap();
    let pos_keywords = block
        .windows(5)
        .position(|w| w == [0x1c, 2, 25, 0x00, 0x03])
        .unwrap();
    let pos_city = block
        .windows(5)
        .position(|w| w == [0x1c, 2, 90, 0x00, 0x04])
        .unwrap();
    assert!(pos_model < pos_keywords && pos_keywords < pos_city);
}
