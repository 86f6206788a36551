//! Decoding metadata out of hand-built JPEG buffers.

use iptc::extract_blocks;
use iptc::extract_iptc_fields_from_block;
use iptc::read_iptc_data;
use iptc::FormatError;
use iptc::IPTCTag;
use iptc::JPEGReader;
use iptc::IPTC;

/// One encoded IIM field: delimiter, record, dataset, length, value.
fn field(record: u8, dataset: u8, value: &[u8]) -> Vec<u8> {
    let mut f = vec![0x1c, record, dataset];
    f.push((value.len() / 256) as u8);
    f.push((value.len() % 256) as u8);
    f.extend_from_slice(value);
    f
}

/// A Photoshop resource container wrapping the given field bytes.
fn photoshop_block(fields: &[u8]) -> Vec<u8> {
    let mut b = Vec::new();
    b.extend_from_slice(b"Photoshop 3.0\0");
    b.push(0x00);
    b.extend_from_slice(b"8BIM");
    b.extend_from_slice(&[0x04, 0x04]);
    b.extend_from_slice(&[0x00, 0x00]);
    let n = fields.len() as u32;
    b.extend_from_slice(&n.to_be_bytes());
    b.extend_from_slice(fields);
    if b.len() % 2 == 1 {
        b.push(0x00);
    }
    b
}

/// A JPEG holding one APP0 segment, the given APP13 container, and a
/// start-of-scan tail.
fn jpeg_with_block(block: &[u8]) -> Vec<u8> {
    let mut j = vec![0xff, 0xd8];
    // APP0, 4 content bytes
    j.extend_from_slice(&[0xff, 0xe0, 0x00, 0x06, 0x4a, 0x46, 0x49, 0x46]);
    if !block.is_empty() {
        j.extend_from_slice(&[0xff, 0xed]);
        let total = (block.len() + 2) as u16;
        j.extend_from_slice(&total.to_be_bytes());
        j.extend_from_slice(block);
    }
    // SOS and opaque scan data, then EOI
    j.extend_from_slice(&[0xff, 0xda, 0x00, 0x04, 0x01, 0x02, 0x11, 0x22, 0x33]);
    j.extend_from_slice(&[0xff, 0xd9]);
    j
}

#[test]
fn city_and_keywords_decode() {
    let mut fields = Vec::new();
    fields.extend_from_slice(&field(2, 90, b"London"));
    fields.extend_from_slice(&field(2, 25, b"Street"));
    fields.extend_from_slice(&field(2, 25, b"Night"));
    let jpeg = jpeg_with_block(&photoshop_block(&fields));

    let iptc = IPTC::read_from_buffer(&jpeg).unwrap();
    println!("IPTC: {:?}", iptc.get_all());
    assert_eq!(iptc.get(IPTCTag::City), "London");
    assert_eq!(iptc.get(IPTCTag::Keywords), "Street, Night");
}

#[test]
fn short_field_decodes_as_decimal() {
    let fields = field(1, 0, &[0x00, 0x2a]);
    let jpeg = jpeg_with_block(&photoshop_block(&fields));

    let iptc = IPTC::read_from_buffer(&jpeg).unwrap();
    assert_eq!(iptc.get(IPTCTag::ModelVersion), "42");
}

#[test]
fn unknown_key_is_dropped() {
    let mut fields = Vec::new();
    fields.extend_from_slice(&field(9, 99, b"ignored"));
    fields.extend_from_slice(&field(2, 90, b"Oslo"));
    let jpeg = jpeg_with_block(&photoshop_block(&fields));

    let iptc = IPTC::read_from_buffer(&jpeg).unwrap();
    assert_eq!(iptc.get(IPTCTag::City), "Oslo");
    assert_eq!(iptc.get_all().len(), 1);
}

#[test]
fn padded_value_is_trimmed() {
    let fields = field(2, 90, b"\0\0London\0\x1f");
    let jpeg = jpeg_with_block(&photoshop_block(&fields));

    let iptc = IPTC::read_from_buffer(&jpeg).unwrap();
    assert_eq!(iptc.get(IPTCTag::City), "London");
}

#[test]
fn repeatable_values_deduplicate_case_insensitively() {
    let mut fields = Vec::new();
    fields.extend_from_slice(&field(2, 25, b"Night"));
    fields.extend_from_slice(&field(2, 25, b"NIGHT"));
    fields.extend_from_slice(&field(2, 25, b"Street"));
    let jpeg = jpeg_with_block(&photoshop_block(&fields));

    let iptc = IPTC::read_from_buffer(&jpeg).unwrap();
    assert_eq!(iptc.get(IPTCTag::Keywords), "Night, Street");
}

#[test]
fn last_value_wins_for_non_repeatable() {
    let mut fields = Vec::new();
    fields.extend_from_slice(&field(2, 90, b"London"));
    fields.extend_from_slice(&field(2, 90, b"Oslo"));
    let jpeg = jpeg_with_block(&photoshop_block(&fields));

    let iptc = IPTC::read_from_buffer(&jpeg).unwrap();
    assert_eq!(iptc.get(IPTCTag::City), "Oslo");
}

#[test]
fn jpeg_without_app13_is_empty() {
    // The read walk skips segments by their declared lengths, so the
    // buffer must end at a segment boundary to be walked through.
    let jpeg = vec![
        0xff, 0xd8, 0xff, 0xe0, 0x00, 0x06, 0x4a, 0x46, 0x49, 0x46, 0xff, 0xda, 0x00, 0x07, 0x01,
        0x02, 0x11, 0x22, 0x33,
    ];
    let iptc = IPTC::read_from_buffer(&jpeg).unwrap();
    assert!(iptc.get_all().is_empty());
    assert_eq!(iptc.get(IPTCTag::City), "");
}

#[test]
fn bad_marker_fails() {
    let buffer = vec![0xff, 0xd8, 0x00, 0x11, 0x22, 0x33];
    assert_eq!(JPEGReader::read_iptc(&buffer), Err(FormatError::BadMarker));
}

#[test]
fn truncated_segment_fails() {
    let buffer = vec![0xff, 0xd8, 0xff, 0xed];
    assert_eq!(JPEGReader::read_iptc(&buffer), Err(FormatError::Truncated));
}

#[test]
fn non_jpeg_buffer_fails_jpeg_reader() {
    let buffer = vec![0x00, 0x01, 0x02];
    assert_eq!(JPEGReader::read_iptc(&buffer), Err(FormatError::NotJpeg));
}

#[test]
fn missing_signature_fails() {
    let mut jpeg = vec![0xff, 0xd8, 0xff, 0xed, 0x00, 0x10];
    jpeg.extend_from_slice(b"NotAPhotoshop!");
    jpeg.extend_from_slice(&[0xff, 0xd9]);
    assert_eq!(JPEGReader::read_iptc(&jpeg), Err(FormatError::MissingSignature));
}

#[test]
fn scan_resynchronises_between_blocks() {
    // Garbage between the container signature and the 8BIM block is
    // stepped over byte by byte.
    let fields = field(2, 90, b"London");
    let mut b = Vec::new();
    b.extend_from_slice(b"Photoshop 3.0\0");
    b.push(0x00);
    b.extend_from_slice(b"XYZ");
    b.extend_from_slice(b"8BIM");
    b.extend_from_slice(&[0x04, 0x04, 0x00, 0x00]);
    b.extend_from_slice(&(fields.len() as u32).to_be_bytes());
    b.extend_from_slice(&fields);
    if b.len() % 2 == 1 {
        b.push(0x00);
    }
    let jpeg = jpeg_with_block(&b);
    let iptc = IPTC::read_from_buffer(&jpeg).unwrap();
    assert_eq!(iptc.get(IPTCTag::City), "London");
}

#[test]
fn field_overrunning_block_is_skipped() {
    // The second field claims more value bytes than the block holds.
    let mut fields = Vec::new();
    fields.extend_from_slice(&field(2, 90, b"London"));
    fields.extend_from_slice(&[0x1c, 2, 25, 0x40, 0x00]);
    let jpeg = jpeg_with_block(&photoshop_block(&fields));
    let iptc = IPTC::read_from_buffer(&jpeg).unwrap();
    assert_eq!(iptc.get(IPTCTag::City), "London");
    assert_eq!(iptc.get(IPTCTag::Keywords), "");
}

#[test]
fn non_iim_blocks_are_ignored() {
    // A resource block with another id is walked past, not decoded.
    let other = field(2, 90, b"Ignored");
    let fields = field(2, 90, b"London");
    let mut b = Vec::new();
    b.extend_from_slice(b"Photoshop 3.0\0");
    b.push(0x00);
    b.extend_from_slice(b"8BIM");
    b.extend_from_slice(&[0x03, 0xea, 0x00, 0x00]);
    b.extend_from_slice(&(other.len() as u32).to_be_bytes());
    b.extend_from_slice(&other);
    b.extend_from_slice(b"8BIM");
    b.extend_from_slice(&[0x04, 0x04, 0x00, 0x00]);
    b.extend_from_slice(&(fields.len() as u32).to_be_bytes());
    b.extend_from_slice(&fields);
    if b.len() % 2 == 1 {
        b.push(0x00);
    }
    let jpeg = jpeg_with_block(&b);
    let iptc = IPTC::read_from_buffer(&jpeg).unwrap();
    assert_eq!(iptc.get(IPTCTag::City), "London");
    assert_eq!(iptc.get_all().len(), 1);
}

#[test]
fn region_without_signature_is_rejected() {
    assert_eq!(read_iptc_data(b"short"), Err(FormatError::MissingSignature));
    assert_eq!(read_iptc_data(b"NotPhotoshop 13bytes"), Err(FormatError::MissingSignature));
}

#[test]
fn block_walk_reports_id_and_bounds() {
    let fields = field(2, 90, b"London");
    let region = photoshop_block(&fields);
    let blocks = extract_blocks(&region, 14);
    assert_eq!(blocks.len(), 1);
    assert_eq!(blocks[0].resource_id, 1028);
    assert_eq!(blocks[0].start_of_block, 27);
    assert_eq!(blocks[0].size_of_block, fields.len());

    let parsed = extract_iptc_fields_from_block(
        &region,
        blocks[0].start_of_block,
        blocks[0].size_of_block,
    );
    assert_eq!(parsed.len(), 1);
    assert_eq!(parsed[0].record_number, 2);
    assert_eq!(parsed[0].dataset_number, 90);
    assert_eq!(parsed[0].value, b"London".to_vec());
}

#[test]
fn unsupported_format_reads_empty() {
    // PNG magic: neither JPEG nor TIFF, so the router yields nothing.
    let buffer = vec![0x89, 0x50, 0x4e, 0x47, 0x0d, 0x0a, 0x1a, 0x0a];
    let iptc = IPTC::read_from_buffer(&buffer).unwrap();
    assert!(iptc.get_all().is_empty());
}
