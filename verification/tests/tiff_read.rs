//! The best-effort TIFF/XMP extraction path.

use iptc::read_xmp_data;
use iptc::read_xmp_tag;
use iptc::FormatError;
use iptc::IPTCTag;
use iptc::TIFFReader;
use iptc::IPTC;
use iptc::XmpEvent;

/// A minimal TIFF container whose first directory holds the XMP
/// packet under tag 700 as BYTE data at an offset.
fn tiff_with_xmp(le: bool, xmp: &[u8]) -> Vec<u8> {
    let mut t = Vec::new();
    let u16b = |v: u16| if le { v.to_le_bytes() } else { v.to_be_bytes() };
    let u32b = |v: u32| if le { v.to_le_bytes() } else { v.to_be_bytes() };
    if le {
        t.extend_from_slice(&[0x49, 0x49, 0x2a, 0x00]);
    } else {
        t.extend_from_slice(&[0x4d, 0x4d, 0x00, 0x2a]);
    }
    t.extend_from_slice(&u32b(8));  // first directory at byte 8
    t.extend_from_slice(&u16b(1));  // one entry
    t.extend_from_slice(&u16b(700));  // XMP tag
    t.extend_from_slice(&u16b(1));  // type BYTE
    t.extend_from_slice(&u32b(xmp.len() as u32));
    t.extend_from_slice(&u32b(26));  // payload offset: 8 + 2 + 12 + 4
    t.extend_from_slice(&u32b(0));  // no further directory
    t.extend_from_slice(xmp);
    t
}

fn start(name: &str) -> XmpEvent {
    XmpEvent::Start { local_name: name.to_string(), attributes: Vec::new() }
}

fn end(name: &str) -> XmpEvent {
    XmpEvent::End { local_name: name.to_string() }
}

#[test]
fn creator_text_becomes_by_line() {
    let events = vec![
        start("RDF"),
        start("creator"),
        start("Seq"),
        start("li"),
        XmpEvent::Characters("Ann Author".to_string()),
        end("li"),
        end("Seq"),
        end("creator"),
        end("RDF"),
    ];
    let data = read_xmp_data(&events);
    assert_eq!(data.len(), 1);
    assert_eq!(data[0].0, IPTCTag::ByLine);
    assert_eq!(data[0].1, vec!["Ann Author".to_string()]);
}

#[test]
fn description_attributes_become_fields() {
    let events = vec![XmpEvent::Start {
        local_name: "Description".to_string(),
        attributes: vec![
            (Some("photoshop".to_string()), "State".to_string(), "Ontario".to_string()),
            (Some("photoshop".to_string()), "Country".to_string(), "Canada".to_string()),
            (Some("dc".to_string()), "State".to_string(), "ignored".to_string()),
            (None, "Country".to_string(), "ignored".to_string()),
        ],
    }];
    let data = read_xmp_data(&events);
    let state = data.iter().find(|e| e.0 == IPTCTag::ProvinceOrState).unwrap();
    assert_eq!(state.1, vec!["Ontario".to_string()]);
    let country = data
        .iter()
        .find(|e| e.0 == IPTCTag::CountryOrPrimaryLocationName)
        .unwrap();
    assert_eq!(country.1, vec!["Canada".to_string()]);
    assert_eq!(data.len(), 2);
}

#[test]
fn whitespace_text_is_ignored() {
    let events = vec![
        start("creator"),
        start("li"),
        XmpEvent::Characters(" \t\r\n".to_string()),
        end("li"),
        end("creator"),
    ];
    let data = read_xmp_data(&events);
    assert!(data.is_empty());
}

#[test]
fn text_outside_scopes_is_ignored() {
    let events = vec![
        start("li"),
        XmpEvent::Characters("not a creator".to_string()),
        end("li"),
        XmpEvent::Other,
        XmpEvent::Characters("stray".to_string()),
    ];
    let data = read_xmp_data(&events);
    assert!(data.is_empty());
}

#[test]
fn undecodable_tiff_is_rejected() {
    // A TIFF signature without a sound structure behind it.
    let buffer = vec![0x49, 0x49, 0x2a, 0x00, 0x08, 0x00, 0x00, 0x00];
    assert_eq!(TIFFReader::read_iptc(&buffer), Err(FormatError::Malformed));
}

#[test]
fn tiff_state_attribute_extracted() {
    let xmp = r#"<rdf:RDF xmlns:rdf="http://www.w3.org/1999/02/22-rdf-syntax-ns#"><rdf:Description xmlns:photoshop="http://ns.adobe.com/photoshop/1.0/" photoshop:State="Ontario" photoshop:Country="Canada"/></rdf:RDF>"#;
    let buffer = tiff_with_xmp(true, xmp.as_bytes());
    let iptc = IPTC::read_from_buffer(&buffer).unwrap();
    assert_eq!(iptc.get(IPTCTag::ProvinceOrState), "Ontario");
    assert_eq!(iptc.get(IPTCTag::CountryOrPrimaryLocationName), "Canada");
}

#[test]
fn tiff_creator_extracted_big_endian() {
    let xmp = r#"<rdf:RDF xmlns:rdf="http://www.w3.org/1999/02/22-rdf-syntax-ns#" xmlns:dc="http://purl.org/dc/elements/1.1/"><rdf:Description><dc:creator><rdf:Seq><rdf:li>Ann Author</rdf:li></rdf:Seq></dc:creator></rdf:Description></rdf:RDF>"#;
    let buffer = tiff_with_xmp(false, xmp.as_bytes());
    let data = TIFFReader::read_iptc(&buffer).unwrap();
    assert_eq!(data.len(), 1);
    assert_eq!(data[0].0, IPTCTag::ByLine);
    assert_eq!(data[0].1, vec!["Ann Author".to_string()]);
}

#[test]
fn xmp_payload_located_in_directory() {
    let buffer = tiff_with_xmp(true, b"<ab/>");
    assert_eq!(read_xmp_tag(&buffer), Some(b"<ab/>".to_vec()));

    // A payload of at most four bytes sits inline in the value field.
    let mut inline = Vec::new();
    inline.extend_from_slice(&[0x49, 0x49, 0x2a, 0x00]);
    inline.extend_from_slice(&8u32.to_le_bytes());
    inline.extend_from_slice(&2u16.to_le_bytes());
    // An unrelated entry first, then the XMP entry with inline bytes.
    inline.extend_from_slice(&256u16.to_le_bytes());
    inline.extend_from_slice(&3u16.to_le_bytes());
    inline.extend_from_slice(&1u32.to_le_bytes());
    inline.extend_from_slice(&7u32.to_le_bytes());
    inline.extend_from_slice(&700u16.to_le_bytes());
    inline.extend_from_slice(&1u16.to_le_bytes());
    inline.extend_from_slice(&3u32.to_le_bytes());
    inline.extend_from_slice(b"abc\0");
    inline.extend_from_slice(&0u32.to_le_bytes());
    assert_eq!(read_xmp_tag(&inline), Some(b"abc".to_vec()));

    // A tag 700 entry of a non-byte type yields nothing.
    let mut wrong = tiff_with_xmp(true, b"<ab/>");
    wrong[12] = 3;  // entry type: SHORT
    assert_eq!(read_xmp_tag(&wrong), None);

    // A payload overrunning the buffer yields nothing.
    let mut cut = tiff_with_xmp(true, b"<ab/>");
    cut.truncate(28);
    assert_eq!(read_xmp_tag(&cut), None);

    assert_eq!(read_xmp_tag(&b"II*\0".to_vec()), None);
    assert_eq!(read_xmp_tag(&b"ABCD1234".to_vec()), None);
}
