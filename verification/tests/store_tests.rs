//! The metadata store, the tag dictionary and the byte utilities.

use iptc::default_parse;
use iptc::eq_ignore_case;
use iptc::parse_short;
use iptc::parse_u16_decimal;
use iptc::u16_to_decimal;
use iptc::IPTCTag;
use iptc::ReadUtils;
use iptc::TagsMap;
use iptc::ValueKind;
use iptc::IPTC;

#[test]
fn repeatable_merge_is_case_insensitive_in_order() {
    let mut iptc = IPTC::new();
    iptc.set_tag(IPTCTag::Keywords, "a");
    iptc.set_tag(IPTCTag::Keywords, "A");
    iptc.set_tag(IPTCTag::Keywords, "b");
    assert_eq!(iptc.get(IPTCTag::Keywords), "a, b");
}

#[test]
fn non_repeatable_tag_overwrites() {
    let mut iptc = IPTC::new();
    iptc.set_tag(IPTCTag::City, "London");
    assert_eq!(iptc.get(IPTCTag::City), "London");
    iptc.set_tag(IPTCTag::City, "Oslo");
    assert_eq!(iptc.get(IPTCTag::City), "Oslo");
}

#[test]
fn absent_tag_reads_empty() {
    let iptc = IPTC::new();
    assert_eq!(iptc.get(IPTCTag::Caption), "");
    assert!(iptc.get_all().is_empty());
}

#[test]
fn default_is_empty() {
    let iptc = IPTC::default();
    assert!(iptc.get_all().is_empty());
}

#[test]
fn dictionary_knows_city_and_keywords() {
    let map = TagsMap::new();
    let city = map.get(2, 90).unwrap();
    assert_eq!(city.tag, IPTCTag::City);
    assert!(!city.repeatable);
    assert_eq!(city.kind, ValueKind::Text);

    let keywords = map.get(2, 25).unwrap();
    assert_eq!(keywords.tag, IPTCTag::Keywords);
    assert!(keywords.repeatable);

    let version = map.get(1, 0).unwrap();
    assert_eq!(version.tag, IPTCTag::ModelVersion);
    assert_eq!(version.kind, ValueKind::Short);

    assert!(map.get(9, 99).is_none());
}

#[test]
fn dictionary_reverse_lookup() {
    let map = TagsMap::new();
    assert_eq!(map.get_record_dataset(IPTCTag::City), Some((2, 90)));
    assert_eq!(map.get_record_dataset(IPTCTag::Keywords), Some((2, 25)));
    assert_eq!(map.get_record_dataset(IPTCTag::SizeMode), Some((7, 10)));
    assert_eq!(map.get_record_dataset(IPTCTag::Null), None);
}

#[test]
fn parse_short_renders_big_endian_decimal() {
    assert_eq!(parse_short(&vec![0x00, 0x2a]), "42");
    assert_eq!(parse_short(&vec![0xff, 0xff]), "65535");
    assert_eq!(parse_short(&vec![0x01]), "0");
    assert_eq!(parse_short(&vec![0x01, 0x02, 0x03]), "0");
}

#[test]
fn default_parse_trims_and_decodes() {
    assert_eq!(default_parse(&b"\0\0hello\x1f".to_vec()), Some("hello".to_string()));
    assert_eq!(default_parse(&b"plain".to_vec()), Some("plain".to_string()));
    // An invalid UTF-8 payload is rejected, not mangled.
    assert_eq!(default_parse(&vec![0x66, 0xff, 0xfe]), None);
}

#[test]
fn decimal_rendering_and_parsing() {
    assert_eq!(u16_to_decimal(0), "0");
    assert_eq!(u16_to_decimal(42), "42");
    assert_eq!(u16_to_decimal(65535), "65535");
    assert_eq!(parse_u16_decimal("0"), 0);
    assert_eq!(parse_u16_decimal("65535"), 65535);
    assert_eq!(parse_u16_decimal("65536"), 0);
    assert_eq!(parse_u16_decimal(""), 0);
    assert_eq!(parse_u16_decimal("12a"), 0);
    assert_eq!(parse_u16_decimal("007"), 7);
}

#[test]
fn case_insensitive_comparison() {
    assert!(eq_ignore_case("Night", "nIGHT"));
    assert!(!eq_ignore_case("Night", "Nacht"));
    assert!(!eq_ignore_case("ab", "abc"));
    assert!(eq_ignore_case("", ""));
}

#[test]
fn big_endian_readers() {
    let bytes: Vec<u8> = vec![0x12, 0x34, 0xff, 0xfe];
    let slice: &[u8] = &bytes;
    assert_eq!(slice.read_u16be(0), 0x1234);
    assert_eq!(slice.read_u16be(2), 0xfffe);
    assert_eq!(slice.read_i16be(2), -2);
    assert_eq!(slice.read_i16be(0), 0x1234);
}

#[test]
fn join_uses_comma_and_space() {
    let mut iptc = IPTC::new();
    iptc.set_tag(IPTCTag::ByLine, "Ann");
    iptc.set_tag(IPTCTag::ByLine, "Ben");
    iptc.set_tag(IPTCTag::ByLine, "Cleo");
    assert_eq!(iptc.get(IPTCTag::ByLine), "Ann, Ben, Cleo");
}
