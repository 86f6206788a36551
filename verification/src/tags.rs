//! The tag dictionary: the fixed mapping between (record, dataset) keys
//! of the IIM tagged-field stream and symbolic metadata tags, with each
//! field's repeatability flag and payload kind.

use vstd::prelude::*;

verus! {

/// One semantic metadata field of the IIM application records.
/// `Null` is the sentinel for a (record, dataset) key the dictionary
/// does not know; it never carries data and is never emitted.
#[derive(Debug, Clone, Copy, PartialEq, Eq, Hash, Structural)]
pub enum IPTCTag {
    Null,
    ModelVersion,
    DateSent,
    TimeSent,
    CodedCharacterSet,
    RecordVersion,
    ObjectTypeReference,
    ObjectAttributeReference,
    ObjectName,
    EditStatus,
    EditorialUpdate,
    Urgency,
    SubjectReference,
    Category,
    SupplementalCategories,
    FixtureId,
    Keywords,
    ContentLocationCode,
    ContentLocationName,
    ReleaseDate,
    ReleaseTime,
    ExpirationDate,
    ExpirationTime,
    SpecialInstructions,
    ActionAdvised,
    ReferenceService,
    ReferenceDate,
    ReferenceNumber,
    DateCreated,
    TimeCreated,
    DigitalDateCreated,
    DigitalTimeCreated,
    OriginatingProgram,
    ProgramVersion,
    ObjectCycle,
    ByLine,
    ByLineTitle,
    City,
    SubLocation,
    ProvinceOrState,
    CountryOrPrimaryLocationCode,
    CountryOrPrimaryLocationName,
    OriginalTransmissionReference,
    Headline,
    Credit,
    Source,
    CopyrightNotice,
    Contact,
    Caption,
    LocalCaption,
    CaptionWriter,
    RasterizedCaption,
    ImageType,
    ImageOrientation,
    LanguageIdentifier,
    AudioType,
    AudioSamplingRate,
    AudioSamplingResolution,
    AudioDuration,
    AudioOutcue,
    JobId,
    MasterDocumentId,
    ShortDocumentId,
    UniqueDocumentId,
    OwnerId,
    ObjectPreviewFileFormat,
    ObjectPreviewFileFormatVersion,
    ObjectPreviewData,
    SizeMode,
}

/// How a field's raw byte payload is rendered as a display string:
/// either the bytes are UTF-8 text taken as they are, or they hold a
/// big-endian unsigned 16-bit integer shown as a decimal number.
#[derive(Debug, Clone, Copy, PartialEq, Eq, Structural)]
pub enum ValueKind {
    Text,
    Short,
}

/// The dictionary entry for one (record, dataset) key.
#[derive(Debug, Clone, Copy, PartialEq, Eq, Structural)]
pub struct TagInfo {
    pub tag: IPTCTag,
    pub repeatable: bool,
    pub kind: ValueKind,
}

/// The dictionary as a mathematical function: the entry registered for
/// a (record, dataset) key, or `None` for a key outside the dictionary.
pub open spec fn spec_lookup(record: u8, dataset: u8) -> Option<TagInfo> {
    match (record, dataset) {
        (1u8, 0u8) => Some(TagInfo { tag: IPTCTag::ModelVersion, repeatable: false, kind: ValueKind::Short }),
        (1u8, 5u8) => Some(TagInfo { tag: IPTCTag::DateSent, repeatable: false, kind: ValueKind::Text }),
        (1u8, 80u8) => Some(TagInfo { tag: IPTCTag::TimeSent, repeatable: false, kind: ValueKind::Text }),
        (1u8, 90u8) => Some(TagInfo { tag: IPTCTag::CodedCharacterSet, repeatable: false, kind: ValueKind::Text }),
        (2u8, 0u8) => Some(TagInfo { tag: IPTCTag::RecordVersion, repeatable: false, kind: ValueKind::Short }),
        (2u8, 3u8) => Some(TagInfo { tag: IPTCTag::ObjectTypeReference, repeatable: false, kind: ValueKind::Text }),
        (2u8, 4u8) => Some(TagInfo { tag: IPTCTag::ObjectAttributeReference, repeatable: false, kind: ValueKind::Text }),
        (2u8, 5u8) => Some(TagInfo { tag: IPTCTag::ObjectName, repeatable: false, kind: ValueKind::Text }),
        (2u8, 7u8) => Some(TagInfo { tag: IPTCTag::EditStatus, repeatable: false, kind: ValueKind::Text }),
        (2u8, 8u8) => Some(TagInfo { tag: IPTCTag::EditorialUpdate, repeatable: false, kind: ValueKind::Text }),
        (2u8, 10u8) => Some(TagInfo { tag: IPTCTag::Urgency, repeatable: false, kind: ValueKind::Text }),
        (2u8, 12u8) => Some(TagInfo { tag: IPTCTag::SubjectReference, repeatable: false, kind: ValueKind::Text }),
        (2u8, 15u8) => Some(TagInfo { tag: IPTCTag::Category, repeatable: false, kind: ValueKind::Text }),
        (2u8, 20u8) => Some(TagInfo { tag: IPTCTag::SupplementalCategories, repeatable: true, kind: ValueKind::Text }),
        (2u8, 22u8) => Some(TagInfo { tag: IPTCTag::FixtureId, repeatable: true, kind: ValueKind::Text }),
        (2u8, 25u8) => Some(TagInfo { tag: IPTCTag::Keywords, repeatable: true, kind: ValueKind::Text }),
        (2u8, 26u8) => Some(TagInfo { tag: IPTCTag::ContentLocationCode, repeatable: true, kind: ValueKind::Text }),
        (2u8, 27u8) => Some(TagInfo { tag: IPTCTag::ContentLocationName, repeatable: true, kind: ValueKind::Text }),
        (2u8, 30u8) => Some(TagInfo { tag: IPTCTag::ReleaseDate, repeatable: false, kind: ValueKind::Text }),
        (2u8, 35u8) => Some(TagInfo { tag: IPTCTag::ReleaseTime, repeatable: false, kind: ValueKind::Text }),
        (2u8, 37u8) => Some(TagInfo { tag: IPTCTag::ExpirationDate, repeatable: false, kind: ValueKind::Text }),
        (2u8, 38u8) => Some(TagInfo { tag: IPTCTag::ExpirationTime, repeatable: false, kind: ValueKind::Text }),
        (2u8, 40u8) => Some(TagInfo { tag: IPTCTag::SpecialInstructions, repeatable: false, kind: ValueKind::Text }),
        (2u8, 42u8) => Some(TagInfo { tag: IPTCTag::ActionAdvised, repeatable: false, kind: ValueKind::Text }),
        (2u8, 45u8) => Some(TagInfo { tag: IPTCTag::ReferenceService, repeatable: true, kind: ValueKind::Text }),
        (2u8, 47u8) => Some(TagInfo { tag: IPTCTag::ReferenceDate, repeatable: true, kind: ValueKind::Text }),
        (2u8, 50u8) => Some(TagInfo { tag: IPTCTag::ReferenceNumber, repeatable: true, kind: ValueKind::Text }),
        (2u8, 55u8) => Some(TagInfo { tag: IPTCTag::DateCreated, repeatable: false, kind: ValueKind::Text }),
        (2u8, 60u8) => Some(TagInfo { tag: IPTCTag::TimeCreated, repeatable: false, kind: ValueKind::Text }),
        (2u8, 62u8) => Some(TagInfo { tag: IPTCTag::DigitalDateCreated, repeatable: false, kind: ValueKind::Text }),
        (2u8, 63u8) => Some(TagInfo { tag: IPTCTag::DigitalTimeCreated, repeatable: false, kind: ValueKind::Text }),
        (2u8, 65u8) => Some(TagInfo { tag: IPTCTag::OriginatingProgram, repeatable: false, kind: ValueKind::Text }),
        (2u8, 70u8) => Some(TagInfo { tag: IPTCTag::ProgramVersion, repeatable: false, kind: ValueKind::Text }),
        (2u8, 75u8) => Some(TagInfo { tag: IPTCTag::ObjectCycle, repeatable: false, kind: ValueKind::Text }),
        (2u8, 80u8) => Some(TagInfo { tag: IPTCTag::ByLine, repeatable: true, kind: ValueKind::Text }),
        (2u8, 85u8) => Some(TagInfo { tag: IPTCTag::ByLineTitle, repeatable: true, kind: ValueKind::Text }),
        (2u8, 90u8) => Some(TagInfo { tag: IPTCTag::City, repeatable: false, kind: ValueKind::Text }),
        (2u8, 92u8) => Some(TagInfo { tag: IPTCTag::SubLocation, repeatable: false, kind: ValueKind::Text }),
        (2u8, 95u8) => Some(TagInfo { tag: IPTCTag::ProvinceOrState, repeatable: false, kind: ValueKind::Text }),
        (2u8, 100u8) => Some(TagInfo { tag: IPTCTag::CountryOrPrimaryLocationCode, repeatable: false, kind: ValueKind::Text }),
        (2u8, 101u8) => Some(TagInfo { tag: IPTCTag::CountryOrPrimaryLocationName, repeatable: false, kind: ValueKind::Text }),
        (2u8, 103u8) => Some(TagInfo { tag: IPTCTag::OriginalTransmissionReference, repeatable: false, kind: ValueKind::Text }),
        (2u8, 105u8) => Some(TagInfo { tag: IPTCTag::Headline, repeatable: false, kind: ValueKind::Text }),
        (2u8, 110u8) => Some(TagInfo { tag: IPTCTag::Credit, repeatable: false, kind: ValueKind::Text }),
        (2u8, 115u8) => Some(TagInfo { tag: IPTCTag::Source, repeatable: false, kind: ValueKind::Text }),
        (2u8, 116u8) => Some(TagInfo { tag: IPTCTag::CopyrightNotice, repeatable: false, kind: ValueKind::Text }),
        (2u8, 118u8) => Some(TagInfo { tag: IPTCTag::Contact, repeatable: false, kind: ValueKind::Text }),
        (2u8, 120u8) => Some(TagInfo { tag: IPTCTag::Caption, repeatable: false, kind: ValueKind::Text }),
        (2u8, 121u8) => Some(TagInfo { tag: IPTCTag::LocalCaption, repeatable: false, kind: ValueKind::Text }),
        (2u8, 122u8) => Some(TagInfo { tag: IPTCTag::CaptionWriter, repeatable: true, kind: ValueKind::Text }),
        (2u8, 125u8) => Some(TagInfo { tag: IPTCTag::RasterizedCaption, repeatable: false, kind: ValueKind::Text }),
        (2u8, 130u8) => Some(TagInfo { tag: IPTCTag::ImageType, repeatable: false, kind: ValueKind::Text }),
        (2u8, 131u8) => Some(TagInfo { tag: IPTCTag::ImageOrientation, repeatable: false, kind: ValueKind::Text }),
        (2u8, 135u8) => Some(TagInfo { tag: IPTCTag::LanguageIdentifier, repeatable: false, kind: ValueKind::Text }),
        (2u8, 150u8) => Some(TagInfo { tag: IPTCTag::AudioType, repeatable: false, kind: ValueKind::Text }),
        (2u8, 151u8) => Some(TagInfo { tag: IPTCTag::AudioSamplingRate, repeatable: false, kind: ValueKind::Text }),
        (2u8, 152u8) => Some(TagInfo { tag: IPTCTag::AudioSamplingResolution, repeatable: false, kind: ValueKind::Text }),
        (2u8, 153u8) => Some(TagInfo { tag: IPTCTag::AudioDuration, repeatable: false, kind: ValueKind::Text }),
        (2u8, 154u8) => Some(TagInfo { tag: IPTCTag::AudioOutcue, repeatable: false, kind: ValueKind::Text }),
        (2u8, 184u8) => Some(TagInfo { tag: IPTCTag::JobId, repeatable: false, kind: ValueKind::Text }),
        (2u8, 185u8) => Some(TagInfo { tag: IPTCTag::MasterDocumentId, repeatable: false, kind: ValueKind::Text }),
        (2u8, 186u8) => Some(TagInfo { tag: IPTCTag::ShortDocumentId, repeatable: false, kind: ValueKind::Text }),
        (2u8, 187u8) => Some(TagInfo { tag: IPTCTag::UniqueDocumentId, repeatable: false, kind: ValueKind::Text }),
        (2u8, 188u8) => Some(TagInfo { tag: IPTCTag::OwnerId, repeatable: false, kind: ValueKind::Text }),
        (2u8, 200u8) => Some(TagInfo { tag: IPTCTag::ObjectPreviewFileFormat, repeatable: false, kind: ValueKind::Text }),
        (2u8, 201u8) => Some(TagInfo { tag: IPTCTag::ObjectPreviewFileFormatVersion, repeatable: false, kind: ValueKind::Text }),
        (2u8, 202u8) => Some(TagInfo { tag: IPTCTag::ObjectPreviewData, repeatable: false, kind: ValueKind::Text }),
        (7u8, 10u8) => Some(TagInfo { tag: IPTCTag::SizeMode, repeatable: false, kind: ValueKind::Text }),
        _ => None,
    }
}

/// The reverse dictionary: the (record, dataset) key under which a tag
/// is emitted, or `None` for a tag with no entry (only `Null`).
pub open spec fn spec_record_dataset(tag: IPTCTag) -> Option<(u8, u8)> {
    match tag {
        IPTCTag::Null => None,
        IPTCTag::ModelVersion => Some((1u8, 0u8)),
        IPTCTag::DateSent => Some((1u8, 5u8)),
        IPTCTag::TimeSent => Some((1u8, 80u8)),
        IPTCTag::CodedCharacterSet => Some((1u8, 90u8)),
        IPTCTag::RecordVersion => Some((2u8, 0u8)),
        IPTCTag::ObjectTypeReference => Some((2u8, 3u8)),
        IPTCTag::ObjectAttributeReference => Some((2u8, 4u8)),
        IPTCTag::ObjectName => Some((2u8, 5u8)),
        IPTCTag::EditStatus => Some((2u8, 7u8)),
        IPTCTag::EditorialUpdate => Some((2u8, 8u8)),
        IPTCTag::Urgency => Some((2u8, 10u8)),
        IPTCTag::SubjectReference => Some((2u8, 12u8)),
        IPTCTag::Category => Some((2u8, 15u8)),
        IPTCTag::SupplementalCategories => Some((2u8, 20u8)),
        IPTCTag::FixtureId => Some((2u8, 22u8)),
        IPTCTag::Keywords => Some((2u8, 25u8)),
        IPTCTag::ContentLocationCode => Some((2u8, 26u8)),
        IPTCTag::ContentLocationName => Some((2u8, 27u8)),
        IPTCTag::ReleaseDate => Some((2u8, 30u8)),
        IPTCTag::ReleaseTime => Some((2u8, 35u8)),
        IPTCTag::ExpirationDate => Some((2u8, 37u8)),
        IPTCTag::ExpirationTime => Some((2u8, 38u8)),
        IPTCTag::SpecialInstructions => Some((2u8, 40u8)),
        IPTCTag::ActionAdvised => Some((2u8, 42u8)),
        IPTCTag::ReferenceService => Some((2u8, 45u8)),
        IPTCTag::ReferenceDate => Some((2u8, 47u8)),
        IPTCTag::ReferenceNumber => Some((2u8, 50u8)),
        IPTCTag::DateCreated => Some((2u8, 55u8)),
        IPTCTag::TimeCreated => Some((2u8, 60u8)),
        IPTCTag::DigitalDateCreated => Some((2u8, 62u8)),
        IPTCTag::DigitalTimeCreated => Some((2u8, 63u8)),
        IPTCTag::OriginatingProgram => Some((2u8, 65u8)),
        IPTCTag::ProgramVersion => Some((2u8, 70u8)),
        IPTCTag::ObjectCycle => Some((2u8, 75u8)),
        IPTCTag::ByLine => Some((2u8, 80u8)),
        IPTCTag::ByLineTitle => Some((2u8, 85u8)),
        IPTCTag::City => Some((2u8, 90u8)),
        IPTCTag::SubLocation => Some((2u8, 92u8)),
        IPTCTag::ProvinceOrState => Some((2u8, 95u8)),
        IPTCTag::CountryOrPrimaryLocationCode => Some((2u8, 100u8)),
        IPTCTag::CountryOrPrimaryLocationName => Some((2u8, 101u8)),
        IPTCTag::OriginalTransmissionReference => Some((2u8, 103u8)),
        IPTCTag::Headline => Some((2u8, 105u8)),
        IPTCTag::Credit => Some((2u8, 110u8)),
        IPTCTag::Source => Some((2u8, 115u8)),
        IPTCTag::CopyrightNotice => Some((2u8, 116u8)),
        IPTCTag::Contact => Some((2u8, 118u8)),
        IPTCTag::Caption => Some((2u8, 120u8)),
        IPTCTag::LocalCaption => Some((2u8, 121u8)),
        IPTCTag::CaptionWriter => Some((2u8, 122u8)),
        IPTCTag::RasterizedCaption => Some((2u8, 125u8)),
        IPTCTag::ImageType => Some((2u8, 130u8)),
        IPTCTag::ImageOrientation => Some((2u8, 131u8)),
        IPTCTag::LanguageIdentifier => Some((2u8, 135u8)),
        IPTCTag::AudioType => Some((2u8, 150u8)),
        IPTCTag::AudioSamplingRate => Some((2u8, 151u8)),
        IPTCTag::AudioSamplingResolution => Some((2u8, 152u8)),
        IPTCTag::AudioDuration => Some((2u8, 153u8)),
        IPTCTag::AudioOutcue => Some((2u8, 154u8)),
        IPTCTag::JobId => Some((2u8, 184u8)),
        IPTCTag::MasterDocumentId => Some((2u8, 185u8)),
        IPTCTag::ShortDocumentId => Some((2u8, 186u8)),
        IPTCTag::UniqueDocumentId => Some((2u8, 187u8)),
        IPTCTag::OwnerId => Some((2u8, 188u8)),
        IPTCTag::ObjectPreviewFileFormat => Some((2u8, 200u8)),
        IPTCTag::ObjectPreviewFileFormatVersion => Some((2u8, 201u8)),
        IPTCTag::ObjectPreviewData => Some((2u8, 202u8)),
        IPTCTag::SizeMode => Some((7u8, 10u8)),
    }
}

/// The dictionary entry that governs a tag, reached through its
/// (record, dataset) key.
pub open spec fn spec_tag_info(tag: IPTCTag) -> Option<TagInfo> {
    match spec_record_dataset(tag) {
        Some(rd) => spec_lookup(rd.0, rd.1),
        None => None,
    }
}

/// Whether values of a tag accumulate (repeatable field) rather than
/// overwrite.  A tag outside the dictionary never accumulates.
pub open spec fn spec_repeatable(tag: IPTCTag) -> bool {
    match spec_tag_info(tag) {
        Some(info) => info.repeatable,
        None => false,
    }
}

/// Looking a tag's own key up in the forward dictionary yields that
/// same tag, with one consistent entry.
pub proof fn lemma_reverse_then_lookup(tag: IPTCTag)
    ensures
        spec_record_dataset(tag) matches Some(rd) ==> spec_lookup(rd.0, rd.1)
            == Some(TagInfo { tag, repeatable: spec_repeatable(tag), kind: spec_kind(tag) }),
{
}

/// The payload kind that governs a tag; text for a tag outside the
/// dictionary.
pub open spec fn spec_kind(tag: IPTCTag) -> ValueKind {
    match spec_tag_info(tag) {
        Some(info) => info.kind,
        None => ValueKind::Text,
    }
}

/// A forward entry names the tag that maps back to its key: the
/// dictionary holds no two keys for one tag and no two tags for one key.
pub proof fn lemma_lookup_then_reverse(record: u8, dataset: u8)
    ensures
        spec_lookup(record, dataset) matches Some(info) ==> spec_record_dataset(info.tag)
            == Some((record, dataset)),
{
}

/// The tag dictionary of the IIM application records, §4.1 of the IPTC
/// IIM specification family: record 1 envelope fields, record 2
/// editorial fields, and one record 7 field.
pub struct TagsMap;

impl TagsMap {
    /// The dictionary is a compile-time constant; nothing is built.
    pub fn new() -> (m: TagsMap) {
        TagsMap
    }

    /// The entry registered for a (record, dataset) key.
    pub fn get(&self, record: u8, dataset: u8) -> (r: Option<TagInfo>)
        ensures
            r == spec_lookup(record, dataset),
    {
        match (record, dataset) {
            (1, 0) => Some(TagInfo { tag: IPTCTag::ModelVersion, repeatable: false, kind: ValueKind::Short }),
            (1, 5) => Some(TagInfo { tag: IPTCTag::DateSent, repeatable: false, kind: ValueKind::Text }),
            (1, 80) => Some(TagInfo { tag: IPTCTag::TimeSent, repeatable: false, kind: ValueKind::Text }),
            (1, 90) => Some(TagInfo { tag: IPTCTag::CodedCharacterSet, repeatable: false, kind: ValueKind::Text }),
            (2, 0) => Some(TagInfo { tag: IPTCTag::RecordVersion, repeatable: false, kind: ValueKind::Short }),
            (2, 3) => Some(TagInfo { tag: IPTCTag::ObjectTypeReference, repeatable: false, kind: ValueKind::Text }),
            (2, 4) => Some(TagInfo { tag: IPTCTag::ObjectAttributeReference, repeatable: false, kind: ValueKind::Text }),
            (2, 5) => Some(TagInfo { tag: IPTCTag::ObjectName, repeatable: false, kind: ValueKind::Text }),
            (2, 7) => Some(TagInfo { tag: IPTCTag::EditStatus, repeatable: false, kind: ValueKind::Text }),
            (2, 8) => Some(TagInfo { tag: IPTCTag::EditorialUpdate, repeatable: false, kind: ValueKind::Text }),
            (2, 10) => Some(TagInfo { tag: IPTCTag::Urgency, repeatable: false, kind: ValueKind::Text }),
            (2, 12) => Some(TagInfo { tag: IPTCTag::SubjectReference, repeatable: false, kind: ValueKind::Text }),
            (2, 15) => Some(TagInfo { tag: IPTCTag::Category, repeatable: false, kind: ValueKind::Text }),
            (2, 20) => Some(TagInfo { tag: IPTCTag::SupplementalCategories, repeatable: true, kind: ValueKind::Text }),
            (2, 22) => Some(TagInfo { tag: IPTCTag::FixtureId, repeatable: true, kind: ValueKind::Text }),
            (2, 25) => Some(TagInfo { tag: IPTCTag::Keywords, repeatable: true, kind: ValueKind::Text }),
            (2, 26) => Some(TagInfo { tag: IPTCTag::ContentLocationCode, repeatable: true, kind: ValueKind::Text }),
            (2, 27) => Some(TagInfo { tag: IPTCTag::ContentLocationName, repeatable: true, kind: ValueKind::Text }),
            (2, 30) => Some(TagInfo { tag: IPTCTag::ReleaseDate, repeatable: false, kind: ValueKind::Text }),
            (2, 35) => Some(TagInfo { tag: IPTCTag::ReleaseTime, repeatable: false, kind: ValueKind::Text }),
            (2, 37) => Some(TagInfo { tag: IPTCTag::ExpirationDate, repeatable: false, kind: ValueKind::Text }),
            (2, 38) => Some(TagInfo { tag: IPTCTag::ExpirationTime, repeatable: false, kind: ValueKind::Text }),
            (2, 40) => Some(TagInfo { tag: IPTCTag::SpecialInstructions, repeatable: false, kind: ValueKind::Text }),
            (2, 42) => Some(TagInfo { tag: IPTCTag::ActionAdvised, repeatable: false, kind: ValueKind::Text }),
            (2, 45) => Some(TagInfo { tag: IPTCTag::ReferenceService, repeatable: true, kind: ValueKind::Text }),
            (2, 47) => Some(TagInfo { tag: IPTCTag::ReferenceDate, repeatable: true, kind: ValueKind::Text }),
            (2, 50) => Some(TagInfo { tag: IPTCTag::ReferenceNumber, repeatable: true, kind: ValueKind::Text }),
            (2, 55) => Some(TagInfo { tag: IPTCTag::DateCreated, repeatable: false, kind: ValueKind::Text }),
            (2, 60) => Some(TagInfo { tag: IPTCTag::TimeCreated, repeatable: false, kind: ValueKind::Text }),
            (2, 62) => Some(TagInfo { tag: IPTCTag::DigitalDateCreated, repeatable: false, kind: ValueKind::Text }),
            (2, 63) => Some(TagInfo { tag: IPTCTag::DigitalTimeCreated, repeatable: false, kind: ValueKind::Text }),
            (2, 65) => Some(TagInfo { tag: IPTCTag::OriginatingProgram, repeatable: false, kind: ValueKind::Text }),
            (2, 70) => Some(TagInfo { tag: IPTCTag::ProgramVersion, repeatable: false, kind: ValueKind::Text }),
            (2, 75) => Some(TagInfo { tag: IPTCTag::ObjectCycle, repeatable: false, kind: ValueKind::Text }),
            (2, 80) => Some(TagInfo { tag: IPTCTag::ByLine, repeatable: true, kind: ValueKind::Text }),
            (2, 85) => Some(TagInfo { tag: IPTCTag::ByLineTitle, repeatable: true, kind: ValueKind::Text }),
            (2, 90) => Some(TagInfo { tag: IPTCTag::City, repeatable: false, kind: ValueKind::Text }),
            (2, 92) => Some(TagInfo { tag: IPTCTag::SubLocation, repeatable: false, kind: ValueKind::Text }),
            (2, 95) => Some(TagInfo { tag: IPTCTag::ProvinceOrState, repeatable: false, kind: ValueKind::Text }),
            (2, 100) => Some(TagInfo { tag: IPTCTag::CountryOrPrimaryLocationCode, repeatable: false, kind: ValueKind::Text }),
            (2, 101) => Some(TagInfo { tag: IPTCTag::CountryOrPrimaryLocationName, repeatable: false, kind: ValueKind::Text }),
            (2, 103) => Some(TagInfo { tag: IPTCTag::OriginalTransmissionReference, repeatable: false, kind: ValueKind::Text }),
            (2, 105) => Some(TagInfo { tag: IPTCTag::Headline, repeatable: false, kind: ValueKind::Text }),
            (2, 110) => Some(TagInfo { tag: IPTCTag::Credit, repeatable: false, kind: ValueKind::Text }),
            (2, 115) => Some(TagInfo { tag: IPTCTag::Source, repeatable: false, kind: ValueKind::Text }),
            (2, 116) => Some(TagInfo { tag: IPTCTag::CopyrightNotice, repeatable: false, kind: ValueKind::Text }),
            (2, 118) => Some(TagInfo { tag: IPTCTag::Contact, repeatable: false, kind: ValueKind::Text }),
            (2, 120) => Some(TagInfo { tag: IPTCTag::Caption, repeatable: false, kind: ValueKind::Text }),
            (2, 121) => Some(TagInfo { tag: IPTCTag::LocalCaption, repeatable: false, kind: ValueKind::Text }),
            (2, 122) => Some(TagInfo { tag: IPTCTag::CaptionWriter, repeatable: true, kind: ValueKind::Text }),
            (2, 125) => Some(TagInfo { tag: IPTCTag::RasterizedCaption, repeatable: false, kind: ValueKind::Text }),
            (2, 130) => Some(TagInfo { tag: IPTCTag::ImageType, repeatable: false, kind: ValueKind::Text }),
            (2, 131) => Some(TagInfo { tag: IPTCTag::ImageOrientation, repeatable: false, kind: ValueKind::Text }),
            (2, 135) => Some(TagInfo { tag: IPTCTag::LanguageIdentifier, repeatable: false, kind: ValueKind::Text }),
            (2, 150) => Some(TagInfo { tag: IPTCTag::AudioType, repeatable: false, kind: ValueKind::Text }),
            (2, 151) => Some(TagInfo { tag: IPTCTag::AudioSamplingRate, repeatable: false, kind: ValueKind::Text }),
            (2, 152) => Some(TagInfo { tag: IPTCTag::AudioSamplingResolution, repeatable: false, kind: ValueKind::Text }),
            (2, 153) => Some(TagInfo { tag: IPTCTag::AudioDuration, repeatable: false, kind: ValueKind::Text }),
            (2, 154) => Some(TagInfo { tag: IPTCTag::AudioOutcue, repeatable: false, kind: ValueKind::Text }),
            (2, 184) => Some(TagInfo { tag: IPTCTag::JobId, repeatable: false, kind: ValueKind::Text }),
            (2, 185) => Some(TagInfo { tag: IPTCTag::MasterDocumentId, repeatable: false, kind: ValueKind::Text }),
            (2, 186) => Some(TagInfo { tag: IPTCTag::ShortDocumentId, repeatable: false, kind: ValueKind::Text }),
            (2, 187) => Some(TagInfo { tag: IPTCTag::UniqueDocumentId, repeatable: false, kind: ValueKind::Text }),
            (2, 188) => Some(TagInfo { tag: IPTCTag::OwnerId, repeatable: false, kind: ValueKind::Text }),
            (2, 200) => Some(TagInfo { tag: IPTCTag::ObjectPreviewFileFormat, repeatable: false, kind: ValueKind::Text }),
            (2, 201) => Some(TagInfo { tag: IPTCTag::ObjectPreviewFileFormatVersion, repeatable: false, kind: ValueKind::Text }),
            (2, 202) => Some(TagInfo { tag: IPTCTag::ObjectPreviewData, repeatable: false, kind: ValueKind::Text }),
            (7, 10) => Some(TagInfo { tag: IPTCTag::SizeMode, repeatable: false, kind: ValueKind::Text }),
            _ => None,
        }
    }

    /// The (record, dataset) key under which a tag is emitted.
    pub fn get_record_dataset(&self, tag: IPTCTag) -> (r: Option<(u8, u8)>)
        ensures
            r == spec_record_dataset(tag),
    {
        match tag {
            IPTCTag::Null => None,
            IPTCTag::ModelVersion => Some((1, 0)),
            IPTCTag::DateSent => Some((1, 5)),
            IPTCTag::TimeSent => Some((1, 80)),
            IPTCTag::CodedCharacterSet => Some((1, 90)),
            IPTCTag::RecordVersion => Some((2, 0)),
            IPTCTag::ObjectTypeReference => Some((2, 3)),
            IPTCTag::ObjectAttributeReference => Some((2, 4)),
            IPTCTag::ObjectName => Some((2, 5)),
            IPTCTag::EditStatus => Some((2, 7)),
            IPTCTag::EditorialUpdate => Some((2, 8)),
            IPTCTag::Urgency => Some((2, 10)),
            IPTCTag::SubjectReference => Some((2, 12)),
            IPTCTag::Category => Some((2, 15)),
            IPTCTag::SupplementalCategories => Some((2, 20)),
            IPTCTag::FixtureId => Some((2, 22)),
            IPTCTag::Keywords => Some((2, 25)),
            IPTCTag::ContentLocationCode => Some((2, 26)),
            IPTCTag::ContentLocationName => Some((2, 27)),
            IPTCTag::ReleaseDate => Some((2, 30)),
            IPTCTag::ReleaseTime => Some((2, 35)),
            IPTCTag::ExpirationDate => Some((2, 37)),
            IPTCTag::ExpirationTime => Some((2, 38)),
            IPTCTag::SpecialInstructions => Some((2, 40)),
            IPTCTag::ActionAdvised => Some((2, 42)),
            IPTCTag::ReferenceService => Some((2, 45)),
            IPTCTag::ReferenceDate => Some((2, 47)),
            IPTCTag::ReferenceNumber => Some((2, 50)),
            IPTCTag::DateCreated => Some((2, 55)),
            IPTCTag::TimeCreated => Some((2, 60)),
            IPTCTag::DigitalDateCreated => Some((2, 62)),
            IPTCTag::DigitalTimeCreated => Some((2, 63)),
            IPTCTag::OriginatingProgram => Some((2, 65)),
            IPTCTag::ProgramVersion => Some((2, 70)),
            IPTCTag::ObjectCycle => Some((2, 75)),
            IPTCTag::ByLine => Some((2, 80)),
            IPTCTag::ByLineTitle => Some((2, 85)),
            IPTCTag::City => Some((2, 90)),
            IPTCTag::SubLocation => Some((2, 92)),
            IPTCTag::ProvinceOrState => Some((2, 95)),
            IPTCTag::CountryOrPrimaryLocationCode => Some((2, 100)),
            IPTCTag::CountryOrPrimaryLocationName => Some((2, 101)),
            IPTCTag::OriginalTransmissionReference => Some((2, 103)),
            IPTCTag::Headline => Some((2, 105)),
            IPTCTag::Credit => Some((2, 110)),
            IPTCTag::Source => Some((2, 115)),
            IPTCTag::CopyrightNotice => Some((2, 116)),
            IPTCTag::Contact => Some((2, 118)),
            IPTCTag::Caption => Some((2, 120)),
            IPTCTag::LocalCaption => Some((2, 121)),
            IPTCTag::CaptionWriter => Some((2, 122)),
            IPTCTag::RasterizedCaption => Some((2, 125)),
            IPTCTag::ImageType => Some((2, 130)),
            IPTCTag::ImageOrientation => Some((2, 131)),
            IPTCTag::LanguageIdentifier => Some((2, 135)),
            IPTCTag::AudioType => Some((2, 150)),
            IPTCTag::AudioSamplingRate => Some((2, 151)),
            IPTCTag::AudioSamplingResolution => Some((2, 152)),
            IPTCTag::AudioDuration => Some((2, 153)),
            IPTCTag::AudioOutcue => Some((2, 154)),
            IPTCTag::JobId => Some((2, 184)),
            IPTCTag::MasterDocumentId => Some((2, 185)),
            IPTCTag::ShortDocumentId => Some((2, 186)),
            IPTCTag::UniqueDocumentId => Some((2, 187)),
            IPTCTag::OwnerId => Some((2, 188)),
            IPTCTag::ObjectPreviewFileFormat => Some((2, 200)),
            IPTCTag::ObjectPreviewFileFormatVersion => Some((2, 201)),
            IPTCTag::ObjectPreviewData => Some((2, 202)),
            IPTCTag::SizeMode => Some((7, 10)),
        }
    }
}

} // verus!
