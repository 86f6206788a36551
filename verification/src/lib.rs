//! Reading and writing of IPTC IIM metadata embedded in JPEG images.
//!
//! The metadata lives in a Photoshop resource container inside a JPEG
//! APP13 application segment.  The library decodes that nested binary
//! structure into a tag-to-values store, lets the caller edit the store,
//! and re-encodes it into a fresh APP13 segment spliced into the image,
//! leaving every other segment untouched.

use vstd::prelude::*;

pub mod jpeg;
pub mod laws;
pub mod reader;
pub mod roundtrip;
pub mod store;
pub mod tags;
pub mod tiff;

pub use jpeg::parse_u16_decimal;
pub use jpeg::JPEGReader;
pub use tiff::read_xmp_data;
pub use tiff::read_xmp_tag;
pub use tiff::TIFFReader;
pub use tiff::XmpEvent;

pub use reader::default_parse;
pub use reader::extract_blocks;
pub use reader::extract_iptc_fields_from_block;
pub use reader::parse_short;
pub use reader::read_iptc_data;
pub use reader::u16_to_decimal;
pub use reader::Block;
pub use reader::Field;
pub use reader::ReadUtils;
pub use store::eq_ignore_case;
pub use store::chars_ieq;
pub use store::has_ieq;
pub use store::lemma_store_merge_frame;
pub use store::lemma_store_values_at;
pub use store::lemma_store_merge_values;
pub use store::merge_value;
pub use store::store_has;
pub use store::store_merge;
pub use store::store_values;
pub use tags::spec_repeatable;
pub use tags::IPTCTag;
pub use tags::TagInfo;
pub use tags::TagsMap;
pub use tags::ValueKind;

verus! {

/// The fatal failures of a read or write call.  Everything below this
/// level — a malformed field, an unknown resource id, a stray byte —
/// is absorbed silently so that metadata written by non-conformant
/// tools still decodes.
#[derive(Debug, Clone, Copy, PartialEq, Eq, Structural)]
pub enum FormatError {
    /// The buffer does not open with the JPEG start-of-image marker.
    NotJpeg,
    /// A segment boundary holds no marker byte where one is demanded.
    BadMarker,
    /// The buffer ends inside a segment header that had to be read.
    Truncated,
    /// The Photoshop container signature is absent from the segment.
    MissingSignature,
    /// The encoded metadata does not fit one application segment.
    TooLarge,
    /// The container's embedded metadata could not be decoded.
    Malformed,
}

/// A buffer opens with the JPEG magic bytes the format sniffer looks
/// for.
pub open spec fn spec_jpeg_magic(b: Seq<u8>) -> bool {
    b.len() >= 3 && b[0] == 0xff && b[1] == 0xd8 && b[2] == 0xff
}

/// A buffer opens with one of the two TIFF byte-order signatures.
pub open spec fn spec_tiff_magic(b: Seq<u8>) -> bool {
    b.len() >= 4 && ((b[0] == 0x4d && b[1] == 0x4d && b[2] == 0x00 && b[3] == 0x2a) || (b[0] == 0x49
        && b[1] == 0x49 && b[2] == 0x2a && b[3] == 0x00))
}

/// The container formats the library routes on.
#[derive(Debug, Clone, Copy, PartialEq, Eq, Structural)]
pub enum SniffedFormat {
    Jpeg,
    Tiff,
    Other,
}

/// Relies on `image::guess_format`: its magic-byte table recognises a
/// JPEG exactly by the prefix 0xFF 0xD8 0xFF and a TIFF exactly by one
/// of the two byte-order signatures, and maps no other prefix to
/// either format.
#[verifier::external_body]
fn sniff_format(buffer: &[u8]) -> (r: SniffedFormat)
    ensures
        r == SniffedFormat::Jpeg <==> spec_jpeg_magic(buffer@),
        r == SniffedFormat::Tiff <==> spec_tiff_magic(buffer@),
{
    match image::guess_format(buffer) {
        Ok(image::ImageFormat::Jpeg) => SniffedFormat::Jpeg,
        Ok(image::ImageFormat::Tiff) => SniffedFormat::Tiff,
        _ => SniffedFormat::Other,
    }
}

/// The separator between the values of a repeatable tag in the joined
/// display form.
pub open spec fn value_separator() -> Seq<char> {
    seq![',', ' ']
}

/// The display form of a tag's values: the values in order, joined by
/// a comma and a space.
pub open spec fn join_values(vals: Seq<Seq<char>>) -> Seq<char>
    decreases vals.len(),
{
    if vals.len() == 0 {
        Seq::empty()
    } else if vals.len() == 1 {
        vals[0]
    } else {
        vals[0] + value_separator() + join_values(vals.drop_first())
    }
}

/// Appending one more value extends the joined form by a separator and
/// that value.
proof fn lemma_join_values_push(vals: Seq<Seq<char>>, v: Seq<char>)
    ensures
        vals.len() == 0 ==> join_values(vals.push(v)) == v,
        vals.len() > 0 ==> join_values(vals.push(v)) == join_values(vals) + value_separator() + v,
    decreases vals.len(),
{
    if vals.len() == 0 {
        assert(join_values(vals.push(v)) == vals.push(v)[0]);
        assert(vals.push(v)[0] == v);
    } else if vals.len() == 1 {
        assert(vals.push(v).drop_first() =~= seq![v]);
        assert(vals.push(v)[0] == vals[0]);
        assert(join_values(seq![v]) == v);
        assert(join_values(vals.push(v)) == vals[0] + value_separator() + v);
    } else {
        assert(vals.push(v).drop_first() =~= vals.drop_first().push(v));
        lemma_join_values_push(vals.drop_first(), v);
        assert(vals[0] + value_separator() + (join_values(vals.drop_first()) + value_separator()
            + v) =~= (vals[0] + value_separator() + join_values(vals.drop_first()))
            + value_separator() + v);
    }
}

/// A metadata store: the caller-visible mapping from tags to their
/// values, in insertion order.  Decoding fills it, the tag-set
/// operation edits it, and the encoder consumes it.
pub struct IPTC {
    pub data: Vec<(IPTCTag, Vec<String>)>,
}

impl Default for IPTC {
    /// The empty store.
    fn default() -> (d: IPTC)
        ensures
            d.data.deep_view() =~= Seq::<(IPTCTag, Seq<Seq<char>>)>::empty(),
    {
        IPTC { data: Vec::new() }
    }
}

impl IPTC {
    /// Creates an empty metadata store.
    pub fn new() -> (d: IPTC)
        ensures
            d.data.deep_view() =~= Seq::<(IPTCTag, Seq<Seq<char>>)>::empty(),
    {
        IPTC { data: Vec::new() }
    }

    /// All tags with their values, in insertion order.
    pub fn get_all(&self) -> (r: &Vec<(IPTCTag, Vec<String>)>)
        ensures
            r == &self.data,
    {
        &self.data
    }

    /// The display form of a tag's values: the values joined by a comma
    /// and a space; the empty string when the tag is absent.
    pub fn get(&self, tag: IPTCTag) -> (r: String)
        ensures
            r@ == join_values(store_values(self.data.deep_view(), tag)),
    {
        let ghost m = self.data.deep_view();
        let mut i: usize = 0;
        loop
            invariant
                0 <= i <= self.data.len(),
                m == self.data.deep_view(),
                forall|j: int| 0 <= j < i ==> m[j].0 != tag,
            ensures
                0 <= i <= self.data.len(),
                forall|j: int| 0 <= j < i ==> m[j].0 != tag,
                i < self.data.len() ==> m[i as int].0 == tag,
                i == self.data.len() ==> !store_has(m, tag),
            decreases self.data.len() - i,
        {
            if i == self.data.len() {
                break ;
            }
            if self.data[i].0 == tag {
                break ;
            }
            i += 1;
        }
        proof {
            lemma_store_values_at(m, tag, i as int);
        }
        if i == self.data.len() {
            return String::new();
        }
        let vals = &self.data[i].1;
        let ghost vv = vals.deep_view();
        let mut out = String::new();
        proof {
            reveal_strlit(", ");
            assert(", "@ =~= value_separator());
        }
        let mut j: usize = 0;
        while j < vals.len()
            invariant
                0 <= j <= vals.len(),
                vv == vals.deep_view(),
                ", "@ == value_separator(),
                out@ == join_values(vv.take(j as int)),
            decreases vals.len() - j,
        {
            proof {
                assert(vv.take(j as int).push(vv[j as int]) =~= vv.take(j + 1));
                lemma_join_values_push(vv.take(j as int), vv[j as int]);
            }
            if j > 0 {
                out.append(", ");
            }
            out.append(vals[j].as_str());
            j += 1;
        }
        proof {
            assert(vv.take(vals.len() as int) =~= vv);
        }
        out
    }

    /// Decodes the metadata out of an image buffer: a JPEG is walked
    /// to its APP13 segment, a TIFF is read best-effort through its
    /// embedded XMP packet, and any other buffer yields the empty
    /// store.
    pub fn read_from_buffer(image_buffer: &Vec<u8>) -> (r: Result<IPTC, FormatError>)
        ensures
            spec_jpeg_magic(image_buffer@) ==> (match r {
                Ok(v) => jpeg::spec_read_iptc(image_buffer@) == Ok::<_, FormatError>(
                    v.data.deep_view(),
                ),
                Err(e) => jpeg::spec_read_iptc(image_buffer@) == Err::<
                    Seq<(IPTCTag, Seq<Seq<char>>)>,
                    _,
                >(e),
            }),
            spec_tiff_magic(image_buffer@) ==> (match r {
                Ok(v) => tiff::spec_tiff_read(image_buffer@) == Ok::<_, FormatError>(
                    v.data.deep_view(),
                ),
                Err(e) => tiff::spec_tiff_read(image_buffer@) == Err::<
                    Seq<(IPTCTag, Seq<Seq<char>>)>,
                    _,
                >(e),
            }),
            !spec_jpeg_magic(image_buffer@) && !spec_tiff_magic(image_buffer@) ==> (r matches Ok(v)
                && v.data.deep_view() == Seq::<(IPTCTag, Seq<Seq<char>>)>::empty()),
    {
        match sniff_format(image_buffer.as_slice()) {
            SniffedFormat::Jpeg => match JPEGReader::read_iptc(image_buffer) {
                Ok(data) => Ok(IPTC { data }),
                Err(e) => Err(e),
            },
            SniffedFormat::Tiff => match TIFFReader::read_iptc(image_buffer) {
                Ok(data) => Ok(IPTC { data }),
                Err(e) => Err(e),
            },
            SniffedFormat::Other => {
                let data: Vec<(IPTCTag, Vec<String>)> = Vec::new();
                assert(data.deep_view() =~= Seq::<(IPTCTag, Seq<Seq<char>>)>::empty());
                Ok(IPTC { data })
            },
        }
    }

    /// Produces a new image buffer with this store spliced in as the
    /// single APP13 segment.  Only JPEG buffers are supported; any
    /// other buffer is rejected.
    pub fn write_to_buffer(&self, image_buffer: &Vec<u8>) -> (r: Result<Vec<u8>, FormatError>)
        ensures
            spec_jpeg_magic(image_buffer@) ==> (match r {
                Ok(v) => jpeg::spec_write_iptc(image_buffer@, self.data.deep_view()) == Ok::<
                    _,
                    FormatError,
                >(v@),
                Err(e) => jpeg::spec_write_iptc(image_buffer@, self.data.deep_view()) == Err::<
                    Seq<u8>,
                    _,
                >(e),
            }),
            !spec_jpeg_magic(image_buffer@) ==> r == Err::<Vec<u8>, _>(FormatError::NotJpeg),
    {
        match sniff_format(image_buffer.as_slice()) {
            SniffedFormat::Jpeg => JPEGReader::write_iptc(image_buffer, &self.data),
            _ => Err(FormatError::NotJpeg),
        }
    }

    /// Sets a tag's value: an idempotent add for a repeatable tag
    /// (skipped when the value is already present under ASCII case
    /// folding), an overwrite for a non-repeatable one.
    pub fn set_tag(&mut self, tag: IPTCTag, value: &str)
        ensures
            final(self).data.deep_view() == store_merge(
                old(self).data.deep_view(),
                tag,
                spec_repeatable(tag),
                value@,
            ),
    {
        let map = TagsMap::new();
        let repeatable = match map.get_record_dataset(tag) {
            Some((record, dataset)) => match map.get(record, dataset) {
                Some(info) => info.repeatable,
                None => false,
            },
            None => false,
        };
        merge_value(&mut self.data, tag, repeatable, String::from_str(value));
    }
}

} // verus!
