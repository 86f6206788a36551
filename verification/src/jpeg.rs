//! The JPEG segment scanner and rewriter.
//!
//! The read path walks the top-level marker segments to the APP13
//! segment holding the Photoshop container and hands its region to the
//! block decoder.  The write path re-encodes the metadata store into a
//! fresh APP13 segment and splices it into a copy of the image: the
//! first existing APP13 segment is replaced (later ones are dropped so
//! that at most one remains), or the fresh segment is inserted before
//! the first segment past the conventional application range, or
//! before start-of-scan; every other segment is copied byte for byte.

use vstd::math::min;
use vstd::prelude::*;
use vstd::utf8::encode_utf8;

use crate::reader::read_iptc_data;
use crate::reader::spec_decode_region;
use crate::reader::u16_be;
use crate::reader::ReadUtils;
use crate::store::lemma_store_values_at;
use crate::store::store_has;
use crate::store::store_values;
use crate::tags::spec_lookup;
use crate::tags::IPTCTag;
use crate::tags::TagsMap;
use crate::tags::ValueKind;
use crate::FormatError;

verus! {

/// The high byte of a 16-bit big-endian length.
pub open spec fn hi_byte(n: int) -> u8 {
    (((n / 256) % 256) as u8)
}

/// The low byte of a 16-bit big-endian length.
pub open spec fn lo_byte(n: int) -> u8 {
    ((n % 256) as u8)
}

/// The four bytes of a 32-bit big-endian length.
pub open spec fn u32_bytes(n: int) -> Seq<u8> {
    seq![
        (((n / 16777216) % 256) as u8),
        (((n / 65536) % 256) as u8),
        (((n / 256) % 256) as u8),
        ((n % 256) as u8),
    ]
}

/// Whether a character is a decimal digit.
pub open spec fn is_digit(c: char) -> bool {
    48 <= (c as u32) && (c as u32) <= 57
}

/// The numeric value of a digit string, most significant first.
pub open spec fn dec_val(v: Seq<char>) -> int
    decreases v.len(),
{
    if v.len() == 0 {
        0
    } else {
        dec_val(v.drop_last()) * 10 + ((v.last() as u32) - 48)
    }
}

/// The unsigned 16-bit number a string parses to: a non-empty run of
/// decimal digits within range parses to its value, anything else to
/// zero.
pub open spec fn spec_parse_u16(v: Seq<char>) -> int {
    if v.len() >= 1 && (forall|i: int| 0 <= i < v.len() ==> is_digit(v[i])) && dec_val(v) <= 65535 {
        dec_val(v)
    } else {
        0
    }
}

/// The raw bytes one value is written as: UTF-8 text as it is, or the
/// value parsed back to an unsigned 16-bit integer and emitted as two
/// big-endian bytes.
pub open spec fn spec_field_payload(kind: ValueKind, v: Seq<char>) -> Seq<u8> {
    match kind {
        ValueKind::Text => encode_utf8(v),
        ValueKind::Short => seq![hi_byte(spec_parse_u16(v)), lo_byte(spec_parse_u16(v))],
    }
}

/// One encoded tagged field: delimiter, record number, dataset number,
/// 2-byte big-endian payload length, payload.
pub open spec fn spec_encode_field(record: u8, dataset: u8, payload: Seq<u8>) -> Seq<u8> {
    seq![0x1cu8, record, dataset, hi_byte(payload.len() as int), lo_byte(payload.len() as int)]
        + payload
}

/// The encoded fields of one (record, dataset) key: one field per held
/// value, in the order the store holds them.
pub open spec fn spec_values_bytes(
    record: u8,
    dataset: u8,
    kind: ValueKind,
    vals: Seq<Seq<char>>,
) -> Seq<u8>
    decreases vals.len(),
{
    if vals.len() == 0 {
        Seq::empty()
    } else {
        spec_encode_field(record, dataset, spec_field_payload(kind, vals[0])) + spec_values_bytes(
            record,
            dataset,
            kind,
            vals.drop_first(),
        )
    }
}

/// The bytes the store contributes under one composite key
/// `record * 256 + dataset`: nothing for a key outside the dictionary
/// or a tag the store does not hold.
pub open spec fn spec_key_bytes(st: Seq<(IPTCTag, Seq<Seq<char>>)>, k: int) -> Seq<u8> {
    match spec_lookup(((k / 256) % 256) as u8, (k % 256) as u8) {
        Some(info) => if store_has(st, info.tag) {
            spec_values_bytes(
                ((k / 256) % 256) as u8,
                (k % 256) as u8,
                info.kind,
                store_values(st, info.tag),
            )
        } else {
            Seq::empty()
        },
        None => Seq::empty(),
    }
}

/// The concatenated fields of every key below `k`, ascending: walking
/// the composite keys in order yields the fields sorted by
/// (record, dataset), values of one tag kept in store order.
pub open spec fn spec_fields_bytes(st: Seq<(IPTCTag, Seq<Seq<char>>)>, k: int) -> Seq<u8>
    decreases k,
{
    if k <= 0 {
        Seq::empty()
    } else {
        spec_fields_bytes(st, k - 1) + spec_key_bytes(st, k - 1)
    }
}

/// The fields of the whole store, sorted ascending by key.
pub open spec fn spec_store_fields(st: Seq<(IPTCTag, Seq<Seq<char>>)>) -> Seq<u8> {
    spec_fields_bytes(st, 65536)
}

/// The serialized Photoshop resource container: the signature and its
/// padding, one `8BIM` block with the IIM resource id, an empty
/// Pascal name padded to an even width, the 4-byte big-endian field
/// length, the encoded fields, and a trailing zero byte where needed
/// to make the total length even.
pub open spec fn spec_photoshop_block(st: Seq<(IPTCTag, Seq<Seq<char>>)>) -> Seq<u8> {
    let fields = spec_store_fields(st);
    let base = crate::reader::sig13() + seq![0u8, 0u8] + crate::reader::marker_8bim() + seq![
        0x04u8,
        0x04u8,
        0x00u8,
        0x00u8,
    ] + u32_bytes(fields.len() as int) + fields;
    if base.len() % 2 == 1 {
        base + seq![0u8]
    } else {
        base
    }
}

/// Whether the encoded container fits one APP13 segment, whose length
/// field counts the container and its own two bytes.
pub open spec fn spec_block_fits(st: Seq<(IPTCTag, Seq<Seq<char>>)>) -> bool {
    spec_photoshop_block(st).len() + 2 <= 65535
}

/// A full APP13 segment: marker, 2-byte big-endian length counting
/// itself, and the container bytes.
pub open spec fn app13_segment(data: Seq<u8>) -> Seq<u8> {
    seq![0xffu8, 0xedu8, hi_byte(data.len() as int + 2), lo_byte(data.len() as int + 2)] + data
}

/// The position and length of the first APP13 segment's region, `None`
/// when the buffer ends first: the scan demands a marker byte at every
/// segment boundary and enough bytes for each header it must read.
pub open spec fn spec_find_app13(b: Seq<u8>, off: int) -> Result<Option<(int, int)>, FormatError>
    decreases b.len() - off,
{
    if off < 0 || off >= b.len() {
        Ok(None)
    } else if b[off] != 0xff {
        Err(FormatError::BadMarker)
    } else if off + 3 >= b.len() {
        Err(FormatError::Truncated)
    } else {
        let m = b[off + 1];
        let len = u16_be(b[off + 2], b[off + 3]);
        if m == 0xed {
            if len >= 2 && off + 2 + len <= b.len() {
                Ok(Some((off + 4, len - 2)))
            } else {
                Err(FormatError::Truncated)
            }
        } else {
            spec_find_app13(b, min(off + 2 + len, b.len() as int))
        }
    }
}

/// The store decoded from a JPEG buffer: the start-of-image marker is
/// demanded, the segments are walked to the first APP13 segment, and
/// its region is decoded; a buffer without APP13 decodes to the empty
/// store.
pub open spec fn spec_read_iptc(b: Seq<u8>) -> Result<
    Seq<(IPTCTag, Seq<Seq<char>>)>,
    FormatError,
> {
    if b.len() < 2 || b[0] != 0xff || b[1] != 0xd8 {
        Err(FormatError::NotJpeg)
    } else {
        match spec_find_app13(b, 2) {
            Err(e) => Err(e),
            Ok(None) => Ok(Seq::empty()),
            Ok(Some((start, len))) => spec_decode_region(b.subrange(start, start + len)),
        }
    }
}

/// The rewritten stream from byte `off` on: segments are copied
/// verbatim, except that a stray byte or a padding `0xFF` is dropped,
/// the first APP13 segment is replaced by `seg` and later ones are
/// dropped, `seg` is inserted before the first segment whose marker
/// lies past the conventional application range or before
/// start-of-scan if no APP13 was seen, and a segment that overruns the
/// buffer is copied verbatim to the end.
pub open spec fn spec_write_scan(b: Seq<u8>, off: int, emitted: bool, seg: Seq<u8>) -> Seq<u8>
    decreases b.len() - off,
{
    if off < 0 || off + 1 >= b.len() {
        Seq::empty()
    } else if b[off] != 0xff {
        spec_write_scan(b, off + 1, emitted, seg)
    } else {
        let m = b[off + 1];
        if m == 0xff {
            spec_write_scan(b, off + 1, emitted, seg)
        } else if m == 0x00 || m == 0x01 || (0xd0 <= m && m <= 0xd7) {
            b.subrange(off, off + 2) + spec_write_scan(b, off + 2, emitted, seg)
        } else if m == 0xd9 {
            b.subrange(off, off + 2)
        } else if m == 0xda {
            (if emitted {
                Seq::empty()
            } else {
                seg
            }) + b.subrange(off, b.len() as int)
        } else if off + 3 >= b.len() {
            b.subrange(off, b.len() as int)
        } else {
            let len = u16_be(b[off + 2], b[off + 3]);
            if len < 2 || off + 2 + len > b.len() {
                b.subrange(off, b.len() as int)
            } else if m == 0xed {
                (if emitted {
                    Seq::empty()
                } else {
                    seg
                }) + spec_write_scan(b, off + 2 + len, true, seg)
            } else if !emitted && m > 0xe1 {
                seg + b.subrange(off, off + 2 + len) + spec_write_scan(b, off + 2 + len, true, seg)
            } else {
                b.subrange(off, off + 2 + len) + spec_write_scan(b, off + 2 + len, emitted, seg)
            }
        }
    }
}

/// The buffer produced by writing a store onto a JPEG image: the
/// start-of-image marker, then the rewritten segment stream with
/// exactly one fresh APP13 segment.
pub open spec fn spec_write_iptc(b: Seq<u8>, st: Seq<(IPTCTag, Seq<Seq<char>>)>) -> Result<
    Seq<u8>,
    FormatError,
> {
    if b.len() < 2 || b[0] != 0xff || b[1] != 0xd8 {
        Err(FormatError::NotJpeg)
    } else if !spec_block_fits(st) {
        Err(FormatError::TooLarge)
    } else {
        Ok(
            seq![0xffu8, 0xd8u8] + spec_write_scan(
                b,
                2,
                false,
                app13_segment(spec_photoshop_block(st)),
            ),
        )
    }
}

/// The unsigned 16-bit number a string parses to, or zero for a string
/// that is empty, holds a non-digit, or overflows the range.
pub fn parse_u16_decimal(s: &str) -> (r: u16)
    ensures
        r == spec_parse_u16(s@),
{
    let n = s.unicode_len();
    if n == 0 {
        return 0;
    }
    let mut acc: u32 = 0;
    let mut overflow: bool = false;
    let mut i: usize = 0;
    while i < n
        invariant
            n == s@.len(),
            0 <= i <= n,
            forall|j: int| 0 <= j < i ==> is_digit(s@[j]),
            !overflow ==> acc == dec_val(s@.take(i as int)) && acc <= 65535,
            overflow ==> dec_val(s@.take(i as int)) > 65535,
        decreases n - i,
    {
        let c = s.get_char(i);
        let u = c as u32;
        if u < 48 || u > 57 {
            assert(!is_digit(s@[i as int]));
            return 0;
        }
        proof {
            assert(s@.take(i as int + 1).drop_last() =~= s@.take(i as int));
            assert(s@.take(i as int + 1).last() == s@[i as int]);
        }
        if !overflow {
            let a2 = acc * 10 + (u - 48);
            if a2 > 65535 {
                overflow = true;
            } else {
                acc = a2;
            }
        } else {
            assert(dec_val(s@.take(i as int + 1)) == dec_val(s@.take(i as int)) * 10 + ((s@[i
                as int] as u32) - 48));
        }
        i += 1;
    }
    proof {
        assert(s@.take(n as int) =~= s@);
    }
    if overflow {
        return 0;
    }
    acc as u16
}

/// The raw payload one value is written as, by the payload kind of its
/// tag's dictionary entry.
fn value_payload(kind: ValueKind, value: &String) -> (r: Vec<u8>)
    ensures
        r@ == spec_field_payload(kind, value@),
{
    match kind {
        ValueKind::Text => value.as_str().as_bytes_vec(),
        ValueKind::Short => {
            let n = parse_u16_decimal(value.as_str());
            let mut v: Vec<u8> = Vec::new();
            v.push((n / 256) as u8);
            v.push((n % 256) as u8);
            assert(v@ =~= spec_field_payload(ValueKind::Short, value@));
            v
        },
    }
}

/// The index of the first entry holding a tag, if any.
fn find_entry(data: &Vec<(IPTCTag, Vec<String>)>, tag: IPTCTag) -> (r: Option<usize>)
    ensures
        (match r {
            Some(i) => i < data.len() && data.deep_view()[i as int].0 == tag && store_values(
                data.deep_view(),
                tag,
            ) == data.deep_view()[i as int].1,
            None => !store_has(data.deep_view(), tag),
        }),
{
    let ghost m = data.deep_view();
    let mut i: usize = 0;
    while i < data.len()
        invariant
            m == data.deep_view(),
            0 <= i <= data.len(),
            forall|j: int| 0 <= j < i ==> m[j].0 != tag,
        decreases data.len() - i,
    {
        if data[i].0 == tag {
            proof {
                lemma_store_values_at(m, tag, i as int);
            }
            return Some(i);
        }
        i += 1;
    }
    proof {
        lemma_store_values_at(m, tag, data.len() as int);
    }
    None
}

/// The segment scanner and rewriter for JPEG images.
pub struct JPEGReader;

impl JPEGReader {
    /// The (record, dataset) key a tag is emitted under.
    pub fn get_record_dataset(tag: IPTCTag) -> (r: Option<(u8, u8)>)
        ensures
            r == crate::tags::spec_record_dataset(tag),
    {
        let tags_map = TagsMap::new();
        tags_map.get_record_dataset(tag)
    }

    /// Serializes the store into Photoshop resource container bytes:
    /// fields sorted ascending by (record, dataset) key — a
    /// normalization that makes re-encoding deterministic — wrapped in
    /// one `8BIM` block and padded to an even length.  Fails only when
    /// the container cannot fit one APP13 segment.
    pub fn convert_iptc_to_binary(data: &Vec<(IPTCTag, Vec<String>)>) -> (r: Result<
        Vec<u8>,
        FormatError,
    >)
        ensures
            (match r {
                Ok(v) => spec_block_fits(data.deep_view()) && v@ == spec_photoshop_block(
                    data.deep_view(),
                ),
                Err(e) => !spec_block_fits(data.deep_view()) && e == FormatError::TooLarge,
            }),
    {
        let ghost st = data.deep_view();
        let map = TagsMap::new();
        let mut fields: Vec<u8> = Vec::new();
        assert(fields@ =~= spec_fields_bytes(st, 0));
        let mut k: u32 = 0;
        while k < 65536
            invariant
                st == data.deep_view(),
                0 <= k <= 65536,
                fields@ == spec_fields_bytes(st, k as int),
            decreases 65536 - k,
        {
            let record = (k / 256) as u8;
            let dataset = (k % 256) as u8;
            match map.get(record, dataset) {
                None => {
                    assert(spec_key_bytes(st, k as int) =~= Seq::<u8>::empty());
                    assert(fields@ + spec_key_bytes(st, k as int) =~= fields@);
                },
                Some(info) => {
                    match find_entry(data, info.tag) {
                        None => {
                            assert(spec_key_bytes(st, k as int) =~= Seq::<u8>::empty());
                            assert(fields@ + spec_key_bytes(st, k as int) =~= fields@);
                        },
                        Some(ei) => {
                            let vals = &data[ei].1;
                            let ghost vv = vals.deep_view();
                            proof {
                                assert(vv == st[ei as int].1);
                                assert(vv.skip(0) =~= vv);
                            }
                            let ghost fields0 = fields@;
                            let mut vi: usize = 0;
                            while vi < vals.len()
                                invariant
                                    vv == vals.deep_view(),
                                    0 <= vi <= vals.len(),
                                    fields0 + spec_values_bytes(record, dataset, info.kind, vv)
                                        == fields@ + spec_values_bytes(
                                        record,
                                        dataset,
                                        info.kind,
                                        vv.skip(vi as int),
                                    ),
                                decreases vals.len() - vi,
                            {
                                let payload = value_payload(info.kind, &vals[vi]);
                                proof {
                                    assert(vv.skip(vi as int)[0] == vv[vi as int]);
                                    assert(vv.skip(vi as int).drop_first() =~= vv.skip(
                                        vi as int + 1,
                                    ));
                                }
                                let ghost pre = fields@;
                                push_field_any(&mut fields, record, dataset, &payload);
                                proof {
                                    assert(pre + (spec_encode_field(record, dataset, payload@)
                                        + spec_values_bytes(
                                        record,
                                        dataset,
                                        info.kind,
                                        vv.skip(vi as int + 1),
                                    )) =~= (pre + spec_encode_field(record, dataset, payload@))
                                        + spec_values_bytes(
                                        record,
                                        dataset,
                                        info.kind,
                                        vv.skip(vi as int + 1),
                                    ));
                                }
                                vi += 1;
                            }
                            proof {
                                assert(vv.skip(vals.len() as int) =~= Seq::<Seq<char>>::empty());
                                assert(spec_values_bytes(
                                    record,
                                    dataset,
                                    info.kind,
                                    vv.skip(vals.len() as int),
                                ) =~= Seq::<u8>::empty());
                                assert(fields@ =~= fields0 + spec_values_bytes(
                                    record,
                                    dataset,
                                    info.kind,
                                    vv,
                                ));
                                assert(fields@ =~= fields0 + spec_key_bytes(st, k as int));
                            }
                        },
                    }
                },
            }
            proof {
                assert(spec_fields_bytes(st, k as int + 1) == spec_fields_bytes(st, k as int)
                    + spec_key_bytes(st, k as int));
            }
            k += 1;
        }
        let flen = fields.len();
        if flen > 65505 {
            proof {
                assert(spec_store_fields(st).len() == flen);
                assert(spec_photoshop_block(st).len() >= 27 + flen);
                if (27 + flen) % 2 == 1 {
                    assert(spec_photoshop_block(st).len() == 27 + flen + 1);
                } else {
                    assert(spec_photoshop_block(st).len() == 27 + flen);
                    assert(flen != 65506);
                }
                assert(spec_photoshop_block(st).len() + 2 > 65535);
            }
            return Err(FormatError::TooLarge);
        }
        let mut binary: Vec<u8> = Vec::new();
        let mut s: usize = 0;
        while s < 13
            invariant
                0 <= s <= 13,
                binary@ =~= crate::reader::sig13().take(s as int),
            decreases 13 - s,
        {
            binary.push(crate::reader::sig13_byte(s));
            proof {
                assert(crate::reader::sig13().take(s as int).push(crate::reader::sig13()[s as int])
                    =~= crate::reader::sig13().take(s as int + 1));
            }
            s += 1;
        }
        proof {
            assert(crate::reader::sig13().take(13) =~= crate::reader::sig13());
        }
        binary.push(0x00);
        binary.push(0x00);
        binary.push(0x38);
        binary.push(0x42);
        binary.push(0x49);
        binary.push(0x4d);
        binary.push(0x04);
        binary.push(0x04);
        binary.push(0x00);
        binary.push(0x00);
        binary.push((flen / 16777216) as u8);
        binary.push(((flen / 65536) % 256) as u8);
        binary.push(((flen / 256) % 256) as u8);
        binary.push((flen % 256) as u8);
        let ghost head = binary@;
        proof {
            assert(head =~= crate::reader::sig13() + seq![0u8, 0u8] + crate::reader::marker_8bim()
                + seq![0x04u8, 0x04u8, 0x00u8, 0x00u8] + u32_bytes(flen as int));
        }
        binary.extend_from_slice(fields.as_slice());
        proof {
            assert(binary@ =~= head + spec_store_fields(st));
        }
        if binary.len() % 2 == 1 {
            binary.push(0x00);
            proof {
                assert(binary@ =~= spec_photoshop_block(st));
            }
        } else {
            proof {
                assert(binary@ =~= spec_photoshop_block(st));
            }
        }
        assert(binary@.len() + 2 <= 65535);
        Ok(binary)
    }

    /// Decodes the metadata store out of a JPEG buffer: the segments
    /// are walked to the first APP13 segment and its region is
    /// decoded; a buffer without one yields the empty store.
    pub fn read_iptc(buffer: &Vec<u8>) -> (r: Result<Vec<(IPTCTag, Vec<String>)>, FormatError>)
        ensures
            (match r {
                Ok(v) => spec_read_iptc(buffer@) == Ok::<_, FormatError>(v.deep_view()),
                Err(e) => spec_read_iptc(buffer@) == Err::<Seq<(IPTCTag, Seq<Seq<char>>)>, _>(e),
            }),
    {
        let ghost b = buffer@;
        let buf = buffer.as_slice();
        if buf.len() < 2 || buf[0] != 0xff || buf[1] != 0xd8 {
            return Err(FormatError::NotJpeg);
        }
        let mut offset: usize = 2;
        loop
            invariant
                b == buf@,
                b == buffer@,
                b.len() >= 2,
                b[0] == 0xff,
                b[1] == 0xd8,
                2 <= offset,
                spec_find_app13(b, 2) == spec_find_app13(b, offset as int),
            decreases b.len() - offset,
        {
            if offset >= buf.len() {
                let data: Vec<(IPTCTag, Vec<String>)> = Vec::new();
                assert(data.deep_view() =~= Seq::<(IPTCTag, Seq<Seq<char>>)>::empty());
                return Ok(data);
            }
            if buf[offset] != 0xff {
                return Err(FormatError::BadMarker);
            }
            if buf.len() - offset < 4 {
                return Err(FormatError::Truncated);
            }
            let marker = buf[offset + 1];
            let len = buf.read_u16be(offset + 2) as usize;
            if marker == 0xed {
                if len >= 2 && len <= buf.len() - (offset + 2) {
                    let region = &buf[offset + 4..offset + 2 + len];
                    assert(region@ =~= b.subrange(
                        offset as int + 4,
                        offset as int + 2 + len as int,
                    ));
                    return read_iptc_data(region);
                } else {
                    return Err(FormatError::Truncated);
                }
            }
            if len >= buf.len() - (offset + 2) {
                offset = buf.len();
            } else {
                offset = offset + 2 + len;
            }
        }
    }

    /// Produces a new buffer with the store spliced in as the single
    /// APP13 segment, every other segment copied byte for byte.  Fails
    /// on a buffer that does not open with the start-of-image marker,
    /// or a store whose encoding cannot fit one segment.
    #[verifier::rlimit(100)]
    pub fn write_iptc(buffer: &Vec<u8>, data: &Vec<(IPTCTag, Vec<String>)>) -> (r: Result<
        Vec<u8>,
        FormatError,
    >)
        ensures
            (match r {
                Ok(v) => spec_write_iptc(buffer@, data.deep_view()) == Ok::<_, FormatError>(v@),
                Err(e) => spec_write_iptc(buffer@, data.deep_view()) == Err::<Seq<u8>, _>(e),
            }),
    {
        let ghost b = buffer@;
        let ghost st = data.deep_view();
        let buf = buffer.as_slice();
        if buf.len() < 2 || buf[0] != 0xff || buf[1] != 0xd8 {
            return Err(FormatError::NotJpeg);
        }
        let block = match Self::convert_iptc_to_binary(data) {
            Ok(v) => v,
            Err(e) => {
                return Err(e);
            },
        };
        let ghost seg = app13_segment(block@);
        let mut out: Vec<u8> = Vec::new();
        out.push(0xff);
        out.push(0xd8);
        assert(out@ =~= seq![0xffu8, 0xd8u8]);
        let mut offset: usize = 2;
        let mut emitted: bool = false;
        loop
            invariant_except_break
                out@ + spec_write_scan(b, offset as int, emitted, seg) == seq![0xffu8, 0xd8u8]
                    + spec_write_scan(b, 2, false, seg),
            invariant
                b == buf@,
                st == data.deep_view(),
                b.len() >= 2,
                2 <= offset,
                block@ == spec_photoshop_block(st),
                block@.len() + 2 <= 65535,
                seg == app13_segment(block@),
            ensures
                out@ == seq![0xffu8, 0xd8u8] + spec_write_scan(b, 2, false, seg),
            decreases b.len() - offset,
        {
            if offset >= buf.len() || buf.len() - offset < 2 {
                assert(spec_write_scan(b, offset as int, emitted, seg) =~= Seq::<u8>::empty());
                assert(out@ + spec_write_scan(b, offset as int, emitted, seg) =~= out@);
                assert(out@ == seq![0xffu8, 0xd8u8] + spec_write_scan(b, 2, false, seg));
                break ;
            }
            if buf[offset] != 0xff {
                offset += 1;
                continue ;
            }
            let marker = buf[offset + 1];
            if marker == 0xff {
                offset += 1;
                continue ;
            }
            if marker == 0x00 || marker == 0x01 || (marker >= 0xd0 && marker <= 0xd7) {
                let ghost pre = out@;
                out.push(0xff);
                out.push(marker);
                proof {
                    assert(out@ =~= pre + b.subrange(offset as int, offset as int + 2));
                    assert(pre + (b.subrange(offset as int, offset as int + 2) + spec_write_scan(
                        b,
                        offset as int + 2,
                        emitted,
                        seg,
                    )) =~= out@ + spec_write_scan(b, offset as int + 2, emitted, seg));
                }
                offset += 2;
                continue ;
            }
            if marker == 0xd9 {
                let ghost pre = out@;
                out.push(0xff);
                out.push(marker);
                proof {
                    assert(out@ =~= pre + b.subrange(offset as int, offset as int + 2));
                    assert(spec_write_scan(b, offset as int, emitted, seg) == b.subrange(
                        offset as int,
                        offset as int + 2,
                    ));
                    assert(out@ == seq![0xffu8, 0xd8u8] + spec_write_scan(b, 2, false, seg));
                }
                break ;
            }
            if marker == 0xda {
                let ghost entry = out@;
                if !emitted {
                    push_app13_segment(&mut out, &block);
                }
                let mut rest = slice_to_vec_range(buf, offset, buf.len());
                out.append(&mut rest);
                proof {
                    if !emitted {
                        assert(out@ =~= entry + (seg + b.subrange(offset as int, b.len() as int)));
                    } else {
                        assert(out@ =~= entry + (Seq::<u8>::empty() + b.subrange(
                            offset as int,
                            b.len() as int,
                        )));
                    }
                    assert(out@ == seq![0xffu8, 0xd8u8] + spec_write_scan(b, 2, false, seg));
                }
                break ;
            }
            if buf.len() - offset < 4 {
                let ghost pre = out@;
                let mut rest = slice_to_vec_range(buf, offset, buf.len());
                out.append(&mut rest);
                proof {
                    assert(out@ =~= pre + b.subrange(offset as int, b.len() as int));
                    assert(spec_write_scan(b, offset as int, emitted, seg) == b.subrange(
                        offset as int,
                        b.len() as int,
                    ));
                    assert(out@ == seq![0xffu8, 0xd8u8] + spec_write_scan(b, 2, false, seg));
                }
                break ;
            }
            let len = buf.read_u16be(offset + 2) as usize;
            if len < 2 || len > buf.len() - (offset + 2) {
                let ghost pre = out@;
                let mut rest = slice_to_vec_range(buf, offset, buf.len());
                out.append(&mut rest);
                proof {
                    assert(out@ =~= pre + b.subrange(offset as int, b.len() as int));
                    assert(spec_write_scan(b, offset as int, emitted, seg) == b.subrange(
                        offset as int,
                        b.len() as int,
                    ));
                    assert(out@ == seq![0xffu8, 0xd8u8] + spec_write_scan(b, 2, false, seg));
                }
                break ;
            }
            if marker == 0xed {
                let ghost pre = out@;
                if !emitted {
                    push_app13_segment(&mut out, &block);
                    proof {
                        assert(pre + (seg + spec_write_scan(b, offset as int + 2 + len as int, true,
                            seg)) =~= out@ + spec_write_scan(
                            b,
                            offset as int + 2 + len as int,
                            true,
                            seg,
                        ));
                    }
                } else {
                    proof {
                        assert(Seq::<u8>::empty() + spec_write_scan(b, offset as int + 2
                            + len as int, true, seg) =~= spec_write_scan(
                            b,
                            offset as int + 2 + len as int,
                            true,
                            seg,
                        ));
                    }
                }
                emitted = true;
                offset = offset + 2 + len;
                continue ;
            }
            if !emitted && marker > 0xe1 {
                push_app13_segment(&mut out, &block);
                let ghost pre = out@;
                let mut part = slice_to_vec_range(buf, offset, offset + 2 + len);
                out.append(&mut part);
                proof {
                    assert(out@ =~= pre + b.subrange(offset as int, offset as int + 2 + len as int));
                    assert(spec_write_scan(b, offset as int, false, seg) == seg + b.subrange(
                        offset as int,
                        offset as int + 2 + len as int,
                    ) + spec_write_scan(b, offset as int + 2 + len as int, true, seg));
                }
                emitted = true;
                offset = offset + 2 + len;
                continue ;
            }
            let ghost pre = out@;
            let mut part = slice_to_vec_range(buf, offset, offset + 2 + len);
            out.append(&mut part);
            proof {
                assert(out@ =~= pre + b.subrange(offset as int, offset as int + 2 + len as int));
                assert(pre + (b.subrange(offset as int, offset as int + 2 + len as int)
                    + spec_write_scan(b, offset as int + 2 + len as int, emitted, seg)) =~= out@
                    + spec_write_scan(b, offset as int + 2 + len as int, emitted, seg));
            }
            offset = offset + 2 + len;
        }
        Ok(out)
    }
}

/// Copies one byte range of a slice into a fresh vector.
fn slice_to_vec_range(buf: &[u8], lo: usize, hi: usize) -> (r: Vec<u8>)
    requires
        lo <= hi <= buf@.len(),
    ensures
        r@ == buf@.subrange(lo as int, hi as int),
{
    let s = &buf[lo..hi];
    vstd::slice::slice_to_vec(s)
}

/// Appends the full APP13 segment around the container bytes.
fn push_app13_segment(out: &mut Vec<u8>, block: &Vec<u8>)
    requires
        block@.len() + 2 <= 65535,
    ensures
        final(out)@ == old(out)@ + app13_segment(block@),
{
    out.push(0xff);
    out.push(0xed);
    let total = block.len() + 2;
    out.push((total / 256) as u8);
    out.push((total % 256) as u8);
    out.extend_from_slice(block.as_slice());
    proof {
        assert(out@ =~= old(out)@ + app13_segment(block@));
    }
}

/// Appends one encoded field whatever the payload width; the length
/// bytes wrap as the 16-bit length field does.
fn push_field_any(out: &mut Vec<u8>, record: u8, dataset: u8, payload: &Vec<u8>)
    ensures
        final(out)@ == old(out)@ + spec_encode_field(record, dataset, payload@),
{
    out.push(0x1c);
    out.push(record);
    out.push(dataset);
    out.push(((payload.len() / 256) % 256) as u8);
    out.push((payload.len() % 256) as u8);
    out.extend_from_slice(payload.as_slice());
    proof {
        assert(out@ =~= old(out)@ + spec_encode_field(record, dataset, payload@));
    }
}

} // verus!
