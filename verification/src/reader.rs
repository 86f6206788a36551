//! Big-endian byte extraction and the decoder for the Photoshop
//! resource container holding the IPTC IIM field stream.
//!
//! The decoder receives the byte region of one APP13 segment.  It
//! verifies the `Photoshop 3.0` signature, walks the nested `8BIM`
//! resource blocks (resynchronising byte by byte where the signature is
//! not found), keeps the block holding IIM data, scans its tagged-field
//! stream, and resolves each field through the tag dictionary into the
//! metadata store, applying the repeatable-field merge rules.
//!
//! Every byte of a resource block's header is read at a declared
//! offset: the 4-byte signature, a 2-byte resource id, a Pascal-string
//! name (its length byte plus the name padded to an even total), and a
//! 4-byte big-endian size for the value bytes that follow.  This
//! library reads and writes the 4-byte size width throughout.

use vstd::math::min;
use vstd::prelude::*;
use vstd::slice::slice_to_vec;
use vstd::utf8::decode_utf8;
use vstd::utf8::valid_utf8;

use crate::store::merge_value;
use crate::store::store_merge;
use crate::tags::spec_lookup;
use crate::tags::IPTCTag;
use crate::tags::TagsMap;
use crate::tags::ValueKind;
use crate::FormatError;

verus! {

/// The numeric value of two bytes read as a big-endian unsigned 16-bit
/// integer.
pub open spec fn u16_be(hi: u8, lo: u8) -> int {
    (hi as int) * 256 + (lo as int)
}

/// The numeric value of two bytes read as a big-endian signed 16-bit
/// integer (two's complement).
pub open spec fn i16_be(hi: u8, lo: u8) -> int {
    if u16_be(hi, lo) >= 32768 {
        u16_be(hi, lo) - 65536
    } else {
        u16_be(hi, lo)
    }
}

/// The numeric value of four bytes read as a big-endian unsigned
/// 32-bit integer.
pub open spec fn u32_be(b0: u8, b1: u8, b2: u8, b3: u8) -> int {
    ((b0 as int) * 16777216) + ((b1 as int) * 65536) + ((b2 as int) * 256) + (b3 as int)
}

/// Big-endian integer extraction from a byte buffer at an arbitrary
/// offset.  Callers are responsible for bounds-checking first.
pub trait ReadUtils {
    spec fn byte_view(&self) -> Seq<u8>;

    fn read_u16be(&self, offset: usize) -> (r: u16)
        requires
            offset + 1 < self.byte_view().len(),
        ensures
            r == u16_be(self.byte_view()[offset as int], self.byte_view()[offset + 1]),
    ;

    fn read_i16be(&self, offset: usize) -> (r: i16)
        requires
            offset + 1 < self.byte_view().len(),
        ensures
            r == i16_be(self.byte_view()[offset as int], self.byte_view()[offset + 1]),
    ;
}

impl ReadUtils for [u8] {
    open spec fn byte_view(&self) -> Seq<u8> {
        self@
    }

    fn read_u16be(&self, offset: usize) -> (r: u16) {
        (self[offset] as u16) * 256 + (self[offset + 1] as u16)
    }

    fn read_i16be(&self, offset: usize) -> (r: i16) {
        let v: u16 = (self[offset] as u16) * 256 + (self[offset + 1] as u16);
        if v < 32768 {
            v as i16
        } else {
            ((v as i32) - 65536) as i16
        }
    }
}

/// The field delimiter that opens every IIM tagged field.
pub open spec fn spec_field_delimiter() -> u8 {
    0x1c
}

/// The ASCII bytes of the `8BIM` resource-block signature.
pub open spec fn marker_8bim() -> Seq<u8> {
    seq![0x38u8, 0x42u8, 0x49u8, 0x4du8]
}

/// The ASCII bytes of the `Photoshop 3.0` container signature.
pub open spec fn sig13() -> Seq<u8> {
    seq![80u8, 104u8, 111u8, 116u8, 111u8, 115u8, 104u8, 111u8, 112u8, 32u8, 51u8, 46u8, 48u8]
}

/// The resource id under which IIM data is stored.
pub open spec fn iim_resource_id() -> int {
    1028
}

/// One transient decode-time field: record number, dataset number and
/// the raw value bytes.
pub struct Field {
    pub record_number: u8,
    pub dataset_number: u8,
    pub value: Vec<u8>,
}

impl DeepView for Field {
    type V = (u8, u8, Seq<u8>);

    open spec fn deep_view(&self) -> (u8, u8, Seq<u8>) {
        (self.record_number, self.dataset_number, self.value@)
    }
}

/// One transient decode-time resource block: its id and the offset and
/// length of its value bytes within the region.
pub struct Block {
    pub resource_id: i16,
    pub start_of_block: usize,
    pub size_of_block: usize,
}

impl DeepView for Block {
    type V = (int, int, int);

    open spec fn deep_view(&self) -> (int, int, int) {
        (self.resource_id as int, self.start_of_block as int, self.size_of_block as int)
    }
}

/// The tagged fields found by scanning region bytes `i` up to `end`:
/// a field opens with the delimiter byte, carries its record number,
/// dataset number and a 2-byte big-endian value length, and is followed
/// by that many value bytes.  A stray byte advances the scan by one; a
/// field that does not fit before `end` ends the scan.
pub open spec fn spec_scan_fields(g: Seq<u8>, i: int, end: int) -> Seq<(u8, u8, Seq<u8>)>
    decreases end - i,
{
    if i < 0 || i >= end {
        Seq::empty()
    } else if g[i] == spec_field_delimiter() {
        if i + 5 > end {
            Seq::empty()
        } else {
            let len = u16_be(g[i + 3], g[i + 4]);
            if i + 5 + len <= end {
                seq![(g[i + 1], g[i + 2], g.subrange(i + 5, i + 5 + len))] + spec_scan_fields(
                    g,
                    i + 5 + len,
                    end,
                )
            } else {
                Seq::empty()
            }
        }
    } else {
        spec_scan_fields(g, i + 1, end)
    }
}

/// The resource blocks found by scanning the region from byte `i`:
/// at an `8BIM` signature the block header is read (id, Pascal name
/// padded to an even total, 4-byte size) and the scan jumps past the
/// value bytes; anywhere else it advances by one byte; a header that
/// does not fit ends the scan.
pub open spec fn spec_scan_blocks(g: Seq<u8>, i: int) -> Seq<(int, int, int)>
    decreases g.len() - i,
{
    if i < 0 || i + 4 > g.len() {
        Seq::empty()
    } else if g.subrange(i, i + 4) == marker_8bim() {
        if i + 7 > g.len() {
            Seq::empty()
        } else {
            let n = g[i + 6] as int;
            let pad: int = if (1 + n) % 2 == 1 {
                1
            } else {
                0
            };
            let szoff = i + 7 + n + pad;
            if szoff + 4 > g.len() {
                Seq::empty()
            } else {
                let size = u32_be(g[szoff], g[szoff + 1], g[szoff + 2], g[szoff + 3]);
                let vstart = szoff + 4;
                let id = i16_be(g[i + 4], g[i + 5]);
                seq![(id, vstart, size)] + spec_scan_blocks(g, min(vstart + size, g.len() as int))
            }
        }
    } else {
        spec_scan_blocks(g, i + 1)
    }
}

/// A byte stripped from the ends of a text payload: the ASCII control
/// range, NUL included, and DEL.
pub open spec fn is_trim_byte(b: u8) -> bool {
    b < 0x20 || b == 0x7f
}

/// The payload with leading trim bytes removed.
pub open spec fn trim_start_spec(s: Seq<u8>) -> Seq<u8>
    decreases s.len(),
{
    if s.len() == 0 {
        s
    } else if is_trim_byte(s[0]) {
        trim_start_spec(s.drop_first())
    } else {
        s
    }
}

/// The payload with trailing trim bytes removed.
pub open spec fn trim_end_spec(s: Seq<u8>) -> Seq<u8>
    decreases s.len(),
{
    if s.len() == 0 {
        s
    } else if is_trim_byte(s.last()) {
        trim_end_spec(s.drop_last())
    } else {
        s
    }
}

/// The payload with leading and trailing control and NUL bytes
/// removed, as legacy producers routinely pad values with them.
pub open spec fn trim_spec(s: Seq<u8>) -> Seq<u8> {
    trim_end_spec(trim_start_spec(s))
}

/// The character standing for one decimal digit.
pub open spec fn digit_char(d: int) -> char {
    ((48 + d) as u8) as char
}

/// The decimal digits of a non-negative number, empty for zero.
pub open spec fn dec_digits(n: int) -> Seq<char>
    decreases n,
{
    if n <= 0 {
        Seq::empty()
    } else {
        dec_digits(n / 10).push(digit_char(n % 10))
    }
}

/// The decimal rendering of a non-negative number.
pub open spec fn u16_dec_chars(n: int) -> Seq<char> {
    if n == 0 {
        seq!['0']
    } else {
        dec_digits(n)
    }
}

/// The display string decoded from one field's raw payload, or `None`
/// for a text payload that is not UTF-8 after trimming.  A 16-bit
/// integer payload of the wrong width renders as zero; its bytes are
/// taken as they are, since the integer encoding may place legitimate
/// control bytes at either end.
pub open spec fn spec_decode_value(kind: ValueKind, raw: Seq<u8>) -> Option<Seq<char>> {
    match kind {
        ValueKind::Text => {
            let t = trim_spec(raw);
            if valid_utf8(t) {
                Some(decode_utf8(t))
            } else {
                None
            }
        },
        ValueKind::Short => if raw.len() == 2 {
            Some(u16_dec_chars(u16_be(raw[0], raw[1])))
        } else {
            Some(seq!['0'])
        },
    }
}

/// One raw field applied to the store: a key outside the dictionary, a
/// payload that fails to decode, and a value empty after trimming are
/// each dropped silently; anything else is merged under the dictionary
/// entry's tag and repeatability.
pub open spec fn spec_apply_field(
    m: Seq<(IPTCTag, Seq<Seq<char>>)>,
    f: (u8, u8, Seq<u8>),
) -> Seq<(IPTCTag, Seq<Seq<char>>)> {
    match spec_lookup(f.0, f.1) {
        None => m,
        Some(info) => match spec_decode_value(info.kind, f.2) {
            None => m,
            Some(v) => if v.len() == 0 {
                m
            } else {
                store_merge(m, info.tag, info.repeatable, v)
            },
        },
    }
}

/// A run of raw fields applied to the store in encounter order.
pub open spec fn spec_resolve_fields(
    m: Seq<(IPTCTag, Seq<Seq<char>>)>,
    fields: Seq<(u8, u8, Seq<u8>)>,
) -> Seq<(IPTCTag, Seq<Seq<char>>)>
    decreases fields.len(),
{
    if fields.len() == 0 {
        m
    } else {
        spec_resolve_fields(spec_apply_field(m, fields[0]), fields.drop_first())
    }
}

/// The scanned resource blocks applied in order: only a block holding
/// IIM data contributes, through the fields scanned within its declared
/// bounds.
pub open spec fn spec_decode_blocks(
    g: Seq<u8>,
    blocks: Seq<(int, int, int)>,
    m: Seq<(IPTCTag, Seq<Seq<char>>)>,
) -> Seq<(IPTCTag, Seq<Seq<char>>)>
    decreases blocks.len(),
{
    if blocks.len() == 0 {
        m
    } else {
        let b = blocks[0];
        let m2 = if b.0 == iim_resource_id() {
            spec_resolve_fields(m, spec_scan_fields(g, b.1, min(g.len() as int, b.1 + b.2)))
        } else {
            m
        };
        spec_decode_blocks(g, blocks.drop_first(), m2)
    }
}

/// The metadata store decoded from one Photoshop resource region: the
/// 13-byte signature is demanded, then the resource blocks after the
/// signature and its padding byte are scanned and applied.
pub open spec fn spec_decode_region(g: Seq<u8>) -> Result<
    Seq<(IPTCTag, Seq<Seq<char>>)>,
    FormatError,
> {
    if g.len() < 13 || g.subrange(0, 13) != sig13() {
        Err(FormatError::MissingSignature)
    } else {
        Ok(spec_decode_blocks(g, spec_scan_blocks(g, 14), Seq::empty()))
    }
}

/// The byte of the container signature at one position.
pub fn sig13_byte(k: usize) -> (b: u8)
    requires
        k < 13,
    ensures
        b == sig13()[k as int],
{
    match k {
        0 => 80,
        1 => 104,
        2 => 111,
        3 => 116,
        4 => 111,
        5 => 115,
        6 => 104,
        7 => 111,
        8 => 112,
        9 => 32,
        10 => 51,
        11 => 46,
        _ => 48,
    }
}

/// Scans one resource block's bounds for tagged fields, skipping
/// stray bytes, and collects each field that fits.
pub fn extract_iptc_fields_from_block(buffer: &[u8], start: usize, length: usize) -> (r: Vec<
    Field,
>)
    ensures
        r.deep_view() == spec_scan_fields(
            buffer@,
            start as int,
            min(buffer@.len() as int, start + length),
        ),
{
    let ghost g = buffer@;
    let end: usize = if start >= buffer.len() {
        buffer.len()
    } else if length >= buffer.len() - start {
        buffer.len()
    } else {
        start + length
    };
    assert(end == min(g.len() as int, start + length));
    let mut data: Vec<Field> = Vec::new();
    let mut i: usize = start;
    loop
        invariant
            g == buffer@,
            end <= g.len(),
            end == min(g.len() as int, start + length),
            spec_scan_fields(g, start as int, end as int) == data.deep_view() + spec_scan_fields(
                g,
                i as int,
                end as int,
            ),
        ensures
            data.deep_view() == spec_scan_fields(g, start as int, end as int),
        decreases end - i,
    {
        if i >= end {
            assert(spec_scan_fields(g, i as int, end as int) =~= Seq::empty());
            assert(data.deep_view() + spec_scan_fields(g, i as int, end as int)
                =~= data.deep_view());
            break ;
        }
        if buffer[i] == 0x1c {
            if end - i < 5 {
                assert(spec_scan_fields(g, i as int, end as int) =~= Seq::empty());
                assert(data.deep_view() + spec_scan_fields(g, i as int, end as int)
                    =~= data.deep_view());
                break ;
            }
            let value_length = buffer.read_u16be(i + 3) as usize;
            let record_number = buffer[i + 1];
            let dataset_number = buffer[i + 2];
            if value_length <= end - (i + 5) {
                let raw = slice_to_vec(&buffer[i + 5..i + 5 + value_length]);
                let f = Field { record_number, dataset_number, value: raw };
                proof {
                    assert(f.deep_view() == (g[i as int + 1], g[i as int + 2], g.subrange(
                        i as int + 5,
                        i as int + 5 + value_length,
                    )));
                    assert(spec_scan_fields(g, i as int, end as int) =~= seq![f.deep_view()]
                        + spec_scan_fields(g, i as int + 5 + value_length, end as int));
                }
                let ghost old_data = data.deep_view();
                data.push(f);
                proof {
                    assert(data.deep_view() =~= old_data.push(f.deep_view()));
                    assert(old_data.push(f.deep_view()) + spec_scan_fields(
                        g,
                        i as int + 5 + value_length,
                        end as int,
                    ) =~= old_data + (seq![f.deep_view()] + spec_scan_fields(
                        g,
                        i as int + 5 + value_length,
                        end as int,
                    )));
                }
                i = i + 5 + value_length;
            } else {
                assert(spec_scan_fields(g, i as int, end as int) =~= Seq::empty());
                assert(data.deep_view() + spec_scan_fields(g, i as int, end as int)
                    =~= data.deep_view());
                break ;
            }
        } else {
            i += 1;
        }
    }
    data
}

/// Scans the region from `start` for `8BIM` resource blocks,
/// resynchronising byte by byte between blocks, and records each
/// block's id and value bounds.
pub fn extract_blocks(buffer: &[u8], start: usize) -> (r: Vec<Block>)
    ensures
        r.deep_view() == spec_scan_blocks(buffer@, start as int),
{
    let ghost g = buffer@;
    let mut blocks: Vec<Block> = Vec::new();
    let mut i: usize = start;
    loop
        invariant
            g == buffer@,
            spec_scan_blocks(g, start as int) == blocks.deep_view() + spec_scan_blocks(
                g,
                i as int,
            ),
        ensures
            blocks.deep_view() == spec_scan_blocks(g, start as int),
        decreases g.len() + 1 - i,
    {
        if i >= buffer.len() || buffer.len() - i < 4 {
            assert(spec_scan_blocks(g, i as int) =~= Seq::empty());
            assert(blocks.deep_view() + spec_scan_blocks(g, i as int) =~= blocks.deep_view());
            break ;
        }
        let is_sig = buffer[i] == 0x38 && buffer[i + 1] == 0x42 && buffer[i + 2] == 0x49 && buffer[i
            + 3] == 0x4d;
        proof {
            assert(g.subrange(i as int, i as int + 4) =~= seq![
                g[i as int],
                g[i as int + 1],
                g[i as int + 2],
                g[i as int + 3],
            ]);
            if is_sig {
                assert(g.subrange(i as int, i as int + 4) =~= marker_8bim());
            } else {
                assert(g.subrange(i as int, i as int + 4) != marker_8bim());
            }
        }
        if is_sig {
            if buffer.len() - i < 7 {
                assert(spec_scan_blocks(g, i as int) =~= Seq::empty());
                assert(blocks.deep_view() + spec_scan_blocks(g, i as int) =~= blocks.deep_view());
                break ;
            }
            let resource_id = buffer.read_i16be(i + 4);
            let name_length = buffer[i + 6] as usize;
            let pad: usize = if (1 + name_length) % 2 == 1 {
                1
            } else {
                0
            };
            if buffer.len() - (i + 7) < name_length + pad + 4 {
                assert(spec_scan_blocks(g, i as int) =~= Seq::empty());
                assert(blocks.deep_view() + spec_scan_blocks(g, i as int) =~= blocks.deep_view());
                break ;
            }
            let szoff = i + 7 + name_length + pad;
            let b0 = buffer[szoff];
            let b1 = buffer[szoff + 1];
            let b2 = buffer[szoff + 2];
            let b3 = buffer[szoff + 3];
            let size: u32 = ((b0 as u32) << 24) | ((b1 as u32) << 16) | ((b2 as u32) << 8) | (
            b3 as u32);
            assert(((b0 as u32) << 24) | ((b1 as u32) << 16) | ((b2 as u32) << 8) | (b3 as u32)
                == ((b0 as u32) * 16777216 + (b1 as u32) * 65536 + (b2 as u32) * 256 + (
            b3 as u32)) as u32) by (bit_vector);
            assert(size == u32_be(b0, b1, b2, b3));
            let vstart = szoff + 4;
            let size_of_block = size as usize;
            let b = Block { resource_id, start_of_block: vstart, size_of_block };
            let ghost old_blocks = blocks.deep_view();
            blocks.push(b);
            proof {
                assert(b.deep_view() == (resource_id as int, vstart as int, size as int));
                assert(spec_scan_blocks(g, i as int) =~= seq![b.deep_view()] + spec_scan_blocks(
                    g,
                    min(vstart + size, g.len() as int),
                ));
                assert(blocks.deep_view() =~= old_blocks.push(b.deep_view()));
                assert(old_blocks.push(b.deep_view()) + spec_scan_blocks(
                    g,
                    min(vstart + size, g.len() as int),
                ) =~= old_blocks + (seq![b.deep_view()] + spec_scan_blocks(
                    g,
                    min(vstart + size, g.len() as int),
                )));
            }
            if size_of_block >= buffer.len() - vstart {
                i = buffer.len();
            } else {
                i = vstart + size_of_block;
            }
        } else {
            i += 1;
        }
    }
    blocks
}

/// Strips leading and trailing control and NUL bytes from a raw text
/// payload.
fn trim_bytes(v: &[u8]) -> (r: Vec<u8>)
    ensures
        r@ == trim_spec(v@),
{
    let mut lo: usize = 0;
    while lo < v.len() && (v[lo] < 0x20 || v[lo] == 0x7f)
        invariant
            0 <= lo <= v@.len(),
            forall|j: int| 0 <= j < lo ==> is_trim_byte(v@[j]),
        decreases v@.len() - lo,
    {
        lo += 1;
    }
    proof {
        lemma_trim_start_at(v@, lo as int);
    }
    if lo == v.len() {
        assert(trim_start_spec(v@) =~= Seq::<u8>::empty());
        assert(trim_spec(v@) =~= Seq::<u8>::empty());
        return Vec::new();
    }
    let mut hi: usize = v.len() - 1;
    while hi > lo && (v[hi] < 0x20 || v[hi] == 0x7f)
        invariant
            lo <= hi < v@.len(),
            !is_trim_byte(v@[lo as int]),
            forall|j: int| hi < j < v@.len() ==> is_trim_byte(v@[j]),
        decreases hi,
    {
        hi -= 1;
    }
    proof {
        assert(trim_start_spec(v@) == v@.subrange(lo as int, v@.len() as int));
        lemma_trim_end_at(v@.subrange(lo as int, v@.len() as int), hi - lo);
        assert(v@.subrange(lo as int, v@.len() as int).subrange(0, hi - lo + 1) =~= v@.subrange(
            lo as int,
            hi as int + 1,
        ));
    }
    slice_to_vec(&v[lo..hi + 1])
}

/// Trimming the front removes exactly the leading run of trim bytes.
proof fn lemma_trim_start_at(s: Seq<u8>, lo: int)
    requires
        0 <= lo <= s.len(),
        forall|j: int| 0 <= j < lo ==> is_trim_byte(s[j]),
        lo < s.len() ==> !is_trim_byte(s[lo]),
    ensures
        trim_start_spec(s) == s.subrange(lo, s.len() as int),
    decreases s.len(),
{
    if s.len() == 0 {
        assert(trim_start_spec(s) =~= s.subrange(lo, s.len() as int));
    } else if is_trim_byte(s[0]) {
        lemma_trim_start_at(s.drop_first(), lo - 1);
        assert(s.drop_first().subrange(lo - 1, s.drop_first().len() as int) =~= s.subrange(
            lo,
            s.len() as int,
        ));
    } else {
        assert(lo == 0);
        assert(s.subrange(0, s.len() as int) =~= s);
    }
}

/// Trimming the back removes exactly the trailing run of trim bytes.
proof fn lemma_trim_end_at(s: Seq<u8>, hi: int)
    requires
        0 <= hi < s.len(),
        !is_trim_byte(s[hi]) || hi == 0,
        forall|j: int| hi < j < s.len() ==> is_trim_byte(s[j]),
    ensures
        !is_trim_byte(s[hi]) ==> trim_end_spec(s) == s.subrange(0, hi + 1),
        is_trim_byte(s[hi]) && hi == 0 ==> trim_end_spec(s) == Seq::<u8>::empty(),
    decreases s.len(),
{
    if s.len() == 0 {
    } else if is_trim_byte(s.last()) {
        if hi == s.len() - 1 {
            assert(hi == 0);
            assert(s.len() == 1);
            assert(trim_end_spec(s) == trim_end_spec(s.drop_last()));
            assert(s.drop_last() =~= Seq::<u8>::empty());
        } else {
            lemma_trim_end_at(s.drop_last(), hi);
            if !is_trim_byte(s[hi]) {
                assert(s.drop_last().subrange(0, hi + 1) =~= s.subrange(0, hi + 1));
            }
        }
    } else {
        assert(hi == s.len() - 1);
        assert(s.subrange(0, hi + 1) =~= s);
    }
}

/// The string a digit renders as.
fn digit_str(d: u8) -> (r: &'static str)
    requires
        d < 10,
    ensures
        r@ == seq![digit_char(d as int)],
{
    proof {
        reveal_strlit("0");
        reveal_strlit("1");
        reveal_strlit("2");
        reveal_strlit("3");
        reveal_strlit("4");
        reveal_strlit("5");
        reveal_strlit("6");
        reveal_strlit("7");
        reveal_strlit("8");
        reveal_strlit("9");
    }
    match d {
        0 => "0",
        1 => "1",
        2 => "2",
        3 => "3",
        4 => "4",
        5 => "5",
        6 => "6",
        7 => "7",
        8 => "8",
        _ => {
            assert(d == 9);
            "9"
        },
    }
}

/// Appends the decimal digits of `n` (nothing for zero).
fn push_decimal(out: &mut String, n: u16)
    ensures
        final(out)@ == old(out)@ + dec_digits(n as int),
    decreases n,
{
    if n == 0 {
        assert(old(out)@ + dec_digits(0) =~= old(out)@);
    } else {
        push_decimal(out, n / 10);
        let d = (n % 10) as u8;
        out.append(digit_str(d));
        proof {
            assert((old(out)@ + dec_digits((n / 10) as int)) + seq![digit_char((n % 10) as int)]
                =~= old(out)@ + dec_digits(n as int));
        }
    }
}

/// The decimal rendering of an unsigned 16-bit value.
pub fn u16_to_decimal(n: u16) -> (r: String)
    ensures
        r@ == u16_dec_chars(n as int),
{
    if n == 0 {
        proof {
            reveal_strlit("0");
            assert("0"@ =~= seq!['0']);
        }
        return String::from_str("0");
    }
    let mut out = String::new();
    push_decimal(&mut out, n);
    proof {
        assert(Seq::<char>::empty() + dec_digits(n as int) =~= dec_digits(n as int));
    }
    out
}

/// Relies on `String::from_utf8`: it succeeds exactly on well-formed
/// UTF-8 input and returns the string holding those bytes.
#[verifier::external_body]
fn string_from_utf8(v: Vec<u8>) -> (r: Option<String>)
    ensures
        r is Some <==> valid_utf8(v@),
        r matches Some(s) ==> s@ == decode_utf8(v@),
{
    String::from_utf8(v).ok()
}

/// Decodes one field's raw payload into its display string by the
/// dictionary's payload kind for its key.
pub fn default_parse(raw: &Vec<u8>) -> (r: Option<String>)
    ensures
        (match spec_decode_value(ValueKind::Text, raw@) {
            Some(v) => r matches Some(s) && s@ == v,
            None => r is None,
        }),
{
    let t = trim_bytes(raw.as_slice());
    string_from_utf8(t)
}

/// Decodes a big-endian 16-bit integer payload into its decimal
/// display string; a payload of the wrong width renders as zero.
pub fn parse_short(raw: &Vec<u8>) -> (r: String)
    ensures
        (match spec_decode_value(ValueKind::Short, raw@) {
            Some(v) => r@ == v,
            None => false,
        }),
{
    if raw.len() == 2 {
        let n: u16 = (raw[0] as u16) * 256 + (raw[1] as u16);
        u16_to_decimal(n)
    } else {
        proof {
            reveal_strlit("0");
            assert("0"@ =~= seq!['0']);
        }
        String::from_str("0")
    }
}

/// Applies one raw field to the store, resolving its key through the
/// dictionary and dropping it silently when the dictionary does not
/// know the key, the payload fails to decode, or the value is empty
/// after trimming.
fn apply_field(data: &mut Vec<(IPTCTag, Vec<String>)>, f: &Field)
    ensures
        final(data).deep_view() == spec_apply_field(old(data).deep_view(), f.deep_view()),
{
    let map = TagsMap::new();
    let info = match map.get(f.record_number, f.dataset_number) {
        Some(info) => info,
        None => {
            return ;
        },
    };
    let parsed: String = match info.kind {
        ValueKind::Text => match default_parse(&f.value) {
            Some(s) => s,
            None => {
                return ;
            },
        },
        ValueKind::Short => parse_short(&f.value),
    };
    if parsed.as_str().unicode_len() == 0 {
        return ;
    }
    merge_value(data, info.tag, info.repeatable, parsed);
}

/// Decodes one Photoshop resource region into a metadata store: the
/// container signature is demanded, then every IIM resource block's
/// fields are resolved and merged in encounter order.  All
/// irregularities below the missing-signature level are absorbed
/// silently.
pub fn read_iptc_data(region: &[u8]) -> (r: Result<Vec<(IPTCTag, Vec<String>)>, FormatError>)
    ensures
        (match r {
            Ok(v) => spec_decode_region(region@) == Ok::<_, FormatError>(v.deep_view()),
            Err(e) => spec_decode_region(region@) == Err::<Seq<(IPTCTag, Seq<Seq<char>>)>, _>(e),
        }),
{
    let ghost g = region@;
    if region.len() < 13 {
        return Err(FormatError::MissingSignature);
    }
    let mut k: usize = 0;
    while k < 13
        invariant
            13 <= g.len(),
            g == region@,
            0 <= k <= 13,
            forall|j: int| 0 <= j < k ==> g[j] == sig13()[j],
        decreases 13 - k,
    {
        if region[k] != sig13_byte(k) {
            assert(g.subrange(0, 13)[k as int] != sig13()[k as int]);
            return Err(FormatError::MissingSignature);
        }
        k += 1;
    }
    proof {
        assert(g.subrange(0, 13) =~= sig13());
    }
    let blocks = extract_blocks(region, 14);
    let ghost bv = blocks.deep_view();
    let mut data: Vec<(IPTCTag, Vec<String>)> = Vec::new();
    assert(data.deep_view() =~= Seq::<(IPTCTag, Seq<Seq<char>>)>::empty());
    assert(bv.skip(0) =~= bv);
    let mut bi: usize = 0;
    while bi < blocks.len()
        invariant
            g == region@,
            bv == blocks.deep_view(),
            0 <= bi <= blocks.len(),
            spec_decode_blocks(g, bv, Seq::empty()) == spec_decode_blocks(
                g,
                bv.skip(bi as int),
                data.deep_view(),
            ),
        decreases blocks.len() - bi,
    {
        let ghost pre = data.deep_view();
        proof {
            assert(bv.skip(bi as int)[0] == bv[bi as int]);
            assert(bv.skip(bi as int).drop_first() =~= bv.skip(bi as int + 1));
        }
        let b = &blocks[bi];
        if b.resource_id == 1028 {
            let fields = extract_iptc_fields_from_block(region, b.start_of_block, b.size_of_block);
            let ghost fv = fields.deep_view();
            assert(fv.skip(0) =~= fv);
            let mut fi: usize = 0;
            while fi < fields.len()
                invariant
                    fv == fields.deep_view(),
                    0 <= fi <= fields.len(),
                    spec_resolve_fields(pre, fv) == spec_resolve_fields(
                        data.deep_view(),
                        fv.skip(fi as int),
                    ),
                decreases fields.len() - fi,
            {
                proof {
                    assert(fv.skip(fi as int)[0] == fv[fi as int]);
                    assert(fv.skip(fi as int).drop_first() =~= fv.skip(fi as int + 1));
                }
                apply_field(&mut data, &fields[fi]);
                fi += 1;
            }
            proof {
                assert(fv.skip(fields.len() as int) =~= Seq::<(u8, u8, Seq<u8>)>::empty());
            }
        }
        bi += 1;
    }
    proof {
        assert(bv.skip(blocks.len() as int) =~= Seq::<(int, int, int)>::empty());
    }
    Ok(data)
}

} // verus!
