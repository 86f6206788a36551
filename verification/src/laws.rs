//! Library-wide laws: what decoding guarantees about the tags it
//! surfaces, and how encoding and decoding compose.

use vstd::prelude::*;

use crate::jpeg::spec_read_iptc;
use crate::reader::spec_apply_field;
use crate::reader::spec_decode_blocks;
use crate::reader::spec_decode_region;
use crate::reader::spec_resolve_fields;
use crate::store::store_merge;
use crate::tags::lemma_lookup_then_reverse;
use crate::tags::spec_lookup;
use crate::store::store_has;
use crate::store::store_values;
use crate::tags::spec_tag_info;
use crate::tags::IPTCTag;

verus! {

/// Every entry of a store carries a tag the dictionary knows.
pub open spec fn store_tags_known(m: Seq<(IPTCTag, Seq<Seq<char>>)>) -> bool {
    forall|i: int| 0 <= i < m.len() ==> (#[trigger] spec_tag_info(m[i].0)) is Some
}

/// Merging a known tag keeps every tag of the store known.
proof fn lemma_merge_keeps_known(
    m: Seq<(IPTCTag, Seq<Seq<char>>)>,
    tag: IPTCTag,
    repeatable: bool,
    v: Seq<char>,
)
    requires
        store_tags_known(m),
        spec_tag_info(tag) is Some,
    ensures
        store_tags_known(store_merge(m, tag, repeatable, v)),
    decreases m.len(),
{
    let r = store_merge(m, tag, repeatable, v);
    if m.len() == 0 {
        assert(r[0].0 == tag);
    } else if m[0].0 == tag {
        if repeatable {
            if !crate::store::has_ieq(m[0].1, v) {
                assert forall|i: int| 0 <= i < r.len() implies (#[trigger] spec_tag_info(
                    r[i].0,
                )) is Some by {
                    if i == 0 {
                    } else {
                        assert(r[i] == m[i]);
                    }
                }
            }
        } else {
            assert forall|i: int| 0 <= i < r.len() implies (#[trigger] spec_tag_info(
                r[i].0,
            )) is Some by {
                if i == 0 {
                } else {
                    assert(r[i] == m[i]);
                }
            }
        }
    } else {
        assert(store_tags_known(m.drop_first()));
        lemma_merge_keeps_known(m.drop_first(), tag, repeatable, v);
        let rr = store_merge(m.drop_first(), tag, repeatable, v);
        assert forall|i: int| 0 <= i < r.len() implies (#[trigger] spec_tag_info(
            r[i].0,
        )) is Some by {
            if i == 0 {
                assert(r[0] == m[0]);
            } else {
                assert(r[i] == rr[i - 1]);
            }
        }
    }
}

/// Applying one raw field keeps every tag of the store known: a
/// (record, dataset) key absent from the dictionary contributes
/// nothing.
proof fn lemma_apply_field_keeps_known(m: Seq<(IPTCTag, Seq<Seq<char>>)>, f: (u8, u8, Seq<u8>))
    requires
        store_tags_known(m),
    ensures
        store_tags_known(spec_apply_field(m, f)),
{
    match spec_lookup(f.0, f.1) {
        None => {},
        Some(info) => {
            lemma_lookup_then_reverse(f.0, f.1);
            assert(spec_tag_info(info.tag) == spec_lookup(f.0, f.1));
            match crate::reader::spec_decode_value(info.kind, f.2) {
                None => {},
                Some(v) => {
                    if v.len() != 0 {
                        lemma_merge_keeps_known(m, info.tag, info.repeatable, v);
                    }
                },
            }
        },
    }
}

/// Resolving a run of raw fields keeps every tag of the store known.
proof fn lemma_resolve_keeps_known(
    m: Seq<(IPTCTag, Seq<Seq<char>>)>,
    fields: Seq<(u8, u8, Seq<u8>)>,
)
    requires
        store_tags_known(m),
    ensures
        store_tags_known(spec_resolve_fields(m, fields)),
    decreases fields.len(),
{
    if fields.len() == 0 {
    } else {
        lemma_apply_field_keeps_known(m, fields[0]);
        lemma_resolve_keeps_known(spec_apply_field(m, fields[0]), fields.drop_first());
    }
}

/// Decoding resource blocks keeps every tag of the store known.
proof fn lemma_blocks_keep_known(
    g: Seq<u8>,
    blocks: Seq<(int, int, int)>,
    m: Seq<(IPTCTag, Seq<Seq<char>>)>,
)
    requires
        store_tags_known(m),
    ensures
        store_tags_known(spec_decode_blocks(g, blocks, m)),
    decreases blocks.len(),
{
    if blocks.len() == 0 {
    } else {
        let b = blocks[0];
        if b.0 == crate::reader::iim_resource_id() {
            lemma_resolve_keeps_known(
                m,
                crate::reader::spec_scan_fields(
                    g,
                    b.1,
                    vstd::math::min(g.len() as int, b.1 + b.2),
                ),
            );
            lemma_blocks_keep_known(
                g,
                blocks.drop_first(),
                spec_resolve_fields(
                    m,
                    crate::reader::spec_scan_fields(
                        g,
                        b.1,
                        vstd::math::min(g.len() as int, b.1 + b.2),
                    ),
                ),
            );
        } else {
            lemma_blocks_keep_known(g, blocks.drop_first(), m);
        }
    }
}

/// Unknown-tag safety: a (record, dataset) key the dictionary does not
/// know never surfaces in a decoded store — every decoded entry's tag
/// has a dictionary entry, and the `Null` sentinel never appears.
pub proof fn lemma_unknown_tag_safety(b: Seq<u8>)
    ensures
        spec_read_iptc(b) matches Ok(m) ==> store_tags_known(m) && (forall|i: int|
            0 <= i < m.len() ==> m[i].0 != IPTCTag::Null),
{
    if spec_read_iptc(b) is Ok {
        let m = spec_read_iptc(b)->Ok_0;
        if !(b.len() < 2 || b[0] != 0xff || b[1] != 0xd8) {
            match crate::jpeg::spec_find_app13(b, 2) {
                Err(_) => {},
                Ok(None) => {},
                Ok(Some((start, len))) => {
                    let g = b.subrange(start, start + len);
                    if !(g.len() < 13 || g.subrange(0, 13) != crate::reader::sig13()) {
                        assert(store_tags_known(Seq::<(IPTCTag, Seq<Seq<char>>)>::empty()));
                        lemma_blocks_keep_known(
                            g,
                            crate::reader::spec_scan_blocks(g, 14),
                            Seq::empty(),
                        );
                    }
                },
            }
        }
        assert forall|i: int| 0 <= i < m.len() implies m[i].0 != IPTCTag::Null by {
            assert(spec_tag_info(m[i].0) is Some);
        }
    }
}

/// The segment walk ahead of byte `off` reaches a place where the
/// write path emits its APP13 segment: ordinary marker segments with
/// sound length fields, ending at an existing APP13 segment, at
/// start-of-scan, or at a segment past the conventional application
/// range.  A buffer that ends, desynchronises, or meets a bare marker
/// first never receives the fresh segment, so nothing can be read
/// back from it.
pub open spec fn spec_clean_until_emit(b: Seq<u8>, off: int) -> bool
    decreases b.len() - off,
{
    if off < 0 || off + 1 >= b.len() {
        false
    } else if b[off] != 0xff {
        false
    } else {
        let m = b[off + 1];
        if m == 0xff || m == 0x00 || m == 0x01 || (0xd0 <= m && m <= 0xd7) || m == 0xd9 {
            false
        } else if m == 0xda {
            true
        } else if off + 3 >= b.len() {
            false
        } else {
            let len = crate::reader::u16_be(b[off + 2], b[off + 3]);
            if len < 2 || off + 2 + len > b.len() {
                false
            } else if m == 0xed || m > 0xe1 {
                true
            } else {
                spec_clean_until_emit(b, off + 2 + len)
            }
        }
    }
}

/// In the rewritten stream, the segment walk finds the fresh APP13
/// segment and hands back exactly the container bytes it wraps.
proof fn lemma_find_in_write_output(b: Seq<u8>, off: int, block: Seq<u8>, x: Seq<u8>)
    requires
        spec_clean_until_emit(b, off),
        block.len() + 2 <= 65535,
        0 <= off,
    ensures
        ({
            let seg = crate::jpeg::app13_segment(block);
            let out = x + crate::jpeg::spec_write_scan(b, off, false, seg);
            exists|s: int|
                {
                    &&& #[trigger] crate::jpeg::spec_find_app13(out, x.len() as int) == Ok::<
                        _,
                        crate::FormatError,
                    >(Some((s, block.len() as int)))
                    &&& 0 <= s
                    &&& s + block.len() <= out.len()
                    &&& out.subrange(s, s + block.len()) == block
                }
        }),
    decreases b.len() - off,
{
    let seg = crate::jpeg::app13_segment(block);
    let hd = seq![
        0xffu8,
        0xedu8,
        crate::jpeg::hi_byte(block.len() as int + 2),
        crate::jpeg::lo_byte(block.len() as int + 2),
    ];
    assert(seg == hd + block);
    assert(seg.len() == 4 + block.len());
    crate::roundtrip::lemma_u16_bytes_round(block.len() as int + 2);
    let m = b[off + 1];
    let scan = crate::jpeg::spec_write_scan(b, off, false, seg);
    let out = x + scan;
    let p = x.len() as int;
    if m == 0xda || m == 0xed || (!(m == 0xff || m == 0x00 || m == 0x01 || (0xd0 <= m && m
        <= 0xd7) || m == 0xd9) && off + 3 < b.len() && {
        let len = crate::reader::u16_be(b[off + 2], b[off + 3]);
        len >= 2 && off + 2 + len <= b.len() && m > 0xe1
    }) {
        // The fresh segment stands at the head of the rewritten tail.
        assert(scan.len() >= seg.len()) by {
            if m == 0xda {
                assert(scan == seg + b.subrange(off, b.len() as int));
                assert(b.subrange(off, b.len() as int).len() >= 2);
            } else if m == 0xed {
                let len = crate::reader::u16_be(b[off + 2], b[off + 3]);
                assert(scan == seg + crate::jpeg::spec_write_scan(b, off + 2 + len, true, seg));
            } else {
                let len = crate::reader::u16_be(b[off + 2], b[off + 3]);
                assert(scan == seg + b.subrange(off, off + 2 + len) + crate::jpeg::spec_write_scan(
                    b,
                    off + 2 + len,
                    true,
                    seg,
                ));
                assert(b.subrange(off, off + 2 + len).len() >= 4);
            }
        }
        assert(forall|j: int| 0 <= j < seg.len() ==> #[trigger] scan[j] == seg[j]) by {
            if m == 0xda {
                assert(scan == seg + b.subrange(off, b.len() as int));
            } else if m == 0xed {
                assert(scan == seg + crate::jpeg::spec_write_scan(
                    b,
                    off + 2 + crate::reader::u16_be(b[off + 2], b[off + 3]),
                    true,
                    seg,
                ));
            } else {
                let len = crate::reader::u16_be(b[off + 2], b[off + 3]);
                assert(scan == (seg + b.subrange(off, off + 2 + len))
                    + crate::jpeg::spec_write_scan(b, off + 2 + len, true, seg));
                assert(forall|j: int|
                    0 <= j < seg.len() ==> #[trigger] (seg + b.subrange(off, off + 2 + len))[j]
                        == seg[j]);
            }
        }
        assert(forall|j: int| 0 <= j < scan.len() ==> #[trigger] out[p + j] == scan[j]);
        assert(out[p + 0] == 0xff && out[p + 1] == 0xed);
        assert(out[p + 2] == crate::jpeg::hi_byte(block.len() as int + 2));
        assert(out[p + 3] == crate::jpeg::lo_byte(block.len() as int + 2));
        assert(out[p as int] == 0xff);
        assert(p + 3 < out.len());
        let flen = crate::reader::u16_be(out[p + 2], out[p + 3]);
        assert(flen == block.len() + 2);
        assert(p + 2 + flen <= out.len());
        assert(crate::jpeg::spec_find_app13(out, p) == Ok::<_, crate::FormatError>(
            Some((p + 4, block.len() as int)),
        ));
        assert(out.subrange(p + 4, p + 4 + block.len()) =~= block) by {
            assert(forall|j: int|
                0 <= j < block.len() ==> #[trigger] out[p + (4 + j)] == scan[4 + j]);
            assert(forall|j: int| 0 <= j < block.len() ==> #[trigger] seg[4 + j] == block[j]);
            assert(forall|j: int|
                0 <= j < block.len() ==> #[trigger] out.subrange(p + 4, p + 4 + block.len())[j]
                    == out[p + 4 + j]);
        }
        assert(exists|s: int|
            {
                &&& #[trigger] crate::jpeg::spec_find_app13(out, x.len() as int) == Ok::<
                    _,
                    crate::FormatError,
                >(Some((s, block.len() as int)))
                &&& 0 <= s
                &&& s + block.len() <= out.len()
                &&& out.subrange(s, s + block.len()) == block
            }) by {
            assert(crate::jpeg::spec_find_app13(out, x.len() as int) == Ok::<
                _,
                crate::FormatError,
            >(Some((p + 4, block.len() as int))) && 0 <= p + 4 && p + 4 + block.len() <= out.len()
                && out.subrange(p + 4, p + 4 + block.len()) == block);
        }
    } else {
        // An ordinary segment: both walks step past it in lockstep.
        let len = crate::reader::u16_be(b[off + 2], b[off + 3]);
        let c = b.subrange(off, off + 2 + len);
        assert(scan == c + crate::jpeg::spec_write_scan(b, off + 2 + len, false, seg));
        lemma_find_in_write_output(b, off + 2 + len, block, x + c);
        let out2 = (x + c) + crate::jpeg::spec_write_scan(b, off + 2 + len, false, seg);
        assert(out =~= out2);
        assert(forall|j: int| 0 <= j < c.len() ==> #[trigger] out[p + j] == c[j]);
        assert(out[p + 0] == b[off] && out[p + 1] == b[off + 1]);
        assert(out[p + 2] == b[off + 2] && out[p + 3] == b[off + 3]);
        assert(out[p as int] == 0xff);
        assert(c.len() >= 4);
        assert(p + 3 < out.len());
        assert(crate::reader::u16_be(out[p + 2], out[p + 3]) == len);
        assert(crate::jpeg::spec_find_app13(out, p) == crate::jpeg::spec_find_app13(
            out,
            vstd::math::min(p + 2 + len, out.len() as int),
        ));
        assert(p + 2 + len == (x + c).len());
        assert(p + 2 + len <= out.len());
        assert(vstd::math::min(p + 2 + len, out.len() as int) == (x + c).len());
        let s0 = choose|s: int|
            {
                &&& #[trigger] crate::jpeg::spec_find_app13(out2, (x + c).len() as int) == Ok::<
                    _,
                    crate::FormatError,
                >(Some((s, block.len() as int)))
                &&& 0 <= s
                &&& s + block.len() <= out2.len()
                &&& out2.subrange(s, s + block.len()) == block
            };
        assert(crate::jpeg::spec_find_app13(out, x.len() as int) == Ok::<_, crate::FormatError>(
            Some((s0, block.len() as int)),
        ) && 0 <= s0 && s0 + block.len() <= out.len() && out.subrange(s0, s0 + block.len())
            == block);
    }
}

/// The rewritten stream decomposed into pieces: a verbatim slice of
/// the input, or the one fresh APP13 segment.
pub open spec fn spec_write_pieces(b: Seq<u8>, off: int, emitted: bool) -> Seq<(bool, int, int)>
    decreases b.len() - off,
{
    if off < 0 || off + 1 >= b.len() {
        Seq::empty()
    } else if b[off] != 0xff {
        spec_write_pieces(b, off + 1, emitted)
    } else {
        let m = b[off + 1];
        if m == 0xff {
            spec_write_pieces(b, off + 1, emitted)
        } else if m == 0x00 || m == 0x01 || (0xd0 <= m && m <= 0xd7) {
            seq![(false, off, off + 2)] + spec_write_pieces(b, off + 2, emitted)
        } else if m == 0xd9 {
            seq![(false, off, off + 2)]
        } else if m == 0xda {
            (if emitted {
                Seq::empty()
            } else {
                seq![(true, 0int, 0int)]
            }) + seq![(false, off, b.len() as int)]
        } else if off + 3 >= b.len() {
            seq![(false, off, b.len() as int)]
        } else {
            let len = crate::reader::u16_be(b[off + 2], b[off + 3]);
            if len < 2 || off + 2 + len > b.len() {
                seq![(false, off, b.len() as int)]
            } else if m == 0xed {
                (if emitted {
                    Seq::empty()
                } else {
                    seq![(true, 0int, 0int)]
                }) + spec_write_pieces(b, off + 2 + len, true)
            } else if !emitted && m > 0xe1 {
                seq![(true, 0int, 0int), (false, off, off + 2 + len)] + spec_write_pieces(
                    b,
                    off + 2 + len,
                    true,
                )
            } else {
                seq![(false, off, off + 2 + len)] + spec_write_pieces(b, off + 2 + len, emitted)
            }
        }
    }
}

/// The bytes a piece list stands for.
pub open spec fn pieces_bytes(b: Seq<u8>, seg: Seq<u8>, ps: Seq<(bool, int, int)>) -> Seq<u8>
    decreases ps.len(),
{
    if ps.len() == 0 {
        Seq::empty()
    } else {
        (if ps[0].0 {
            seg
        } else {
            b.subrange(ps[0].1, ps[0].2)
        }) + pieces_bytes(b, seg, ps.drop_first())
    }
}

/// A sound piece list over an input: verbatim slices lie within the
/// input past `lo0`, in increasing, non-overlapping order; at most one
/// piece is the inserted segment; and no copied slice opens an APP13
/// segment, except a final verbatim tail kept on a truncated stream.
pub open spec fn pieces_wf(b: Seq<u8>, ps: Seq<(bool, int, int)>, lo0: int) -> bool {
    &&& forall|i: int| 0 <= i < ps.len() && !(#[trigger] ps[i]).0 ==> lo0 <= ps[i].1 < ps[i].2 <= b.len()
    &&& forall|i: int, j: int|
        0 <= i < j < ps.len() && !(#[trigger] ps[i]).0 && !(#[trigger] ps[j]).0 ==> ps[i].2
            <= ps[j].1
    &&& forall|i: int, j: int|
        0 <= i < j < ps.len() && (#[trigger] ps[i]).0 && (#[trigger] ps[j]).0 ==> false
    &&& forall|i: int|
        0 <= i < ps.len() && !(#[trigger] ps[i]).0 ==> (ps[i].2 == b.len() || b[ps[i].1 + 1]
            != 0xed)
}

/// The rewritten stream is exactly the bytes of its piece list.
proof fn lemma_scan_is_pieces(b: Seq<u8>, off: int, emitted: bool, seg: Seq<u8>)
    ensures
        crate::jpeg::spec_write_scan(b, off, emitted, seg) == pieces_bytes(
            b,
            seg,
            spec_write_pieces(b, off, emitted),
        ),
    decreases b.len() - off,
{
    let ps = spec_write_pieces(b, off, emitted);
    if off < 0 || off + 1 >= b.len() {
        assert(pieces_bytes(b, seg, ps) =~= Seq::<u8>::empty());
    } else if b[off] != 0xff {
        lemma_scan_is_pieces(b, off + 1, emitted, seg);
    } else {
        let m = b[off + 1];
        if m == 0xff {
            lemma_scan_is_pieces(b, off + 1, emitted, seg);
        } else if m == 0x00 || m == 0x01 || (0xd0 <= m && m <= 0xd7) {
            lemma_scan_is_pieces(b, off + 2, emitted, seg);
            assert(ps.drop_first() =~= spec_write_pieces(b, off + 2, emitted));
        } else if m == 0xd9 {
            assert(ps.drop_first() =~= Seq::<(bool, int, int)>::empty());
            assert(pieces_bytes(b, seg, Seq::<(bool, int, int)>::empty()) =~= Seq::<u8>::empty());
            assert(ps[0] == (false, off, off + 2));
            assert(pieces_bytes(b, seg, ps) =~= b.subrange(off, off + 2));
        } else if m == 0xda {
            if emitted {
                assert(ps =~= seq![(false, off, b.len() as int)]);
                assert(ps.drop_first() =~= Seq::<(bool, int, int)>::empty());
                assert(pieces_bytes(b, seg, Seq::<(bool, int, int)>::empty()) =~= Seq::<u8>::empty());
                assert(ps[0] == (false, off, b.len() as int));
                assert(pieces_bytes(b, seg, ps) =~= b.subrange(off, b.len() as int));
                assert(crate::jpeg::spec_write_scan(b, off, emitted, seg) =~= b.subrange(
                    off,
                    b.len() as int,
                ));
            } else {
                assert(ps =~= seq![(true, 0int, 0int), (false, off, b.len() as int)]);
                let ps1 = ps.drop_first();
                assert(ps1 =~= seq![(false, off, b.len() as int)]);
                assert(ps1.drop_first() =~= Seq::<(bool, int, int)>::empty());
                assert(pieces_bytes(b, seg, Seq::<(bool, int, int)>::empty()) =~= Seq::<u8>::empty());
                assert(ps[0] == (true, 0int, 0int));
                assert(ps1[0] == (false, off, b.len() as int));
                assert(pieces_bytes(b, seg, ps1) =~= b.subrange(off, b.len() as int));
                assert(pieces_bytes(b, seg, ps) =~= seg + b.subrange(off, b.len() as int));
            }
        } else if off + 3 >= b.len() {
            assert(ps.drop_first() =~= Seq::<(bool, int, int)>::empty());
            assert(pieces_bytes(b, seg, Seq::<(bool, int, int)>::empty()) =~= Seq::<u8>::empty());
            assert(ps[0] == (false, off, b.len() as int));
            assert(pieces_bytes(b, seg, ps) =~= b.subrange(off, b.len() as int));
        } else {
            let len = crate::reader::u16_be(b[off + 2], b[off + 3]);
            if len < 2 || off + 2 + len > b.len() {
                assert(ps.drop_first() =~= Seq::<(bool, int, int)>::empty());
                assert(pieces_bytes(b, seg, Seq::<(bool, int, int)>::empty()) =~= Seq::<u8>::empty());
                assert(ps[0] == (false, off, b.len() as int));
                assert(pieces_bytes(b, seg, ps) =~= b.subrange(off, b.len() as int));
            } else if m == 0xed {
                lemma_scan_is_pieces(b, off + 2 + len, true, seg);
                if emitted {
                    assert(ps =~= spec_write_pieces(b, off + 2 + len, true));
                    assert(crate::jpeg::spec_write_scan(b, off, emitted, seg)
                        =~= crate::jpeg::spec_write_scan(b, off + 2 + len, true, seg));
                } else {
                    assert(ps[0] == (true, 0int, 0int));
                    assert(ps.drop_first() =~= spec_write_pieces(b, off + 2 + len, true));
                }
            } else if !emitted && m > 0xe1 {
                lemma_scan_is_pieces(b, off + 2 + len, true, seg);
                let ps1 = ps.drop_first();
                let ps2 = ps1.drop_first();
                assert(ps[0] == (true, 0int, 0int));
                assert(ps1[0] == (false, off, off + 2 + len));
                assert(ps2 =~= spec_write_pieces(b, off + 2 + len, true));
                assert(pieces_bytes(b, seg, ps1) =~= b.subrange(off, off + 2 + len) + pieces_bytes(
                    b,
                    seg,
                    ps2,
                ));
                assert(pieces_bytes(b, seg, ps) =~= seg + (b.subrange(off, off + 2 + len)
                    + crate::jpeg::spec_write_scan(b, off + 2 + len, true, seg)));
                assert(seg + (b.subrange(off, off + 2 + len) + crate::jpeg::spec_write_scan(
                    b,
                    off + 2 + len,
                    true,
                    seg,
                )) =~= seg + b.subrange(off, off + 2 + len) + crate::jpeg::spec_write_scan(
                    b,
                    off + 2 + len,
                    true,
                    seg,
                ));
            } else {
                lemma_scan_is_pieces(b, off + 2 + len, emitted, seg);
                assert(ps.drop_first() =~= spec_write_pieces(b, off + 2 + len, emitted));
            }
        }
    }
}

/// The piece list of the rewritten stream is sound, and carries the
/// inserted segment only while none was emitted yet.
proof fn lemma_pieces_wf(b: Seq<u8>, off: int, emitted: bool)
    requires
        0 <= off,
    ensures
        pieces_wf(b, spec_write_pieces(b, off, emitted), off),
        emitted ==> forall|i: int|
            0 <= i < spec_write_pieces(b, off, emitted).len() ==> !(
            #[trigger] spec_write_pieces(b, off, emitted)[i]).0,
    decreases b.len() - off,
{
    let ps = spec_write_pieces(b, off, emitted);
    if off < 0 || off + 1 >= b.len() {
    } else if b[off] != 0xff {
        lemma_pieces_wf(b, off + 1, emitted);
        lemma_pieces_wf_weaken(b, spec_write_pieces(b, off + 1, emitted), off + 1, off);
    } else {
        let m = b[off + 1];
        if m == 0xff {
            lemma_pieces_wf(b, off + 1, emitted);
            lemma_pieces_wf_weaken(b, spec_write_pieces(b, off + 1, emitted), off + 1, off);
        } else if m == 0x00 || m == 0x01 || (0xd0 <= m && m <= 0xd7) {
            lemma_pieces_wf(b, off + 2, emitted);
            let rest = spec_write_pieces(b, off + 2, emitted);
            assert forall|i: int| 0 <= i < ps.len() implies ps[i] == if i == 0 {
                (false, off, off + 2)
            } else {
                rest[i - 1]
            } by {}
        } else if m == 0xd9 {
        } else if m == 0xda {
        } else if off + 3 >= b.len() {
        } else {
            let len = crate::reader::u16_be(b[off + 2], b[off + 3]);
            if len < 2 || off + 2 + len > b.len() {
            } else if m == 0xed {
                lemma_pieces_wf(b, off + 2 + len, true);
                let rest = spec_write_pieces(b, off + 2 + len, true);
                lemma_pieces_wf_weaken(b, rest, off + 2 + len, off);
                if !emitted {
                    assert forall|i: int| 0 <= i < ps.len() implies ps[i] == if i == 0 {
                        (true, 0int, 0int)
                    } else {
                        rest[i - 1]
                    } by {}
                }
            } else if !emitted && m > 0xe1 {
                lemma_pieces_wf(b, off + 2 + len, true);
                let rest = spec_write_pieces(b, off + 2 + len, true);
                lemma_pieces_wf_weaken(b, rest, off + 2 + len, off);
                assert forall|i: int| 0 <= i < ps.len() implies ps[i] == if i == 0 {
                    (true, 0int, 0int)
                } else if i == 1 {
                    (false, off, off + 2 + len)
                } else {
                    rest[i - 2]
                } by {}
            } else {
                lemma_pieces_wf(b, off + 2 + len, emitted);
                let rest = spec_write_pieces(b, off + 2 + len, emitted);
                lemma_pieces_wf_weaken(b, rest, off + 2 + len, off);
                assert forall|i: int| 0 <= i < ps.len() implies ps[i] == if i == 0 {
                    (false, off, off + 2 + len)
                } else {
                    rest[i - 1]
                } by {}
            }
        }
    }
}

/// A sound piece list stays sound under a smaller left bound.
proof fn lemma_pieces_wf_weaken(b: Seq<u8>, ps: Seq<(bool, int, int)>, lo0: int, lo1: int)
    requires
        pieces_wf(b, ps, lo0),
        lo1 <= lo0,
    ensures
        pieces_wf(b, ps, lo1),
{
}

/// Non-destructive splice: the written buffer is the start-of-image
/// marker followed by verbatim slices of the input — every segment the
/// scan keeps, none of them an APP13 segment, in their original order
/// — with the single fresh APP13 segment spliced in.
pub proof fn lemma_non_destructive_splice(b: Seq<u8>, st: Seq<(IPTCTag, Seq<Seq<char>>)>)
    requires
        crate::jpeg::spec_write_iptc(b, st) is Ok,
    ensures
        ({
            let seg = crate::jpeg::app13_segment(crate::jpeg::spec_photoshop_block(st));
            let ps = spec_write_pieces(b, 2, false);
            &&& crate::jpeg::spec_write_iptc(b, st)->Ok_0 == seq![0xffu8, 0xd8u8] + pieces_bytes(
                b,
                seg,
                ps,
            )
            &&& pieces_wf(b, ps, 2)
        }),
{
    let seg = crate::jpeg::app13_segment(crate::jpeg::spec_photoshop_block(st));
    lemma_scan_is_pieces(b, 2, false, seg);
    lemma_pieces_wf(b, 2, false);
}

/// The rewrite of a stream depends only on the bytes at and after the
/// cursor.
proof fn lemma_scan_shift(b1: Seq<u8>, off1: int, b2: Seq<u8>, off2: int, e: bool, seg: Seq<u8>)
    requires
        0 <= off1 <= b1.len(),
        0 <= off2 <= b2.len(),
        b1.len() - off1 == b2.len() - off2,
        forall|k: int| 0 <= k < b1.len() - off1 ==> #[trigger] b1[off1 + k] == b2[off2 + k],
    ensures
        crate::jpeg::spec_write_scan(b1, off1, e, seg) == crate::jpeg::spec_write_scan(
            b2,
            off2,
            e,
            seg,
        ),
    decreases b1.len() - off1,
{
    let n = b1.len() - off1;
    assert forall|lo: int, hi: int|
        0 <= lo <= hi <= n implies #[trigger] b1.subrange(off1 + lo, off1 + hi) == b2.subrange(
        off2 + lo,
        off2 + hi,
    ) by {
        assert forall|k: int|
            0 <= k < hi - lo implies #[trigger] b1.subrange(off1 + lo, off1 + hi)[k]
            == b2.subrange(off2 + lo, off2 + hi)[k] by {
            assert(b1[off1 + (lo + k)] == b2[off2 + (lo + k)]);
            assert(b1.subrange(off1 + lo, off1 + hi)[k] == b1[off1 + (lo + k)]);
            assert(b2.subrange(off2 + lo, off2 + hi)[k] == b2[off2 + (lo + k)]);
        }
        assert(b1.subrange(off1 + lo, off1 + hi) =~= b2.subrange(off2 + lo, off2 + hi));
    }
    if n < 2 {
    } else {
        assert(b1[off1 + 0] == b2[off2 + 0]);
        assert(b1[off1 + 1] == b2[off2 + 1]);
        if b1[off1] != 0xff {
            assert forall|k: int|
                0 <= k < b1.len() - (off1 + 1) implies #[trigger] b1[(off1 + 1) + k] == b2[(off2
                + 1) + k] by {
                assert(b1[off1 + (1 + k)] == b2[off2 + (1 + k)]);
            }
            lemma_scan_shift(b1, off1 + 1, b2, off2 + 1, e, seg);
        } else {
            let m = b1[off1 + 1];
            if m == 0xff {
                assert forall|k: int|
                    0 <= k < b1.len() - (off1 + 1) implies #[trigger] b1[(off1 + 1) + k] == b2[(off2
                    + 1) + k] by {
                    assert(b1[off1 + (1 + k)] == b2[off2 + (1 + k)]);
                }
                lemma_scan_shift(b1, off1 + 1, b2, off2 + 1, e, seg);
            } else if m == 0x00 || m == 0x01 || (0xd0 <= m && m <= 0xd7) {
                assert forall|k: int|
                    0 <= k < b1.len() - (off1 + 2) implies #[trigger] b1[(off1 + 2) + k] == b2[(off2
                    + 2) + k] by {
                    assert(b1[off1 + (2 + k)] == b2[off2 + (2 + k)]);
                }
                lemma_scan_shift(b1, off1 + 2, b2, off2 + 2, e, seg);
                assert(b1.subrange(off1 + 0, off1 + 2) == b2.subrange(off2 + 0, off2 + 2));
            } else if m == 0xd9 {
                assert(b1.subrange(off1 + 0, off1 + 2) == b2.subrange(off2 + 0, off2 + 2));
            } else if m == 0xda {
                assert(b1.subrange(off1 + 0, off1 + n) == b2.subrange(off2 + 0, off2 + n));
            } else if n < 4 {
                assert(b1.subrange(off1 + 0, off1 + n) == b2.subrange(off2 + 0, off2 + n));
            } else {
                assert(b1[off1 + 2] == b2[off2 + 2] && b1[off1 + 3] == b2[off2 + 3]);
                let len = crate::reader::u16_be(b1[off1 + 2], b1[off1 + 3]);
                if len < 2 || 2 + len > n {
                    assert(b1.subrange(off1 + 0, off1 + n) == b2.subrange(off2 + 0, off2 + n));
                } else {
                    assert forall|k: int|
                        0 <= k < b1.len() - (off1 + (2 + len)) implies #[trigger] b1[(off1 + (2 + len)) + k] == b2[(off2
                        + (2 + len)) + k] by {
                        assert(b1[off1 + ((2 + len) + k)] == b2[off2 + ((2 + len) + k)]);
                    }
                    lemma_scan_shift(b1, off1 + 2 + len, b2, off2 + 2 + len, e, seg);
                    lemma_scan_shift(b1, off1 + 2 + len, b2, off2 + 2 + len, true, seg);
                    assert(b1.subrange(off1 + 0, off1 + 2 + len) == b2.subrange(
                        off2 + 0,
                        off2 + 2 + len,
                    ));
                }
            }
        }
    }
}

/// The rewrite from a cursor equals the rewrite of the stream's tail.
proof fn lemma_scan_skip_eq(a: Seq<u8>, k: int, t: Seq<u8>, e: bool, seg: Seq<u8>)
    requires
        0 <= k <= a.len(),
        a.skip(k) == t,
    ensures
        crate::jpeg::spec_write_scan(a, k, e, seg) == crate::jpeg::spec_write_scan(t, 0, e, seg),
{
    assert(a.skip(k).len() == a.len() - k);
    assert forall|j: int| 0 <= j < a.len() - k implies #[trigger] a[k + j] == t[0 + j] by {
        assert(a.skip(k)[j] == a[k + j]);
    }
    lemma_scan_shift(a, k, t, 0, e, seg);
}

/// Rewriting the rewritten stream reproduces it: every chunk the
/// first pass emitted is either a sound segment the second pass copies
/// verbatim, the fresh APP13 segment the second pass replaces with
/// itself, or a terminal tail both passes keep.
#[verifier::rlimit(100)]
proof fn lemma_scan_idem(b: Seq<u8>, off: int, e: bool, block: Seq<u8>)
    requires
        0 <= off,
        block.len() + 2 <= 65535,
    ensures
        ({
            let seg = crate::jpeg::app13_segment(block);
            let s = crate::jpeg::spec_write_scan(b, off, e, seg);
            crate::jpeg::spec_write_scan(s, 0, e, seg) == s
        }),
    decreases b.len() - off,
{
    let seg = crate::jpeg::app13_segment(block);
    let hd = seq![
        0xffu8,
        0xedu8,
        crate::jpeg::hi_byte(block.len() as int + 2),
        crate::jpeg::lo_byte(block.len() as int + 2),
    ];
    assert(seg == hd + block);
    assert(seg.len() == 4 + block.len());
    crate::roundtrip::lemma_u16_bytes_round(block.len() as int + 2);
    let s = crate::jpeg::spec_write_scan(b, off, e, seg);
    if off + 1 >= b.len() {
        assert(s =~= Seq::<u8>::empty());
    } else if b[off] != 0xff {
        lemma_scan_idem(b, off + 1, e, block);
    } else {
        let m = b[off + 1];
        if m == 0xff {
            lemma_scan_idem(b, off + 1, e, block);
        } else if m == 0x00 || m == 0x01 || (0xd0 <= m && m <= 0xd7) {
            let c = b.subrange(off, off + 2);
            let s2 = crate::jpeg::spec_write_scan(b, off + 2, e, seg);
            assert(s == c + s2);
            lemma_scan_idem(b, off + 2, e, block);
            assert(s[0] == c[0] && s[1] == c[1]);
            assert(c[0] == 0xff && c[1] == m);
            assert(s.len() >= 2);
            assert(s.subrange(0, 2) =~= c);
            assert(s.skip(2) =~= s2);
            lemma_scan_skip_eq(s, 2, s2, e, seg);
        } else if m == 0xd9 {
            let c = b.subrange(off, off + 2);
            assert(s == c);
            assert(s[0] == 0xff && s[1] == 0xd9);
            assert(s.subrange(0, 2) =~= s);
        } else if m == 0xda {
            let tail = b.subrange(off, b.len() as int);
            assert(tail.len() >= 2);
            assert(tail[0] == 0xff && tail[1] == 0xda);
            if e {
                assert(s == Seq::<u8>::empty() + tail);
                assert(s =~= tail);
                assert(s.subrange(0, s.len() as int) =~= s);
            } else {
                assert(s == seg + tail);
                assert(forall|j: int| 0 <= j < seg.len() ==> #[trigger] s[j] == seg[j]);
                assert(s[0] == hd[0] && s[1] == hd[1] && s[2] == hd[2] && s[3] == hd[3]);
                assert(s.len() >= seg.len() + 2);
                let len2 = crate::reader::u16_be(s[2], s[3]);
                assert(len2 == block.len() + 2);
                assert(2 + len2 == seg.len() <= s.len());
                assert(s.skip(seg.len() as int) =~= tail);
                lemma_scan_skip_eq(s, seg.len() as int, tail, true, seg);
                assert(crate::jpeg::spec_write_scan(tail, 0, true, seg) == Seq::<u8>::empty()
                    + tail.subrange(0, tail.len() as int));
                assert(Seq::<u8>::empty() + tail.subrange(0, tail.len() as int) =~= tail);
                assert(crate::jpeg::spec_write_scan(s, 0, e, seg) == seg
                    + crate::jpeg::spec_write_scan(s, 2 + len2, true, seg));
            }
        } else if off + 3 >= b.len() {
            let tail = b.subrange(off, b.len() as int);
            assert(s == tail);
            assert(s.len() <= 3);
            assert(s[0] == 0xff && s[1] == m);
            assert(s.subrange(0, s.len() as int) =~= s);
        } else {
            let len = crate::reader::u16_be(b[off + 2], b[off + 3]);
            if len < 2 || off + 2 + len > b.len() {
                let tail = b.subrange(off, b.len() as int);
                assert(s == tail);
                assert(s.len() == b.len() - off >= 4);
                assert(s[0] == 0xff && s[1] == m && s[2] == b[off + 2] && s[3] == b[off + 3]);
                assert(crate::reader::u16_be(s[2], s[3]) == len);
                assert(len < 2 || 2 + len > s.len());
                assert(s.subrange(0, s.len() as int) =~= s);
            } else if m == 0xed {
                let s2 = crate::jpeg::spec_write_scan(b, off + 2 + len, true, seg);
                lemma_scan_idem(b, off + 2 + len, true, block);
                if e {
                    assert(s == Seq::<u8>::empty() + s2);
                    assert(s =~= s2);
                } else {
                    assert(s == seg + s2);
                    assert(forall|j: int| 0 <= j < seg.len() ==> #[trigger] s[j] == seg[j]);
                    assert(s[0] == hd[0] && s[1] == hd[1] && s[2] == hd[2] && s[3] == hd[3]);
                    assert(s.len() >= seg.len() >= 4);
                    let len2 = crate::reader::u16_be(s[2], s[3]);
                    assert(len2 == block.len() + 2);
                    assert(2 + len2 == seg.len() <= s.len());
                    assert(s.skip(seg.len() as int) =~= s2);
                    lemma_scan_skip_eq(s, seg.len() as int, s2, true, seg);
                    assert(crate::jpeg::spec_write_scan(s, 0, e, seg) == seg
                        + crate::jpeg::spec_write_scan(s, 2 + len2, true, seg));
                }
            } else if !e && m > 0xe1 {
                let c = b.subrange(off, off + 2 + len);
                let s2 = crate::jpeg::spec_write_scan(b, off + 2 + len, true, seg);
                assert(s == seg + c + s2);
                lemma_scan_idem(b, off + 2 + len, true, block);
                assert(s =~= seg + (c + s2));
                assert(forall|j: int| 0 <= j < seg.len() ==> #[trigger] s[j] == seg[j]);
                assert(s[0] == hd[0] && s[1] == hd[1] && s[2] == hd[2] && s[3] == hd[3]);
                assert(s.len() >= seg.len() + 4);
                let len2 = crate::reader::u16_be(s[2], s[3]);
                assert(len2 == block.len() + 2);
                assert(2 + len2 == seg.len() <= s.len());
                let t = c + s2;
                assert(s.skip(seg.len() as int) =~= t);
                lemma_scan_skip_eq(s, seg.len() as int, t, true, seg);
                assert(t.len() >= 4 + s2.len());
                assert(forall|j: int| 0 <= j < c.len() ==> #[trigger] t[j] == c[j]);
                assert(t[0] == 0xff && t[1] == m && t[2] == b[off + 2] && t[3] == b[off + 3]);
                assert(crate::reader::u16_be(t[2], t[3]) == len);
                assert(2 + len <= t.len());
                assert(t.subrange(0, 2 + len) =~= c);
                assert(t.skip(2 + len) =~= s2);
                lemma_scan_skip_eq(t, 2 + len, s2, true, seg);
                assert(crate::jpeg::spec_write_scan(t, 0, true, seg) == c
                    + crate::jpeg::spec_write_scan(t, 2 + len, true, seg));
                assert(crate::jpeg::spec_write_scan(s, 0, e, seg) == seg
                    + crate::jpeg::spec_write_scan(s, 2 + len2, true, seg));
                assert(seg + (c + s2) =~= seg + c + s2);
            } else {
                let c = b.subrange(off, off + 2 + len);
                let s2 = crate::jpeg::spec_write_scan(b, off + 2 + len, e, seg);
                assert(s == c + s2);
                lemma_scan_idem(b, off + 2 + len, e, block);
                assert(forall|j: int| 0 <= j < c.len() ==> #[trigger] s[j] == c[j]);
                assert(s[0] == 0xff && s[1] == m && s[2] == b[off + 2] && s[3] == b[off + 3]);
                assert(s.len() >= 4);
                assert(crate::reader::u16_be(s[2], s[3]) == len);
                assert(2 + len <= s.len());
                assert(s.subrange(0, 2 + len) =~= c);
                assert(s.skip(2 + len) =~= s2);
                lemma_scan_skip_eq(s, 2 + len, s2, e, seg);
                assert(crate::jpeg::spec_write_scan(s, 0, e, seg) == c
                    + crate::jpeg::spec_write_scan(s, 2 + len, e, seg));
            }
        }
    }
}

/// Idempotent write: writing the same store onto the already-written
/// buffer changes nothing — the second pass replaces the fresh APP13
/// segment with its own identical bytes and copies everything else.
pub proof fn lemma_write_idempotent(b: Seq<u8>, st: Seq<(IPTCTag, Seq<Seq<char>>)>)
    requires
        crate::jpeg::spec_write_iptc(b, st) is Ok,
    ensures
        crate::jpeg::spec_write_iptc(crate::jpeg::spec_write_iptc(b, st)->Ok_0, st)
            == crate::jpeg::spec_write_iptc(b, st),
{
    let block = crate::jpeg::spec_photoshop_block(st);
    let seg = crate::jpeg::app13_segment(block);
    let s = crate::jpeg::spec_write_scan(b, 2, false, seg);
    let out = seq![0xffu8, 0xd8u8] + s;
    assert(crate::jpeg::spec_write_iptc(b, st)->Ok_0 == out);
    assert(out[0] == 0xff && out[1] == 0xd8);
    assert(out.len() >= 2);
    assert(out.skip(2) =~= s);
    lemma_scan_skip_eq(out, 2, s, false, seg);
    lemma_scan_idem(b, 2, false, block);
    assert(crate::jpeg::spec_write_scan(out, 2, false, seg) == s);
}

/// The full round trip: writing a well-formed store onto a JPEG whose
/// segment walk reaches an insertion point, then reading the result,
/// yields the same tag/value pairs.  Entry order follows the
/// dictionary's keys, so the stores are compared as mappings.
pub proof fn lemma_write_read_round_trip(b: Seq<u8>, st: Seq<(IPTCTag, Seq<Seq<char>>)>)
    requires
        crate::roundtrip::spec_store_round_trippable(st),
        spec_clean_until_emit(b, 2),
        crate::jpeg::spec_write_iptc(b, st) is Ok,
    ensures
        ({
            let out = crate::jpeg::spec_write_iptc(b, st)->Ok_0;
            &&& spec_read_iptc(out) is Ok
            &&& forall|t: IPTCTag|
                #[trigger] store_has(spec_read_iptc(out)->Ok_0, t) == store_has(st, t)
            &&& forall|t: IPTCTag|
                store_has(st, t) ==> #[trigger] store_values(spec_read_iptc(out)->Ok_0, t)
                    == store_values(st, t)
        }),
{
    let block = crate::jpeg::spec_photoshop_block(st);
    let seg = crate::jpeg::app13_segment(block);
    let x = seq![0xffu8, 0xd8u8];
    let out = x + crate::jpeg::spec_write_scan(b, 2, false, seg);
    assert(crate::jpeg::spec_write_iptc(b, st)->Ok_0 == out);
    lemma_find_in_write_output(b, 2, block, x);
    let s = choose|s: int|
        {
            &&& #[trigger] crate::jpeg::spec_find_app13(out, x.len() as int) == Ok::<
                _,
                crate::FormatError,
            >(Some((s, block.len() as int)))
            &&& 0 <= s
            &&& s + block.len() <= out.len()
            &&& out.subrange(s, s + block.len()) == block
        };
    assert(out[0] == 0xff && out[1] == 0xd8) by {
        assert(out[0] == x[0] && out[1] == x[1]);
    }
    assert(out.len() >= 2);
    assert(spec_read_iptc(out) == crate::reader::spec_decode_region(
        out.subrange(s, s + block.len()),
    ));
    crate::roundtrip::lemma_block_round_trip(st);
}

} // verus!
