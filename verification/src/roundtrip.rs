//! The encode/decode round trip: a well-formed store, serialized into
//! a Photoshop resource container, decodes back to the same tag/value
//! pairs.

use vstd::prelude::*;
use vstd::utf8::encode_utf8;
use vstd::utf8::encode_utf8_decode_utf8;
use vstd::utf8::encode_utf8_valid_utf8;

use crate::jpeg::hi_byte;
use crate::jpeg::lo_byte;
use crate::jpeg::spec_encode_field;
use crate::jpeg::spec_field_payload;
use crate::jpeg::spec_fields_bytes;
use crate::jpeg::spec_key_bytes;
use crate::jpeg::spec_parse_u16;
use crate::reader::spec_apply_field;
use crate::reader::spec_resolve_fields;
use crate::store::chars_ieq;
use crate::tags::lemma_lookup_then_reverse;
use crate::tags::lemma_reverse_then_lookup;
use crate::tags::spec_record_dataset;
use crate::tags::spec_tag_info;
use crate::jpeg::spec_values_bytes;
use crate::reader::spec_decode_region;
use crate::reader::spec_decode_value;
use crate::reader::trim_spec;
use crate::reader::u16_be;
use crate::reader::u16_dec_chars;
use crate::store::store_has;
use crate::store::store_values;
use crate::tags::spec_lookup;
use crate::tags::IPTCTag;
use crate::tags::ValueKind;

verus! {

/// The list form of the encoded fields of one key: one
/// (record, dataset, payload) triple per held value.
pub open spec fn spec_values_list(
    record: u8,
    dataset: u8,
    kind: ValueKind,
    vals: Seq<Seq<char>>,
) -> Seq<(u8, u8, Seq<u8>)>
    decreases vals.len(),
{
    if vals.len() == 0 {
        Seq::empty()
    } else {
        seq![(record, dataset, spec_field_payload(kind, vals[0]))] + spec_values_list(
            record,
            dataset,
            kind,
            vals.drop_first(),
        )
    }
}

/// The triples the store contributes under one composite key.
pub open spec fn spec_key_list(st: Seq<(IPTCTag, Seq<Seq<char>>)>, k: int) -> Seq<
    (u8, u8, Seq<u8>),
> {
    match spec_lookup(((k / 256) % 256) as u8, (k % 256) as u8) {
        Some(info) => if store_has(st, info.tag) {
            spec_values_list(
                ((k / 256) % 256) as u8,
                (k % 256) as u8,
                info.kind,
                store_values(st, info.tag),
            )
        } else {
            Seq::empty()
        },
        None => Seq::empty(),
    }
}

/// The triples of every key below `k`, ascending.
pub open spec fn spec_list_upto(st: Seq<(IPTCTag, Seq<Seq<char>>)>, k: int) -> Seq<
    (u8, u8, Seq<u8>),
>
    decreases k,
{
    if k <= 0 {
        Seq::empty()
    } else {
        spec_list_upto(st, k - 1) + spec_key_list(st, k - 1)
    }
}

/// The byte stream a list of triples encodes to.
pub open spec fn encode_list(fs: Seq<(u8, u8, Seq<u8>)>) -> Seq<u8>
    decreases fs.len(),
{
    if fs.len() == 0 {
        Seq::empty()
    } else {
        spec_encode_field(fs[0].0, fs[0].1, fs[0].2) + encode_list(fs.drop_first())
    }
}

/// Encoding distributes over concatenation of field lists.
proof fn lemma_encode_list_append(a: Seq<(u8, u8, Seq<u8>)>, b: Seq<(u8, u8, Seq<u8>)>)
    ensures
        encode_list(a + b) == encode_list(a) + encode_list(b),
    decreases a.len(),
{
    if a.len() == 0 {
        assert(a + b =~= b);
        assert(encode_list(a) + encode_list(b) =~= encode_list(b));
    } else {
        assert((a + b)[0] == a[0]);
        assert((a + b).drop_first() =~= a.drop_first() + b);
        lemma_encode_list_append(a.drop_first(), b);
        assert(spec_encode_field(a[0].0, a[0].1, a[0].2) + (encode_list(a.drop_first())
            + encode_list(b)) =~= (spec_encode_field(a[0].0, a[0].1, a[0].2) + encode_list(
            a.drop_first(),
        )) + encode_list(b));
    }
}

/// The per-key bytes are the encoding of the per-key triples.
proof fn lemma_values_bytes_list(record: u8, dataset: u8, kind: ValueKind, vals: Seq<Seq<char>>)
    ensures
        spec_values_bytes(record, dataset, kind, vals) == encode_list(
            spec_values_list(record, dataset, kind, vals),
        ),
    decreases vals.len(),
{
    if vals.len() == 0 {
    } else {
        lemma_values_bytes_list(record, dataset, kind, vals.drop_first());
        let l = spec_values_list(record, dataset, kind, vals);
        assert(l[0] == (record, dataset, spec_field_payload(kind, vals[0])));
        assert(l.drop_first() =~= spec_values_list(record, dataset, kind, vals.drop_first()));
    }
}

/// The whole field stream is the encoding of the whole triple list.
proof fn lemma_fields_bytes_list(st: Seq<(IPTCTag, Seq<Seq<char>>)>, k: int)
    ensures
        spec_fields_bytes(st, k) == encode_list(spec_list_upto(st, k)),
    decreases k,
{
    if k <= 0 {
    } else {
        lemma_fields_bytes_list(st, k - 1);
        let record = (((k - 1) / 256) % 256) as u8;
        let dataset = ((k - 1) % 256) as u8;
        match spec_lookup(record, dataset) {
            Some(info) => {
                if store_has(st, info.tag) {
                    lemma_values_bytes_list(record, dataset, info.kind, store_values(st, info.tag));
                } else {
                    assert(spec_key_bytes(st, k - 1) =~= Seq::<u8>::empty());
                }
            },
            None => {
                assert(spec_key_bytes(st, k - 1) =~= Seq::<u8>::empty());
            },
        }
        lemma_encode_list_append(spec_list_upto(st, k - 1), spec_key_list(st, k - 1));
    }
}

/// A 16-bit length survives the split into its two bytes.
pub(crate) proof fn lemma_u16_bytes_round(n: int)
    requires
        0 <= n <= 65535,
    ensures
        u16_be(hi_byte(n), lo_byte(n)) == n,
{
    assert(n / 256 <= 255);
    assert((n / 256) % 256 == n / 256);
    assert(n == (n / 256) * 256 + n % 256);
}

/// A value that re-encodes to the same bytes it decoded from: a text
/// value is non-empty, carries no control byte at either end, and its
/// UTF-8 form fits the 16-bit length field; an integer value is the
/// canonical decimal form of an in-range number.
pub open spec fn spec_value_clean(kind: ValueKind, v: Seq<char>) -> bool {
    match kind {
        ValueKind::Text => v.len() > 0 && trim_spec(encode_utf8(v)) == encode_utf8(v)
            && encode_utf8(v).len() <= 65535,
        ValueKind::Short => v == u16_dec_chars(spec_parse_u16(v)),
    }
}

/// Scanning a region that holds exactly the encoding of a field list
/// yields that list back: each encoded field opens with the delimiter
/// and declares its own payload length, so the scan steps from field
/// to field.
proof fn lemma_scan_of_encoded(g: Seq<u8>, p: int, fs: Seq<(u8, u8, Seq<u8>)>)
    requires
        0 <= p,
        p + encode_list(fs).len() <= g.len(),
        g.subrange(p, p + encode_list(fs).len()) == encode_list(fs),
        forall|i: int| 0 <= i < fs.len() ==> (#[trigger] fs[i].2).len() <= 65535,
    ensures
        crate::reader::spec_scan_fields(g, p, p + encode_list(fs).len()) == fs,
    decreases fs.len(),
{
    let e = encode_list(fs);
    let end = p + e.len();
    if fs.len() == 0 {
        assert(crate::reader::spec_scan_fields(g, p, end) =~= fs);
    } else {
        let f = fs[0];
        let ef = spec_encode_field(f.0, f.1, f.2);
        let rest = encode_list(fs.drop_first());
        assert(e == ef + rest);
        assert(ef.len() == 5 + f.2.len());
        assert forall|j: int| 0 <= j < e.len() implies g[p + j] == e[j] by {
            assert(g.subrange(p, end)[j] == g[p + j]);
        }
        let hd = seq![0x1cu8, f.0, f.1, hi_byte(f.2.len() as int), lo_byte(f.2.len() as int)];
        assert(ef == hd + f.2);
        assert(g[p + 0] == e[0] && e[0] == ef[0] && ef[0] == hd[0]);
        assert(g[p + 1] == e[1] && e[1] == ef[1] && ef[1] == hd[1]);
        assert(g[p + 2] == e[2] && e[2] == ef[2] && ef[2] == hd[2]);
        assert(g[p + 3] == e[3] && e[3] == ef[3] && ef[3] == hd[3]);
        assert(g[p + 4] == e[4] && e[4] == ef[4] && ef[4] == hd[4]);
        assert(g[p] == 0x1c);
        assert(p + 5 <= end);
        assert(fs[0].2.len() <= 65535);
        lemma_u16_bytes_round(f.2.len() as int);
        assert(g[p + 3] == hi_byte(f.2.len() as int));
        assert(g[p + 4] == lo_byte(f.2.len() as int));
        let len = u16_be(g[p + 3], g[p + 4]);
        assert(len == f.2.len());
        assert(p + 5 + len <= end);
        assert(g.subrange(p + 5, p + 5 + len) =~= f.2) by {
            assert forall|j: int| 0 <= j < len implies g[p + 5 + j] == f.2[j] by {
                assert(e[5 + j] == ef[5 + j]);
                assert(ef[5 + j] == f.2[j]);
            }
        }
        assert(g[p + 1] == f.0);
        assert(g[p + 2] == f.1);
        let p2 = p + 5 + len;
        assert(g.subrange(p2, p2 + rest.len()) =~= rest) by {
            assert forall|j: int| 0 <= j < rest.len() implies g[p2 + j] == rest[j] by {
                assert(g[p + (5 + len + j)] == e[5 + len + j]);
                assert(e[5 + len + j] == rest[j]);
            }
        }
        assert(forall|i: int|
            0 <= i < fs.drop_first().len() ==> (#[trigger] fs.drop_first()[i].2).len() <= 65535);
        lemma_scan_of_encoded(g, p2, fs.drop_first());
        assert(crate::reader::spec_scan_fields(g, p, end) == seq![(g[p + 1], g[p + 2], g.subrange(
            p + 5,
            p + 5 + len,
        ))] + crate::reader::spec_scan_fields(g, p2, end));
        assert(p2 + rest.len() == end);
        assert(crate::reader::spec_scan_fields(g, p, end) =~= fs);
    }
}

/// A clean value decodes back from its own payload.
proof fn lemma_value_round_trip(kind: ValueKind, v: Seq<char>)
    requires
        spec_value_clean(kind, v),
    ensures
        spec_decode_value(kind, spec_field_payload(kind, v)) == Some(v),
        v.len() > 0,
        spec_field_payload(kind, v).len() <= 65535,
{
    match kind {
        ValueKind::Text => {
            encode_utf8_valid_utf8(v);
            encode_utf8_decode_utf8(v);
        },
        ValueKind::Short => {
            let n = spec_parse_u16(v);
            assert(0 <= n <= 65535);
            let payload = spec_field_payload(kind, v);
            assert(payload.len() == 2);
            lemma_u16_bytes_round(n);
            assert(u16_be(payload[0], payload[1]) == n);
            assert(spec_decode_value(kind, payload) == Some(u16_dec_chars(n)));
            if n == 0 {
            } else {
                assert(crate::reader::dec_digits(n).len() >= 1);
            }
        },
    }
}

/// A store whose write-out decodes back to the same tag/value pairs:
/// tags are distinct and dictionary-known, values present and clean,
/// a non-repeatable tag holds one value, and a repeatable tag no two
/// values equal under ASCII case folding.
pub open spec fn spec_store_round_trippable(st: Seq<(IPTCTag, Seq<Seq<char>>)>) -> bool {
    &&& forall|i: int, j: int| 0 <= i < j < st.len() ==> st[i].0 != st[j].0
    &&& forall|i: int| 0 <= i < st.len() ==> (#[trigger] spec_tag_info(st[i].0)) is Some
    &&& forall|i: int| 0 <= i < st.len() ==> (#[trigger] st[i].1).len() >= 1
    &&& forall|i: int|
        0 <= i < st.len() ==> (!spec_tag_info(st[i].0)->Some_0.repeatable ==> (#[trigger] st[i].1).len()
            == 1)
    &&& forall|i: int, a: int, b: int|
        0 <= i < st.len() && 0 <= a < b < st[i].1.len() ==> !chars_ieq(
            #[trigger] st[i].1[a],
            #[trigger] st[i].1[b],
        )
    &&& forall|i: int, j: int|
        0 <= i < st.len() && 0 <= j < st[i].1.len() ==> spec_value_clean(
            spec_tag_info(st[i].0)->Some_0.kind,
            #[trigger] st[i].1[j],
        )
}

/// The composite key a tag is emitted under, `-1` for a tag with no
/// reverse mapping.
pub open spec fn tag_key(tag: IPTCTag) -> int {
    match spec_record_dataset(tag) {
        Some(rd) => (rd.0 as int) * 256 + (rd.1 as int),
        None => -1,
    }
}

/// A reverse-mapped tag's key addresses its own dictionary entry.
proof fn lemma_tag_key(tag: IPTCTag)
    requires
        spec_record_dataset(tag) is Some,
    ensures
        0 <= tag_key(tag) < 65536,
        spec_lookup(
            ((tag_key(tag) / 256) % 256) as u8,
            (tag_key(tag) % 256) as u8,
        ) matches Some(info) && info.tag == tag,
{
    let rd = spec_record_dataset(tag)->Some_0;
    let k = tag_key(tag);
    assert(k == (rd.0 as int) * 256 + (rd.1 as int));
    assert(((k / 256) % 256) as u8 == rd.0);
    assert((k % 256) as u8 == rd.1);
    lemma_reverse_then_lookup(tag);
}

/// Resolving distributes over concatenation of field lists.
proof fn lemma_resolve_append(
    m: Seq<(IPTCTag, Seq<Seq<char>>)>,
    a: Seq<(u8, u8, Seq<u8>)>,
    b: Seq<(u8, u8, Seq<u8>)>,
)
    ensures
        spec_resolve_fields(m, a + b) == spec_resolve_fields(spec_resolve_fields(m, a), b),
    decreases a.len(),
{
    if a.len() == 0 {
        assert(a + b =~= b);
    } else {
        assert((a + b)[0] == a[0]);
        assert((a + b).drop_first() =~= a.drop_first() + b);
        lemma_resolve_append(spec_apply_field(m, a[0]), a.drop_first(), b);
    }
}

/// Resolving the encoded values of one key merges exactly those values
/// onto whatever the store already holds for the key's tag, touching
/// no other tag.
proof fn lemma_resolve_values(
    m: Seq<(IPTCTag, Seq<Seq<char>>)>,
    record: u8,
    dataset: u8,
    info: crate::tags::TagInfo,
    done: Seq<Seq<char>>,
    vals: Seq<Seq<char>>,
)
    requires
        spec_lookup(record, dataset) == Some(info),
        store_has(m, info.tag) == (done.len() > 0),
        done.len() > 0 ==> store_values(m, info.tag) == done,
        forall|a: int, b: int|
            0 <= a < b < (done + vals).len() ==> !chars_ieq(
                #[trigger] (done + vals)[a],
                #[trigger] (done + vals)[b],
            ),
        !info.repeatable ==> done.len() + vals.len() <= 1,
        forall|j: int| 0 <= j < vals.len() ==> spec_value_clean(info.kind, #[trigger] vals[j]),
    ensures
        ({
            let r = spec_resolve_fields(m, spec_values_list(record, dataset, info.kind, vals));
            &&& store_has(r, info.tag) == (done.len() + vals.len() > 0)
            &&& (done + vals).len() > 0 ==> store_values(r, info.tag) == done + vals
            &&& forall|t: IPTCTag| t != info.tag ==> #[trigger] store_has(r, t) == store_has(m, t)
            &&& forall|t: IPTCTag|
                t != info.tag ==> #[trigger] store_values(r, t) == store_values(m, t)
        }),
    decreases vals.len(),
{
    let tag = info.tag;
    if vals.len() == 0 {
        assert(spec_values_list(record, dataset, info.kind, vals).len() == 0);
        assert(done + vals =~= done);
    } else {
        let v0 = vals[0];
        lemma_value_round_trip(info.kind, v0);
        let l = spec_values_list(record, dataset, info.kind, vals);
        assert(l[0] == (record, dataset, spec_field_payload(info.kind, v0)));
        assert(l.drop_first() =~= spec_values_list(record, dataset, info.kind, vals.drop_first()));
        let m1 = spec_apply_field(m, l[0]);
        assert(m1 == crate::store::store_merge(m, tag, info.repeatable, v0));
        crate::store::lemma_store_merge_values(m, tag, info.repeatable, v0);
        crate::store::lemma_store_merge_has(m, tag, info.repeatable, v0, tag);
        let old_vals = store_values(m, tag);
        if info.repeatable {
            assert(!crate::store::has_ieq(old_vals, v0)) by {
                if crate::store::has_ieq(old_vals, v0) {
                    let a = choose|a: int|
                        0 <= a < old_vals.len() && chars_ieq(old_vals[a], v0);
                    assert(done.len() > 0);
                    assert((done + vals)[a] == done[a]);
                    assert((done + vals)[done.len() as int] == v0);
                    assert(!chars_ieq((done + vals)[a], (done + vals)[done.len() as int]));
                }
            }
            assert(store_values(m1, tag) == old_vals.push(v0));
            if done.len() == 0 {
                assert(forall|j: int| 0 <= j < m.len() ==> (#[trigger] m[j]).0 != tag);
                crate::store::lemma_store_values_at(m, tag, m.len() as int);
                assert(old_vals =~= Seq::<Seq<char>>::empty());
                assert(old_vals.push(v0) =~= done.push(v0));
            } else {
                assert(old_vals.push(v0) =~= done.push(v0));
            }
        } else {
            assert(done.len() == 0);
            assert(store_values(m1, tag) == seq![v0]);
            assert(seq![v0] =~= done.push(v0));
        }
        assert(store_values(m1, tag) == done.push(v0));
        assert(done.push(v0) + vals.drop_first() =~= done + vals);
        assert(forall|j: int|
            0 <= j < vals.drop_first().len() ==> spec_value_clean(
                info.kind,
                #[trigger] vals.drop_first()[j],
            ));
        lemma_resolve_values(m1, record, dataset, info, done.push(v0), vals.drop_first());
        let r = spec_resolve_fields(m, l);
        assert(r == spec_resolve_fields(m1, l.drop_first()));
        let r_ih = spec_resolve_fields(
            m1,
            spec_values_list(record, dataset, info.kind, vals.drop_first()),
        );
        assert(r == r_ih);
        assert forall|t: IPTCTag| t != tag implies #[trigger] store_has(r, t) == store_has(
            m,
            t,
        ) by {
            assert(store_has(r_ih, t) == store_has(m1, t));
            crate::store::lemma_store_merge_frame(m, tag, info.repeatable, v0, t);
        }
        assert forall|t: IPTCTag| t != tag implies #[trigger] store_values(r, t) == store_values(
            m,
            t,
        ) by {
            assert(store_values(r_ih, t) == store_values(m1, t));
            crate::store::lemma_store_merge_frame(m, tag, info.repeatable, v0, t);
        }
    }
}

/// Resolving every key below `k` reconstructs exactly the entries of
/// the store whose tags fall below `k`, and no other.
#[verifier::rlimit(100)]
proof fn lemma_decode_upto(st: Seq<(IPTCTag, Seq<Seq<char>>)>, k: int)
    requires
        spec_store_round_trippable(st),
        0 <= k <= 65536,
    ensures
        ({
            let r = spec_resolve_fields(Seq::empty(), spec_list_upto(st, k));
            &&& forall|t: IPTCTag|
                0 <= tag_key(t) < k ==> #[trigger] store_has(r, t) == store_has(st, t)
            &&& forall|t: IPTCTag|
                0 <= tag_key(t) < k && store_has(st, t) ==> #[trigger] store_values(r, t)
                    == store_values(st, t)
            &&& forall|t: IPTCTag| !(0 <= tag_key(t) < k) ==> !(#[trigger] store_has(r, t))
        }),
    decreases k,
{
    if k == 0 {
        let r = spec_resolve_fields(Seq::empty(), spec_list_upto(st, 0));
        assert(spec_list_upto(st, 0).len() == 0);
        assert(forall|t: IPTCTag| !(#[trigger] store_has(Seq::<(IPTCTag, Seq<Seq<char>>)>::empty(), t)));
    } else {
        lemma_decode_upto(st, k - 1);
        let r0 = spec_resolve_fields(Seq::empty(), spec_list_upto(st, k - 1));
        lemma_resolve_append(Seq::empty(), spec_list_upto(st, k - 1), spec_key_list(st, k - 1));
        let r = spec_resolve_fields(r0, spec_key_list(st, k - 1));
        assert(spec_resolve_fields(Seq::empty(), spec_list_upto(st, k)) == r);
        let record = (((k - 1) / 256) % 256) as u8;
        let dataset = ((k - 1) % 256) as u8;
        match spec_lookup(record, dataset) {
            None => {
                assert(spec_key_list(st, k - 1).len() == 0);
                assert(r == r0);
                assert forall|t: IPTCTag| 0 <= tag_key(t) < k implies #[trigger] store_has(r, t)
                    == store_has(st, t) by {
                    if tag_key(t) == k - 1 {
                        lemma_tag_key(t);
                        assert(false);
                    }
                }
                assert forall|t: IPTCTag| !(0 <= tag_key(t) < k) implies !(#[trigger] store_has(
                    r,
                    t,
                )) by {}
            },
            Some(info) => {
                lemma_lookup_then_reverse(record, dataset);
                assert(spec_record_dataset(info.tag) == Some((record, dataset)));
                assert(tag_key(info.tag) == k - 1) by {
                    assert((record as int) * 256 + (dataset as int) == k - 1);
                }
                assert(spec_tag_info(info.tag) == Some(info));
                if store_has(st, info.tag) {
                    let w = choose|w: int|
                        0 <= w < st.len() && st[w].0 == info.tag;
                    assert(forall|j: int| 0 <= j < w ==> st[j].0 != info.tag);
                    crate::store::lemma_store_values_at(st, info.tag, w);
                    let vals = store_values(st, info.tag);
                    assert(vals == st[w].1);
                    assert(Seq::<Seq<char>>::empty() + vals =~= vals);
                    assert(!store_has(r0, info.tag));
                    lemma_resolve_values(r0, record, dataset, info, Seq::empty(), vals);
                    assert(store_values(r, info.tag) == Seq::<Seq<char>>::empty() + vals);
                    assert(store_values(r, info.tag) == vals);
                    assert(store_has(r, info.tag));
                    assert forall|t: IPTCTag| 0 <= tag_key(t) < k implies #[trigger] store_has(
                        r,
                        t,
                    ) == store_has(st, t) by {
                        if t == info.tag {
                        } else if tag_key(t) == k - 1 {
                            lemma_tag_key(t);
                            assert(false);
                        }
                    }
                    let r_rv = spec_resolve_fields(
                        r0,
                        spec_values_list(record, dataset, info.kind, vals),
                    );
                    assert(r == r_rv);
                    assert forall|t: IPTCTag|
                        0 <= tag_key(t) < k && store_has(st, t) implies #[trigger] store_values(
                        r,
                        t,
                    ) == store_values(st, t) by {
                        if t == info.tag {
                        } else if tag_key(t) == k - 1 {
                            lemma_tag_key(t);
                            assert(false);
                        } else {
                            assert(store_has(r_rv, t) == store_has(r0, t) && store_values(r_rv, t)
                                == store_values(r0, t));
                        }
                    }
                    assert forall|t: IPTCTag| !(0 <= tag_key(t) < k) implies !(
                    #[trigger] store_has(r, t)) by {
                        assert(t != info.tag);
                    }
                } else {
                    assert(spec_key_list(st, k - 1).len() == 0);
                    assert(r == r0);
                    assert forall|t: IPTCTag| 0 <= tag_key(t) < k implies #[trigger] store_has(
                        r,
                        t,
                    ) == store_has(st, t) by {
                        if tag_key(t) == k - 1 {
                            lemma_tag_key(t);
                            assert(t == info.tag);
                        }
                    }
                    assert forall|t: IPTCTag| !(0 <= tag_key(t) < k) implies !(
                    #[trigger] store_has(r, t)) by {}
                }
            },
        }
    }
}

/// The empty store is round-trippable.
pub proof fn lemma_empty_store_round_trippable()
    ensures
        spec_store_round_trippable(Seq::<(IPTCTag, Seq<Seq<char>>)>::empty()),
{
}

/// Setting a dictionary-known tag to a clean value keeps a store
/// round-trippable: the empty store is round-trippable, so any store
/// built by the tag-set operation from clean values stays within reach
/// of the round-trip laws.
pub proof fn lemma_merge_keeps_round_trippable(
    st: Seq<(IPTCTag, Seq<Seq<char>>)>,
    tag: IPTCTag,
    v: Seq<char>,
)
    requires
        spec_store_round_trippable(st),
        spec_tag_info(tag) is Some,
        spec_value_clean(spec_tag_info(tag)->Some_0.kind, v),
    ensures
        spec_store_round_trippable(
            crate::store::store_merge(st, tag, crate::tags::spec_repeatable(tag), v),
        ),
    decreases st.len(),
{
    let rep = crate::tags::spec_repeatable(tag);
    let kind = spec_tag_info(tag)->Some_0.kind;
    let r = crate::store::store_merge(st, tag, rep, v);
    if st.len() == 0 {
        assert(r =~= seq![(tag, seq![v])]);
        assert(r[0].1[0] == v);
        assert(r[0].1.len() == 1);
    } else if st[0].0 == tag {
        if rep && !crate::store::has_ieq(st[0].1, v) {
            assert(r[0] == (st[0].0, st[0].1.push(v)));
            assert(r.drop_first() =~= st.drop_first());
            assert forall|i: int| 0 <= i < r.len() implies (#[trigger] spec_tag_info(
                r[i].0,
            )) is Some && r[i].1.len() >= 1 && (!spec_tag_info(r[i].0)->Some_0.repeatable
                ==> r[i].1.len() == 1) by {
                if i > 0 {
                    assert(r[i] == st[i]);
                } else {
                    assert(spec_tag_info(tag)->Some_0.repeatable);
                }
            }
            assert forall|i: int, j: int| 0 <= i < j < r.len() implies r[i].0 != r[j].0 by {
                assert(r[i].0 == st[i].0 && r[j].0 == st[j].0);
            }
            assert forall|i: int, a: int, b: int|
                0 <= i < r.len() && 0 <= a < b < r[i].1.len() implies !chars_ieq(
                #[trigger] r[i].1[a],
                #[trigger] r[i].1[b],
            ) by {
                if i > 0 {
                    assert(r[i] == st[i]);
                } else {
                    if b < st[0].1.len() {
                        assert(r[0].1[a] == st[0].1[a] && r[0].1[b] == st[0].1[b]);
                    } else {
                        assert(r[0].1[b] == v);
                        assert(r[0].1[a] == st[0].1[a]);
                        assert(!chars_ieq(st[0].1[a], v));
                    }
                }
            }
            assert forall|i: int, j: int|
                0 <= i < r.len() && 0 <= j < r[i].1.len() implies spec_value_clean(
                spec_tag_info(r[i].0)->Some_0.kind,
                #[trigger] r[i].1[j],
            ) by {
                if i > 0 {
                    assert(r[i] == st[i]);
                } else {
                    if j < st[0].1.len() {
                        assert(r[0].1[j] == st[0].1[j]);
                    } else {
                        assert(r[0].1[j] == v);
                    }
                }
            }
        } else if !rep {
            assert(r[0] == (tag, seq![v]));
            assert(r.drop_first() =~= st.drop_first());
            assert forall|i: int, j: int| 0 <= i < j < r.len() implies r[i].0 != r[j].0 by {
                assert(r[i].0 == st[i].0 && r[j].0 == st[j].0);
            }
            assert forall|i: int| 0 <= i < r.len() implies (#[trigger] spec_tag_info(
                r[i].0,
            )) is Some && r[i].1.len() >= 1 && (!spec_tag_info(r[i].0)->Some_0.repeatable
                ==> r[i].1.len() == 1) by {
                if i > 0 {
                    assert(r[i] == st[i]);
                }
            }
            assert forall|i: int, a: int, b: int|
                0 <= i < r.len() && 0 <= a < b < r[i].1.len() implies !chars_ieq(
                #[trigger] r[i].1[a],
                #[trigger] r[i].1[b],
            ) by {
                if i > 0 {
                    assert(r[i] == st[i]);
                }
            }
            assert forall|i: int, j: int|
                0 <= i < r.len() && 0 <= j < r[i].1.len() implies spec_value_clean(
                spec_tag_info(r[i].0)->Some_0.kind,
                #[trigger] r[i].1[j],
            ) by {
                if i > 0 {
                    assert(r[i] == st[i]);
                } else {
                    assert(r[0].1[j] == v);
                }
            }
        }
    } else {
        assert(spec_store_round_trippable(st.drop_first())) by {
            let t = st.drop_first();
            assert(forall|i: int| 0 <= i < t.len() ==> t[i] == st[i + 1]);
        }
        lemma_merge_keeps_round_trippable(st.drop_first(), tag, v);
        let rr = crate::store::store_merge(st.drop_first(), tag, rep, v);
        assert(r[0] == st[0]);
        assert(r.drop_first() =~= rr);
        assert forall|i: int| 0 <= i < r.len() implies (#[trigger] spec_tag_info(
            r[i].0,
        )) is Some && r[i].1.len() >= 1 && (!spec_tag_info(r[i].0)->Some_0.repeatable ==> r[i].1.len()
            == 1) by {
            if i > 0 {
                assert(r[i] == rr[i - 1]);
            }
        }
        assert forall|i: int, j: int| 0 <= i < j < r.len() implies r[i].0 != r[j].0 by {
            if i == 0 {
                assert(r[j] == rr[j - 1]);
                if r[0].0 == rr[j - 1].0 {
                    crate::store::lemma_store_merge_has(st.drop_first(), tag, rep, v, st[0].0);
                    assert(crate::store::store_has(rr, st[0].0)) by {
                        assert(rr[j - 1].0 == st[0].0);
                    }
                    assert(crate::store::store_has(st.drop_first(), st[0].0));
                    let w = choose|w: int|
                        0 <= w < st.drop_first().len() && st.drop_first()[w].0 == st[0].0;
                    assert(st[w + 1].0 == st[0].0);
                    assert(false);
                }
            } else {
                assert(r[i] == rr[i - 1] && r[j] == rr[j - 1]);
            }
        }
        assert forall|i: int, a: int, b: int|
            0 <= i < r.len() && 0 <= a < b < r[i].1.len() implies !chars_ieq(
            #[trigger] r[i].1[a],
            #[trigger] r[i].1[b],
        ) by {
            if i > 0 {
                assert(r[i] == rr[i - 1]);
            } else {
                assert(r[0] == st[0]);
            }
        }
        assert forall|i: int, j: int|
            0 <= i < r.len() && 0 <= j < r[i].1.len() implies spec_value_clean(
            spec_tag_info(r[i].0)->Some_0.kind,
            #[trigger] r[i].1[j],
        ) by {
            if i > 0 {
                assert(r[i] == rr[i - 1]);
            } else {
                assert(r[0] == st[0]);
            }
        }
    }
}

/// Every payload of the per-key triples of a clean store fits the
/// 16-bit length field.
proof fn lemma_values_list_bound(
    record: u8,
    dataset: u8,
    kind: ValueKind,
    vals: Seq<Seq<char>>,
)
    requires
        forall|j: int| 0 <= j < vals.len() ==> spec_value_clean(kind, #[trigger] vals[j]),
    ensures
        forall|i: int|
            0 <= i < spec_values_list(record, dataset, kind, vals).len() ==> (
            #[trigger] spec_values_list(record, dataset, kind, vals)[i].2).len() <= 65535,
    decreases vals.len(),
{
    if vals.len() == 0 {
    } else {
        lemma_value_round_trip(kind, vals[0]);
        assert(forall|j: int|
            0 <= j < vals.drop_first().len() ==> spec_value_clean(
                kind,
                #[trigger] vals.drop_first()[j],
            ));
        lemma_values_list_bound(record, dataset, kind, vals.drop_first());
        let l = spec_values_list(record, dataset, kind, vals);
        let lr = spec_values_list(record, dataset, kind, vals.drop_first());
        assert forall|i: int| 0 <= i < l.len() implies (#[trigger] l[i].2).len() <= 65535 by {
            if i == 0 {
                assert(l[0].2 == spec_field_payload(kind, vals[0]));
            } else {
                assert(l[i] == lr[i - 1]);
            }
        }
    }
}

/// Every payload of a clean store's whole triple list fits the 16-bit
/// length field.
proof fn lemma_list_upto_bound(st: Seq<(IPTCTag, Seq<Seq<char>>)>, k: int)
    requires
        spec_store_round_trippable(st),
        0 <= k <= 65536,
    ensures
        forall|i: int|
            0 <= i < spec_list_upto(st, k).len() ==> (#[trigger] spec_list_upto(st, k)[i].2).len()
                <= 65535,
    decreases k,
{
    if k == 0 {
    } else {
        lemma_list_upto_bound(st, k - 1);
        let record = (((k - 1) / 256) % 256) as u8;
        let dataset = ((k - 1) % 256) as u8;
        let kl = spec_key_list(st, k - 1);
        assert(forall|i: int| 0 <= i < kl.len() ==> (#[trigger] kl[i].2).len() <= 65535) by {
            match spec_lookup(record, dataset) {
                Some(info) => {
                    if store_has(st, info.tag) {
                        let w = choose|w: int|
                            0 <= w < st.len() && st[w].0 == info.tag;
                        assert(forall|j: int| 0 <= j < w ==> st[j].0 != info.tag);
                        crate::store::lemma_store_values_at(st, info.tag, w);
                        lemma_lookup_then_reverse(record, dataset);
                        assert(spec_tag_info(info.tag) == Some(info));
                        assert(forall|j: int|
                            0 <= j < st[w].1.len() ==> spec_value_clean(
                                info.kind,
                                #[trigger] st[w].1[j],
                            ));
                        lemma_values_list_bound(record, dataset, info.kind, st[w].1);
                    }
                },
                None => {},
            }
        }
        let l = spec_list_upto(st, k);
        let l0 = spec_list_upto(st, k - 1);
        assert forall|i: int| 0 <= i < l.len() implies (#[trigger] l[i].2).len() <= 65535 by {
            if i < l0.len() {
                assert(l[i] == l0[i]);
            } else {
                assert(l[i] == kl[i - l0.len()]);
            }
        }
    }
}

/// The serialized container decodes to a store holding exactly the
/// tag/value pairs it was built from: the round trip over one APP13
/// region.  Entry order follows the dictionary's (record, dataset)
/// keys, so the stores are compared as mappings.
#[verifier::rlimit(100)]
pub proof fn lemma_block_round_trip(st: Seq<(IPTCTag, Seq<Seq<char>>)>)
    requires
        spec_store_round_trippable(st),
        crate::jpeg::spec_block_fits(st),
    ensures
        ({
            let g = crate::jpeg::spec_photoshop_block(st);
            &&& spec_decode_region(g) is Ok
            &&& forall|t: IPTCTag|
                #[trigger] store_has(spec_decode_region(g)->Ok_0, t) == store_has(st, t)
            &&& forall|t: IPTCTag|
                store_has(st, t) ==> #[trigger] store_values(spec_decode_region(g)->Ok_0, t)
                    == store_values(st, t)
        }),
{
    let fields = crate::jpeg::spec_store_fields(st);
    let flen = fields.len() as int;
    let g = crate::jpeg::spec_photoshop_block(st);
    let sig = crate::reader::sig13();
    let bim = crate::reader::marker_8bim();
    let base = sig + seq![0u8, 0u8] + bim + seq![0x04u8, 0x04u8, 0x00u8, 0x00u8]
        + crate::jpeg::u32_bytes(flen) + fields;
    assert(base.len() == 27 + flen);
    assert(g.len() + 2 <= 65535);
    assert(flen <= 65535);
    let b0 = ((flen / 16777216) % 256) as u8;
    let b1 = ((flen / 65536) % 256) as u8;
    let b2 = ((flen / 256) % 256) as u8;
    let b3 = (flen % 256) as u8;
    assert(b0 == 0 && b1 == 0);
    let hd = seq![
        80u8, 104u8, 111u8, 116u8, 111u8, 115u8, 104u8, 111u8, 112u8, 32u8, 51u8, 46u8, 48u8,
        0u8, 0u8, 0x38u8, 0x42u8, 0x49u8, 0x4du8, 0x04u8, 0x04u8, 0x00u8, 0x00u8, b0, b1, b2, b3,
    ];
    assert(sig + seq![0u8, 0u8] + bim + seq![0x04u8, 0x04u8, 0x00u8, 0x00u8]
        + crate::jpeg::u32_bytes(flen) =~= hd);
    assert(base =~= hd + fields);
    // The container is the base, plus a zero byte when the base length is odd.
    assert(g == base || g == base + seq![0u8]);
    assert forall|j: int| 0 <= j < base.len() implies g[j] == base[j] by {}
    assert forall|j: int| 0 <= j < 27 implies base[j] == hd[j] by {}
    assert(g.subrange(0, 13) =~= sig);
    assert(g.len() >= 13);
    // Walking the resource blocks: one step of resynchronisation past
    // the padding byte, then the single block.
    assert(g[14] == 0);
    assert(g.subrange(14, 18)[0] == g[14]);
    assert(g.subrange(14, 18) != bim) by {
        assert(g.subrange(14, 18)[0] == 0 && bim[0] == 0x38);
    }
    assert(g.subrange(15, 19) =~= bim);
    assert(g[19] == 0x04 && g[20] == 0x04 && g[21] == 0 && g[22] == 0);
    assert(g[23] == b0 && g[24] == b1 && g[25] == b2 && g[26] == b3);
    assert(crate::reader::u32_be(b0, b1, b2, b3) == flen) by {
        assert((flen / 256) % 256 == flen / 256);
        assert(flen == (flen / 256) * 256 + flen % 256);
    }
    assert(crate::reader::i16_be(0x04u8, 0x04u8) == 1028);
    let blocks = crate::reader::spec_scan_blocks(g, 14);
    assert(blocks =~= seq![(1028int, 27int, flen)]) by {
        assert(g.len() == 27 + flen || g.len() == 28 + flen);
        let nxt = vstd::math::min(27 + flen, g.len() as int);
        assert(crate::reader::spec_scan_blocks(g, nxt) =~= Seq::<(int, int, int)>::empty());
        assert(crate::reader::spec_scan_blocks(g, 15) =~= seq![(1028int, 27int, flen)]);
    }
    // The single block's fields are the encoded triple list.
    lemma_fields_bytes_list(st, 65536);
    let list = spec_list_upto(st, 65536);
    assert(fields == encode_list(list));
    assert(g.subrange(27, 27 + flen) =~= fields);
    lemma_list_upto_bound(st, 65536);
    lemma_scan_of_encoded(g, 27, list);
    assert(crate::reader::spec_scan_fields(g, 27, 27 + flen) == list);
    let r = spec_resolve_fields(Seq::empty(), list);
    assert(spec_decode_region(g) == Ok::<_, crate::FormatError>(r)) by {
        assert(vstd::math::min(g.len() as int, 27 + flen) == 27 + flen);
        assert(blocks.drop_first() =~= Seq::<(int, int, int)>::empty());
        assert(crate::reader::spec_decode_blocks(g, blocks.drop_first(), r) == r);
        assert(crate::reader::spec_decode_blocks(g, blocks, Seq::empty()) == r);
    }
    lemma_decode_upto(st, 65536);
    assert forall|t: IPTCTag| #[trigger] store_has(r, t) == store_has(st, t) by {
        if store_has(st, t) {
            let w = choose|w: int|
                0 <= w < st.len() && st[w].0 == t;
            assert(spec_tag_info(st[w].0) is Some);
            lemma_tag_key(t);
        } else {
            if 0 <= tag_key(t) < 65536 {
            } else {
                assert(!store_has(r, t));
            }
        }
    }
    assert forall|t: IPTCTag| store_has(st, t) implies #[trigger] store_values(r, t)
        == store_values(st, t) by {
        let w = choose|w: int|
            0 <= w < st.len() && st[w].0 == t;
        assert(spec_tag_info(st[w].0) is Some);
        lemma_tag_key(t);
    }
}

} // verus!
