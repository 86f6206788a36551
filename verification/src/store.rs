//! The metadata store model: a mapping from tags to ordered value
//! sequences, with the merge rules for repeatable and non-repeatable
//! fields and the case-insensitive value comparison they rest on.

use vstd::prelude::*;

use crate::tags::IPTCTag;

verus! {

impl View for IPTCTag {
    type V = IPTCTag;

    open spec fn view(&self) -> IPTCTag {
        *self
    }
}

impl DeepView for IPTCTag {
    type V = IPTCTag;

    open spec fn deep_view(&self) -> IPTCTag {
        *self
    }
}

/// The ASCII-lower-case image of a Unicode scalar value: the upper-case
/// letters fold onto their lower-case forms, everything else is itself.
pub open spec fn lower_scalar(u: u32) -> int {
    if 65 <= u && u <= 90 {
        u + 32
    } else {
        u as int
    }
}

/// Two characters are equal under ASCII case folding.
pub open spec fn char_ieq(x: char, y: char) -> bool {
    lower_scalar(x as u32) == lower_scalar(y as u32)
}

/// Two strings are equal under ASCII case folding, character by
/// character.
pub open spec fn chars_ieq(a: Seq<char>, b: Seq<char>) -> bool {
    a.len() == b.len() && (forall|i: int| 0 <= i < a.len() ==> char_ieq(a[i], b[i]))
}

/// Some value of the sequence equals `v` under ASCII case folding.
pub open spec fn has_ieq(vals: Seq<Seq<char>>, v: Seq<char>) -> bool {
    exists|j: int| 0 <= j < vals.len() && chars_ieq(vals[j], v)
}

/// The caller-visible metadata model: tag entries in insertion order,
/// each holding the tag's values in encounter order.
pub open spec fn store_has(m: Seq<(IPTCTag, Seq<Seq<char>>)>, tag: IPTCTag) -> bool {
    exists|i: int| 0 <= i < m.len() && m[i].0 == tag
}

/// The values held for a tag at its first entry; empty when the tag is
/// absent.
pub open spec fn store_values(m: Seq<(IPTCTag, Seq<Seq<char>>)>, tag: IPTCTag) -> Seq<
    Seq<char>,
>
    decreases m.len(),
{
    if m.len() == 0 {
        Seq::empty()
    } else if m[0].0 == tag {
        m[0].1
    } else {
        store_values(m.drop_first(), tag)
    }
}

/// The values a store holds for the tag first found at index `i`.
pub proof fn lemma_store_values_at(m: Seq<(IPTCTag, Seq<Seq<char>>)>, tag: IPTCTag, i: int)
    requires
        0 <= i <= m.len(),
        forall|j: int| 0 <= j < i ==> m[j].0 != tag,
        i < m.len() ==> m[i].0 == tag,
    ensures
        i < m.len() ==> store_values(m, tag) == m[i].1,
        i == m.len() ==> store_values(m, tag) == Seq::<Seq<char>>::empty(),
        i == m.len() ==> !store_has(m, tag),
    decreases m.len(),
{
    if m.len() == 0 {
    } else if m[0].0 == tag {
    } else {
        assert(forall|j: int| 0 <= j < m.drop_first().len() && m.drop_first()[j].0 == tag
            ==> m[j + 1].0 == tag);
        lemma_store_values_at(m.drop_first(), tag, i - 1);
    }
}

/// One value merged into the store: a new tag opens an entry at the
/// end; a repeatable tag accumulates the value unless one equal under
/// ASCII case folding is already held; a non-repeatable tag is
/// overwritten in place by the latest value.
pub open spec fn store_merge(
    m: Seq<(IPTCTag, Seq<Seq<char>>)>,
    tag: IPTCTag,
    repeatable: bool,
    v: Seq<char>,
) -> Seq<(IPTCTag, Seq<Seq<char>>)>
    decreases m.len(),
{
    if m.len() == 0 {
        seq![(tag, seq![v])]
    } else if m[0].0 == tag {
        if repeatable {
            if has_ieq(m[0].1, v) {
                m
            } else {
                seq![(m[0].0, m[0].1.push(v))] + m.drop_first()
            }
        } else {
            seq![(tag, seq![v])] + m.drop_first()
        }
    } else {
        seq![m[0]] + store_merge(m.drop_first(), tag, repeatable, v)
    }
}

/// Merging touches no entry of another tag.
pub proof fn lemma_store_merge_frame(
    m: Seq<(IPTCTag, Seq<Seq<char>>)>,
    tag: IPTCTag,
    repeatable: bool,
    v: Seq<char>,
    other: IPTCTag,
)
    requires
        other != tag,
    ensures
        store_values(store_merge(m, tag, repeatable, v), other) == store_values(m, other),
        store_has(store_merge(m, tag, repeatable, v), other) == store_has(m, other),
    decreases m.len(),
{
    lemma_store_merge_has(m, tag, repeatable, v, other);
    let r = store_merge(m, tag, repeatable, v);
    if m.len() == 0 {
        assert(r.len() == 1 && r[0].0 == tag);
        assert(r.drop_first() =~= Seq::<(IPTCTag, Seq<Seq<char>>)>::empty());
        assert(store_values(r, other) == store_values(r.drop_first(), other));
    } else if m[0].0 == tag {
        if repeatable && !has_ieq(m[0].1, v) {
            assert(r[0].0 == tag);
            assert(r.drop_first() =~= m.drop_first());
            assert(store_values(r, other) == store_values(m.drop_first(), other));
        } else if !repeatable {
            assert(r[0].0 == tag);
            assert(r.drop_first() =~= m.drop_first());
            assert(store_values(r, other) == store_values(m.drop_first(), other));
        }
    } else {
        lemma_store_merge_frame(m.drop_first(), tag, repeatable, v, other);
        assert(r[0] == m[0]);
        assert(r.drop_first() =~= store_merge(m.drop_first(), tag, repeatable, v));
        assert(store_values(r, other) == store_values(r.drop_first(), other) || (m[0].0 == other
            && store_values(r, other) == r[0].1));
    }
}

/// Which tags a store holds after a merge: the merged tag, and exactly
/// the tags held before.
pub proof fn lemma_store_merge_has(
    m: Seq<(IPTCTag, Seq<Seq<char>>)>,
    tag: IPTCTag,
    repeatable: bool,
    v: Seq<char>,
    other: IPTCTag,
)
    ensures
        store_has(store_merge(m, tag, repeatable, v), tag),
        other != tag ==> store_has(store_merge(m, tag, repeatable, v), other) == store_has(
            m,
            other,
        ),
    decreases m.len(),
{
    let r = store_merge(m, tag, repeatable, v);
    if m.len() == 0 {
        assert(r[0].0 == tag);
    } else if m[0].0 == tag {
        assert(r[0].0 == tag);
        if other != tag {
            if repeatable && has_ieq(m[0].1, v) {
            } else {
                assert(r.drop_first() =~= m.drop_first());
                assert forall|i: int| 0 <= i < m.len() && m[i].0 == other implies store_has(
                    r,
                    other,
                ) by {
                    assert(i > 0);
                    assert(r[i] == m[i]);
                }
                assert forall|i: int| 0 <= i < r.len() && r[i].0 == other implies store_has(
                    m,
                    other,
                ) by {
                    assert(i > 0);
                    assert(r[i] == m[i]);
                }
            }
        }
    } else {
        lemma_store_merge_has(m.drop_first(), tag, repeatable, v, other);
        let rr = store_merge(m.drop_first(), tag, repeatable, v);
        assert(r.drop_first() =~= rr);
        assert forall|i: int| 0 <= i < rr.len() && rr[i].0 == tag implies store_has(r, tag) by {
            assert(r[i + 1] == rr[i]);
        }
        if other != tag {
            assert forall|i: int| 0 <= i < m.len() && m[i].0 == other implies store_has(
                r,
                other,
            ) by {
                if i == 0 {
                    assert(r[0] == m[0]);
                } else {
                    assert(store_has(m.drop_first(), other)) by {
                        assert(m.drop_first()[i - 1].0 == other);
                    }
                    let w = choose|w: int|
                        0 <= w < rr.len() && rr[w].0 == other;
                    assert(r[w + 1] == rr[w]);
                }
            }
            assert forall|i: int| 0 <= i < r.len() && r[i].0 == other implies store_has(
                m,
                other,
            ) by {
                if i == 0 {
                    assert(r[0] == m[0]);
                } else {
                    assert(rr[i - 1].0 == other);
                    assert(store_has(m.drop_first(), other));
                    let w = choose|w: int|
                        0 <= w < m.drop_first().len() && m.drop_first()[w].0 == other;
                    assert(m[w + 1] == m.drop_first()[w]);
                }
            }
        }
    }
}

/// What merging leaves as the tag's own values: the latest value alone
/// for a non-repeatable tag, the old values extended by the new one for
/// a repeatable tag, unless an ASCII-case-insensitive copy was already
/// held.
pub proof fn lemma_store_merge_values(
    m: Seq<(IPTCTag, Seq<Seq<char>>)>,
    tag: IPTCTag,
    repeatable: bool,
    v: Seq<char>,
)
    ensures
        !repeatable ==> store_values(store_merge(m, tag, repeatable, v), tag) == seq![v],
        repeatable && has_ieq(store_values(m, tag), v) ==> store_merge(m, tag, repeatable, v)
            == m,
        repeatable && !has_ieq(store_values(m, tag), v) ==> store_values(
            store_merge(m, tag, repeatable, v),
            tag,
        ) == store_values(m, tag).push(v),
    decreases m.len(),
{
    if m.len() == 0 {
    } else if m[0].0 == tag {
        if repeatable && !has_ieq(m[0].1, v) {
            assert(store_merge(m, tag, repeatable, v).drop_first() =~= m.drop_first());
        } else if !repeatable {
            assert(store_merge(m, tag, repeatable, v).drop_first() =~= m.drop_first());
        }
    } else {
        lemma_store_merge_values(m.drop_first(), tag, repeatable, v);
        assert(store_merge(m, tag, repeatable, v).drop_first() =~= store_merge(
            m.drop_first(),
            tag,
            repeatable,
            v,
        ));
    }
}

/// Case-insensitive string comparison under ASCII case folding, the
/// rule by which repeatable values are deduplicated.
pub fn eq_ignore_case(a: &str, b: &str) -> (r: bool)
    ensures
        r == chars_ieq(a@, b@),
{
    let n = a.unicode_len();
    if n != b.unicode_len() {
        return false;
    }
    let mut i: usize = 0;
    while i < n
        invariant
            n == a@.len(),
            n == b@.len(),
            0 <= i <= n,
            forall|k: int| 0 <= k < i ==> char_ieq(a@[k], b@[k]),
        decreases n - i,
    {
        let x = a.get_char(i) as u32;
        let y = b.get_char(i) as u32;
        let xl: u32 = if 65 <= x && x <= 90 {
            x + 32
        } else {
            x
        };
        let yl: u32 = if 65 <= y && y <= 90 {
            y + 32
        } else {
            y
        };
        if xl != yl {
            assert(!char_ieq(a@[i as int], b@[i as int]));
            return false;
        }
        i += 1;
    }
    true
}

/// Exact string comparison, character by character.
pub fn str_eq(a: &str, b: &str) -> (r: bool)
    ensures
        r == (a@ == b@),
{
    let n = a.unicode_len();
    if n != b.unicode_len() {
        return false;
    }
    let mut i: usize = 0;
    while i < n
        invariant
            n == a@.len(),
            n == b@.len(),
            0 <= i <= n,
            forall|k: int| 0 <= k < i ==> a@[k] == b@[k],
        decreases n - i,
    {
        if a.get_char(i) != b.get_char(i) {
            assert(a@[i as int] != b@[i as int]);
            return false;
        }
        i += 1;
    }
    assert(a@ =~= b@);
    true
}

/// Whether some held value equals `v` under ASCII case folding.
fn values_contain_ieq(vals: &Vec<String>, v: &str) -> (r: bool)
    ensures
        r == has_ieq(vals.deep_view(), v@),
{
    let mut j: usize = 0;
    while j < vals.len()
        invariant
            0 <= j <= vals.len(),
            forall|k: int| 0 <= k < j ==> !chars_ieq(vals.deep_view()[k], v@),
        decreases vals.len() - j,
    {
        if eq_ignore_case(vals[j].as_str(), v) {
            assert(chars_ieq(vals.deep_view()[j as int], v@));
            return true;
        }
        j += 1;
    }
    false
}

/// Helper for the in-place update of `merge_value`: with no earlier
/// entry for the tag, the merge acts at the first entry that holds it,
/// or appends a fresh entry when none does.
proof fn lemma_store_merge_at(
    m: Seq<(IPTCTag, Seq<Seq<char>>)>,
    tag: IPTCTag,
    repeatable: bool,
    v: Seq<char>,
    i: int,
)
    requires
        0 <= i <= m.len(),
        forall|j: int| 0 <= j < i ==> m[j].0 != tag,
        i < m.len() ==> m[i].0 == tag,
        i == m.len() ==> !store_has(m, tag),
    ensures
        i == m.len() ==> store_merge(m, tag, repeatable, v) == m.push((tag, seq![v])),
        i < m.len() && repeatable && has_ieq(m[i].1, v) ==> store_merge(m, tag, repeatable, v)
            == m,
        i < m.len() && repeatable && !has_ieq(m[i].1, v) ==> store_merge(m, tag, repeatable, v)
            == m.update(i, (tag, m[i].1.push(v))),
        i < m.len() && !repeatable ==> store_merge(m, tag, repeatable, v) == m.update(
            i,
            (tag, seq![v]),
        ),
    decreases m.len(),
{
    if m.len() == 0 {
        assert(store_merge(m, tag, repeatable, v) =~= m.push((tag, seq![v])));
    } else if m[0].0 == tag {
        if repeatable {
            if !has_ieq(m[0].1, v) {
                assert(store_merge(m, tag, repeatable, v) =~= m.update(0, (tag, m[0].1.push(v))));
            }
        } else {
            assert(store_merge(m, tag, repeatable, v) =~= m.update(0, (tag, seq![v])));
        }
    } else {
        lemma_store_merge_at(m.drop_first(), tag, repeatable, v, i - 1);
        if i == m.len() {
            assert(store_merge(m, tag, repeatable, v) =~= m.push((tag, seq![v])));
        } else if repeatable && has_ieq(m[i].1, v) {
            assert(store_merge(m, tag, repeatable, v) =~= m);
        } else if repeatable {
            assert(store_merge(m, tag, repeatable, v) =~= m.update(i, (tag, m[i].1.push(v))));
        } else {
            assert(store_merge(m, tag, repeatable, v) =~= m.update(i, (tag, seq![v])));
        }
    }
}

/// One value merged into the caller-visible store, by the rule of
/// `store_merge`.
pub fn merge_value(
    data: &mut Vec<(IPTCTag, Vec<String>)>,
    tag: IPTCTag,
    repeatable: bool,
    value: String,
)
    ensures
        final(data).deep_view() == store_merge(old(data).deep_view(), tag, repeatable, value@),
{
    let ghost m = old(data).deep_view();
    let mut i: usize = 0;
    loop
        invariant
            data == old(data),
            0 <= i <= data.len(),
            forall|j: int| 0 <= j < i ==> data.deep_view()[j].0 != tag,
        ensures
            0 <= i <= data.len(),
            forall|j: int| 0 <= j < i ==> data.deep_view()[j].0 != tag,
            i < data.len() ==> data.deep_view()[i as int].0 == tag,
            i == data.len() ==> !store_has(data.deep_view(), tag),
        decreases data.len() - i,
    {
        if i == data.len() {
            break ;
        }
        if data[i].0 == tag {
            break ;
        }
        i += 1;
    }
    proof {
        lemma_store_merge_at(m, tag, repeatable, value@, i as int);
    }
    if i == data.len() {
        let mut vals: Vec<String> = Vec::new();
        vals.push(value);
        data.push((tag, vals));
        assert(data.deep_view() =~~= store_merge(m, tag, repeatable, value@));
    } else {
        if repeatable {
            if !values_contain_ieq(&data[i].1, value.as_str()) {
                let mut pair = data.remove(i);
                pair.1.push(value);
                data.insert(i, pair);
                assert(data.deep_view() =~~= store_merge(m, tag, repeatable, value@));
            } else {
                assert(data.deep_view() =~~= store_merge(m, tag, repeatable, value@));
            }
        } else {
            let mut vals: Vec<String> = Vec::new();
            vals.push(value);
            let _ = data.remove(i);
            data.insert(i, (tag, vals));
            assert(data.deep_view() =~~= store_merge(m, tag, repeatable, value@));
        }
    }
}

} // verus!
