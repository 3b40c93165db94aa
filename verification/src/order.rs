//! Ordering names without regard to case: the order of the client's channel
//! and user lists.
use vstd::prelude::*;
use crate::text::{chars_of, texts};

verus! {

broadcast use vstd::seq_lib::to_multiset_insert;

/// What `str::to_lowercase` gives for a text (full Unicode case mapping).
pub uninterp spec fn lowercase(s: Seq<char>) -> Seq<char>;

/// `str::to_lowercase` of std. Claimed: the result is `lowercase` of the
/// argument, the same for the same text every time; what the Unicode
/// mapping does to each character is left unsaid.
#[verifier::external_body]
pub(crate) fn to_lowercase(s: &str) -> (r: String)
    ensures
        r@ == lowercase(s@),
{
    s.to_lowercase()
}

/// `a` comes before `b` or equals it, comparing character codes from the
/// left, a prefix first (the order of `str`).
pub open spec fn text_le(a: Seq<char>, b: Seq<char>) -> bool
    decreases a.len(),
{
    if a.len() == 0 {
        true
    } else if b.len() == 0 {
        false
    } else if a[0] != b[0] {
        a[0] < b[0]
    } else {
        text_le(a.skip(1), b.skip(1))
    }
}

/// Either text comes first, or both are equal.
pub proof fn lemma_text_le_total(a: Seq<char>, b: Seq<char>)
    ensures
        text_le(a, b) || text_le(b, a),
    decreases a.len(),
{
    if a.len() > 0 && b.len() > 0 {
        if a[0] == b[0] {
            lemma_text_le_total(a.skip(1), b.skip(1));
        }
    }
}

/// The order is transitive.
pub proof fn lemma_text_le_trans(a: Seq<char>, b: Seq<char>, c: Seq<char>)
    requires
        text_le(a, b),
        text_le(b, c),
    ensures
        text_le(a, c),
    decreases a.len(),
{
    if a.len() > 0 && b.len() > 0 && c.len() > 0 && a[0] == b[0] && b[0] == c[0] {
        lemma_text_le_trans(a.skip(1), b.skip(1), c.skip(1));
    }
}

/// Whether `a` comes before `b` or equals it.
pub fn text_le_exec(a: &str, b: &str) -> (r: bool)
    ensures
        r == text_le(a@, b@),
{
    let va = chars_of(a);
    let vb = chars_of(b);
    let mut i: usize = 0;
    assert(va@.skip(0) =~= va@);
    assert(vb@.skip(0) =~= vb@);
    while i < va.len() && i < vb.len() && va[i] == vb[i]
        invariant
            va@ == a@,
            vb@ == b@,
            i <= va.len(),
            i <= vb.len(),
            text_le(a@, b@) == text_le(va@.skip(i as int), vb@.skip(i as int)),
        decreases va.len() - i,
    {
        assert(va@.skip(i as int).skip(1) =~= va@.skip(i + 1));
        assert(vb@.skip(i as int).skip(1) =~= vb@.skip(i + 1));
        i += 1;
    }
    if i == va.len() {
        true
    } else if i == vb.len() {
        false
    } else {
        assert(va@.skip(i as int)[0] == va@[i as int]);
        assert(vb@.skip(i as int)[0] == vb@[i as int]);
        va[i] < vb[i]
    }
}

/// How many leading entries of `l` have a key that comes before `k` or
/// equals it: where an entry with key `k` goes in a sorted list.
pub open spec fn insert_pos(l: Seq<(Seq<char>, Seq<char>)>, k: Seq<char>) -> nat
    decreases l.len(),
{
    if l.len() == 0 {
        0
    } else if text_le(l[0].0, k) {
        1 + insert_pos(l.skip(1), k)
    } else {
        0
    }
}

/// `(key, item)` pairs in a stable order by key: each pair goes after all
/// earlier pairs whose key comes before its key or equals it.
pub open spec fn sort_by_key(s: Seq<(Seq<char>, Seq<char>)>) -> Seq<(Seq<char>, Seq<char>)>
    decreases s.len(),
{
    if s.len() == 0 {
        s
    } else {
        let l = sort_by_key(s.drop_last());
        l.insert(insert_pos(l, s.last().0) as int, s.last())
    }
}

/// Each name paired with its lowercase form.
pub open spec fn keyed(names: Seq<Seq<char>>) -> Seq<(Seq<char>, Seq<char>)> {
    names.map_values(|n: Seq<char>| (lowercase(n), n))
}

/// The names, stably sorted by their lowercase forms
/// (`sort_by_key(|n| n.to_lowercase())`).
pub open spec fn sorted_by_lowercase(names: Seq<Seq<char>>) -> Seq<Seq<char>> {
    sort_by_key(keyed(names)).map_values(|p: (Seq<char>, Seq<char>)| p.1)
}

/// Whether the keys of `l` never go down.
pub open spec fn keys_sorted(l: Seq<(Seq<char>, Seq<char>)>) -> bool {
    forall|i: int, j: int| 0 <= i < j < l.len() ==> text_le(#[trigger] l[i].0, #[trigger] l[j].0)
}

proof fn lemma_insert_pos(l: Seq<(Seq<char>, Seq<char>)>, k: Seq<char>, p: int)
    requires
        0 <= p <= l.len(),
        forall|j: int| 0 <= j < p ==> text_le(#[trigger] l[j].0, k),
        p < l.len() ==> !text_le(l[p].0, k),
    ensures
        insert_pos(l, k) == p,
    decreases p,
{
    if p > 0 {
        assert forall|j: int| 0 <= j < p - 1 implies text_le(#[trigger] l.skip(1)[j].0, k) by {
            assert(l.skip(1)[j] == l[j + 1]);
        }
        lemma_insert_pos(l.skip(1), k, p - 1);
    }
}

proof fn lemma_insert_pos_bounds(l: Seq<(Seq<char>, Seq<char>)>, k: Seq<char>)
    requires
        keys_sorted(l),
    ensures
        insert_pos(l, k) <= l.len(),
        forall|j: int| 0 <= j < insert_pos(l, k) ==> text_le(#[trigger] l[j].0, k),
        forall|j: int| insert_pos(l, k) <= j < l.len() ==> !text_le(#[trigger] l[j].0, k),
    decreases l.len(),
{
    if l.len() > 0 {
        let t = l.skip(1);
        assert forall|i: int, j: int| 0 <= i < j < t.len() implies text_le(
            #[trigger] t[i].0,
            #[trigger] t[j].0,
        ) by {
            assert(t[i] == l[i + 1]);
            assert(t[j] == l[j + 1]);
        }
        lemma_insert_pos_bounds(t, k);
        if text_le(l[0].0, k) {
            assert forall|j: int| 0 <= j < insert_pos(l, k) implies text_le(#[trigger] l[j].0, k) by {
                if j > 0 {
                    assert(l[j] == t[j - 1]);
                }
            }
            assert forall|j: int| insert_pos(l, k) <= j < l.len() implies !text_le(
                #[trigger] l[j].0,
                k,
            ) by {
                assert(l[j] == t[j - 1]);
            }
        } else {
            assert forall|j: int| 0 <= j < l.len() implies !text_le(#[trigger] l[j].0, k) by {
                if j > 0 && text_le(l[j].0, k) {
                    lemma_text_le_trans(l[0].0, l[j].0, k);
                }
            }
        }
    }
}

/// A stable sort by key gives a list whose keys never go down, holding the
/// same pairs as before.
pub proof fn lemma_sort_by_key(s: Seq<(Seq<char>, Seq<char>)>)
    ensures
        keys_sorted(sort_by_key(s)),
        sort_by_key(s).to_multiset() == s.to_multiset(),
        sort_by_key(s).len() == s.len(),
    decreases s.len(),
{
    if s.len() > 0 {
        let l = sort_by_key(s.drop_last());
        lemma_sort_by_key(s.drop_last());
        let x = s.last();
        lemma_insert_pos_bounds(l, x.0);
        let p = insert_pos(l, x.0) as int;
        let r = l.insert(p, x);
        assert forall|i: int, j: int| 0 <= i < j < r.len() implies text_le(
            #[trigger] r[i].0,
            #[trigger] r[j].0,
        ) by {
            if j < p {
                assert(r[i] == l[i] && r[j] == l[j]);
            } else if j == p {
                assert(r[i] == l[i]);
            } else if i < p {
                assert(r[i] == l[i] && r[j] == l[j - 1]);
            } else if i == p {
                assert(r[j] == l[j - 1]);
                lemma_text_le_total(l[j - 1].0, x.0);
            } else {
                assert(r[i] == l[i - 1] && r[j] == l[j - 1]);
            }
        }
        assert(s.drop_last().push(x) =~= s);
        vstd::seq_lib::to_multiset_build(s.drop_last(), x);
    }
}

/// The names in the list, stably sorted by their lowercase forms; the result
/// holds the same names, in an order where lowercase forms never go down.
pub fn sort_by_lowercase(names: &Vec<String>) -> (r: Vec<String>)
    ensures
        texts(r@) == sorted_by_lowercase(texts(names@)),
{
    let ghost input = keyed(texts(names@));
    let mut sorted: Vec<(String, String)> = Vec::new();
    let mut i: usize = 0;
    while i < names.len()
        invariant
            input == keyed(texts(names@)),
            i <= names.len(),
            crate::text::pair_texts(sorted@) == sort_by_key(input.take(i as int)),
        decreases names.len() - i,
    {
        let key = to_lowercase(names[i].as_str());
        let ghost l = crate::text::pair_texts(sorted@);
        let ghost x = input[i as int];
        assert(x == (key@, names@[i as int]@));
        proof {
            lemma_sort_by_key(input.take(i as int));
        }
        let mut pos: usize = 0;
        while pos < sorted.len() && text_le_exec(sorted[pos].0.as_str(), key.as_str())
            invariant
                l == crate::text::pair_texts(sorted@),
                keys_sorted(l),
                pos <= sorted.len(),
                forall|j: int| 0 <= j < pos ==> text_le(#[trigger] l[j].0, key@),
            decreases sorted.len() - pos,
        {
            assert(l[pos as int] == (sorted@[pos as int].0@, sorted@[pos as int].1@));
            pos += 1;
        }
        proof {
            if pos < sorted.len() {
                assert(l[pos as int] == (sorted@[pos as int].0@, sorted@[pos as int].1@));
            }
            lemma_insert_pos(l, key@, pos as int);
        }
        sorted.insert(pos, (key, names[i].clone()));
        assert(input.take(i + 1).drop_last() =~= input.take(i as int));
        assert(input.take(i + 1).last() == x);
        assert(crate::text::pair_texts(sorted@) =~= l.insert(pos as int, x));
        i += 1;
    }
    assert(input.take(names.len() as int) =~= input);
    let mut r: Vec<String> = Vec::new();
    let mut k: usize = 0;
    let ghost out = sort_by_key(input);
    let ghost proj = out.map_values(|p: (Seq<char>, Seq<char>)| p.1);
    while k < sorted.len()
        invariant
            out == crate::text::pair_texts(sorted@),
            proj == out.map_values(|p: (Seq<char>, Seq<char>)| p.1),
            k <= sorted.len(),
            texts(r@) == proj.take(k as int),
        decreases sorted.len() - k,
    {
        let ghost prev = texts(r@);
        r.push(sorted[k].1.clone());
        assert(out[k as int].1 == sorted@[k as int].1@);
        assert(proj[k as int] == out[k as int].1);
        assert(texts(r@) =~= prev.push(proj[k as int]));
        assert(proj.take(k + 1) =~= proj.take(k as int).push(proj[k as int]));
        k += 1;
    }
    assert(proj.take(sorted.len() as int) =~= proj);
    r
}

} // verus!
