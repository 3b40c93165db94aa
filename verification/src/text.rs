//! Character-level text handling: whitespace, trimming, comparison and
//! splitting, each stated over the `Seq<char>` view of a string.
use vstd::prelude::*;

verus! {

/// Appends one character to a `String` (`String::push` of std).
/// Claimed: the new contents are the old contents followed by `c`.
#[verifier::external_body]
pub(crate) fn push_char(s: &mut String, c: char)
    ensures
        final(s)@ == old(s)@.push(c),
{
    s.push(c);
}

/// The characters of `s`, in order.
pub fn chars_of(s: &str) -> (v: Vec<char>)
    ensures
        v@ == s@,
{
    let mut v: Vec<char> = Vec::new();
    for c in it: s.chars()
        invariant
            v@ == it.seq().take(it.index() as int),
            it.seq() == s@,
    {
        v.push(c);
    }
    v
}

/// A new string made of `v[lo..hi]`.
pub fn string_of_range(v: &Vec<char>, lo: usize, hi: usize) -> (r: String)
    requires
        lo <= hi <= v.len(),
    ensures
        r@ == v@.subrange(lo as int, hi as int),
{
    let mut r = String::new();
    let mut i: usize = lo;
    while i < hi
        invariant
            lo <= i <= hi <= v.len(),
            r@ == v@.subrange(lo as int, i as int),
        decreases hi - i,
    {
        push_char(&mut r, v[i]);
        i += 1;
        assert(r@ =~= v@.subrange(lo as int, i as int));
    }
    r
}

/// A new string holding the characters of `v`.
pub fn string_of_chars(v: &Vec<char>) -> (r: String)
    ensures
        r@ == v@,
{
    let r = string_of_range(v, 0, v.len());
    assert(v@.subrange(0, v@.len() as int) =~= v@);
    r
}

/// A copy of `s` as an owned string.
pub fn owned(s: &str) -> (r: String)
    ensures
        r@ == s@,
{
    string_of_chars(&chars_of(s))
}

/// `a` followed by `b`.
pub fn concat(a: &str, b: &str) -> (r: String)
    ensures
        r@ == a@ + b@,
{
    let mut r = owned(a);
    let vb = chars_of(b);
    let mut i: usize = 0;
    while i < vb.len()
        invariant
            i <= vb.len(),
            r@ == a@ + vb@.take(i as int),
        decreases vb.len() - i,
    {
        push_char(&mut r, vb[i]);
        i += 1;
        assert(r@ =~= a@ + vb@.take(i as int));
    }
    assert(vb@.take(vb@.len() as int) =~= vb@);
    r
}

/// Whether two strings hold the same characters.
pub fn same_text(a: &str, b: &str) -> (eq: bool)
    ensures
        eq == (a@ == b@),
{
    let va = chars_of(a);
    let vb = chars_of(b);
    if va.len() != vb.len() {
        return false;
    }
    let mut i: usize = 0;
    while i < va.len()
        invariant
            va@ == a@,
            vb@ == b@,
            va.len() == vb.len(),
            i <= va.len(),
            forall|j: int| 0 <= j < i ==> va@[j] == vb@[j],
        decreases va.len() - i,
    {
        if va[i] != vb[i] {
            return false;
        }
        i += 1;
    }
    assert(va@ =~= vb@);
    true
}

/// Unicode `White_Space`, the set that `char::is_whitespace` documents.
pub open spec fn is_ws(c: char) -> bool {
    let n = c as u32;
    ||| 0x09 <= n <= 0x0d
    ||| n == 0x20
    ||| n == 0x85
    ||| n == 0xa0
    ||| n == 0x1680
    ||| 0x2000 <= n <= 0x200a
    ||| n == 0x2028
    ||| n == 0x2029
    ||| n == 0x202f
    ||| n == 0x205f
    ||| n == 0x3000
}

/// Whether `c` is Unicode whitespace.
pub fn is_whitespace(c: char) -> (b: bool)
    ensures
        b == is_ws(c),
{
    let n = c as u32;
    (0x09 <= n && n <= 0x0d) || n == 0x20 || n == 0x85 || n == 0xa0 || n == 0x1680 || (0x2000
        <= n && n <= 0x200a) || n == 0x2028 || n == 0x2029 || n == 0x202f || n == 0x205f || n
        == 0x3000
}

/// `s` without its leading whitespace.
pub open spec fn trim_start(s: Seq<char>) -> Seq<char>
    decreases s.len(),
{
    if s.len() > 0 && is_ws(s[0]) {
        trim_start(s.drop_first())
    } else {
        s
    }
}

/// `s` without its trailing whitespace.
pub open spec fn trim_end(s: Seq<char>) -> Seq<char>
    decreases s.len(),
{
    if s.len() > 0 && is_ws(s.last()) {
        trim_end(s.drop_last())
    } else {
        s
    }
}

/// `s` without leading and trailing whitespace (`str::trim`).
pub open spec fn trimmed(s: Seq<char>) -> Seq<char> {
    trim_end(trim_start(s))
}

/// Whether `s` neither starts nor ends with whitespace.
pub open spec fn no_outer_ws(s: Seq<char>) -> bool {
    s.len() > 0 ==> !is_ws(s[0]) && !is_ws(s.last())
}

proof fn lemma_trim_start_shape(s: Seq<char>)
    ensures
        exists|k: int|
            0 <= k <= s.len() && trim_start(s) == s.skip(k) && (forall|j: int|
                0 <= j < k ==> is_ws(#[trigger] s[j])),
        trim_start(s).len() > 0 ==> !is_ws(trim_start(s)[0]),
    decreases s.len(),
{
    if s.len() > 0 && is_ws(s[0]) {
        lemma_trim_start_shape(s.drop_first());
        let k = choose|k: int|
            0 <= k <= s.drop_first().len() && trim_start(s.drop_first()) == s.drop_first().skip(k)
                && (forall|j: int| 0 <= j < k ==> is_ws(#[trigger] s.drop_first()[j]));
        assert(s.drop_first().skip(k) =~= s.skip(k + 1));
        assert forall|j: int| 0 <= j < k + 1 implies is_ws(#[trigger] s[j]) by {
            if j > 0 {
                assert(s[j] == s.drop_first()[j - 1]);
            }
        }
    } else {
        assert(s.skip(0) =~= s);
    }
}

proof fn lemma_trim_end_shape(s: Seq<char>)
    ensures
        exists|k: int|
            0 <= k <= s.len() && trim_end(s) == s.take(k) && (forall|j: int|
                k <= j < s.len() ==> is_ws(#[trigger] s[j])),
        trim_end(s).len() > 0 ==> !is_ws(trim_end(s).last()),
    decreases s.len(),
{
    if s.len() > 0 && is_ws(s.last()) {
        lemma_trim_end_shape(s.drop_last());
        let k = choose|k: int|
            0 <= k <= s.drop_last().len() && trim_end(s.drop_last()) == s.drop_last().take(k)
                && (forall|j: int| k <= j < s.drop_last().len() ==> is_ws(#[trigger] s.drop_last()[j]));
        assert(s.drop_last().take(k) =~= s.take(k));
        assert forall|j: int| k <= j < s.len() implies is_ws(#[trigger] s[j]) by {
            if j < s.len() - 1 {
                assert(s[j] == s.drop_last()[j]);
            }
        }
    } else {
        assert(s.take(s.len() as int) =~= s);
    }
}

/// The trimmed text is `s[lo..hi]`, where everything outside is whitespace
/// and the ends inside are not.
pub proof fn lemma_trimmed_shape(s: Seq<char>)
    ensures
        no_outer_ws(trimmed(s)),
        exists|lo: int, hi: int|
            0 <= lo <= hi <= s.len() && trimmed(s) == s.subrange(lo, hi) && (forall|j: int|
                0 <= j < lo ==> is_ws(#[trigger] s[j])) && (forall|j: int|
                hi <= j < s.len() ==> is_ws(#[trigger] s[j])),
{
    lemma_trim_start_shape(s);
    let a = trim_start(s);
    let k = choose|k: int|
        0 <= k <= s.len() && trim_start(s) == s.skip(k) && (forall|j: int|
            0 <= j < k ==> is_ws(#[trigger] s[j]));
    lemma_trim_end_shape(a);
    let m = choose|m: int|
        0 <= m <= a.len() && trim_end(a) == a.take(m) && (forall|j: int|
            m <= j < a.len() ==> is_ws(#[trigger] a[j]));
    assert(a.take(m) =~= s.subrange(k, k + m));
    assert forall|j: int| k + m <= j < s.len() implies is_ws(#[trigger] s[j]) by {
        assert(s[j] == a[j - k]);
    }
    if trimmed(s).len() > 0 {
        assert(trimmed(s)[0] == a[0]);
    }
}

/// Trimming a trimmed text changes nothing.
pub proof fn lemma_trimmed_idempotent(s: Seq<char>)
    ensures
        trimmed(trimmed(s)) == trimmed(s),
{
    lemma_trimmed_shape(s);
    lemma_no_outer_ws_trimmed(trimmed(s));
}

/// A text without outer whitespace is its own trim.
pub proof fn lemma_no_outer_ws_trimmed(t: Seq<char>)
    requires
        no_outer_ws(t),
    ensures
        trimmed(t) == t,
{
    assert(trim_start(t) == t);
    assert(trim_end(t) == t);
}

/// If `s[lo..hi]` has no outer whitespace and everything outside it is
/// whitespace, it is the trimmed text.
pub proof fn lemma_trimmed_unique(s: Seq<char>, lo: int, hi: int)
    requires
        0 <= lo <= hi <= s.len(),
        no_outer_ws(s.subrange(lo, hi)),
        forall|j: int| 0 <= j < lo ==> is_ws(#[trigger] s[j]),
        forall|j: int| hi <= j < s.len() ==> is_ws(#[trigger] s[j]),
    ensures
        trimmed(s) == s.subrange(lo, hi),
    decreases s.len(),
{
    if lo > 0 {
        assert(is_ws(s[0]));
        let t = s.drop_first();
        assert(t.subrange(lo - 1, hi - 1) =~= s.subrange(lo, hi));
        assert forall|j: int| 0 <= j < lo - 1 implies is_ws(#[trigger] t[j]) by {
            assert(t[j] == s[j + 1]);
        }
        assert forall|j: int| hi - 1 <= j < t.len() implies is_ws(#[trigger] t[j]) by {
            assert(t[j] == s[j + 1]);
        }
        lemma_trimmed_unique(t, lo - 1, hi - 1);
        assert(trim_start(s) == trim_start(t));
    } else if hi == 0 && s.len() > 0 {
        assert(is_ws(s[0]));
        let t = s.drop_first();
        assert forall|j: int| 0 <= j < t.len() implies is_ws(#[trigger] t[j]) by {
            assert(t[j] == s[j + 1]);
        }
        lemma_trimmed_unique(t, 0, 0);
        assert(trim_start(s) == trim_start(t));
        assert(s.subrange(0, 0) =~= t.subrange(0, 0));
    } else if hi < s.len() {
        assert(is_ws(s.last()));
        let t = s.drop_last();
        assert(t.subrange(lo, hi) =~= s.subrange(lo, hi));
        assert forall|j: int| hi <= j < t.len() implies is_ws(#[trigger] t[j]) by {
            assert(t[j] == s[j]);
        }
        lemma_trimmed_unique(t, lo, hi);
        lemma_trim_start_end_commute(s);
    } else {
        assert(s.subrange(0, s.len() as int) =~= s);
        lemma_no_outer_ws_trimmed(s);
    }
}

/// When `s` does not start with whitespace, trimming it drops a whitespace
/// last character the same as trimming `s` without it.
proof fn lemma_trim_start_end_commute(s: Seq<char>)
    requires
        s.len() > 0,
        is_ws(s.last()),
        !is_ws(s[0]) || s.len() == 1,
    ensures
        trimmed(s) == trimmed(s.drop_last()),
{
    if is_ws(s[0]) {
        assert(s.len() == 1);
        assert(trim_start(s) == trim_start(s.drop_first()));
        assert(s.drop_first().len() == 0);
        assert(s.drop_last().len() == 0);
    } else {
        assert(trim_start(s) == s);
        if s.drop_last().len() > 0 {
            assert(s.drop_last()[0] == s[0]);
        }
        assert(trim_start(s.drop_last()) == s.drop_last());
    }
}

/// `s` with leading and trailing whitespace removed (`str::trim`).
pub fn trim(s: &str) -> (r: String)
    ensures
        r@ == trimmed(s@),
{
    let v = chars_of(s);
    let n = v.len();
    let mut lo: usize = 0;
    while lo < n && is_whitespace(v[lo])
        invariant
            lo <= n == v.len(),
            forall|j: int| 0 <= j < lo ==> is_ws(#[trigger] v@[j]),
        decreases n - lo,
    {
        lo += 1;
    }
    let mut hi: usize = n;
    while hi > lo && is_whitespace(v[hi - 1])
        invariant
            lo <= hi <= n == v.len(),
            forall|j: int| hi <= j < n ==> is_ws(#[trigger] v@[j]),
        decreases hi,
    {
        hi -= 1;
    }
    let r = string_of_range(&v, lo, hi);
    proof {
        if lo < hi {
            assert(r@[0] == v@[lo as int]);
            assert(r@.last() == v@[hi - 1]);
        }
        lemma_trimmed_unique(v@, lo as int, hi as int);
    }
    r
}

/// Whether `s` begins with `c`.
pub fn starts_with_char(s: &str, c: char) -> (b: bool)
    ensures
        b == (s@.len() > 0 && s@[0] == c),
{
    let v = chars_of(s);
    v.len() > 0 && v[0] == c
}

/// Whether `s` begins with the characters of `prefix`.
pub fn starts_with_text(s: &str, prefix: &str) -> (b: bool)
    ensures
        b == (prefix@.len() <= s@.len() && s@.take(prefix@.len() as int) == prefix@),
{
    let v = chars_of(s);
    let p = chars_of(prefix);
    if p.len() > v.len() {
        return false;
    }
    let mut i: usize = 0;
    while i < p.len()
        invariant
            v@ == s@,
            p@ == prefix@,
            p.len() <= v.len(),
            i <= p.len(),
            forall|j: int| 0 <= j < i ==> v@[j] == p@[j],
        decreases p.len() - i,
    {
        if v[i] != p[i] {
            assert(s@.take(p@.len() as int)[i as int] != p@[i as int]);
            return false;
        }
        i += 1;
    }
    assert(s@.take(p@.len() as int) =~= p@);
    true
}

/// Whether `needle` occurs in `hay` as a contiguous run of characters.
pub open spec fn occurs_in(hay: Seq<char>, needle: Seq<char>) -> bool {
    exists|i: int|
        0 <= i && i + needle.len() <= hay.len() && #[trigger] hay.subrange(i, i + needle.len())
            == needle
}

/// Whether `needle` occurs in `hay` (`str::contains` with a string pattern).
pub fn contains_text(hay: &str, needle: &str) -> (b: bool)
    ensures
        b == occurs_in(hay@, needle@),
{
    let h = chars_of(hay);
    let n = chars_of(needle);
    if n.len() > h.len() {
        return false;
    }
    if n.len() == 0 {
        let ghost z: int = 0;
        assert(hay@.subrange(z, z + needle@.len()) =~= needle@);
        return true;
    }
    let mut i: usize = 0;
    while i <= h.len() - n.len()
        invariant
            h@ == hay@,
            n@ == needle@,
            1 <= n.len() <= h.len(),
            i <= h.len() - n.len() + 1,
            forall|k: int| 0 <= k < i ==> #[trigger] hay@.subrange(k, k + n@.len()) != needle@,
        decreases h.len() + 1 - i,
    {
        let mut j: usize = 0;
        let mut same = true;
        while j < n.len()
            invariant
                h@ == hay@,
                n@ == needle@,
                i + n.len() <= h.len(),
                j <= n.len(),
                same ==> forall|m: int| 0 <= m < j ==> h@[i + m] == n@[m],
                !same ==> hay@.subrange(i as int, i + n@.len()) != needle@,
            decreases n.len() - j,
        {
            if h[i + j] != n[j] {
                assert(hay@.subrange(i as int, i + n@.len())[j as int] != needle@[j as int]);
                same = false;
            }
            j += 1;
        }
        if same {
            assert(hay@.subrange(i as int, i + n@.len()) =~= needle@);
            return true;
        }
        i += 1;
    }
    assert forall|k: int|
        0 <= k && k + needle@.len() <= hay@.len() implies #[trigger] hay@.subrange(
        k,
        k + needle@.len(),
    ) != needle@ by {}
    false
}

/// The views of a list of strings.
pub open spec fn texts(v: Seq<String>) -> Seq<Seq<char>> {
    v.map_values(|s: String| s@)
}

/// The views of a list of string pairs.
pub open spec fn pair_texts(e: Seq<(String, String)>) -> Seq<(Seq<char>, Seq<char>)> {
    e.map_values(|p: (String, String)| (p.0@, p.1@))
}

/// Whether `list` holds a string equal to `s` (`contains` on a list of strings).
pub fn list_contains(list: &Vec<String>, s: &str) -> (b: bool)
    ensures
        b == texts(list@).contains(s@),
{
    let mut i: usize = 0;
    while i < list.len()
        invariant
            i <= list.len(),
            forall|j: int| 0 <= j < i ==> list@[j]@ != s@,
        decreases list.len() - i,
    {
        if same_text(list[i].as_str(), s) {
            assert(texts(list@)[i as int] == s@);
            return true;
        }
        i += 1;
    }
    assert forall|j: int| 0 <= j < texts(list@).len() implies texts(list@)[j] != s@ by {
        assert(texts(list@)[j] == list@[j]@);
    }
    false
}

/// The list `l` without the entries equal to `x`, order kept.
pub open spec fn without(l: Seq<Seq<char>>, x: Seq<char>) -> Seq<Seq<char>>
    decreases l.len(),
{
    if l.len() == 0 {
        l
    } else if l.last() == x {
        without(l.drop_last(), x)
    } else {
        without(l.drop_last(), x).push(l.last())
    }
}

/// A copy of `list` without the entries equal to `x` (`retain(|e| e != x)`).
pub fn remove_all(list: &Vec<String>, x: &str) -> (r: Vec<String>)
    ensures
        texts(r@) == without(texts(list@), x@),
{
    let mut r: Vec<String> = Vec::new();
    let mut i: usize = 0;
    while i < list.len()
        invariant
            i <= list.len(),
            texts(r@) == without(texts(list@).take(i as int), x@),
        decreases list.len() - i,
    {
        let ghost before = texts(list@).take(i as int);
        assert(texts(list@).take(i + 1).drop_last() =~= before);
        let ghost prev = texts(r@);
        if !same_text(list[i].as_str(), x) {
            r.push(list[i].clone());
            assert(texts(r@) =~= prev.push(list@[i as int]@));
        }
        i += 1;
    }
    assert(texts(list@).take(list.len() as int) =~= texts(list@));
    r
}

/// The removal leaves no entry equal to `x`, and keeps every other one.
pub proof fn lemma_without_contains(l: Seq<Seq<char>>, x: Seq<char>, y: Seq<char>)
    ensures
        without(l, x).contains(y) == (y != x && l.contains(y)),
    decreases l.len(),
{
    if l.len() > 0 {
        lemma_without_contains(l.drop_last(), x, y);
        if l.contains(y) && y != x && !l.drop_last().contains(y) {
            let k = choose|k: int| 0 <= k < l.len() && l[k] == y;
            if k < l.len() - 1 {
                assert(l.drop_last()[k] == y);
            }
        }
        if l.drop_last().contains(y) {
            let k = choose|k: int| 0 <= k < l.drop_last().len() && l.drop_last()[k] == y;
            assert(l[k] == y);
        }
        if l.last() != x {
            let w = without(l.drop_last(), x);
            if w.contains(y) {
                let k = choose|k: int| 0 <= k < w.len() && w[k] == y;
                assert(w.push(l.last())[k] == y);
            }
            if y == l.last() {
                assert(w.push(l.last())[w.len() as int] == y);
            }
            if w.push(l.last()).contains(y) && y != l.last() {
                let k = choose|k: int| 0 <= k < w.len() + 1 && w.push(l.last())[k] == y;
                assert(w[k] == y);
            }
        }
    }
}

/// The code of `c` with an ASCII capital letter taken to its small letter.
pub open spec fn ascii_lower(c: char) -> int {
    if 'A' <= c && c <= 'Z' {
        (c as u32) + 32
    } else {
        c as u32 as int
    }
}

/// `a` and `b` match letter for letter, ASCII case ignored (`eq_ignore_ascii_case`).
pub open spec fn eq_ignoring_ascii_case(a: Seq<char>, b: Seq<char>) -> bool {
    a.len() == b.len() && forall|i: int| 0 <= i < a.len() ==> ascii_lower(a[i]) == ascii_lower(
        b[i],
    )
}

fn to_ascii_lower(c: char) -> (r: u32)
    ensures
        r == ascii_lower(c),
{
    if 'A' <= c && c <= 'Z' {
        (c as u32) + 32
    } else {
        c as u32
    }
}

/// Whether `a` equals `b` with ASCII case ignored.
pub fn eq_ignore_ascii_case(a: &str, b: &str) -> (r: bool)
    ensures
        r == eq_ignoring_ascii_case(a@, b@),
{
    let va = chars_of(a);
    let vb = chars_of(b);
    if va.len() != vb.len() {
        return false;
    }
    let mut i: usize = 0;
    while i < va.len()
        invariant
            va@ == a@,
            vb@ == b@,
            va.len() == vb.len(),
            i <= va.len(),
            forall|j: int| 0 <= j < i ==> ascii_lower(va@[j]) == ascii_lower(vb@[j]),
        decreases va.len() - i,
    {
        if to_ascii_lower(va[i]) != to_ascii_lower(vb[i]) {
            return false;
        }
        i += 1;
    }
    true
}

/// The separator test: a given character, or whitespace when none is given.
pub open spec fn separator(sep: Option<char>) -> spec_fn(char) -> bool {
    |x: char|
        match sep {
            Some(c) => x == c,
            None => is_ws(x),
        }
}

/// Left-to-right scan of `s` into finished fields and the field in progress.
pub open spec fn split_scan(s: Seq<char>, sep: spec_fn(char) -> bool) -> (
    Seq<Seq<char>>,
    Seq<char>,
)
    decreases s.len(),
{
    if s.len() == 0 {
        (seq![], seq![])
    } else {
        let (done, cur) = split_scan(s.drop_last(), sep);
        if sep(s.last()) {
            if cur.len() > 0 {
                (done.push(cur), seq![])
            } else {
                (done, seq![])
            }
        } else {
            (done, cur.push(s.last()))
        }
    }
}

/// The non-empty runs of `s` between separators, in order
/// (`split(c).filter(|p| !p.is_empty())`, or `split_whitespace`).
pub open spec fn fields(s: Seq<char>, sep: spec_fn(char) -> bool) -> Seq<Seq<char>> {
    let (done, cur) = split_scan(s, sep);
    if cur.len() > 0 {
        done.push(cur)
    } else {
        done
    }
}

/// The non-empty fields of `s` between occurrences of `sep`, or between runs
/// of whitespace when `sep` is `None`.
pub fn split_fields(s: &str, sep: Option<char>) -> (r: Vec<String>)
    ensures
        texts(r@) == fields(s@, separator(sep)),
{
    let v = chars_of(s);
    let mut done: Vec<String> = Vec::new();
    let mut cur = String::new();
    let mut i: usize = 0;
    while i < v.len()
        invariant
            v@ == s@,
            i <= v.len(),
            (texts(done@), cur@) == split_scan(v@.take(i as int), separator(sep)),
        decreases v.len() - i,
    {
        let c = v[i];
        let is_sep = match sep {
            Some(d) => c == d,
            None => is_whitespace(c),
        };
        assert(v@.take(i + 1).drop_last() =~= v@.take(i as int));
        assert(v@.take(i + 1).last() == c);
        if is_sep {
            if !cur.as_str().is_empty() {
                let ghost prev = texts(done@);
                let ghost piece = cur@;
                let mut finished = String::new();
                std::mem::swap(&mut cur, &mut finished);
                done.push(finished);
                assert(texts(done@) =~= prev.push(piece));
            }
        } else {
            push_char(&mut cur, c);
        }
        i += 1;
    }
    assert(v@.take(v.len() as int) =~= v@);
    if !cur.as_str().is_empty() {
        let ghost prev = texts(done@);
        let ghost piece = cur@;
        done.push(cur);
        assert(texts(done@) =~= prev.push(piece));
    }
    done
}

/// The parts joined with `sep` between each two (`join` with a one-character
/// separator).
pub open spec fn joined(parts: Seq<Seq<char>>, sep: char) -> Seq<char>
    decreases parts.len(),
{
    if parts.len() == 0 {
        seq![]
    } else if parts.len() == 1 {
        parts[0]
    } else {
        joined(parts.drop_last(), sep).push(sep) + parts.last()
    }
}

/// `parts[lo..]` joined with `sep`.
pub fn join_from(parts: &Vec<String>, lo: usize, sep: char) -> (r: String)
    requires
        lo <= parts.len(),
    ensures
        r@ == joined(texts(parts@).skip(lo as int), sep),
{
    let mut r = String::new();
    let mut i: usize = lo;
    while i < parts.len()
        invariant
            lo <= i <= parts.len(),
            r@ == joined(texts(parts@).subrange(lo as int, i as int), sep),
        decreases parts.len() - i,
    {
        let ghost before = texts(parts@).subrange(lo as int, i as int);
        let ghost after = texts(parts@).subrange(lo as int, i + 1);
        assert(after.drop_last() =~= before);
        assert(after.last() == parts@[i as int]@);
        if i > lo {
            push_char(&mut r, sep);
        }
        let s = concat(r.as_str(), parts[i].as_str());
        r = s;
        if i == lo {
            assert(r@ =~= after[0]);
        }
        i += 1;
    }
    assert(texts(parts@).subrange(lo as int, parts.len() as int) =~= texts(parts@).skip(lo as int));
    r
}

/// The character of decimal digit `d`.
pub open spec fn digit(d: nat) -> char {
    if d == 0 { '0' }
    else if d == 1 { '1' }
    else if d == 2 { '2' }
    else if d == 3 { '3' }
    else if d == 4 { '4' }
    else if d == 5 { '5' }
    else if d == 6 { '6' }
    else if d == 7 { '7' }
    else if d == 8 { '8' }
    else { '9' }
}

/// The decimal notation of `n`, without leading zeros.
pub open spec fn decimal(n: nat) -> Seq<char>
    decreases n,
{
    if n < 10 {
        seq![digit(n)]
    } else {
        decimal(n / 10).push(digit(n % 10))
    }
}

fn digit_char(d: usize) -> (c: char)
    requires
        d < 10,
    ensures
        c == digit(d as nat),
{
    if d == 0 { '0' }
    else if d == 1 { '1' }
    else if d == 2 { '2' }
    else if d == 3 { '3' }
    else if d == 4 { '4' }
    else if d == 5 { '5' }
    else if d == 6 { '6' }
    else if d == 7 { '7' }
    else if d == 8 { '8' }
    else { '9' }
}

/// The decimal notation of `n` (`n.to_string()`).
pub fn decimal_text(n: usize) -> (r: String)
    ensures
        r@ == decimal(n as nat),
    decreases n,
{
    if n < 10 {
        let mut r = String::new();
        push_char(&mut r, digit_char(n));
        assert(r@ =~= seq![digit(n as nat)]);
        r
    } else {
        let mut r = decimal_text(n / 10);
        push_char(&mut r, digit_char(n % 10));
        r
    }
}

/// The index of the first `c` in `s`, if any.
pub open spec fn find_first(s: Seq<char>, c: char) -> Option<int>
    decreases s.len(),
{
    if s.len() == 0 {
        None
    } else if s[0] == c {
        Some(0)
    } else {
        match find_first(s.skip(1), c) {
            Some(i) => Some(i + 1),
            None => None,
        }
    }
}

/// `find_first` gives the index before which `c` does not occur.
pub proof fn lemma_find_first(s: Seq<char>, c: char, i: int)
    requires
        0 <= i <= s.len(),
        forall|j: int| 0 <= j < i ==> s[j] != c,
        i < s.len() ==> s[i] == c,
    ensures
        find_first(s, c) == (if i < s.len() {
            Some(i)
        } else {
            None::<int>
        }),
    decreases i,
{
    if i > 0 {
        lemma_find_first(s.skip(1), c, i - 1);
    }
}

} // verus!
