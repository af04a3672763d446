//! Text primitives over the character view of strings: whitespace
//! trimming, substring search, replacement, ordering and byte offsets.
use vstd::prelude::*;
use vstd::string::*;
use vstd::utf8::*;

verus! {

// ---------------------------------------------------------------------------
// Specifications
// ---------------------------------------------------------------------------

/// The Unicode `White_Space` property (PropList.txt), the set that
/// `char::is_whitespace` and `str::trim` use.
pub open spec fn is_ws(c: char) -> bool {
    ||| ('\u{9}' <= c && c <= '\u{d}')
    ||| c == ' '
    ||| c == '\u{85}'
    ||| c == '\u{a0}'
    ||| c == '\u{1680}'
    ||| ('\u{2000}' <= c && c <= '\u{200a}')
    ||| c == '\u{2028}'
    ||| c == '\u{2029}'
    ||| c == '\u{202f}'
    ||| c == '\u{205f}'
    ||| c == '\u{3000}'
}

/// First index at or after `i` that does not hold whitespace.
pub open spec fn skip_ws_forward(s: Seq<char>, i: int) -> int
    decreases s.len() - i,
{
    if 0 <= i < s.len() && is_ws(s[i]) {
        skip_ws_forward(s, i + 1)
    } else {
        i
    }
}

/// End of `s.take(j)` once the whitespace at its end is dropped.
pub open spec fn skip_ws_backward(s: Seq<char>, j: int) -> int
    decreases j,
{
    if 0 < j <= s.len() && is_ws(s[j - 1]) {
        skip_ws_backward(s, j - 1)
    } else {
        j
    }
}

/// `s` without leading and trailing whitespace (`str::trim`).
pub open spec fn trimmed(s: Seq<char>) -> Seq<char> {
    let a = skip_ws_forward(s, 0);
    let b = skip_ws_backward(s, s.len() as int);
    if a < b {
        s.subrange(a, b)
    } else {
        Seq::empty()
    }
}

/// `needle` occurs in `hay` starting at index `i`.
pub open spec fn occurs_at(hay: Seq<char>, needle: Seq<char>, i: int) -> bool {
    0 <= i && i + needle.len() <= hay.len() && hay.subrange(i, i + needle.len()) == needle
}

/// First index at or after `i` where `needle` occurs in `hay`.
pub open spec fn find_from(hay: Seq<char>, needle: Seq<char>, i: int) -> Option<int>
    decreases hay.len() + 1 - i,
{
    if i < 0 || i + needle.len() > hay.len() {
        None
    } else if occurs_at(hay, needle, i) {
        Some(i)
    } else {
        find_from(hay, needle, i + 1)
    }
}

/// First index where `needle` occurs in `hay` (`str::find`, counted in characters).
pub open spec fn find(hay: Seq<char>, needle: Seq<char>) -> Option<int> {
    find_from(hay, needle, 0)
}

/// `needle` occurs somewhere in `hay` (`str::contains`).
pub open spec fn contains(hay: Seq<char>, needle: Seq<char>) -> bool {
    find(hay, needle) is Some
}

/// `s` begins with `p` (`str::starts_with`).
pub open spec fn starts_with(s: Seq<char>, p: Seq<char>) -> bool {
    p.len() <= s.len() && s.subrange(0, p.len() as int) == p
}

/// `s` from index `i` on, with every non-overlapping occurrence of `from`,
/// scanning left to right, replaced by `to` (`str::replace` for a
/// non-empty `from`).
pub open spec fn replace_from(s: Seq<char>, from: Seq<char>, to: Seq<char>, i: int) -> Seq<char>
    decreases s.len() - i,
{
    if i < 0 || i >= s.len() || from.len() == 0 {
        if 0 <= i <= s.len() { s.subrange(i, s.len() as int) } else { Seq::empty() }
    } else if occurs_at(s, from, i) {
        to + replace_from(s, from, to, i + from.len())
    } else {
        seq![s[i]] + replace_from(s, from, to, i + 1)
    }
}

/// `str::replace(s, from, to)` for a non-empty `from`.
pub open spec fn replace(s: Seq<char>, from: Seq<char>, to: Seq<char>) -> Seq<char> {
    replace_from(s, from, to, 0)
}

/// Number of UTF-8 bytes that encode `s`.
pub open spec fn byte_len(s: Seq<char>) -> nat {
    encode_utf8(s).len()
}

/// Byte offset of character index `i` in `s`.
pub open spec fn byte_offset(s: Seq<char>, i: int) -> nat {
    byte_len(s.subrange(0, i))
}

/// Lexicographic order on character sequences (the order of `String`'s
/// `Ord`: UTF-8 byte order equals code point order).
pub open spec fn lex_lt(a: Seq<char>, b: Seq<char>) -> bool
    decreases a.len(),
{
    if a.len() == 0 {
        b.len() > 0
    } else if b.len() == 0 {
        false
    } else if a[0] != b[0] {
        (a[0] as u32) < (b[0] as u32)
    } else {
        lex_lt(a.drop_first(), b.drop_first())
    }
}

/// Every element is below every later one.
pub open spec fn strictly_sorted(s: Seq<Seq<char>>) -> bool {
    forall|i: int, j: int| 0 <= i < j < s.len() ==> lex_lt(#[trigger] s[i], #[trigger] s[j])
}

/// Name for what `str::to_lowercase` returns (Unicode lowercase mapping).
pub uninterp spec fn lowercase(s: Seq<char>) -> Seq<char>;

// ---------------------------------------------------------------------------
// Lemmas about the order
// ---------------------------------------------------------------------------

pub proof fn lemma_lex_irreflexive(a: Seq<char>)
    ensures
        !lex_lt(a, a),
    decreases a.len(),
{
    if a.len() > 0 {
        lemma_lex_irreflexive(a.drop_first());
    }
}

pub proof fn lemma_lex_total(a: Seq<char>, b: Seq<char>)
    ensures
        a != b ==> lex_lt(a, b) || lex_lt(b, a),
    decreases a.len(),
{
    if a.len() == 0 && b.len() == 0 {
        assert(a =~= b);
    } else if a.len() > 0 && b.len() > 0 {
        if a[0] == b[0] {
            lemma_lex_total(a.drop_first(), b.drop_first());
            if a.drop_first() == b.drop_first() {
                assert(a =~= seq![a[0]] + a.drop_first());
                assert(b =~= seq![b[0]] + b.drop_first());
            }
        } else {
            let x = a[0] as u32;
            let y = b[0] as u32;
            vstd::utf8::char_u32_cast(a[0], x);
            vstd::utf8::char_u32_cast(b[0], y);
        }
    }
}

pub proof fn lemma_lex_asymmetric(a: Seq<char>, b: Seq<char>)
    ensures
        lex_lt(a, b) ==> !lex_lt(b, a),
    decreases a.len(),
{
    if a.len() > 0 && b.len() > 0 && a[0] == b[0] {
        lemma_lex_asymmetric(a.drop_first(), b.drop_first());
    }
}

pub proof fn lemma_lex_transitive(a: Seq<char>, b: Seq<char>, c: Seq<char>)
    requires
        lex_lt(a, b),
        lex_lt(b, c),
    ensures
        lex_lt(a, c),
    decreases a.len(),
{
    if a.len() > 0 && b.len() > 0 && c.len() > 0 && a[0] == b[0] && b[0] == c[0] {
        lemma_lex_transitive(a.drop_first(), b.drop_first(), c.drop_first());
    }
}

// ---------------------------------------------------------------------------
// Executable functions
// ---------------------------------------------------------------------------

/// The characters of a string slice, in order.
pub fn chars_of(s: &str) -> (v: Vec<char>)
    ensures
        v@ == s@,
{
    let mut v: Vec<char> = Vec::new();
    for c in it: s.chars()
        invariant
            v@ == it.seq().take(it.index() as int),
    {
        v.push(c);
    }
    v
}

/// Whether `c` has the Unicode `White_Space` property.
pub fn is_whitespace(c: char) -> (b: bool)
    ensures
        b == is_ws(c),
{
    ('\u{9}' <= c && c <= '\u{d}') || c == ' ' || c == '\u{85}' || c == '\u{a0}' || c
        == '\u{1680}' || ('\u{2000}' <= c && c <= '\u{200a}') || c == '\u{2028}' || c
        == '\u{2029}' || c == '\u{202f}' || c == '\u{205f}' || c == '\u{3000}'
}

/// Copy of a string slice.
pub fn owned(s: &str) -> (r: String)
    ensures
        r@ == s@,
{
    s.to_owned()
}

/// `s` without leading and trailing whitespace.
pub fn trim(s: &str) -> (r: &str)
    ensures
        r@ == trimmed(s@),
{
    let v = chars_of(s);
    let n = v.len();
    let mut a: usize = 0;
    while a < n && is_whitespace(v[a])
        invariant
            v@ == s@,
            n == v@.len(),
            a <= n,
            skip_ws_forward(s@, 0) == skip_ws_forward(s@, a as int),
        decreases n - a,
    {
        a = a + 1;
    }
    let mut b: usize = n;
    while b > 0 && is_whitespace(v[b - 1])
        invariant
            v@ == s@,
            n == v@.len(),
            b <= n,
            skip_ws_backward(s@, n as int) == skip_ws_backward(s@, b as int),
        decreases b,
    {
        b = b - 1;
    }
    if a < b {
        s.substring_char(a, b)
    } else {
        let e = s.substring_char(0, 0);
        assert(e@ =~= Seq::<char>::empty());
        e
    }
}

/// Whether `needle` occurs in `hay` at character index `i`.
pub fn occurs_at_exec(hay: &Vec<char>, needle: &Vec<char>, i: usize) -> (b: bool)
    ensures
        b == occurs_at(hay@, needle@, i as int),
{
    let m = needle.len();
    if i > hay.len() || m > hay.len() - i {
        return false;
    }
    let mut k: usize = 0;
    while k < m
        invariant
            m == needle@.len(),
            hay@.len() == hay.len(),
            i + m <= hay@.len(),
            k <= m,
            forall|j: int| 0 <= j < k ==> hay@[i + j] == needle@[j],
        decreases m - k,
    {
        if hay[i + k] != needle[k] {
            assert(hay@.subrange(i as int, i + m)[k as int] != needle@[k as int]);
            return false;
        }
        k = k + 1;
    }
    assert(hay@.subrange(i as int, i + m) =~= needle@);
    true
}

/// First character index where `needle` occurs in `hay`.
pub fn find_chars(hay: &Vec<char>, needle: &Vec<char>) -> (r: Option<usize>)
    ensures
        r matches Some(i) ==> find(hay@, needle@) == Some(i as int) && i + needle@.len()
            <= hay@.len(),
        r is None ==> find(hay@, needle@) is None,
{
    let n = hay.len();
    let m = needle.len();
    if m > n {
        return None;
    }
    let mut i: usize = 0;
    while i <= n - m
        invariant
            n == hay@.len(),
            m == needle@.len(),
            m <= n,
            i <= n - m + 1,
            find(hay@, needle@) == find_from(hay@, needle@, i as int),
        decreases n + 1 - i,
    {
        if occurs_at_exec(hay, needle, i) {
            return Some(i);
        }
        if i == n - m {
            assert(find_from(hay@, needle@, i as int + 1) is None);
            return None;
        }
        i = i + 1;
    }
    None
}

/// Whether `needle` occurs in `hay`.
pub fn contains_str(hay: &str, needle: &str) -> (b: bool)
    ensures
        b == contains(hay@, needle@),
{
    let h = chars_of(hay);
    let n = chars_of(needle);
    find_chars(&h, &n).is_some()
}

/// Whether `s` begins with `p`.
pub fn starts_with_str(s: &str, p: &str) -> (b: bool)
    ensures
        b == starts_with(s@, p@),
{
    let sv = chars_of(s);
    let pv = chars_of(p);
    let r = occurs_at_exec(&sv, &pv, 0);
    assert(sv@.subrange(0, 0 + pv@.len() as int) =~= sv@.subrange(0, pv@.len() as int));
    r
}

/// Byte length of the first `i` characters of `s`.
pub fn prefix_byte_len(s: &str, i: usize) -> (r: usize)
    requires
        i <= s@.len(),
    ensures
        r == byte_offset(s@, i as int) as usize,
{
    s.substring_char(0, i).len()
}

/// Byte length of `s` (the length of its UTF-8 bytes).
pub fn byte_len_of(s: &str) -> (r: usize)
    ensures
        r == byte_len(s@),
{
    let bytes = s.as_bytes();
    bytes.len()
}

/// `s` with every non-overlapping occurrence of `from` replaced by `to`.
pub fn replace_all(s: &str, from: &str, to: &str) -> (r: String)
    requires
        from@.len() > 0,
    ensures
        r@ == replace(s@, from@, to@),
{
    let v = chars_of(s);
    let f = chars_of(from);
    let n = v.len();
    let m = f.len();
    let mut out = String::new();
    let mut last: usize = 0;
    let mut i: usize = 0;
    while i < n
        invariant
            v@ == s@,
            f@ == from@,
            n == s@.len(),
            m == from@.len(),
            m > 0,
            last <= i <= n,
            out@ + s@.subrange(last as int, i as int) + replace_from(s@, from@, to@, i as int)
                == replace(s@, from@, to@),
        decreases n - i,
    {
        if occurs_at_exec(&v, &f, i) {
            let seg = s.substring_char(last, i);
            out.append(seg);
            out.append(to);
            assert(replace_from(s@, from@, to@, i as int) == to@ + replace_from(
                s@,
                from@,
                to@,
                i + m,
            ));
            assert(s@.subrange((i + m) as int, (i + m) as int) =~= Seq::<char>::empty());
            assert(out@ + s@.subrange((i + m) as int, (i + m) as int) + replace_from(
                s@,
                from@,
                to@,
                (i + m) as int,
            ) =~= out@ + replace_from(s@, from@, to@, (i + m) as int));
            i = i + m;
            last = i;
        } else {
            assert(replace_from(s@, from@, to@, i as int) == seq![s@[i as int]] + replace_from(
                s@,
                from@,
                to@,
                i + 1,
            ));
            assert(s@.subrange(last as int, i as int) + seq![s@[i as int]] =~= s@.subrange(
                last as int,
                i + 1,
            ));
            i = i + 1;
        }
    }
    let seg = s.substring_char(last, n);
    out.append(seg);
    assert(replace_from(s@, from@, to@, n as int) =~= Seq::<char>::empty());
    out
}

/// `str::to_lowercase`: the Unicode lowercase mapping of `s`.
#[verifier::external_body]
pub(crate) fn to_lowercase(s: &str) -> (r: String)
    ensures
        r@ == lowercase(s@),
{
    s.to_lowercase()
}

/// Whether `a` sorts strictly before `b`.
pub fn lex_less(a: &str, b: &str) -> (r: bool)
    ensures
        r == lex_lt(a@, b@),
{
    let av = chars_of(a);
    let bv = chars_of(b);
    let n = av.len();
    let m = bv.len();
    let mut i: usize = 0;
    assert(a@.skip(0) =~= a@);
    assert(b@.skip(0) =~= b@);
    while i < n && i < m && av[i] == bv[i]
        invariant
            av@ == a@,
            bv@ == b@,
            n == a@.len(),
            m == b@.len(),
            i <= n,
            i <= m,
            lex_lt(a@, b@) == lex_lt(a@.skip(i as int), b@.skip(i as int)),
        decreases n - i,
    {
        assert(a@.skip(i as int).drop_first() =~= a@.skip(i + 1));
        assert(b@.skip(i as int).drop_first() =~= b@.skip(i + 1));
        i = i + 1;
    }
    if i == n {
        i < m
    } else if i == m {
        false
    } else {
        (av[i] as u32) < (bv[i] as u32)
    }
}

/// Equality of two string slices.
pub fn str_eq(a: &str, b: &str) -> (r: bool)
    ensures
        r == (a@ == b@),
{
    let av = chars_of(a);
    let bv = chars_of(b);
    if av.len() != bv.len() {
        return false;
    }
    let r = occurs_at_exec(&av, &bv, 0);
    assert(av@.subrange(0, 0 + bv@.len() as int) =~= av@);
    r
}

/// Sorted copy of `items` without repetitions (`sort` then `dedup`).
pub fn sorted_unique(items: &Vec<String>) -> (r: Vec<String>)
    ensures
        strictly_sorted(r.deep_view()),
        r.deep_view().to_set() == items.deep_view().to_set(),
{
    let mut r: Vec<String> = Vec::new();
    let n = items.len();
    for i in 0..n
        invariant
            n == items@.len(),
            strictly_sorted(r.deep_view()),
            r.deep_view().to_set() == items.deep_view().take(i as int).to_set(),
    {
        let x = &items[i];
        let ghost xs = x@;
        let ghost before = r.deep_view();
        assert(items.deep_view()[i as int] == xs);
        proof {
            items.deep_view().take(i as int).lemma_push_to_set_commute(xs);
        }
        // position of the first element not below x
        let mut p: usize = 0;
        while p < r.len() && lex_less(r[p].as_str(), x.as_str())
            invariant
                xs == x@,
                r.deep_view() == before,
                p <= r@.len(),
                forall|k: int| 0 <= k < p ==> lex_lt(#[trigger] before[k], xs),
            decreases r@.len() - p,
        {
            assert(before[p as int] == r@[p as int]@);
            assert(lex_lt(before[p as int], xs));
            p = p + 1;
        }
        assert(items.deep_view().take(i + 1) =~= items.deep_view().take(i as int).push(xs));
        if p < r.len() && str_eq(r[p].as_str(), x.as_str()) {
            assert(before.to_set().contains(xs)) by {
                assert(before[p as int] == xs);
            }
            assert(before.to_set().insert(xs) =~= before.to_set());
        } else {
            proof {
                if p < before.len() {
                    lemma_lex_total(before[p as int], xs);
                    lemma_lex_asymmetric(before[p as int], xs);
                }
                assert forall|k: int| p <= k < before.len() implies lex_lt(
                    xs,
                    #[trigger] before[k],
                ) by {
                    if k > p {
                        lemma_lex_transitive(xs, before[p as int], before[k]);
                    }
                }
            }
            r.insert(p, x.clone());
            assert(r.deep_view() =~= before.take(p as int).push(xs) + before.skip(p as int));
            assert(r.deep_view().to_set() =~= before.to_set().insert(xs)) by {
                assert forall|e| r.deep_view().to_set().contains(e) implies before.to_set().insert(
                    xs,
                ).contains(e) by {
                    let k = choose|k: int| 0 <= k < r.deep_view().len() && r.deep_view()[k] == e;
                    if k < p {
                        assert(before[k] == e);
                    } else if k > p {
                        assert(before[k - 1] == e);
                    }
                }
                assert forall|e| before.to_set().insert(xs).contains(e) implies r.deep_view().to_set().contains(e) by {
                    if e == xs {
                        assert(r.deep_view()[p as int] == e);
                    } else {
                        let k = choose|k: int| 0 <= k < before.len() && before[k] == e;
                        if k < p {
                            assert(r.deep_view()[k] == e);
                        } else {
                            assert(r.deep_view()[k + 1] == e);
                        }
                    }
                }
            }
        }
    }
    assert(items.deep_view().take(n as int) =~= items.deep_view());
    r
}

} // verus!
