//! Character-level helpers shared by the codecs: whitespace trimming, searching
//! and word splitting, each stated over `Seq<char>`.
use vstd::prelude::*;

verus! {

/// The characters that the line codec treats as blank around a line.
pub open spec fn is_ws(c: char) -> bool {
    c == ' ' || c == '\t' || c == '\r' || c == '\n'
}

/// Index of the first non-blank character at or after `i`.
pub open spec fn skip_ws(s: Seq<char>, i: int) -> int
    decreases s.len() - i,
{
    if 0 <= i < s.len() && is_ws(s[i]) {
        skip_ws(s, i + 1)
    } else {
        i
    }
}

/// One past the last non-blank character before `j`.
pub open spec fn back_ws(s: Seq<char>, j: int) -> int
    decreases j,
{
    if 0 < j <= s.len() && is_ws(s[j - 1]) {
        back_ws(s, j - 1)
    } else {
        j
    }
}

/// `s` without leading and trailing blanks.
pub open spec fn trim(s: Seq<char>) -> Seq<char> {
    let lo = skip_ws(s, 0);
    let hi = back_ws(s, s.len() as int);
    if lo < hi {
        s.subrange(lo, hi)
    } else {
        Seq::empty()
    }
}

/// Index of the first `c` at or after `i`, or the length when there is none.
pub open spec fn find_char(s: Seq<char>, c: char, i: int) -> int
    decreases s.len() - i,
{
    if i < 0 || i >= s.len() {
        s.len() as int
    } else if s[i] == c {
        i
    } else {
        find_char(s, c, i + 1)
    }
}

/// The pieces of `s` between single occurrences of `sep`; consecutive
/// separators give empty pieces.
pub open spec fn split_on(s: Seq<char>, sep: char) -> Seq<Seq<char>>
    decreases s.len(),
{
    if s.len() == 0 {
        seq![Seq::<char>::empty()]
    } else {
        let w = split_on(s.drop_last(), sep);
        if s.last() == sep {
            w.push(Seq::empty())
        } else {
            w.update(w.len() - 1, w.last().push(s.last()))
        }
    }
}

pub open spec fn strs_view(v: Seq<String>) -> Seq<Seq<char>> {
    v.map_values(|s: String| s@)
}

pub open spec fn opt_view(o: Option<String>) -> Option<Seq<char>> {
    match o {
        Some(s) => Some(s@),
        None => None,
    }
}

/// The pieces of `s` between single spaces.
pub open spec fn split_words(s: Seq<char>) -> Seq<Seq<char>> {
    split_on(s, ' ')
}

pub proof fn lemma_split_on_len(s: Seq<char>, sep: char)
    ensures
        split_on(s, sep).len() >= 1,
    decreases s.len(),
{
    if s.len() > 0 {
        lemma_split_on_len(s.drop_last(), sep);
    }
}

pub proof fn lemma_back_ws_bounds(s: Seq<char>, j: int)
    requires
        0 <= j <= s.len(),
    ensures
        0 <= back_ws(s, j) <= j,
        back_ws(s, j) > 0 ==> !is_ws(s[back_ws(s, j) - 1]),
    decreases j,
{
    if j > 0 && is_ws(s[j - 1]) {
        lemma_back_ws_bounds(s, j - 1);
    }
}

pub proof fn lemma_find_char_bounds(s: Seq<char>, c: char, i: int)
    requires
        0 <= i <= s.len(),
    ensures
        i <= find_char(s, c, i) <= s.len(),
        find_char(s, c, i) < s.len() ==> s[find_char(s, c, i)] == c,
        forall|k: int| i <= k < find_char(s, c, i) ==> s[k] != c,
    decreases s.len() - i,
{
    if i < s.len() && s[i] != c {
        lemma_find_char_bounds(s, c, i + 1);
    }
}

/// Relies on `String::push`: appends one character.
#[verifier::external_body]
pub(crate) fn push_char(s: &mut String, c: char)
    ensures
        final(s)@ == old(s)@.push(c),
{
    s.push(c)
}

/// The characters of `s`, one per element.
pub fn chars_of(s: &str) -> (r: Vec<char>)
    ensures
        r@ == s@,
{
    let n = s.unicode_len();
    let mut r: Vec<char> = Vec::with_capacity(n);
    let mut i: usize = 0;
    while i < n
        invariant
            n == s@.len(),
            i <= n,
            r@ == s@.subrange(0, i as int),
        decreases n - i,
    {
        r.push(s.get_char(i));
        i = i + 1;
        assert(r@ =~= s@.subrange(0, i as int));
    }
    assert(r@ =~= s@);
    r
}

/// A string made of `v[lo..hi]`.
pub fn string_of(v: &Vec<char>, lo: usize, hi: usize) -> (r: String)
    requires
        lo <= hi <= v@.len(),
    ensures
        r@ == v@.subrange(lo as int, hi as int),
{
    let mut r = String::new();
    let mut i: usize = lo;
    while i < hi
        invariant
            lo <= i <= hi <= v@.len(),
            r@ == v@.subrange(lo as int, i as int),
        decreases hi - i,
    {
        push_char(&mut r, v[i]);
        i = i + 1;
        assert(r@ =~= v@.subrange(lo as int, i as int));
    }
    r
}

/// Whether `v` holds exactly the characters of `lit`.
pub fn chars_eq(v: &Vec<char>, lit: &str) -> (r: bool)
    ensures
        r == (v@ == lit@),
{
    let n = lit.unicode_len();
    if v.len() != n {
        return false;
    }
    let mut i: usize = 0;
    while i < n
        invariant
            n == lit@.len(),
            n == v@.len(),
            i <= n,
            forall|k: int| 0 <= k < i ==> v@[k] == lit@[k],
        decreases n - i,
    {
        if v[i] != lit.get_char(i) {
            return false;
        }
        i = i + 1;
    }
    assert(v@ =~= lit@);
    true
}

/// Bounds of `v[lo..hi]` with blanks at both ends removed.
pub fn trim_bounds(v: &Vec<char>, lo: usize, hi: usize) -> (r: (usize, usize))
    requires
        lo <= hi <= v@.len(),
    ensures
        r.0 <= r.1,
        trim(v@.subrange(lo as int, hi as int)) == v@.subrange(r.0 as int, r.1 as int),
        lo <= r.0 <= r.1 <= hi,
{
    let ghost s = v@.subrange(lo as int, hi as int);
    let mut a: usize = lo;
    while a < hi && is_ws_exec(v[a])
        invariant
            lo <= a <= hi <= v@.len(),
            s == v@.subrange(lo as int, hi as int),
            skip_ws(s, (a - lo) as int) == skip_ws(s, 0),
        decreases hi - a,
    {
        a = a + 1;
    }
    let mut b: usize = hi;
    while b > a && is_ws_exec(v[b - 1])
        invariant
            lo <= a <= b <= hi <= v@.len(),
            s == v@.subrange(lo as int, hi as int),
            back_ws(s, (b - lo) as int) == back_ws(s, s.len() as int),
        decreases b,
    {
        b = b - 1;
    }
    proof {
        let lo_s = skip_ws(s, 0);
        let hi_s = back_ws(s, s.len() as int);
        assert(lo_s == a - lo);
        if b > a {
            assert(hi_s == b - lo);
            assert(s.subrange(lo_s, hi_s) =~= v@.subrange(a as int, b as int));
        } else {
            lemma_back_ws_bounds(s, (b - lo) as int);
            assert(v@.subrange(a as int, b as int) =~= Seq::<char>::empty());
        }
    }
    (a, b)
}

pub fn is_ws_exec(c: char) -> (r: bool)
    ensures
        r == is_ws(c),
{
    c == ' ' || c == '\t' || c == '\r' || c == '\n'
}


/// Index of the first `s[k] == ' '` with `s[k + 1] == ':'` and `k >= i`, or the length.
pub open spec fn find_trailing(s: Seq<char>, i: int) -> int
    decreases s.len() - i,
{
    if i < 0 || i + 1 >= s.len() {
        s.len() as int
    } else if s[i] == ' ' && s[i + 1] == ':' {
        i
    } else {
        find_trailing(s, i + 1)
    }
}

/// A copy of `v[lo..hi]`.
pub fn slice_vec(v: &Vec<char>, lo: usize, hi: usize) -> (r: Vec<char>)
    requires
        lo <= hi <= v@.len(),
    ensures
        r@ == v@.subrange(lo as int, hi as int),
{
    let mut r: Vec<char> = Vec::new();
    let mut i: usize = lo;
    while i < hi
        invariant
            lo <= i <= hi <= v@.len(),
            r@ == v@.subrange(lo as int, i as int),
        decreases hi - i,
    {
        r.push(v[i]);
        i = i + 1;
        assert(r@ =~= v@.subrange(lo as int, i as int));
    }
    r
}

pub fn find_char_exec(v: &Vec<char>, c: char, i: usize) -> (r: usize)
    requires
        i <= v@.len(),
    ensures
        r == find_char(v@, c, i as int),
{
    let mut k: usize = i;
    while k < v.len() && v[k] != c
        invariant
            i <= k <= v@.len(),
            find_char(v@, c, k as int) == find_char(v@, c, i as int),
        decreases v@.len() - k,
    {
        k = k + 1;
    }
    k
}

pub fn find_trailing_exec(v: &Vec<char>, i: usize) -> (r: usize)
    requires
        i <= v@.len(),
    ensures
        r == find_trailing(v@, i as int),
        i <= r <= v@.len(),
        r < v@.len() ==> r + 1 < v@.len(),
{
    let mut k: usize = i;
    while k < v.len() && k + 1 < v.len() && !(v[k] == ' ' && v[k + 1] == ':')
        invariant
            i <= k <= v@.len(),
            find_trailing(v@, k as int) == find_trailing(v@, i as int),
        decreases v@.len() - k,
    {
        k = k + 1;
    }
    if k < v.len() && k + 1 < v.len() {
        k
    } else {
        v.len()
    }
}

/// The pieces of `v[lo..hi]` between single occurrences of `sep`.
pub fn split_on_exec(v: &Vec<char>, lo: usize, hi: usize, sep: char) -> (r: Vec<String>)
    requires
        lo <= hi <= v@.len(),
    ensures
        strs_view(r@) == split_on(v@.subrange(lo as int, hi as int), sep),
        r@.len() >= 1,
{
    let mut words: Vec<String> = Vec::new();
    let mut cur = String::new();
    let mut i: usize = lo;
    assert(strs_view(words@).push(cur@) =~= split_on(v@.subrange(lo as int, lo as int), sep));
    while i < hi
        invariant
            lo <= i <= hi <= v@.len(),
            strs_view(words@).push(cur@) == split_on(v@.subrange(lo as int, i as int), sep),
        decreases hi - i,
    {
        let ghost s1 = v@.subrange(lo as int, i as int + 1);
        assert(s1.drop_last() =~= v@.subrange(lo as int, i as int));
        let c = v[i];
        if c == sep {
            words.push(cur);
            cur = String::new();
            assert(strs_view(words@).push(cur@) =~= split_on(s1, sep));
        } else {
            let ghost w = split_on(v@.subrange(lo as int, i as int), sep);
            push_char(&mut cur, c);
            assert(strs_view(words@).push(cur@) =~= w.update(w.len() - 1, w.last().push(c)));
        }
        i = i + 1;
    }
    words.push(cur);
    assert(strs_view(words@) =~= split_on(v@.subrange(lo as int, hi as int), sep));
    words
}

} // verus!
