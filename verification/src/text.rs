//! Text primitives over character sequences: whitespace, trimming, searching,
//! splitting and lines. Every parser of the library reads its input through these.

use vstd::prelude::*;

verus! {

/// Unicode `White_Space` property, which is what `char::is_whitespace` tests.
pub open spec fn is_ws(c: char) -> bool {
    ||| c == ' '
    ||| ('\t' <= c && c <= '\r')
    ||| c == '\u{85}'
    ||| c == '\u{a0}'
    ||| c == '\u{1680}'
    ||| ('\u{2000}' <= c && c <= '\u{200a}')
    ||| c == '\u{2028}'
    ||| c == '\u{2029}'
    ||| c == '\u{202f}'
    ||| c == '\u{205f}'
    ||| c == '\u{3000}'
}

/// Whether `c` is whitespace.
pub fn char_is_ws(c: char) -> (b: bool)
    ensures
        b == is_ws(c),
{
    c == ' ' || ('\t' <= c && c <= '\r') || c == '\u{85}' || c == '\u{a0}' || c == '\u{1680}'
        || ('\u{2000}' <= c && c <= '\u{200a}') || c == '\u{2028}' || c == '\u{2029}'
        || c == '\u{202f}' || c == '\u{205f}' || c == '\u{3000}'
}

/// Appends one character to a string.
///
/// Calls `String::push`; the contract claims that the string's characters grow by exactly `c`.
#[verifier::external_body]
pub(crate) fn string_push(s: &mut String, c: char)
    ensures
        final(s)@ == old(s)@.push(c),
{
    s.push(c);
}

/// The characters of a string slice.
pub fn str_chars(s: &str) -> (v: Vec<char>)
    ensures
        v@ == s@,
{
    let mut v: Vec<char> = Vec::new();
    for c in it: s.chars()
        invariant
            v@ == it.seq().take(it.index() as int),
    {
        v.push(c);
    }
    v
}

/// A string holding exactly the given characters.
pub fn chars_to_string(v: &Vec<char>) -> (s: String)
    ensures
        s@ == v@,
{
    let mut s = String::new();
    let mut i: usize = 0;
    while i < v.len()
        invariant
            i <= v.len(),
            s@ == v@.take(i as int),
        decreases v.len() - i,
    {
        string_push(&mut s, v[i]);
        i += 1;
        assert(s@ =~= v@.take(i as int));
    }
    assert(v@.take(v.len() as int) =~= v@);
    s
}

/// The characters of a string.
pub fn string_chars(s: &String) -> (v: Vec<char>)
    ensures
        v@ == s@,
{
    str_chars(s.as_str())
}

// ---------------------------------------------------------------------------
// Trimming
// ---------------------------------------------------------------------------

/// First index at or after `i` that does not hold whitespace.
pub open spec fn skip_ws(s: Seq<char>, i: int) -> int
    decreases s.len() - i,
{
    if 0 <= i < s.len() && is_ws(s[i]) {
        skip_ws(s, i + 1)
    } else {
        i
    }
}

/// Index just past the last non-whitespace character before `j`.
pub open spec fn back_ws(s: Seq<char>, j: int) -> int
    decreases j,
{
    if 0 < j <= s.len() && is_ws(s[j - 1]) {
        back_ws(s, j - 1)
    } else {
        j
    }
}

/// `str::trim_start`.
pub open spec fn trim_start(s: Seq<char>) -> Seq<char> {
    s.subrange(skip_ws(s, 0), s.len() as int)
}

/// `str::trim_end`.
pub open spec fn trim_end(s: Seq<char>) -> Seq<char> {
    s.subrange(0, back_ws(s, s.len() as int))
}

/// `str::trim`.
pub open spec fn trim(s: Seq<char>) -> Seq<char> {
    trim_end(trim_start(s))
}

pub proof fn lemma_skip_ws_bounds(s: Seq<char>, i: int)
    requires
        0 <= i <= s.len(),
    ensures
        i <= skip_ws(s, i) <= s.len(),
        skip_ws(s, i) < s.len() ==> !is_ws(s[skip_ws(s, i)]),
        forall|k: int| i <= k < skip_ws(s, i) ==> is_ws(#[trigger] s[k]),
    decreases s.len() - i,
{
    if i < s.len() && is_ws(s[i]) {
        lemma_skip_ws_bounds(s, i + 1);
    }
}

pub proof fn lemma_back_ws_bounds(s: Seq<char>, j: int)
    requires
        0 <= j <= s.len(),
    ensures
        0 <= back_ws(s, j) <= j,
        back_ws(s, j) > 0 ==> !is_ws(s[back_ws(s, j) - 1]),
        forall|k: int| back_ws(s, j) <= k < j ==> is_ws(#[trigger] s[k]),
    decreases j,
{
    if j > 0 && is_ws(s[j - 1]) {
        lemma_back_ws_bounds(s, j - 1);
    }
}

/// Trimming twice trims once.
pub proof fn lemma_trim_twice(s: Seq<char>)
    ensures
        trim(trim(s)) == trim(s),
{
    lemma_skip_ws_bounds(s, 0);
    let u = trim_start(s);
    lemma_back_ws_bounds(u, u.len() as int);
    let t = trim(s);
    assert(t =~= u.subrange(0, back_ws(u, u.len() as int)));
    if t.len() > 0 {
        assert(t[0] == u[0]);
        assert(u[0] == s[skip_ws(s, 0)]);
        assert(!is_ws(t[0]));
        assert(t[t.len() - 1] == u[back_ws(u, u.len() as int) - 1]);
        assert(!is_ws(t[t.len() - 1]));
        assert(skip_ws(t, 0) == 0);
        assert(trim_start(t) =~= t);
        assert(back_ws(t, t.len() as int) == t.len());
        assert(trim_end(t) =~= t);
    } else {
        assert(trim_start(t) =~= t);
        assert(trim_end(t) =~= t);
    }
}

/// Index of the first non-whitespace character at or after `i`.
pub fn skip_ws_from(s: &Vec<char>, i: usize) -> (r: usize)
    requires
        i <= s.len(),
    ensures
        r == skip_ws(s@, i as int),
        i <= r <= s.len(),
{
    let mut k = i;
    while k < s.len() && char_is_ws(s[k])
        invariant
            i <= k <= s.len(),
            skip_ws(s@, i as int) == skip_ws(s@, k as int),
        decreases s.len() - k,
    {
        k += 1;
    }
    k
}

/// Index just past the last non-whitespace character before `j`.
pub fn back_ws_from(s: &Vec<char>, j: usize) -> (r: usize)
    requires
        j <= s.len(),
    ensures
        r == back_ws(s@, j as int),
        r <= j,
{
    let mut k = j;
    while k > 0 && char_is_ws(s[k - 1])
        invariant
            k <= j <= s.len(),
            back_ws(s@, j as int) == back_ws(s@, k as int),
        decreases k,
    {
        k -= 1;
    }
    k
}

/// A copy of `s[lo..hi]`.
pub fn slice_of(s: &Vec<char>, lo: usize, hi: usize) -> (r: Vec<char>)
    requires
        lo <= hi <= s.len(),
    ensures
        r@ == s@.subrange(lo as int, hi as int),
{
    let mut r: Vec<char> = Vec::new();
    let mut k = lo;
    while k < hi
        invariant
            lo <= k <= hi <= s.len(),
            r@ == s@.subrange(lo as int, k as int),
        decreases hi - k,
    {
        r.push(s[k]);
        k += 1;
        assert(r@ =~= s@.subrange(lo as int, k as int));
    }
    r
}

/// A copy of `s`.
pub fn copy_chars(s: &Vec<char>) -> (r: Vec<char>)
    ensures
        r@ == s@,
{
    let r = slice_of(s, 0, s.len());
    assert(r@ =~= s@);
    r
}

/// A copy of a list of texts.
pub fn copy_lines(s: &Vec<Vec<char>>) -> (r: Vec<Vec<char>>)
    ensures
        views(r@) == views(s@),
{
    let mut r: Vec<Vec<char>> = Vec::new();
    let mut i: usize = 0;
    while i < s.len()
        invariant
            i <= s.len(),
            r@.len() == i,
            forall|k: int| #![trigger r@[k]] 0 <= k < i ==> r@[k]@ == s@[k]@,
        decreases s.len() - i,
    {
        r.push(copy_chars(&s[i]));
        i += 1;
    }
    assert(views(r@) =~= views(s@));
    r
}

/// A copy of `s[lo..]`.
pub fn suffix(s: &Vec<char>, lo: usize) -> (r: Vec<char>)
    requires
        lo <= s.len(),
    ensures
        r@ == s@.subrange(lo as int, s@.len() as int),
{
    slice_of(s, lo, s.len())
}

/// `str::trim_start`.
pub fn trim_start_chars(s: &Vec<char>) -> (r: Vec<char>)
    ensures
        r@ == trim_start(s@),
{
    let lo = skip_ws_from(s, 0);
    slice_of(s, lo, s.len())
}

/// `str::trim_end`.
pub fn trim_end_chars(s: &Vec<char>) -> (r: Vec<char>)
    ensures
        r@ == trim_end(s@),
{
    let hi = back_ws_from(s, s.len());
    slice_of(s, 0, hi)
}

/// `str::trim`.
pub fn trim_chars(s: &Vec<char>) -> (r: Vec<char>)
    ensures
        r@ == trim(s@),
{
    let t = trim_start_chars(s);
    trim_end_chars(&t)
}

// ---------------------------------------------------------------------------
// Comparison and search
// ---------------------------------------------------------------------------

/// Whether two character sequences are equal.
pub fn chars_eq(a: &Vec<char>, b: &Vec<char>) -> (r: bool)
    ensures
        r == (a@ == b@),
{
    if a.len() != b.len() {
        return false;
    }
    let mut i: usize = 0;
    while i < a.len()
        invariant
            a.len() == b.len(),
            i <= a.len(),
            forall|k: int| 0 <= k < i ==> a@[k] == b@[k],
        decreases a.len() - i,
    {
        if a[i] != b[i] {
            return false;
        }
        i += 1;
    }
    assert(a@ =~= b@);
    true
}

/// Whether `p` occurs in `s` at position `i`.
pub open spec fn matches_at(s: Seq<char>, p: Seq<char>, i: int) -> bool {
    0 <= i && i + p.len() <= s.len() && s.subrange(i, i + p.len()) == p
}

/// `str::starts_with` with a string pattern.
pub open spec fn starts_with(s: Seq<char>, p: Seq<char>) -> bool {
    matches_at(s, p, 0)
}

/// `str::ends_with` with a string pattern.
pub open spec fn ends_with(s: Seq<char>, p: Seq<char>) -> bool {
    matches_at(s, p, s.len() - p.len())
}

/// Whether `p` occurs in `s` at position `i`.
pub fn matches_at_exec(s: &Vec<char>, p: &Vec<char>, i: usize) -> (r: bool)
    ensures
        r == matches_at(s@, p@, i as int),
{
    if i > s.len() || p.len() > s.len() - i {
        return false;
    }
    let mut k: usize = 0;
    while k < p.len()
        invariant
            i + p.len() <= s.len(),
            k <= p.len(),
            forall|m: int| 0 <= m < k ==> s@[i + m] == p@[m],
        decreases p.len() - k,
    {
        if s[i + k] != p[k] {
            assert(s@.subrange(i as int, i + p.len())[k as int] != p@[k as int]);
            return false;
        }
        k += 1;
    }
    assert(s@.subrange(i as int, i + p.len()) =~= p@);
    true
}

/// `str::starts_with`.
pub fn starts_with_exec(s: &Vec<char>, p: &Vec<char>) -> (r: bool)
    ensures
        r == starts_with(s@, p@),
{
    matches_at_exec(s, p, 0)
}

/// `str::ends_with`.
pub fn ends_with_exec(s: &Vec<char>, p: &Vec<char>) -> (r: bool)
    ensures
        r == ends_with(s@, p@),
{
    if p.len() > s.len() {
        return false;
    }
    matches_at_exec(s, p, s.len() - p.len())
}

/// First position at or after `i` where `p` occurs.
pub open spec fn find_from(s: Seq<char>, p: Seq<char>, i: int) -> Option<int>
    decreases s.len() + 1 - i,
{
    if i < 0 || i + p.len() > s.len() {
        None
    } else if matches_at(s, p, i) {
        Some(i)
    } else {
        find_from(s, p, i + 1)
    }
}

/// `str::find` with a string pattern.
pub open spec fn find(s: Seq<char>, p: Seq<char>) -> Option<int> {
    find_from(s, p, 0)
}

/// `str::find` with a character pattern.
pub open spec fn find_char(s: Seq<char>, c: char) -> Option<int> {
    find(s, seq![c])
}

pub proof fn lemma_find_from_props(s: Seq<char>, p: Seq<char>, i: int)
    requires
        0 <= i,
    ensures
        find_from(s, p, i) matches Some(k) ==> i <= k && k + p.len() <= s.len() && matches_at(s, p, k),
        forall|k: int| i <= k && (find_from(s, p, i) is None || k < find_from(s, p, i)->0)
            ==> !#[trigger] matches_at(s, p, k),
    decreases s.len() + 1 - i,
{
    if i + p.len() > s.len() {
    } else if matches_at(s, p, i) {
    } else {
        lemma_find_from_props(s, p, i + 1);
    }
}

/// First position at or after `i` where `p` occurs.
pub fn find_from_exec(s: &Vec<char>, p: &Vec<char>, i: usize) -> (r: Option<usize>)
    ensures
        r matches Some(k) ==> find_from(s@, p@, i as int) == Some(k as int) && i <= k && k + p@.len() <= s@.len() <= usize::MAX,
        r is None ==> find_from(s@, p@, i as int) is None,
{
    let sl = s.len();
    let mut k = i;
    loop
        invariant
            i <= k,
            find_from(s@, p@, i as int) == find_from(s@, p@, k as int),
        decreases s.len() + 1 - k,
    {
        if k > s.len() || p.len() > s.len() - k {
            return None;
        }
        if matches_at_exec(s, p, k) {
            assert(k + p@.len() <= s@.len());
            return Some(k);
        }
        if k == s.len() {
            assert(find_from(s@, p@, k as int + 1) is None);
            return None;
        }
        k += 1;
    }
}

/// `str::find` with a string pattern.
pub fn find_exec(s: &Vec<char>, p: &Vec<char>) -> (r: Option<usize>)
    ensures
        r matches Some(k) ==> find(s@, p@) == Some(k as int) && k + p@.len() <= s@.len() <= usize::MAX,
        r is None ==> find(s@, p@) is None,
{
    find_from_exec(s, p, 0)
}

/// `str::find` with a character pattern.
pub fn find_char_exec(s: &Vec<char>, c: char) -> (r: Option<usize>)
    ensures
        r matches Some(k) ==> find_char(s@, c) == Some(k as int) && k < s@.len() <= usize::MAX,
        r is None ==> find_char(s@, c) is None,
{
    let mut p: Vec<char> = Vec::new();
    p.push(c);
    assert(p@ =~= seq![c]);
    find_exec(s, &p)
}

/// The characters of a literal, for use as a pattern.
pub fn lit(s: &str) -> (v: Vec<char>)
    ensures
        v@ == s@,
{
    str_chars(s)
}


// ---------------------------------------------------------------------------
// Views of vectors of character vectors
// ---------------------------------------------------------------------------

/// The character sequences held by a vector of character vectors.
pub open spec fn views(v: Seq<Vec<char>>) -> Seq<Seq<char>> {
    v.map_values(|x: Vec<char>| x@)
}

/// The character sequences held by a vector of strings.
pub open spec fn string_views(v: Seq<String>) -> Seq<Seq<char>> {
    v.map_values(|x: String| x@)
}

pub proof fn lemma_views_push(v: Seq<Vec<char>>, x: Vec<char>)
    ensures
        views(v.push(x)) == views(v).push(x@),
{
    assert(views(v.push(x)) =~= views(v).push(x@));
}

// ---------------------------------------------------------------------------
// Lines
// ---------------------------------------------------------------------------

/// Drops one trailing carriage return.
pub open spec fn strip_cr(l: Seq<char>) -> Seq<char> {
    if l.len() > 0 && l.last() == '\r' {
        l.drop_last()
    } else {
        l
    }
}

/// The lines of `s` starting at index `i`, as `str::lines` yields them: split at
/// `'\n'`, one `'\r'` before a `'\n'` dropped, no empty line after a final `'\n'`.
pub open spec fn lines_from(s: Seq<char>, i: int) -> Seq<Seq<char>>
    decreases s.len() - i,
{
    if i < 0 || i >= s.len() {
        seq![]
    } else {
        match find_from(s, seq!['\n'], i) {
            None => seq![s.subrange(i, s.len() as int)],
            Some(k) => {
                proof {
                    lemma_find_from_props(s, seq!['\n'], i);
                }
                seq![strip_cr(s.subrange(i, k))] + lines_from(s, k + 1)
            },
        }
    }
}

/// `str::lines`.
pub open spec fn lines(s: Seq<char>) -> Seq<Seq<char>> {
    lines_from(s, 0)
}

/// `str::lines`.
pub fn lines_exec(s: &Vec<char>) -> (r: Vec<Vec<char>>)
    ensures
        views(r@) == lines(s@),
{
    let mut r: Vec<Vec<char>> = Vec::new();
    let nl = lit("\n");
    proof {
        reveal_strlit("\n");
        assert(nl@ =~= seq!['\n']);
    }
    let mut i: usize = 0;
    while i < s.len()
        invariant
            i <= s.len(),
            nl@ == seq!['\n'],
            views(r@) + lines_from(s@, i as int) == lines(s@),
        decreases s.len() - i,
    {
        match find_from_exec(s, &nl, i) {
            None => {
                let l = slice_of(s, i, s.len());
                proof {
                    lemma_views_push(r@, l);
                    assert(views(r@.push(l)) + lines_from(s@, s.len() as int) =~= views(r@) + lines_from(s@, i as int));
                }
                r.push(l);
                i = s.len();
            },
            Some(k) => {
                proof {
                    lemma_find_from_props(s@, nl@, i as int);
                }
                let mut l = slice_of(s, i, k);
                if l.len() > 0 && l[l.len() - 1] == '\r' {
                    l.pop();
                }
                assert(l@ == strip_cr(s@.subrange(i as int, k as int)));
                proof {
                    lemma_views_push(r@, l);
                    assert(views(r@.push(l)) + lines_from(s@, k + 1) =~= views(r@) + lines_from(s@, i as int));
                }
                r.push(l);
                i = k + 1;
            },
        }
    }
    assert(views(r@) + lines_from(s@, i as int) =~= views(r@));
    r
}

// ---------------------------------------------------------------------------
// Words (split_whitespace)
// ---------------------------------------------------------------------------

/// First index at or after `i` that holds whitespace (or the length).
pub open spec fn skip_word(s: Seq<char>, i: int) -> int
    decreases s.len() - i,
{
    if 0 <= i < s.len() && !is_ws(s[i]) {
        skip_word(s, i + 1)
    } else {
        i
    }
}

pub proof fn lemma_skip_word_bounds(s: Seq<char>, i: int)
    requires
        0 <= i <= s.len(),
    ensures
        i <= skip_word(s, i) <= s.len(),
        skip_word(s, i) < s.len() ==> is_ws(s[skip_word(s, i)]),
        forall|k: int| i <= k < skip_word(s, i) ==> !is_ws(#[trigger] s[k]),
    decreases s.len() - i,
{
    if i < s.len() && !is_ws(s[i]) {
        lemma_skip_word_bounds(s, i + 1);
    }
}

/// The whitespace-separated words of `s` from index `i` on (`str::split_whitespace`).
pub open spec fn words_from(s: Seq<char>, i: int) -> Seq<Seq<char>>
    decreases s.len() - i,
{
    if i < 0 || i > s.len() {
        seq![]
    } else {
        let a = skip_ws(s, i);
        proof {
            lemma_skip_ws_bounds(s, i);
        }
        if a >= s.len() {
            seq![]
        } else {
            let b = skip_word(s, a);
            proof {
                lemma_skip_word_bounds(s, a);
            }
            seq![s.subrange(a, b)] + words_from(s, b)
        }
    }
}

/// `str::split_whitespace`.
pub open spec fn words(s: Seq<char>) -> Seq<Seq<char>> {
    words_from(s, 0)
}

/// Index of the first whitespace character at or after `i` (or the length).
pub fn skip_word_from(s: &Vec<char>, i: usize) -> (r: usize)
    requires
        i <= s.len(),
    ensures
        r == skip_word(s@, i as int),
        i <= r <= s.len(),
{
    let mut k = i;
    while k < s.len() && !char_is_ws(s[k])
        invariant
            i <= k <= s.len(),
            skip_word(s@, i as int) == skip_word(s@, k as int),
        decreases s.len() - k,
    {
        k += 1;
    }
    k
}

/// `str::split_whitespace`.
pub fn words_exec(s: &Vec<char>) -> (r: Vec<Vec<char>>)
    ensures
        views(r@) == words(s@),
{
    let mut r: Vec<Vec<char>> = Vec::new();
    let mut i: usize = 0;
    loop
        invariant
            i <= s.len(),
            views(r@) + words_from(s@, i as int) == words(s@),
        decreases s.len() - i,
    {
        let a = skip_ws_from(s, i);
        if a >= s.len() {
            assert(words_from(s@, i as int) =~= Seq::<Seq<char>>::empty());
            assert(views(r@) + words_from(s@, i as int) =~= views(r@));
            return r;
        }
        let b = skip_word_from(s, a);
        proof {
            lemma_skip_word_bounds(s@, a as int);
        }
        let w = slice_of(s, a, b);
        proof {
            lemma_views_push(r@, w);
            assert(views(r@.push(w)) + words_from(s@, b as int) =~= views(r@) + words_from(s@, i as int));
        }
        r.push(w);
        i = b;
    }
}

// ---------------------------------------------------------------------------
// Splitting at a character
// ---------------------------------------------------------------------------

/// The pieces of `s[i..]` separated by `c` (`str::split` with a character).
pub open spec fn split_from(s: Seq<char>, c: char, i: int) -> Seq<Seq<char>>
    decreases s.len() + 1 - i,
{
    if i < 0 || i > s.len() {
        seq![]
    } else {
        match find_from(s, seq![c], i) {
            None => seq![s.subrange(i, s.len() as int)],
            Some(k) => {
                proof {
                    lemma_find_from_props(s, seq![c], i);
                }
                seq![s.subrange(i, k)] + split_from(s, c, k + 1)
            },
        }
    }
}

/// `str::split` with a character pattern.
pub open spec fn split_char(s: Seq<char>, c: char) -> Seq<Seq<char>> {
    split_from(s, c, 0)
}

/// `str::split` with a character pattern.
pub fn split_char_exec(s: &Vec<char>, c: char) -> (r: Vec<Vec<char>>)
    ensures
        views(r@) == split_char(s@, c),
{
    let mut p: Vec<char> = Vec::new();
    p.push(c);
    assert(p@ =~= seq![c]);
    let mut r: Vec<Vec<char>> = Vec::new();
    let mut i: usize = 0;
    loop
        invariant
            i <= s.len(),
            p@ == seq![c],
            views(r@) + split_from(s@, c, i as int) == split_char(s@, c),
        decreases s.len() + 1 - i,
    {
        match find_from_exec(s, &p, i) {
            None => {
                let piece = slice_of(s, i, s.len());
                proof {
                    lemma_views_push(r@, piece);
                    assert(views(r@.push(piece)) =~= views(r@) + split_from(s@, c, i as int));
                }
                r.push(piece);
                return r;
            },
            Some(k) => {
                proof {
                    lemma_find_from_props(s@, p@, i as int);
                }
                let piece = slice_of(s, i, k);
                proof {
                    lemma_views_push(r@, piece);
                    assert(views(r@.push(piece)) + split_from(s@, c, k + 1) =~= views(r@) + split_from(s@, c, i as int));
                }
                r.push(piece);
                i = k + 1;
            },
        }
    }
}

/// `str::split_once` with a string pattern.
pub open spec fn split_once(s: Seq<char>, p: Seq<char>) -> Option<(Seq<char>, Seq<char>)> {
    match find(s, p) {
        Some(k) => Some((s.take(k), s.skip(k + p.len()))),
        None => None,
    }
}

/// `str::split_once` with a string pattern.
pub fn split_once_exec(s: &Vec<char>, p: &Vec<char>) -> (r: Option<(Vec<char>, Vec<char>)>)
    ensures
        match r {
            Some((a, b)) => split_once(s@, p@) == Some((a@, b@)),
            None => split_once(s@, p@) is None,
        },
{
    match find_exec(s, p) {
        Some(k) => {
            proof {
                lemma_find_from_props(s@, p@, 0);
            }
            let sl = s.len();
            assert(k + p@.len() <= sl);
            let e: usize = k + p.len();
            let a = slice_of(s, 0, k);
            let b = slice_of(s, e, s.len());
            assert(a@ =~= s@.take(k as int));
            assert(b@ =~= s@.skip(k + p.len()));
            Some((a, b))
        },
        None => None,
    }
}

/// `str::split_once` with a character pattern.
pub fn split_once_char_exec(s: &Vec<char>, c: char) -> (r: Option<(Vec<char>, Vec<char>)>)
    ensures
        match r {
            Some((a, b)) => split_once(s@, seq![c]) == Some((a@, b@)),
            None => split_once(s@, seq![c]) is None,
        },
{
    let mut p: Vec<char> = Vec::new();
    p.push(c);
    assert(p@ =~= seq![c]);
    split_once_exec(s, &p)
}

// ---------------------------------------------------------------------------
// Case folding
// ---------------------------------------------------------------------------

/// `char::to_ascii_lowercase`.
pub open spec fn lower(c: char) -> char {
    if 'A' <= c && c <= 'Z' {
        ((c as u32) + 32) as char
    } else {
        c
    }
}

/// `char::to_ascii_uppercase`.
pub open spec fn upper(c: char) -> char {
    if 'a' <= c && c <= 'z' {
        ((c as u32) - 32) as char
    } else {
        c
    }
}

/// `str::to_ascii_lowercase`.
pub open spec fn lowercase(s: Seq<char>) -> Seq<char> {
    s.map_values(|c: char| lower(c))
}

/// `str::to_ascii_uppercase`.
pub open spec fn uppercase(s: Seq<char>) -> Seq<char> {
    s.map_values(|c: char| upper(c))
}

/// `char::to_ascii_lowercase`.
pub fn lower_exec(c: char) -> (r: char)
    ensures
        r == lower(c),
{
    if 'A' <= c && c <= 'Z' {
        ((c as u8) + 32) as char
    } else {
        c
    }
}

/// `char::to_ascii_uppercase`.
pub fn upper_exec(c: char) -> (r: char)
    ensures
        r == upper(c),
{
    if 'a' <= c && c <= 'z' {
        ((c as u8) - 32) as char
    } else {
        c
    }
}

/// `str::to_ascii_lowercase`.
pub fn lowercase_exec(s: &Vec<char>) -> (r: Vec<char>)
    ensures
        r@ == lowercase(s@),
{
    let mut r: Vec<char> = Vec::new();
    let mut i: usize = 0;
    while i < s.len()
        invariant
            i <= s.len(),
            r@ == lowercase(s@.take(i as int)),
        decreases s.len() - i,
    {
        r.push(lower_exec(s[i]));
        i += 1;
        assert(r@ =~= lowercase(s@.take(i as int)));
    }
    assert(s@.take(s.len() as int) =~= s@);
    r
}

/// `str::to_ascii_uppercase`.
pub fn uppercase_exec(s: &Vec<char>) -> (r: Vec<char>)
    ensures
        r@ == uppercase(s@),
{
    let mut r: Vec<char> = Vec::new();
    let mut i: usize = 0;
    while i < s.len()
        invariant
            i <= s.len(),
            r@ == uppercase(s@.take(i as int)),
        decreases s.len() - i,
    {
        r.push(upper_exec(s[i]));
        i += 1;
        assert(r@ =~= uppercase(s@.take(i as int)));
    }
    assert(s@.take(s.len() as int) =~= s@);
    r
}

// ---------------------------------------------------------------------------
// Joining
// ---------------------------------------------------------------------------

/// `[String]::join(sep)`.
pub open spec fn join(parts: Seq<Seq<char>>, sep: Seq<char>) -> Seq<char>
    decreases parts.len(),
{
    if parts.len() == 0 {
        seq![]
    } else if parts.len() == 1 {
        parts[0]
    } else {
        join(parts.drop_last(), sep) + sep + parts.last()
    }
}

/// Appends all of `b` to `a`.
pub fn append_chars(a: &mut Vec<char>, b: &Vec<char>)
    ensures
        final(a)@ == old(a)@ + b@,
{
    let mut i: usize = 0;
    let ghost a0 = a@;
    while i < b.len()
        invariant
            i <= b.len(),
            a@ == a0 + b@.take(i as int),
        decreases b.len() - i,
    {
        a.push(b[i]);
        i += 1;
        assert(a@ =~= a0 + b@.take(i as int));
    }
    assert(b@.take(b.len() as int) =~= b@);
}

/// `[String]::join(sep)`.
pub fn join_exec(parts: &Vec<Vec<char>>, sep: &Vec<char>) -> (r: Vec<char>)
    ensures
        r@ == join(views(parts@), sep@),
{
    let mut r: Vec<char> = Vec::new();
    let mut i: usize = 0;
    while i < parts.len()
        invariant
            i <= parts.len(),
            r@ == join(views(parts@).take(i as int), sep@),
        decreases parts.len() - i,
    {
        let ghost prev = views(parts@).take(i as int);
        if i > 0 {
            append_chars(&mut r, sep);
        }
        append_chars(&mut r, &parts[i]);
        i += 1;
        assert(views(parts@).take(i as int).drop_last() =~= prev);
        assert(r@ =~= join(views(parts@).take(i as int), sep@));
    }
    assert(views(parts@).take(parts.len() as int) =~= views(parts@));
    r
}

/// Appends every line of `b` to `a`.
pub fn append_lines(a: &mut Vec<Vec<char>>, b: &Vec<Vec<char>>)
    ensures
        views(final(a)@) == views(old(a)@) + views(b@),
{
    let ghost a0 = views(a@);
    let mut i: usize = 0;
    while i < b.len()
        invariant
            i <= b.len(),
            views(a@) == a0 + views(b@).take(i as int),
        decreases b.len() - i,
    {
        let c = copy_chars(&b[i]);
        proof {
            lemma_views_push(a@, c);
        }
        a.push(c);
        i += 1;
        assert(views(a@) =~= a0 + views(b@).take(i as int));
    }
    assert(views(b@).take(b.len() as int) =~= views(b@));
}

// ---------------------------------------------------------------------------
// Numbers
// ---------------------------------------------------------------------------

/// Decimal digits of `n`.
pub open spec fn decimal(n: nat) -> Seq<char>
    decreases n,
{
    if n < 10 {
        seq![digit_char(n)]
    } else {
        decimal(n / 10).push(digit_char(n % 10))
    }
}

/// The digit character of a value below ten.
pub open spec fn digit_char(d: nat) -> char {
    if d == 0 { '0' } else if d == 1 { '1' } else if d == 2 { '2' } else if d == 3 { '3' }
    else if d == 4 { '4' } else if d == 5 { '5' } else if d == 6 { '6' } else if d == 7 { '7' }
    else if d == 8 { '8' } else { '9' }
}

fn digit_exec(d: u32) -> (c: char)
    requires
        d < 10,
    ensures
        c == digit_char(d as nat),
{
    if d == 0 { '0' } else if d == 1 { '1' } else if d == 2 { '2' } else if d == 3 { '3' }
    else if d == 4 { '4' } else if d == 5 { '5' } else if d == 6 { '6' } else if d == 7 { '7' }
    else if d == 8 { '8' } else { '9' }
}

/// Decimal digits of `n`.
pub fn decimal_exec(n: u32) -> (r: Vec<char>)
    ensures
        r@ == decimal(n as nat),
    decreases n,
{
    if n < 10 {
        let mut v: Vec<char> = Vec::new();
        v.push(digit_exec(n));
        assert(v@ =~= seq![digit_char(n as nat)]);
        v
    } else {
        let mut v = decimal_exec(n / 10);
        v.push(digit_exec(n % 10));
        v
    }
}

/// Decimal digits of `n`.
pub fn decimal_usize(n: usize) -> (r: Vec<char>)
    ensures
        r@ == decimal(n as nat),
    decreases n,
{
    if n < 10 {
        let mut v: Vec<char> = Vec::new();
        v.push(digit_exec((n % 10) as u32));
        assert(v@ =~= seq![digit_char(n as nat)]);
        v
    } else {
        let mut v = decimal_usize(n / 10);
        v.push(digit_exec((n % 10) as u32));
        v
    }
}

// ---------------------------------------------------------------------------
// Splitting at a string, at whitespace; trimming a repeated suffix
// ---------------------------------------------------------------------------

/// The pieces of `s[i..]` separated by the non-empty pattern `p` (`str::split`).
pub open spec fn split_pat_from(s: Seq<char>, p: Seq<char>, i: int) -> Seq<Seq<char>>
    decreases s.len() + 1 - i,
{
    if i < 0 || i > s.len() || p.len() == 0 {
        seq![]
    } else {
        match find_from(s, p, i) {
            None => seq![s.subrange(i, s.len() as int)],
            Some(k) => {
                proof {
                    lemma_find_from_props(s, p, i);
                }
                seq![s.subrange(i, k)] + split_pat_from(s, p, k + p.len())
            },
        }
    }
}

/// `str::split` with a non-empty string pattern.
pub open spec fn split_pat(s: Seq<char>, p: Seq<char>) -> Seq<Seq<char>> {
    split_pat_from(s, p, 0)
}

/// `str::split` with a non-empty string pattern.
pub fn split_pat_exec(s: &Vec<char>, p: &Vec<char>) -> (r: Vec<Vec<char>>)
    requires
        p@.len() > 0,
    ensures
        views(r@) == split_pat(s@, p@),
{
    let mut r: Vec<Vec<char>> = Vec::new();
    let mut i: usize = 0;
    loop
        invariant
            i <= s.len(),
            p@.len() > 0,
            views(r@) + split_pat_from(s@, p@, i as int) == split_pat(s@, p@),
        decreases s.len() + 1 - i,
    {
        match find_from_exec(s, p, i) {
            None => {
                let piece = slice_of(s, i, s.len());
                proof {
                    lemma_views_push(r@, piece);
                    assert(views(r@.push(piece)) =~= views(r@) + split_pat_from(s@, p@, i as int));
                }
                r.push(piece);
                return r;
            },
            Some(k) => {
                proof {
                    lemma_find_from_props(s@, p@, i as int);
                }
                let piece = slice_of(s, i, k);
                let e: usize = k + p.len();
                proof {
                    lemma_views_push(r@, piece);
                    assert(views(r@.push(piece)) + split_pat_from(s@, p@, e as int)
                        =~= views(r@) + split_pat_from(s@, p@, i as int));
                }
                r.push(piece);
                i = e;
            },
        }
    }
}

/// Index of the first whitespace character of `s` at or after `i`.
pub open spec fn first_ws_from(s: Seq<char>, i: int) -> Option<int>
    decreases s.len() - i,
{
    if i < 0 || i >= s.len() {
        None
    } else if is_ws(s[i]) {
        Some(i)
    } else {
        first_ws_from(s, i + 1)
    }
}

/// `s.splitn(2, char::is_whitespace)`: the text before the first whitespace
/// character and, when there is one, the text after it.
pub open spec fn split_ws_once(s: Seq<char>) -> (Seq<char>, Option<Seq<char>>) {
    match first_ws_from(s, 0) {
        Some(k) => (s.take(k), Some(s.skip(k + 1))),
        None => (s, None),
    }
}

pub proof fn lemma_first_ws_from(s: Seq<char>, i: int)
    requires
        0 <= i,
    ensures
        first_ws_from(s, i) matches Some(k) ==> i <= k < s.len(),
    decreases s.len() - i,
{
    if i < s.len() && !is_ws(s[i]) {
        lemma_first_ws_from(s, i + 1);
    }
}

/// `s.splitn(2, char::is_whitespace)`.
pub fn split_ws_once_exec(s: &Vec<char>) -> (r: (Vec<char>, Option<Vec<char>>))
    ensures
        (r.0@, crate::model::opt_text(r.1)) == split_ws_once(s@),
{
    let mut i: usize = 0;
    while i < s.len()
        invariant
            i <= s.len(),
            first_ws_from(s@, 0) == first_ws_from(s@, i as int),
        decreases s.len() - i,
    {
        if char_is_ws(s[i]) {
            let a = slice_of(s, 0, i);
            let b = slice_of(s, i + 1, s.len());
            assert(a@ =~= s@.take(i as int));
            assert(b@ =~= s@.skip(i + 1));
            return (a, Some(b));
        }
        i += 1;
    }
    (copy_chars(s), None)
}

/// `str::trim_end_matches` with a non-empty string pattern.
pub open spec fn trim_end_pat(s: Seq<char>, p: Seq<char>) -> Seq<char>
    decreases s.len(),
{
    if p.len() > 0 && ends_with(s, p) {
        trim_end_pat(s.take(s.len() - p.len()), p)
    } else {
        s
    }
}

/// `str::trim_end_matches` with a non-empty string pattern.
pub fn trim_end_pat_exec(s: &Vec<char>, p: &Vec<char>) -> (r: Vec<char>)
    ensures
        r@ == trim_end_pat(s@, p@),
{
    let mut cur = copy_chars(s);
    while p.len() > 0 && ends_with_exec(&cur, p)
        invariant
            trim_end_pat(s@, p@) == trim_end_pat(cur@, p@),
        decreases cur@.len(),
    {
        let next = slice_of(&cur, 0, cur.len() - p.len());
        assert(next@ =~= cur@.take(cur@.len() - p@.len()));
        cur = next;
    }
    cur
}

/// The first whitespace-separated word, or nothing.
pub open spec fn first_word(s: Seq<char>) -> Seq<char> {
    if words(s).len() > 0 { words(s)[0] } else { seq![] }
}

/// The first whitespace-separated word, or nothing.
pub fn first_word_exec(s: &Vec<char>) -> (r: Vec<char>)
    ensures
        r@ == first_word(s@),
{
    let w = words_exec(s);
    if w.len() > 0 {
        assert(views(w@)[0] == w@[0]@);
        copy_chars(&w[0])
    } else {
        Vec::new()
    }
}

/// `str::split` yields at least one piece.
pub proof fn lemma_split_pat_nonempty(s: Seq<char>, p: Seq<char>)
    requires
        p.len() > 0,
    ensures
        split_pat(s, p).len() >= 1,
{
    lemma_find_from_props(s, p, 0);
}

} // verus!
