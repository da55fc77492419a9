//! Regular-expression matching through the `regex` crate, with its byte offsets
//! turned into character positions.

use vstd::prelude::*;
use crate::diagram::Text;

verus! {

/// Number of bytes of `c` in UTF-8.
pub open spec fn utf8_len(c: char) -> nat {
    if (c as u32) < 0x80 {
        1
    } else if (c as u32) < 0x800 {
        2
    } else if (c as u32) < 0x10000 {
        3
    } else {
        4
    }
}

/// Byte offset, in UTF-8, of the character at index `k` of `s`.
pub open spec fn byte_offset(s: Text, k: int) -> nat
    decreases k,
{
    if k <= 0 || k > s.len() {
        0
    } else {
        byte_offset(s, k - 1) + utf8_len(s[k - 1])
    }
}

/// Index of the character that starts at byte offset `b` (or `s.len()` for the
/// end), looking from index `k` on; `None` when `b` is not a character boundary.
pub open spec fn char_at_byte_from(s: Text, b: int, k: int) -> Option<int>
    decreases s.len() - k,
{
    if k < 0 || k > s.len() {
        None
    } else if byte_offset(s, k) == b {
        Some(k)
    } else if k == s.len() {
        None
    } else {
        char_at_byte_from(s, b, k + 1)
    }
}

/// Index of the character that starts at byte offset `b`.
pub open spec fn char_at_byte(s: Text, b: int) -> Option<int> {
    char_at_byte_from(s, b, 0)
}

/// Spans (byte offsets) of the groups of the leftmost-first match of `pattern`
/// in `text`: group 0 is the whole match, then the groups in the order of their
/// opening parentheses; `None` when nothing matches or the pattern does not compile.
pub uninterp spec fn regex_captures(pattern: Seq<char>, text: Seq<char>) -> Option<Seq<Option<(usize, usize)>>>;

/// Compiles `pattern` with `regex::Regex::new` and searches `text` with
/// `Regex::captures`, giving the byte spans of the groups. The contract claims that
/// the spans are those of `regex_captures`, and what the crate documents of every
/// match: it starts no later than it ends, both on character boundaries of `text`.
#[verifier::external_body]
fn first_captures(pattern: &str, text: &Vec<char>) -> (r: Option<Vec<Option<(usize, usize)>>>)
    ensures
        match r {
            Some(v) => regex_captures(pattern@, text@) == Some(v@),
            None => regex_captures(pattern@, text@) is None,
        },
        r matches Some(v) ==> forall|i: int| 0 <= i < v@.len() ==> (#[trigger] v@[i] matches Some((a, b))
            ==> a <= b && char_at_byte(text@, a as int) is Some && char_at_byte(text@, b as int) is Some),
{
    let hay: String = text.iter().collect();
    match regex::Regex::new(pattern) {
        Ok(re) => re.captures(&hay).map(|c| c.iter().map(|m| m.map(|m| (m.start(), m.end()))).collect()),
        Err(_) => None,
    }
}

/// Text of a group span taken from `src`; `None` for a group that did not take
/// part, or for offsets that are not character boundaries of `src`.
pub open spec fn span_text(src: Text, sp: Option<(usize, usize)>) -> Option<Text> {
    match sp {
        Some((a, b)) => match (char_at_byte(src, a as int), char_at_byte(src, b as int)) {
            (Some(i), Some(j)) => if i <= j { Some(src.subrange(i, j)) } else { None },
            _ => None,
        },
        None => None,
    }
}

/// Group texts of the match of `pattern` in `matched`, cut out of `src`.
pub open spec fn regex_groups(pattern: Seq<char>, matched: Text, src: Text) -> Option<Seq<Option<Text>>> {
    match regex_captures(pattern, matched) {
        Some(sp) => Some(sp.map_values(|x: Option<(usize, usize)>| span_text(src, x))),
        None => None,
    }
}

pub proof fn lemma_byte_offset_mono(s: Text, i: int, j: int)
    requires
        0 <= i <= j <= s.len(),
    ensures
        byte_offset(s, i) + (j - i) <= byte_offset(s, j),
    decreases j - i,
{
    if i < j {
        lemma_byte_offset_mono(s, i, j - 1);
    }
}

pub proof fn lemma_char_at_byte_from(s: Text, b: int, k: int)
    requires
        0 <= k <= s.len(),
    ensures
        char_at_byte_from(s, b, k) matches Some(j) ==> k <= j <= s.len() && byte_offset(s, j) == b,
        byte_offset(s, k) > b ==> char_at_byte_from(s, b, k) is None,
    decreases s.len() - k,
{
    if byte_offset(s, k) != b && k < s.len() {
        lemma_char_at_byte_from(s, b, k + 1);
        lemma_byte_offset_mono(s, k, k + 1);
    }
}

pub fn utf8_len_exec(c: char) -> (r: u32)
    ensures
        r == utf8_len(c),
{
    let v = c as u32;
    if v < 0x80 {
        1
    } else if v < 0x800 {
        2
    } else if v < 0x10000 {
        3
    } else {
        4
    }
}

/// Index of the character of `s` that starts at byte offset `b`.
pub fn char_at_byte_exec(s: &Vec<char>, b: usize) -> (r: Option<usize>)
    ensures
        match r {
            Some(k) => char_at_byte(s@, b as int) == Some(k as int) && k <= s@.len(),
            None => char_at_byte(s@, b as int) is None,
        },
{
    let mut k: usize = 0;
    let mut off: u128 = 0;
    while k < s.len()
        invariant
            k <= s@.len(),
            off == byte_offset(s@, k as int),
            off <= b,
            char_at_byte(s@, b as int) == char_at_byte_from(s@, b as int, k as int),
        decreases s@.len() - k,
    {
        if off == b as u128 {
            return Some(k);
        }
        let step = utf8_len_exec(s[k]);
        off = off + step as u128;
        k += 1;
        if off > b as u128 {
            proof {
                lemma_char_at_byte_from(s@, b as int, k as int);
            }
            return None;
        }
    }
    if off == b as u128 {
        Some(k)
    } else {
        None
    }
}

fn span_text_exec(src: &Vec<char>, sp: Option<(usize, usize)>) -> (r: Option<Vec<char>>)
    ensures
        crate::model::opt_text(r) == span_text(src@, sp),
{
    match sp {
        Some((a, b)) => match (char_at_byte_exec(src, a), char_at_byte_exec(src, b)) {
            (Some(i), Some(j)) => if i <= j {
                Some(crate::text::slice_of(src, i, j))
            } else {
                None
            },
            _ => None,
        },
        None => None,
    }
}

/// Group texts of the match of `pattern` in `matched`, cut out of `src`.
pub fn regex_groups_exec(pattern: &str, matched: &Vec<char>, src: &Vec<char>) -> (r: Option<Vec<Option<Vec<char>>>>)
    ensures
        match r {
            Some(v) => regex_groups(pattern@, matched@, src@) == Some(v@.map_values(|x: Option<Vec<char>>| crate::model::opt_text(x))),
            None => regex_groups(pattern@, matched@, src@) is None,
        },
{
    match first_captures(pattern, matched) {
        None => None,
        Some(spans) => {
            let mut out: Vec<Option<Vec<char>>> = Vec::new();
            let mut i: usize = 0;
            while i < spans.len()
                invariant
                    i <= spans@.len(),
                    out@.len() == i,
                    forall|k: int| 0 <= k < i ==> #[trigger] crate::model::opt_text(out@[k]) == span_text(src@, spans@[k]),
                decreases spans@.len() - i,
            {
                let t = span_text_exec(src, spans[i]);
                out.push(t);
                i += 1;
            }
            assert(out@.map_values(|x: Option<Vec<char>>| crate::model::opt_text(x))
                =~= spans@.map_values(|x: Option<(usize, usize)>| span_text(src@, x)));
            Some(out)
        },
    }
}

/// Optional texts, each by its characters.
pub open spec fn opt_texts(v: Seq<Option<Vec<char>>>) -> Seq<Option<Text>> {
    v.map_values(|x: Option<Vec<char>>| crate::model::opt_text(x))
}

} // verus!
