use vstd::prelude::*;

verus! {

/// A whitespace character: the Unicode white-space set that the text
/// scrubbing treats as blank.
pub open spec fn is_space_char(c: char) -> bool {
    let u = c as u32;
    (9 <= u && u <= 13) || u == 32 || u == 0x85 || u == 0xA0 || u == 0x1680 || (0x2000 <= u && u
        <= 0x200A) || u == 0x2028 || u == 0x2029 || u == 0x202F || u == 0x205F || u == 0x3000
}

/// The characters that are removed from text wherever they stand.
pub open spec fn is_forbidden_char(c: char) -> bool {
    c == '\n' || c == '\r' || c == '\t' || c == '\\'
}

/// A character of `s` that normalization removes: a newline, carriage
/// return, tab or backslash on its own, or any whitespace character that
/// touches another whitespace character (so every run of two or more
/// whitespace characters vanishes whole, while an isolated blank stays).
pub open spec fn dropped_char(s: Seq<char>, i: int) -> bool {
    ||| is_forbidden_char(s[i])
    ||| (is_space_char(s[i]) && ((i > 0 && is_space_char(s[i - 1])) || (i + 1 < s.len()
        && is_space_char(s[i + 1]))))
}

/// The normalization of the first `n` characters of `s`: the characters
/// kept, in order.
pub open spec fn normalize_upto(s: Seq<char>, n: int) -> Seq<char>
    decreases n,
{
    if n <= 0 {
        Seq::empty()
    } else if dropped_char(s, n - 1) {
        normalize_upto(s, n - 1)
    } else {
        normalize_upto(s, n - 1).push(s[n - 1])
    }
}

/// Whitespace normalization of a whole string.
pub open spec fn normalize_spec(s: Seq<char>) -> Seq<char> {
    normalize_upto(s, s.len() as int)
}

fn is_space(c: char) -> (r: bool)
    ensures
        r == is_space_char(c),
{
    let u = c as u32;
    (9 <= u && u <= 13) || u == 32 || u == 0x85 || u == 0xA0 || u == 0x1680 || (0x2000 <= u && u
        <= 0x200A) || u == 0x2028 || u == 0x2029 || u == 0x202F || u == 0x205F || u == 0x3000
}

/// Collapses every run of two or more whitespace characters to nothing and
/// removes every newline, carriage return, tab and backslash.
pub fn normalize_whitespace(s: &str) -> (r: String)
    ensures
        r@ == normalize_spec(s@),
{
    let n = s.unicode_len();
    let mut out: Vec<char> = Vec::new();
    let mut i: usize = 0;
    while i < n
        invariant
            0 <= i <= n,
            n == s@.len(),
            out@ == normalize_upto(s@, i as int),
        decreases n - i,
    {
        let c = s.get_char(i);
        let mut dropped = c == '\n' || c == '\r' || c == '\t' || c == '\\';
        if !dropped && is_space(c) {
            if i > 0 && is_space(s.get_char(i - 1)) {
                dropped = true;
            } else if i + 1 < n && is_space(s.get_char(i + 1)) {
                dropped = true;
            }
        }
        proof {
            assert(dropped == dropped_char(s@, i as int));
        }
        if !dropped {
            out.push(c);
        }
        i = i + 1;
    }
    crate::codec::chars_to_string(&out)
}

proof fn lemma_upto_no_forbidden(s: Seq<char>, n: int)
    requires
        n <= s.len(),
    ensures
        forall|i: int|
            0 <= i < normalize_upto(s, n).len() ==> !is_forbidden_char(
                #[trigger] normalize_upto(s, n)[i],
            ),
    decreases n,
{
    if n > 0 {
        lemma_upto_no_forbidden(s, n - 1);
        let prev = normalize_upto(s, n - 1);
        assert forall|i: int|
            0 <= i < normalize_upto(s, n).len() implies !is_forbidden_char(
            #[trigger] normalize_upto(s, n)[i],
        ) by {
            if !dropped_char(s, n - 1) {
                if i < prev.len() {
                    assert(normalize_upto(s, n)[i] == prev[i]);
                } else {
                    assert(normalize_upto(s, n)[i] == s[n - 1]);
                }
            } else {
                assert(normalize_upto(s, n)[i] == prev[i]);
            }
        }
    }
}

/// Normalized text never holds a newline, carriage return, tab or
/// backslash.
pub proof fn lemma_normalize_no_forbidden(s: Seq<char>)
    ensures
        forall|i: int|
            0 <= i < normalize_spec(s).len() ==> !is_forbidden_char(
                #[trigger] normalize_spec(s)[i],
            ),
{
    lemma_upto_no_forbidden(s, s.len() as int);
}

} // verus!
