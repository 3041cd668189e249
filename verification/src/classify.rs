use vstd::prelude::*;

verus! {

/// One decimal digit, `'0'` through `'9'`.
pub open spec fn is_digit_char(c: char) -> bool {
    48 <= (c as u32) && (c as u32) <= 57
}

/// The fixed date shape `YYYY-MM-DD`: exactly ten characters, a dash at
/// positions four and seven, a decimal digit everywhere else.
pub open spec fn is_date_shape(s: Seq<char>) -> bool {
    &&& s.len() == 10
    &&& s[4] == '-'
    &&& s[7] == '-'
    &&& forall|i: int| 0 <= i < 10 && i != 4 && i != 7 ==> is_digit_char(#[trigger] s[i])
}

/// An article id slug: decimal digits only, at least eight of them.
pub open spec fn is_id_slug(s: Seq<char>) -> bool {
    &&& s.len() >= 8
    &&& forall|i: int| 0 <= i < s.len() ==> is_digit_char(#[trigger] s[i])
}

/// The literal first segment that every article path starts with.
pub open spec fn is_news_segment(s: Seq<char>) -> bool {
    s =~= seq!['n', 'e', 'w', 's']
}

/// A path names an article (content) page exactly when it has four segments
/// `[a, b, c, d]` with `a == "news"`, `b` of date shape, and `d` an id slug;
/// the third segment is an unconstrained slug.
pub open spec fn is_content_path(segs: Seq<Seq<char>>) -> bool {
    &&& segs.len() == 4
    &&& is_news_segment(segs[0])
    &&& is_date_shape(segs[1])
    &&& is_id_slug(segs[3])
}

/// The classification rule in one statement: a path is a content page
/// exactly when it has four segments whose first is "news", whose second
/// has the date shape and whose fourth is an id slug; every path with any
/// other segment count is a directory page.
pub proof fn lemma_classification(segs: Seq<Seq<char>>)
    ensures
        segs.len() == 4 ==> (is_content_path(segs) <==> (is_news_segment(segs[0]) && is_date_shape(
            segs[1],
        ) && is_id_slug(segs[3]))),
        segs.len() != 4 ==> !is_content_path(segs),
{
}

fn char_is_digit(c: char) -> (r: bool)
    ensures
        r == is_digit_char(c),
{
    let u = c as u32;
    48 <= u && u <= 57
}

fn seg_is_news(s: &str) -> (r: bool)
    ensures
        r == is_news_segment(s@),
{
    let n = s.unicode_len();
    if n != 4 {
        return false;
    }
    s.get_char(0) == 'n' && s.get_char(1) == 'e' && s.get_char(2) == 'w' && s.get_char(3) == 's'
}

fn seg_is_date(s: &str) -> (r: bool)
    ensures
        r == is_date_shape(s@),
{
    let n = s.unicode_len();
    if n != 10 {
        return false;
    }
    let mut i: usize = 0;
    while i < 10
        invariant
            0 <= i <= 10,
            s@.len() == 10,
            s@[4] == '-' || i <= 4,
            s@[7] == '-' || i <= 7,
            forall|j: int| 0 <= j < i && j != 4 && j != 7 ==> is_digit_char(#[trigger] s@[j]),
        decreases 10 - i,
    {
        let c = s.get_char(i);
        if i == 4 || i == 7 {
            if c != '-' {
                return false;
            }
        } else {
            if !char_is_digit(c) {
                return false;
            }
        }
        i = i + 1;
    }
    true
}

fn seg_is_id_slug(s: &str) -> (r: bool)
    ensures
        r == is_id_slug(s@),
{
    let n = s.unicode_len();
    if n < 8 {
        return false;
    }
    let mut i: usize = 0;
    while i < n
        invariant
            0 <= i <= n,
            n == s@.len(),
            forall|j: int| 0 <= j < i ==> is_digit_char(#[trigger] s@[j]),
        decreases n - i,
    {
        if !char_is_digit(s.get_char(i)) {
            return false;
        }
        i = i + 1;
    }
    true
}

/// The view of a list of path segments: each segment as its character sequence.
pub open spec fn segments_view(segs: &Vec<String>) -> Seq<Seq<char>> {
    segs@.map(|i: int, s: String| s@)
}

/// Classifies a URL's path segments: `true` means a content (article) page,
/// `false` a directory page. Any segment count other than four, the empty
/// path included, is a directory.
pub fn verify_path(segs: &Vec<String>) -> (r: bool)
    ensures
        r == is_content_path(segments_view(segs)),
{
    if segs.len() != 4 {
        return false;
    }
    let a = seg_is_news(segs[0].as_str());
    let b = seg_is_date(segs[1].as_str());
    let d = seg_is_id_slug(segs[3].as_str());
    a && b && d
}

} // verus!
