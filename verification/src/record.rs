use vstd::prelude::*;

verus! {

/// A calendar timestamp with a fixed UTC offset, held as plain integers so
/// that contracts can speak about every field directly.
#[derive(Clone, Copy, PartialEq, Eq, Structural, Debug)]
pub struct Timestamp {
    pub year: i32,
    pub month: u32,
    pub day: u32,
    pub hour: u32,
    pub minute: u32,
    pub second: u32,
    /// Offset from UTC in seconds, east positive.
    pub offset_seconds: i32,
}

/// The view of a list of strings: each as its character sequence.
pub open spec fn strings_view(v: Seq<String>) -> Seq<Seq<char>> {
    v.map(|i: int, s: String| s@)
}

/// A key-value pair as a client of the data service submits it.
pub struct DataSubmission<'a> {
    pub key: &'a str,
    pub value: &'a str,
}

/// One extracted article.
#[derive(Debug)]
pub struct NewsData {
    pub title: String,
    pub authors: Option<Vec<String>>,
    pub timestamp_published: Option<Timestamp>,
    pub timestamp_updated: Option<Timestamp>,
    pub byline: Option<String>,
    pub content: String,
    pub tags: Vec<String>,
    pub version: u32,
}

/// The mathematical model of an [`NewsData`]: the same fields over
/// character sequences.
#[verifier::ext_equal]
pub ghost struct RecordModel {
    pub title: Seq<char>,
    pub authors: Option<Seq<Seq<char>>>,
    pub timestamp_published: Option<Timestamp>,
    pub timestamp_updated: Option<Timestamp>,
    pub byline: Option<Seq<char>>,
    pub content: Seq<char>,
    pub tags: Seq<Seq<char>>,
    pub version: u32,
}

impl View for NewsData {
    type V = RecordModel;

    open spec fn view(&self) -> RecordModel {
        RecordModel {
            title: self.title@,
            authors: match self.authors {
                Option::Some(v) => Option::Some(strings_view(v@)),
                Option::None => Option::None,
            },
            timestamp_published: self.timestamp_published,
            timestamp_updated: self.timestamp_updated,
            byline: match self.byline {
                Option::Some(s) => Option::Some(s@),
                Option::None => Option::None,
            },
            content: self.content@,
            tags: strings_view(self.tags@),
            version: self.version,
        }
    }
}

fn string_lists_eq(a: &Vec<String>, b: &Vec<String>) -> (r: bool)
    ensures
        r == (strings_view(a@) == strings_view(b@)),
{
    if a.len() != b.len() {
        assert(strings_view(a@).len() != strings_view(b@).len());
        return false;
    }
    let n = a.len();
    let mut i: usize = 0;
    while i < n
        invariant
            0 <= i <= n,
            n == a.len() == b.len(),
            forall|j: int| 0 <= j < i ==> strings_view(a@)[j] == strings_view(b@)[j],
        decreases n - i,
    {
        if !(a[i] == b[i]) {
            assert(strings_view(a@)[i as int] != strings_view(b@)[i as int]);
            return false;
        }
        i = i + 1;
    }
    proof {
        assert(strings_view(a@) =~= strings_view(b@));
    }
    true
}

impl PartialEq for NewsData {
    fn eq(&self, other: &Self) -> (r: bool) {
        let titles = self.title == other.title;
        let authors = match (&self.authors, &other.authors) {
            (Option::Some(x), Option::Some(y)) => string_lists_eq(x, y),
            (Option::None, Option::None) => true,
            _ => false,
        };
        let published = match (&self.timestamp_published, &other.timestamp_published) {
            (Option::Some(x), Option::Some(y)) => *x == *y,
            (Option::None, Option::None) => true,
            _ => false,
        };
        let updated = match (&self.timestamp_updated, &other.timestamp_updated) {
            (Option::Some(x), Option::Some(y)) => *x == *y,
            (Option::None, Option::None) => true,
            _ => false,
        };
        let bylines = match (&self.byline, &other.byline) {
            (Option::Some(x), Option::Some(y)) => *x == *y,
            (Option::None, Option::None) => true,
            _ => false,
        };
        let contents = self.content == other.content;
        let tags = string_lists_eq(&self.tags, &other.tags);
        let versions = self.version == other.version;
        let r = titles && authors && published && updated && bylines && contents && tags
            && versions;
        proof {
            if r {
                assert(self@ =~~= other@);
            } else {
                assert(self@ != other@);
            }
        }
        r
    }
}

impl vstd::std_specs::cmp::PartialEqSpecImpl for NewsData {
    open spec fn obeys_eq_spec() -> bool {
        true
    }

    open spec fn eq_spec(&self, other: &NewsData) -> bool {
        self@ == other@
    }
}

} // verus!
