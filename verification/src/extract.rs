use vstd::prelude::*;
use crate::record::{NewsData, RecordModel, Timestamp, strings_view};
use crate::text::{normalize_spec, normalize_whitespace};
use chrono::{Datelike, Timelike};
use soup::{NodeExt, QueryBuilderExt};

verus! {

/// What the first-meta-content query returns for a document: the parse and
/// the query are pure, so the result depends on the html and the attribute
/// pair alone. The outer option is the element, the inner its `content`
/// attribute.
pub uninterp spec fn soup_first_meta_content(html: Seq<char>, key: Seq<char>, value: Seq<char>) -> Option<Option<Seq<char>>>;

/// What the first-meta-text query returns for a document: the text of the
/// first matching `meta` element.
pub uninterp spec fn soup_first_meta_text(html: Seq<char>, key: Seq<char>, value: Seq<char>) -> Option<Seq<char>>;

/// What the all-meta-contents query returns for a document: the `content`
/// attribute of every matching `meta` element, in document order.
pub uninterp spec fn soup_all_meta_contents(html: Seq<char>, key: Seq<char>, value: Seq<char>) -> Seq<Option<Seq<char>>>;

/// What the all-tag-texts query returns for a document: the text of every
/// element with the tag, in document order.
pub uninterp spec fn soup_all_tag_texts(html: Seq<char>, tag: Seq<char>) -> Seq<Seq<char>>;

pub open spec fn opt_opt_str_view(o: Option<Option<String>>) -> Option<Option<Seq<char>>> {
    match o {
        Some(inner) => Some(opt_str_view(inner)),
        None => None,
    }
}

/// An element-and-attribute result collapsed to the attribute: an absent
/// element and an absent attribute read the same.
pub open spec fn flattened(o: Option<Option<Seq<char>>>) -> Option<Seq<char>> {
    match o {
        Some(inner) => inner,
        None => None,
    }
}

/// Relies on soup::Soup::new and the tag/attr/find query with NodeExt::get:
/// parses the html and returns the `content` attribute of the first `meta`
/// element carrying the attribute pair.
#[verifier::external_body]
fn query_first_meta_content(raw_html: &str, key: &str, value: &str) -> (r: Option<Option<String>>)
    ensures
        opt_opt_str_view(r) == soup_first_meta_content(raw_html@, key@, value@),
{
    soup::Soup::new(raw_html).tag("meta").attr(key, value).find().map(|n| n.get("content"))
}

/// Relies on soup::Soup::new and the tag/attr/find query with NodeExt::text:
/// parses the html and returns the text of the first `meta` element carrying
/// the attribute pair.
#[verifier::external_body]
fn query_first_meta_text(raw_html: &str, key: &str, value: &str) -> (r: Option<String>)
    ensures
        opt_str_view(r) == soup_first_meta_text(raw_html@, key@, value@),
{
    soup::Soup::new(raw_html).tag("meta").attr(key, value).find().map(|n| n.text())
}

/// Relies on soup::Soup::new and the tag/attr/find_all query with
/// NodeExt::get: parses the html and returns the `content` attribute of
/// every matching `meta` element, in document order.
#[verifier::external_body]
fn query_all_meta_contents(raw_html: &str, key: &str, value: &str) -> (r: Vec<Option<String>>)
    ensures
        opt_strs_view(r@) == soup_all_meta_contents(raw_html@, key@, value@),
{
    soup::Soup::new(raw_html).tag("meta").attr(key, value).find_all().map(|n| n.get("content")).collect()
}

/// Relies on soup::Soup::new and the tag/find_all query with NodeExt::text:
/// parses the html and returns the text of every element with the tag, in
/// document order.
#[verifier::external_body]
fn query_all_tag_texts(raw_html: &str, tag: &str) -> (r: Vec<String>)
    ensures
        strings_view(r@) == soup_all_tag_texts(raw_html@, tag@),
{
    soup::Soup::new(raw_html).tag(tag).find_all().map(|n| n.text()).collect()
}

/// What the timestamp parser returns for a given character sequence: it
/// depends on the characters alone.
pub uninterp spec fn spec_parse_timestamp(s: Seq<char>) -> Option<Timestamp>;

/// Relies on chrono's DateTime::parse_from_str with the fixed format
/// `%FT%X%z` (date, `T`, time, numeric UTC offset), converting the parsed
/// value's fields to plain integers.
#[verifier::external_body]
fn parse_timestamp(s: &str) -> (r: Option<Timestamp>)
    ensures
        r == spec_parse_timestamp(s@),
{
    match chrono::DateTime::parse_from_str(s, "%FT%X%z") {
        Ok(dt) => Some(
            Timestamp {
                year: dt.year(),
                month: dt.month(),
                day: dt.day(),
                hour: dt.hour(),
                minute: dt.minute(),
                second: dt.second(),
                offset_seconds: dt.offset().local_minus_utc(),
            },
        ),
        Err(_) => None,
    }
}

/// Why a page is dropped from the output dataset.
#[derive(Clone, Copy, PartialEq, Eq, Structural, Debug)]
pub enum ExtractError {
    /// No `meta` title element exists (it is required, even valueless).
    MissingTitle,
    /// A tag element exists without a `content` attribute.
    MissingTagContent,
}

pub open spec fn opt_str_view(o: Option<String>) -> Option<Seq<char>> {
    match o {
        Some(s) => Some(s@),
        None => None,
    }
}

pub open spec fn opt_strs_view(v: Seq<Option<String>>) -> Seq<Option<Seq<char>>> {
    v.map(|i: int, o: Option<String>| opt_str_view(o))
}

/// The non-empty entries, in order.
pub open spec fn nonempty_lines(v: Seq<Seq<char>>) -> Seq<Seq<char>>
    decreases v.len(),
{
    if v.len() == 0 {
        Seq::empty()
    } else if v.last().len() == 0 {
        nonempty_lines(v.drop_last())
    } else {
        nonempty_lines(v.drop_last()).push(v.last())
    }
}

/// The entries joined with a newline between each neighbouring pair.
pub open spec fn join_lines(v: Seq<Seq<char>>) -> Seq<char>
    decreases v.len(),
{
    if v.len() == 0 {
        Seq::empty()
    } else if v.len() == 1 {
        v[0]
    } else {
        join_lines(v.drop_last()) + seq!['\n'] + v.last()
    }
}

/// A raw timestamp string is normalized, then parsed; absence stays absent,
/// and an unparseable string becomes absent rather than an error.
pub open spec fn parsed_timestamp(raw: Option<Seq<char>>) -> Option<Timestamp> {
    match raw {
        Some(s) => spec_parse_timestamp(normalize_spec(s)),
        None => None,
    }
}

pub open spec fn some_tag_missing(tags: Seq<Option<Seq<char>>>) -> bool {
    exists|j: int| 0 <= j < tags.len() && tags[j] is None
}

pub open spec fn unwrapped_tags(tags: Seq<Option<Seq<char>>>) -> Seq<Seq<char>> {
    tags.map(
        |i: int, o: Option<Seq<char>>|
            match o {
                Some(s) => s,
                None => Seq::empty(),
            },
    )
}

/// What assembling one page's query results yields: the record, or the
/// reason the page is dropped. Tag elements are inspected before the title,
/// as the extraction does.
pub open spec fn assembled(
    published_raw: Option<Seq<char>>,
    updated_raw: Option<Seq<char>>,
    tag_contents: Seq<Option<Seq<char>>>,
    title_elem: Option<Option<Seq<char>>>,
    byline: Option<Seq<char>>,
    paragraphs: Seq<Seq<char>>,
) -> Result<RecordModel, ExtractError> {
    if some_tag_missing(tag_contents) {
        Err(ExtractError::MissingTagContent)
    } else if title_elem is None {
        Err(ExtractError::MissingTitle)
    } else {
        Ok(
            RecordModel {
                title: match title_elem->Some_0 {
                    Some(t) => t,
                    None => Seq::empty(),
                },
                authors: None,
                timestamp_published: parsed_timestamp(published_raw),
                timestamp_updated: parsed_timestamp(updated_raw),
                byline,
                content: normalize_spec(join_lines(nonempty_lines(paragraphs))),
                tags: unwrapped_tags(tag_contents),
                version: 1,
            },
        )
    }
}

fn parse_opt_timestamp(raw: Option<String>) -> (r: Option<Timestamp>)
    ensures
        r == parsed_timestamp(opt_str_view(raw)),
{
    match raw {
        Some(s) => {
            let norm = normalize_whitespace(s.as_str());
            parse_timestamp(norm.as_str())
        },
        None => None,
    }
}

fn join_paragraph_text(paragraphs: &Vec<String>) -> (r: String)
    ensures
        r@ == join_lines(nonempty_lines(strings_view(paragraphs@))),
{
    let pv = Ghost(strings_view(paragraphs@));
    let mut kept: Vec<String> = Vec::new();
    let n = paragraphs.len();
    let mut i: usize = 0;
    while i < n
        invariant
            0 <= i <= n,
            n == paragraphs@.len(),
            pv@ == strings_view(paragraphs@),
            strings_view(kept@) == nonempty_lines(pv@.take(i as int)),
        decreases n - i,
    {
        proof {
            assert(pv@.take(i + 1).drop_last() =~= pv@.take(i as int));
            assert(pv@.take(i + 1).last() == pv@[i as int]);
        }
        if !paragraphs[i].as_str().is_empty() {
            proof {
                assert(strings_view(kept@.push(paragraphs@[i as int])) =~= strings_view(
                    kept@,
                ).push(pv@[i as int]));
            }
            kept.push(paragraphs[i].clone());
        }
        i = i + 1;
    }
    proof {
        assert(pv@.take(n as int) =~= pv@);
    }
    let f = Ghost(strings_view(kept@));
    let m = kept.len();
    if m == 0 {
        return String::new();
    }
    let mut out = kept[0].clone();
    let mut j: usize = 1;
    while j < m
        invariant
            1 <= j <= m,
            m == kept@.len(),
            f@ == strings_view(kept@),
            out@ == join_lines(f@.take(j as int)),
        decreases m - j,
    {
        out.append("\n");
        out.append(kept[j].as_str());
        proof {
            reveal_strlit("\n");
            assert("\n"@ =~= seq!['\n']);
            assert(f@.take(j + 1).drop_last() =~= f@.take(j as int));
            assert(f@.take(j + 1).last() == f@[j as int]);
        }
        j = j + 1;
    }
    proof {
        assert(f@.take(m as int) =~= f@);
    }
    out
}

/// Builds the record from one page's query results, or names the hard
/// failure: a tag element without content, else a missing title element.
/// The contract is exact for every combination of inputs.
pub fn assemble_record(
    published_raw: Option<String>,
    updated_raw: Option<String>,
    tag_contents: Vec<Option<String>>,
    title_elem: Option<Option<String>>,
    byline: Option<String>,
    paragraphs: Vec<String>,
) -> (r: Result<NewsData, ExtractError>)
    ensures
        ({
            let spec_r = assembled(
                opt_str_view(published_raw),
                opt_str_view(updated_raw),
                opt_strs_view(tag_contents@),
                match title_elem {
                    Some(t) => Some(opt_str_view(t)),
                    None => None,
                },
                opt_str_view(byline),
                strings_view(paragraphs@),
            );
            match r {
                Ok(rec) => spec_r matches Ok(m) && rec@ == m,
                Err(e) => spec_r matches Err(e2) && e == e2,
            }
        }),
{
    let tv = Ghost(opt_strs_view(tag_contents@));
    let mut tags: Vec<String> = Vec::new();
    let n = tag_contents.len();
    let mut i: usize = 0;
    while i < n
        invariant
            0 <= i <= n,
            n == tag_contents@.len(),
            tv@ == opt_strs_view(tag_contents@),
            tags@.len() == i,
            forall|j: int| 0 <= j < i ==> tv@[j] is Some,
            forall|j: int|
                0 <= j < i ==> strings_view(tags@)[j] == #[trigger] unwrapped_tags(tv@)[j],
        decreases n - i,
    {
        match &tag_contents[i] {
            None => {
                proof {
                    assert(tv@[i as int] is None);
                }
                return Err(ExtractError::MissingTagContent);
            },
            Some(s) => {
                tags.push(s.clone());
            },
        }
        i = i + 1;
    }
    proof {
        assert(!some_tag_missing(tv@));
        assert(strings_view(tags@) =~= unwrapped_tags(tv@));
    }
    let title = match &title_elem {
        None => {
            return Err(ExtractError::MissingTitle);
        },
        Some(inner) => match inner {
            Some(t) => t.clone(),
            None => String::new(),
        },
    };
    let published = parse_opt_timestamp(published_raw);
    let updated = parse_opt_timestamp(updated_raw);
    let joined = join_paragraph_text(&paragraphs);
    let content = normalize_whitespace(joined.as_str());
    let rec = NewsData {
        title,
        authors: None,
        timestamp_published: published,
        timestamp_updated: updated,
        byline,
        content,
        tags,
        version: 1,
    };
    proof {
        let spec_r = assembled(
            opt_str_view(published_raw),
            opt_str_view(updated_raw),
            opt_strs_view(tag_contents@),
            match title_elem {
                Some(t) => Some(opt_str_view(t)),
                None => None,
            },
            opt_str_view(byline),
            strings_view(paragraphs@),
        );
        assert(rec@ =~~= spec_r->Ok_0);
    }
    Ok(rec)
}

/// What extraction yields for a given page: pure in the raw html, since
/// every query result is a function of the html and its parameters alone.
pub open spec fn extracted(html: Seq<char>) -> Result<RecordModel, ExtractError> {
    assembled(
        flattened(soup_first_meta_content(html, "property"@, "article:published_time"@)),
        flattened(soup_first_meta_content(html, "property"@, "article:modified_time"@)),
        soup_all_meta_contents(html, "property"@, "article:tag"@),
        soup_first_meta_content(html, "name"@, "title"@),
        soup_first_meta_text(html, "name"@, "description"@),
        soup_all_tag_texts(html, "p"@),
    )
}

/// Extracts one article from raw HTML: queries the document for the meta
/// elements and paragraph text, then assembles the record. The result is
/// exactly `extracted` of the html, so equal pages give equal records.
pub fn extract_page_contents(raw_html: &str) -> (r: Result<NewsData, ExtractError>)
    ensures
        match r {
            Ok(rec) => extracted(raw_html@) matches Ok(m) && rec@ == m,
            Err(e) => extracted(raw_html@) matches Err(e2) && e == e2,
        },
        r matches Ok(rec) ==> rec@.version == 1 && rec@.authors is None && (forall|i: int|
            0 <= i < rec@.content.len() ==> !crate::text::is_forbidden_char(
                #[trigger] rec@.content[i],
            )),
{
    let published_q = query_first_meta_content(raw_html, "property", "article:published_time");
    let published = match published_q {
        Some(inner) => inner,
        None => None,
    };
    let updated_q = query_first_meta_content(raw_html, "property", "article:modified_time");
    let updated = match updated_q {
        Some(inner) => inner,
        None => None,
    };
    let tag_contents = query_all_meta_contents(raw_html, "property", "article:tag");
    let title_elem = query_first_meta_content(raw_html, "name", "title");
    let byline = query_first_meta_text(raw_html, "name", "description");
    let paragraphs = query_all_tag_texts(raw_html, "p");
    proof {
        assert(opt_str_view(published) == flattened(opt_opt_str_view(published_q)));
        assert(opt_str_view(updated) == flattened(opt_opt_str_view(updated_q)));
        assert((match title_elem {
            Some(t) => Some(opt_str_view(t)),
            None => None,
        }) == opt_opt_str_view(title_elem));
    }
    let r = assemble_record(published, updated, tag_contents, title_elem, byline, paragraphs);
    proof {
        if r is Ok {
            crate::text::lemma_normalize_no_forbidden(
                join_lines(nonempty_lines(strings_view(paragraphs@))),
            );
        }
    }
    r
}

} // verus!
