use vstd::prelude::*;
use crate::classify::{is_content_path, segments_view, verify_path};
use crate::record::strings_view;

verus! {

/// The two deduplicating URL sets that one crawl run accumulates: article
/// (content) pages and directory pages.
pub struct CrawlSets {
    content: Vec<String>,
    directories: Vec<String>,
}

proof fn lemma_to_set_push(v: Seq<Seq<char>>, u: Seq<char>)
    ensures
        v.push(u).to_set() == v.to_set().insert(u),
{
    assert forall|x: Seq<char>| v.push(u).to_set().contains(x) implies v.to_set().insert(
        u,
    ).contains(x) by {
        let i = choose|i: int| 0 <= i < v.push(u).len() && v.push(u)[i] == x;
        if i < v.len() {
            assert(v[i] == x);
        }
    }
    assert forall|x: Seq<char>| v.to_set().insert(u).contains(x) implies v.push(
        u,
    ).to_set().contains(x) by {
        if x == u {
            assert(v.push(u)[v.len() as int] == x);
        } else {
            let i = choose|i: int| 0 <= i < v.len() && v[i] == x;
            assert(v.push(u)[i] == x);
        }
    }
    assert(v.push(u).to_set() =~= v.to_set().insert(u));
}

fn contains_str(v: &Vec<String>, s: &String) -> (r: bool)
    ensures
        r == strings_view(v@).contains(s@),
{
    let n = v.len();
    let mut i: usize = 0;
    while i < n
        invariant
            0 <= i <= n,
            n == v.len(),
            forall|j: int| 0 <= j < i ==> strings_view(v@)[j] != s@,
        decreases n - i,
    {
        if v[i] == *s {
            assert(strings_view(v@)[i as int] == s@);
            return true;
        }
        i = i + 1;
    }
    assert(forall|j: int| 0 <= j < v@.len() ==> strings_view(v@)[j] != s@);
    false
}

impl CrawlSets {
    /// Each set holds each URL at most once.
    pub closed spec fn wf(&self) -> bool {
        &&& strings_view(self.content@).no_duplicates()
        &&& strings_view(self.directories@).no_duplicates()
    }

    /// The set of content (article) URLs sighted so far.
    pub closed spec fn content_urls(&self) -> Set<Seq<char>> {
        strings_view(self.content@).to_set()
    }

    /// The set of directory URLs sighted so far.
    pub closed spec fn directory_urls(&self) -> Set<Seq<char>> {
        strings_view(self.directories@).to_set()
    }

    pub fn new() -> (r: CrawlSets)
        ensures
            r.wf(),
            r.content_urls() == Set::<Seq<char>>::empty(),
            r.directory_urls() == Set::<Seq<char>>::empty(),
    {
        let r = CrawlSets { content: Vec::new(), directories: Vec::new() };
        proof {
            assert(r.content_urls() =~= Set::<Seq<char>>::empty());
            assert(r.directory_urls() =~= Set::<Seq<char>>::empty());
        }
        r
    }

    /// Routes one URL sighting: classifies its path segments and inserts the
    /// URL into exactly one of the two sets. Re-sighting a URL that its set
    /// already holds changes nothing (set semantics).
    pub fn sight(&mut self, url: String, segments: &Vec<String>) -> (is_content: bool)
        requires
            old(self).wf(),
        ensures
            final(self).wf(),
            is_content == is_content_path(segments_view(segments)),
            is_content ==> final(self).content_urls() == old(self).content_urls().insert(url@)
                && final(self).directory_urls() == old(self).directory_urls(),
            !is_content ==> final(self).directory_urls() == old(self).directory_urls().insert(url@)
                && final(self).content_urls() == old(self).content_urls(),
    {
        let is_content = verify_path(segments);
        if is_content {
            if !contains_str(&self.content, &url) {
                proof {
                    lemma_to_set_push(strings_view(self.content@), url@);
                    assert(strings_view(self.content@.push(url)) =~= strings_view(
                        self.content@,
                    ).push(url@));
                }
                self.content.push(url);
            } else {
                proof {
                    assert(self.content_urls().insert(url@) =~= self.content_urls());
                }
            }
        } else {
            if !contains_str(&self.directories, &url) {
                proof {
                    lemma_to_set_push(strings_view(self.directories@), url@);
                    assert(strings_view(self.directories@.push(url)) =~= strings_view(
                        self.directories@,
                    ).push(url@));
                }
                self.directories.push(url);
            } else {
                proof {
                    assert(self.directory_urls().insert(url@) =~= self.directory_urls());
                }
            }
        }
        is_content
    }

    /// How many distinct content URLs have been sighted.
    pub fn content_count(&self) -> (r: usize)
        requires
            self.wf(),
        ensures
            r == self.content_urls().len(),
    {
        proof {
            strings_view(self.content@).unique_seq_to_set();
        }
        self.content.len()
    }

    /// How many distinct directory URLs have been sighted.
    pub fn directory_count(&self) -> (r: usize)
        requires
            self.wf(),
        ensures
            r == self.directory_urls().len(),
    {
        proof {
            strings_view(self.directories@).unique_seq_to_set();
        }
        self.directories.len()
    }

    /// The content URLs, one copy of each, in sighting order.
    pub fn content_list(&self) -> (r: &Vec<String>)
        ensures
            strings_view(r@).to_set() == self.content_urls(),
            strings_view(r@).no_duplicates() <== self.wf(),
    {
        &self.content
    }
}

/// Sighting a URL a second time leaves its classified set exactly as the
/// first sighting left it: insertion is idempotent.
pub proof fn lemma_sight_idempotent(urls: Set<Seq<char>>, url: Seq<char>)
    ensures
        urls.insert(url).insert(url) == urls.insert(url),
{
    assert(urls.insert(url).insert(url) =~= urls.insert(url));
}

/// The article id of a content URL: its last path segment. A URL whose path
/// has no segments yields none instead of failing.
pub fn article_id(segments: &Vec<String>) -> (r: Option<String>)
    ensures
        match r {
            Some(id) => segments@.len() > 0 && id@ == segments@[segments@.len() - 1]@,
            None => segments@.len() == 0,
        },
{
    if segments.len() == 0 {
        None
    } else {
        Some(segments[segments.len() - 1].clone())
    }
}

} // verus!
