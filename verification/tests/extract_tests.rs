use newsmaw::{extract_page_contents, ExtractError, Timestamp};

fn article_html(published: &str) -> String {
    format!(
        "<html><head>\
         <meta name=\"title\" content=\"The headline\">\
         <meta name=\"description\" content=\"A short byline\">\
         <meta property=\"article:published_time\" content=\"{}\">\
         <meta property=\"article:tag\" content=\"politics\">\
         <meta property=\"article:tag\" content=\"world\">\
         </head><body>\
         <p>First paragraph</p><p></p><p>Second one</p>\
         </body></html>",
        published
    )
}

#[test]
fn extracts_title_tags_byline_and_content() {
    let html = article_html("2023-05-01T10:00:00+0000");
    let rec = extract_page_contents(&html).expect("a complete page extracts");
    assert_eq!(rec.title, "The headline");
    assert_eq!(rec.tags, vec!["politics".to_string(), "world".to_string()]);
    // a meta element is void, so its textual content is always empty
    assert_eq!(rec.byline, Some(String::new()));
    assert_eq!(rec.content, "First paragraphSecond one");
    assert_eq!(rec.version, 1);
    assert_eq!(rec.authors, None);
}

#[test]
fn parses_published_timestamp_after_normalization() {
    let html = article_html("2023-05-01T10:00:00\n+0000");
    let rec = extract_page_contents(&html).expect("a complete page extracts");
    assert_eq!(
        rec.timestamp_published,
        Some(Timestamp {
            year: 2023,
            month: 5,
            day: 1,
            hour: 10,
            minute: 0,
            second: 0,
            offset_seconds: 0,
        })
    );
    assert_eq!(rec.timestamp_updated, None);
}

#[test]
fn unparseable_timestamp_becomes_none_not_an_error() {
    let html = article_html("not-a-date");
    let rec = extract_page_contents(&html).expect("a bad date does not fail the page");
    assert_eq!(rec.timestamp_published, None);
}

#[test]
fn nonzero_offset_is_kept_in_seconds() {
    let html = article_html("2023-05-01T10:00:00+1000");
    let rec = extract_page_contents(&html).expect("a complete page extracts");
    assert_eq!(rec.timestamp_published.unwrap().offset_seconds, 36000);
}

#[test]
fn missing_title_element_is_a_hard_failure() {
    let html = "<html><head></head><body><p>text</p></body></html>";
    assert_eq!(extract_page_contents(html), Err(ExtractError::MissingTitle));
}

#[test]
fn title_element_without_content_yields_empty_title() {
    let html = "<html><head><meta name=\"title\"></head><body></body></html>";
    let rec = extract_page_contents(html).expect("a valueless title element still extracts");
    assert_eq!(rec.title, "");
}

#[test]
fn tag_element_without_content_is_a_hard_failure() {
    let html = "<html><head>\
                <meta name=\"title\" content=\"t\">\
                <meta property=\"article:tag\">\
                </head><body></body></html>";
    assert_eq!(extract_page_contents(html), Err(ExtractError::MissingTagContent));
}

#[test]
fn paragraphs_join_and_whitespace_collapses() {
    let html = "<html><head><meta name=\"title\" content=\"t\"></head>\
                <body><p>a b</p><p>c  d</p></body></html>";
    let rec = extract_page_contents(html).expect("extracts");
    assert_eq!(rec.content, "a bcd");
}

#[test]
fn absent_byline_is_none() {
    let html = "<html><head><meta name=\"title\" content=\"t\"></head><body></body></html>";
    let rec = extract_page_contents(html).expect("extracts");
    assert_eq!(rec.byline, None);
    assert_eq!(rec.tags, Vec::<String>::new());
    assert_eq!(rec.content, "");
}
