use newsmaw::{article_id, verify_path, CrawlSets};

fn segs(parts: &[&str]) -> Vec<String> {
    parts.iter().map(|s| s.to_string()).collect()
}

#[test]
fn four_segment_article_path_is_content() {
    assert!(verify_path(&segs(&["news", "2023-05-01", "extra", "12345678"])));
}

#[test]
fn two_segments_is_directory() {
    assert!(!verify_path(&segs(&["news", "2023-05-01"])));
}

#[test]
fn wrong_first_segment_is_directory() {
    assert!(!verify_path(&segs(&["other", "2023-05-01", "x", "12345678"])));
}

#[test]
fn empty_path_is_directory() {
    assert!(!verify_path(&segs(&[])));
}

#[test]
fn malformed_date_is_directory() {
    assert!(!verify_path(&segs(&["news", "2023-5-011", "x", "12345678"])));
    assert!(!verify_path(&segs(&["news", "20230501xx", "x", "12345678"])));
    assert!(!verify_path(&segs(&["news", "2023-05-0", "x", "12345678"])));
}

#[test]
fn short_or_non_numeric_id_is_directory() {
    assert!(!verify_path(&segs(&["news", "2023-05-01", "x", "1234567"])));
    assert!(!verify_path(&segs(&["news", "2023-05-01", "x", "1234567a"])));
}

#[test]
fn long_numeric_id_is_content() {
    assert!(verify_path(&segs(&["news", "2023-05-01", "anything at all", "123456789012"])));
}

#[test]
fn five_segments_is_directory() {
    assert!(!verify_path(&segs(&["news", "2023-05-01", "x", "12345678", "extra"])));
}

#[test]
fn article_id_is_last_segment() {
    let id = article_id(&segs(&["news", "2023-05-01", "x", "12345678"]));
    assert_eq!(id, Some("12345678".to_string()));
}

#[test]
fn article_id_of_empty_path_is_none() {
    assert_eq!(article_id(&segs(&[])), None);
}

#[test]
fn sighting_same_url_twice_keeps_one_membership() {
    let mut sets = CrawlSets::new();
    let path = segs(&["news", "2023-05-01", "x", "12345678"]);
    let url = "https://example.org/news/2023-05-01/x/12345678".to_string();
    assert!(sets.sight(url.clone(), &path));
    assert_eq!(sets.content_count(), 1);
    assert_eq!(sets.directory_count(), 0);
    assert!(sets.sight(url, &path));
    assert_eq!(sets.content_count(), 1);
    assert_eq!(sets.directory_count(), 0);
}

#[test]
fn directory_sightings_deduplicate_too() {
    let mut sets = CrawlSets::new();
    let path = segs(&["news", "politics"]);
    let url = "https://example.org/news/politics".to_string();
    assert!(!sets.sight(url.clone(), &path));
    assert!(!sets.sight(url, &path));
    assert_eq!(sets.directory_count(), 1);
    assert_eq!(sets.content_count(), 0);
    let other = "https://example.org/news/sport".to_string();
    assert!(!sets.sight(other, &segs(&["news", "sport"])));
    assert_eq!(sets.directory_count(), 2);
}
