use epd_photoframe_server::album::{
    extract_photo_urls, needs_scrape, new_indices_in, size_suffix, Album, AlbumCache, AlbumError,
};
use epd_photoframe_server::clock::Duration;
use epd_photoframe_server::config::FitMethod;

#[test]
fn extracts_and_dedupes() {
    let html = r#"
            before "https://lh3.googleusercontent.com/pw/ABC_123-xyz" middle
            repeat "https://lh3.googleusercontent.com/pw/ABC_123-xyz" again
            other https://lh3.googleusercontent.com/pw/DEF456?x=1
            avatar https://lh3.googleusercontent.com/a/avatar_id end
        "#;
    let urls = extract_photo_urls(html);
    assert_eq!(
        urls,
        vec![
            "https://lh3.googleusercontent.com/pw/ABC_123-xyz".to_string(),
            "https://lh3.googleusercontent.com/pw/DEF456".to_string(),
        ]
    );
}

fn s(values: &[&str]) -> Vec<String> {
    values.iter().map(|s| s.to_string()).collect()
}

#[test]
fn new_indices_finds_added_photos() {
    let prev = s(&["a", "b", "c"]);
    let curr = s(&["a", "d", "b", "e"]);
    assert_eq!(new_indices_in(&prev, &curr), vec![1, 3]);
}

#[test]
fn new_indices_ignores_removed_photos() {
    let prev = s(&["a", "b", "c"]);
    let curr = s(&["a", "c"]);
    assert!(new_indices_in(&prev, &curr).is_empty());
}

#[test]
fn new_indices_empty_when_unchanged() {
    let urls = s(&["a", "b", "c"]);
    assert!(new_indices_in(&urls, &urls).is_empty());
}

#[test]
fn new_indices_all_when_previous_empty() {
    let curr = s(&["a", "b"]);
    assert_eq!(new_indices_in(&[], &curr), vec![0, 1]);
}

#[test]
fn size_suffixes() {
    assert_eq!(size_suffix(1200, 1600, &FitMethod::Crop), "=w1200-h1600-c");
    assert_eq!(
        size_suffix(1200, 1600, &FitMethod::SmartCrop),
        "=w1200-h1600-p"
    );
    assert_eq!(
        size_suffix(1200, 1600, &FitMethod::Resize),
        "=w1200-h1600-s"
    );
    assert_eq!(size_suffix(1200, 1600, &FitMethod::Contain), "=w1200-h1600");
}

#[test]
fn prefix_without_id_is_no_photo() {
    assert!(extract_photo_urls("https://lh3.googleusercontent.com/pw/ end").is_empty());
    assert!(extract_photo_urls("").is_empty());
    assert!(extract_photo_urls("https://lh3.googleusercontent.com/pw").is_empty());
}

#[test]
fn prefix_inside_an_id_is_skipped() {
    let html = "https://lh3.googleusercontent.com/pw/AAAhttps://lh3.googleusercontent.com/pw/BBB";
    assert_eq!(
        extract_photo_urls(html),
        s(&["https://lh3.googleusercontent.com/pw/AAAhttps"])
    );
}

#[test]
fn ids_end_at_other_characters() {
    assert_eq!(
        extract_photo_urls("ü https://lh3.googleusercontent.com/pw/a-Z_9é ü"),
        s(&["https://lh3.googleusercontent.com/pw/a-Z_9"])
    );
}

#[test]
fn cache_is_used_for_an_hour() {
    assert!(needs_scrape(None, false));
    assert!(!needs_scrape(Some(Duration::from_secs(0)), false));
    assert!(!needs_scrape(
        Some(Duration::new(3599, 999_999_999).unwrap()),
        false
    ));
    assert!(needs_scrape(Some(Duration::from_secs(3600)), false));
    assert!(needs_scrape(Some(Duration::from_secs(0)), true));
}

const PAGE: &str = "https://lh3.googleusercontent.com/pw/A https://lh3.googleusercontent.com/pw/B";

#[test]
fn pages_add_up() {
    let prefix = "https://lh3.googleusercontent.com/pw/";
    let a = format!("x {prefix}A {prefix}B {prefix}");
    let b = format!("{prefix}B y {prefix}C {prefix}A");
    let (ra, rb) = (extract_photo_urls(&a), extract_photo_urls(&b));
    assert_eq!((ra.len(), rb.len()), (2, 3));
    let mut expected = ra.clone();
    expected.extend(rb.into_iter().filter(|u| !ra.contains(u)));
    assert_eq!(extract_photo_urls(&format!("{a} {b}")), expected);
    assert_eq!(extract_photo_urls(&format!("{a} {a}")), ra);
    assert_eq!(extract_photo_urls(&ra.join(" ")), ra);
}

#[test]
fn first_scrape_has_no_news() {
    let (album, new) = Album::read(None, PAGE).unwrap();
    assert_eq!(album.len(), 2);
    assert!(new.is_empty());
}

#[test]
fn cache_tells_what_is_new_and_keeps_what_it_has() {
    let mut cache = AlbumCache::new();
    assert!(cache.album().is_none());
    assert_eq!(cache.load("nothing here").unwrap_err(), AlbumError::NoPhotos);
    assert!(cache.album().is_none());
    assert!(cache.load(PAGE).unwrap().is_empty());
    assert!(cache.load(PAGE).unwrap().is_empty());
    let more = "https://lh3.googleusercontent.com/pw/C https://lh3.googleusercontent.com/pw/B";
    assert_eq!(cache.load(more).unwrap(), vec![0]);
    assert!(cache.load("").is_err());
    assert_eq!(cache.album().unwrap().len(), 2);
    assert_eq!(
        cache.album().unwrap().photo_url(0, 8, 4, &FitMethod::Crop).unwrap(),
        "https://lh3.googleusercontent.com/pw/C=w8-h4-c"
    );
}

#[test]
fn photo_index_is_checked() {
    let (album, _) = Album::read(None, PAGE).unwrap();
    let e = album.photo_url(2, 8, 4, &FitMethod::Contain).unwrap_err();
    assert_eq!(e, AlbumError::OutOfRange(2, 2));
    assert_eq!(e.message(), "selector returned out-of-range index 2/2");
    assert_eq!(
        AlbumError::NoPhotos.message(),
        "no photos found on share page — is the album public?"
    );
}
