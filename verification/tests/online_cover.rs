use shiori::online_cover::{
    accept_image, begin_online_cover_lookup, looks_like_image, try_begin_online_cover_attempt,
    CoverAction, CoverEndpoints, CoverLookup,
};
use std::collections::HashSet;

#[test]
fn online_cover_attempt_guard_marks_book_once() {
    let mut attempted = HashSet::new();
    // Unique id so it can't collide with other tests sharing the global set.
    let id = i64::MAX - 424242;
    assert!(try_begin_online_cover_attempt(&mut attempted, id), "first attempt allowed");
    assert!(
        !try_begin_online_cover_attempt(&mut attempted, id),
        "second attempt blocked per run"
    );
}

#[test]
fn lookup_needs_a_runtime_and_a_valid_uuid() {
    let mut attempted = HashSet::new();
    let u = "11111111-1111-1111-1111-111111111111";
    assert_eq!(begin_online_cover_lookup(&mut attempted, false, 7, u), None);
    assert!(attempted.is_empty());
    assert_eq!(
        begin_online_cover_lookup(&mut attempted, true, 7, u),
        Some(0x11111111_1111_1111_1111_111111111111u128)
    );
    assert_eq!(begin_online_cover_lookup(&mut attempted, true, 7, u), None);
    assert_eq!(begin_online_cover_lookup(&mut attempted, true, 8, "not-a-uuid"), None);
    assert!(attempted.contains(&8));
}

#[test]
fn image_signatures() {
    assert!(looks_like_image(&[0xFF, 0xD8, 0xFF, 0x00]));
    assert!(looks_like_image(b"GIF89a...."));
    assert!(looks_like_image(b"RIFF\x00\x00\x00\x00WEBPVP8 "));
    assert!(!looks_like_image(b"<html>"));
    let mut big = vec![0u8; 600];
    big[0] = 0x42;
    big[1] = 0x4D;
    assert_eq!(accept_image(Some(big.clone())), Some(big.clone()));
    assert_eq!(accept_image(Some(big[..100].to_vec())), None);
    assert_eq!(accept_image(None), None);
}

fn lookup(isbn: Option<&str>) -> CoverLookup {
    CoverLookup {
        endpoints: CoverEndpoints::default_endpoints(),
        title: "Some Book Title".to_string(),
        author: Some("Some Author".to_string()),
        isbn: isbn.map(|s| s.to_string()),
    }
}

#[test]
fn cover_lookup_urls_and_order() {
    let l = lookup(Some(" 978-1 "));
    match l.start() {
        CoverAction::SearchGoogle(u) => assert_eq!(
            u,
            "https://www.googleapis.com/books/v1/volumes?q=intitle%3ASome%20Book%20Title%2Binauthor%3ASome%20Author&maxResults=1"
        ),
        other => panic!("unexpected {:?}", other),
    }
    match l.after_google_search(Some("http://books.google.com/x?id=1&zoom=1".to_string())) {
        CoverAction::DownloadGoogleImage(u) => {
            assert_eq!(u, "https://books.google.com/x?id=1&zoom=3")
        }
        other => panic!("unexpected {:?}", other),
    }
    match l.after_google_search(None) {
        CoverAction::DownloadIsbnImage(u) => {
            assert_eq!(u, "https://covers.openlibrary.org/b/isbn/978-1-L.jpg")
        }
        other => panic!("unexpected {:?}", other),
    }
    match l.after_isbn_image(Some(vec![1, 2, 3])) {
        CoverAction::SearchOpenLibrary(u) => assert_eq!(
            u,
            "https://openlibrary.org/search.json?q=Some%20Book%20Title+Some%20Author&limit=1&fields=cover_i"
        ),
        other => panic!("unexpected {:?}", other),
    }
    match l.after_open_library_search(Some(-12)) {
        CoverAction::DownloadOpenLibraryImage(u) => {
            assert_eq!(u, "https://covers.openlibrary.org/b/id/-12-L.jpg")
        }
        other => panic!("unexpected {:?}", other),
    }
    assert!(matches!(l.after_open_library_search(None), CoverAction::Done(None)));
    assert!(matches!(lookup(None).after_google_search(None), CoverAction::SearchOpenLibrary(_)));
}
