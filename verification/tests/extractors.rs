use synth::extractors::{
    audio_format_label, can_handle, content_type_name, detect_audio_extension, detect_media_type,
    extraction_cache_policy, labelled, media_title_of, pdf_title_of, ContentType, ExtractorRouter,
};
use synth::hash::cache_key;

#[test]
fn urls_are_routed_to_the_first_extractor_that_takes_them() {
    let router = ExtractorRouter::new();
    let cases = [
        ("https://example.com/page.html", Some("Web")),
        ("https://example.com/document.pdf", Some("PDF")),
        ("https://www.youtube.com/watch?v=dQw4w9WgXcQ", Some("Video")),
        ("https://example.com/audio.mp3", Some("Audio")),
        ("https://example.com/image.jpg", Some("Image")),
        ("https://github.com/owner/repo", Some("CodeRepository")),
        ("https://github.com/owner/repo/blob/main/paper.pdf", Some("PDF")),
        ("https://github.com/owner/repo/blob/main/clip.mp3", Some("Audio")),
        ("ftp://example.com/file", None),
    ];
    for (url, want) in cases {
        let got = router.detect_type(url).map(content_type_name);
        assert_eq!(got.as_deref(), want, "{}", url);
    }
    assert_eq!(
        router.route("ftp://example.com/file").unwrap_err(),
        "No extractor found for URL: ftp://example.com/file"
    );
}

#[test]
fn handlers_answer_for_their_urls() {
    assert!(can_handle(ContentType::PDF, "https://a/B.PDF"));
    assert!(can_handle(ContentType::Image, "https://a/b.webp"));
    assert!(!can_handle(ContentType::Image, "https://a/b.svg"));
    assert!(can_handle(ContentType::Audio, "https://a/b.flac"));
    assert!(can_handle(ContentType::Web, "http://a"));
    assert!(!can_handle(ContentType::Web, "https://example.com/file.pdf"));
    assert!(!can_handle(ContentType::Web, "https://github.com/o/r"));
    assert!(!can_handle(ContentType::Web, "file:///a"));
    assert!(!can_handle(ContentType::CodeRepository, "https://github.com/o/r.git"));
    assert!(can_handle(ContentType::CodeRepository, "https://github.com/o/r.git/tree/main"));
}

#[test]
fn cache_policies_by_type() {
    let p = extraction_cache_policy(Some(ContentType::Video));
    assert_eq!((p.category.as_str(), p.ttl_hours), ("extractors_video", 168));
    let p = extraction_cache_policy(None);
    assert_eq!((p.category.as_str(), p.ttl_hours), ("extractors_web", 24));
    let router = ExtractorRouter::new();
    let (policy, key) = router.cache_plan("https://example.com/a.pdf");
    assert_eq!(policy.category, "extractors_pdf");
    assert_eq!(policy.ttl_hours, 24);
    assert_eq!(key, cache_key("https://example.com/a.pdf"));
}

#[test]
fn titles_from_urls() {
    assert_eq!(pdf_title_of("https://ex.com/files/my-report_2024.pdf"), "my report 2024");
    assert_eq!(pdf_title_of("https://ex.com/.pdf"), "https://ex.com/.pdf");
    assert_eq!(media_title_of("https://ex.com/a/sunset-beach_photo.final.jpg"), "sunset beach photo");
    assert_eq!(labelled("[IMAGE] ", &"x".to_string()), "[IMAGE] x");
}

#[test]
fn formats_from_urls() {
    assert_eq!(detect_audio_extension("https://x/song.MP3"), "mp3");
    assert_eq!(detect_audio_extension("https://x/song.aac"), "audio");
    assert_eq!(audio_format_label("https://x/song.flac"), "FLAC");
    assert_eq!(detect_media_type("image/png", "https://x/a"), "image/png");
    assert_eq!(detect_media_type("", "https://x/a.GIF"), "image/gif");
    assert_eq!(detect_media_type("application/octet-stream", "https://x/a"), "image/jpeg");
}
