use synth::video::{
    audio_too_large, local_transcript, metadata_title, title_from_output, video_content_title,
    video_urls_from_listing, videos_as_contents, videos_to_fetch, youtube_search_term,
    download_failure, Transcriber, VideoExtractor, YouTubeSearcher, YouTubeVideo,
};
use synth::extractors::ContentType;

#[test]
fn listing_yields_watch_urls() {
    let out = "dQw4w9WgXcQ\nWARNING: something\n\nabcdefghijk\r\n";
    let urls = video_urls_from_listing(out).unwrap();
    assert_eq!(
        urls,
        vec![
            "https://www.youtube.com/watch?v=dQw4w9WgXcQ".to_string(),
            "https://www.youtube.com/watch?v=abcdefghijk".to_string(),
        ]
    );
    assert_eq!(video_urls_from_listing("").unwrap_err(), "No video IDs found");
    assert_eq!(video_urls_from_listing("short\ntoolongtoolong\n").unwrap_err(), "No video IDs found");
}

#[test]
fn listing_trims_ids_of_eleven_bytes() {
    let urls = video_urls_from_listing(" abcdefghi \n").unwrap();
    assert_eq!(urls, vec!["https://www.youtube.com/watch?v=abcdefghi".to_string()]);
    // Eleven bytes, not eleven characters.
    assert!(video_urls_from_listing("ééééé1").is_ok());
    assert!(video_urls_from_listing("ééééééééééé").is_err());
}

#[test]
fn search_terms_and_picks() {
    assert_eq!(youtube_search_term("rust async", 2), "ytsearch2:rust async");
    let urls = vec!["a".to_string(), "b".to_string(), "c".to_string()];
    assert_eq!(videos_to_fetch(&urls, 2), vec!["a".to_string(), "b".to_string()]);
    assert_eq!(videos_to_fetch(&urls, 9), urls);
}

#[test]
fn audio_size_limit() {
    assert!(!audio_too_large(25 * 1024 * 1024));
    assert!(audio_too_large(25 * 1024 * 1024 + 1));
}

#[test]
fn transcription_choice_and_fallbacks() {
    let with_key = YouTubeSearcher::new(Some("k".to_string()), "/tmp/yt");
    assert!(matches!(with_key.transcriber(), Transcriber::WhisperApi { api_key } if api_key == "k"));
    let without = YouTubeSearcher::new(None, "/tmp/yt");
    assert!(matches!(without.transcriber(), Transcriber::LocalWhisper));
    assert_eq!(without.audio_path("id1"), "/tmp/yt/id1.mp3");
    assert_eq!(local_transcript(Some("  text \n")), "text");
    assert_eq!(
        local_transcript(None),
        "(Transcription unavailable - no OpenAI API key or local Whisper)"
    );
    assert_eq!(title_from_output(" Title\n"), "Title");
}

#[test]
fn videos_become_video_content() {
    let v = YouTubeVideo { url: "u".to_string(), title: "t".to_string(), transcript: "words".to_string() };
    let cs = videos_as_contents(&vec![v]);
    assert_eq!(cs.len(), 1);
    assert_eq!(cs[0].content, "words");
    assert!(matches!(cs[0].content_type, ContentType::Video));
    assert!(cs[0].metadata.is_none());
}

#[test]
fn video_extractor() {
    let x = VideoExtractor::new(None, "/tmp/v");
    assert!(x.can_handle("https://www.youtube.com/watch?v=x"));
    assert!(x.can_handle("https://vimeo.com/1"));
    assert!(!x.can_handle("https://example.com/a.mp4"));
    assert!(matches!(x.content_type(), ContentType::Video));
    assert_eq!(x.fallback_transcript(), Some("[Transcription unavailable - no API key]".to_string()));
    assert_eq!(VideoExtractor::new(Some("k".to_string()), "/t").fallback_transcript(), None);
    assert_eq!(x.audio_path("abc"), "/tmp/v/abc.mp3");
    assert_eq!(metadata_title(Some("Talk")), "Talk");
    assert_eq!(metadata_title(None), "Unknown Video");
    assert_eq!(video_content_title("Talk"), "[VIDEO] Talk");
    assert_eq!(download_failure("boom"), "yt-dlp failed: boom");
}

#[test]
fn fresh_audio_paths() {
    let s = YouTubeSearcher::new(None, "/tmp/yt");
    let p = s.new_audio_path();
    assert!(p.starts_with("/tmp/yt/") && p.ends_with(".mp3"));
    assert_eq!(p.len(), "/tmp/yt/".len() + 36 + 4);
    let x = VideoExtractor::new(None, "/tmp/v");
    assert_ne!(x.new_audio_path(), x.new_audio_path());
}
