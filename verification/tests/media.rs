use synth::extractors::ContentType;
use synth::media::{AudioExtractor, ImageExtractor, PdfExtractor};
use synth::media::{audio_file_path, audio_transcript, image_description, pdf_content, vision_answer, vision_prompt};

#[test]
fn pdf_text_is_capped_and_failures_noted() {
    assert_eq!(pdf_content(Ok("text")), "text");
    assert_eq!(pdf_content(Err("broken")), "[PDF extraction failed: broken]");
    let long = "é".repeat(100_005);
    assert_eq!(pdf_content(Ok(&long)).chars().count(), 100_000);
}

#[test]
fn audio_and_image_fallbacks() {
    assert_eq!(audio_transcript(None), "[Transcription unavailable - no API key]");
    assert_eq!(audio_transcript(Some(Ok("hi"))), "hi");
    assert_eq!(audio_transcript(Some(Err("x"))), "[Transcription failed: x]");
    assert_eq!(image_description(None), "[Image analysis unavailable - no ANTHROPIC_API_KEY]");
    assert_eq!(image_description(Some(Ok("a cat"))), "a cat");
    assert_eq!(image_description(Some(Err("e"))), "[Image analysis unavailable: e]");
    assert_eq!(vision_answer(&vec![]), "[No description available]");
    assert_eq!(vision_answer(&vec!["d".to_string()]), "d");
    assert!(vision_prompt().starts_with("Describe this image in detail."));
    assert_eq!(audio_file_path("/tmp/a", "id", "mp3"), "/tmp/a/id.mp3");
}

#[test]
fn extractor_types_answer_for_their_urls() {
    let pdf = PdfExtractor::new();
    assert!(pdf.can_handle("https://x/a.PDF"));
    assert!(matches!(pdf.content_type(), ContentType::PDF));
    assert_eq!(pdf.extract_title("https://x/annual_report-2024.pdf"), "annual report 2024");
    let audio = AudioExtractor::new(None, "/tmp/a");
    assert!(audio.can_handle("https://x/a.ogg"));
    assert_eq!(audio.detect_extension("https://x/a.WAV"), "wav");
    assert_eq!(audio.extract_title("https://x/my_song.mp3"), "[AUDIO] my song");
    assert_eq!(audio.download_path("id", "https://x/a.m4a"), "/tmp/a/id.m4a");
    assert_eq!(audio.whisper_key(), None);
    let image = ImageExtractor::new(Some("k".to_string()));
    assert!(image.can_handle("https://x/a.bmp"));
    assert_eq!(image.detect_media_type("image/webp", "https://x/a"), "image/webp");
    assert_eq!(image.extract_title("https://x/cat-photo.jpg"), "[IMAGE] cat photo");
    assert_eq!(image.vision_key(), Some("k".to_string()));
}

#[test]
fn image_payloads_and_fresh_paths() {
    let image = ImageExtractor::new(None);
    assert_eq!(image.payload(b"hi"), "aGk=");
    assert_eq!(image.payload(b""), "");
    assert_eq!(image.payload(b"abcd"), "YWJjZA==");
    assert_eq!(image.payload(&[0xff, 0xfe, 0xfd]), "//79");
    assert_eq!(image.dimensions(b"not an image"), None);
    let audio = AudioExtractor::new(None, "/tmp/a");
    let p1 = audio.new_download_path("https://x/song.mp3");
    let p2 = audio.new_download_path("https://x/song.mp3");
    assert!(p1.starts_with("/tmp/a/") && p1.ends_with(".mp3"));
    assert_eq!(p1.len(), "/tmp/a/".len() + 36 + ".mp3".len());
    assert_ne!(p1, p2);
}

fn bmp(width: u32, height: u32) -> Vec<u8> {
    let row = ((width * 3 + 3) / 4) * 4;
    let data = row * height;
    let mut b = Vec::new();
    b.extend_from_slice(b"BM");
    b.extend_from_slice(&(54 + data).to_le_bytes());
    b.extend_from_slice(&[0, 0, 0, 0]);
    b.extend_from_slice(&54u32.to_le_bytes());
    b.extend_from_slice(&40u32.to_le_bytes());
    b.extend_from_slice(&width.to_le_bytes());
    b.extend_from_slice(&height.to_le_bytes());
    b.extend_from_slice(&1u16.to_le_bytes());
    b.extend_from_slice(&24u16.to_le_bytes());
    b.extend_from_slice(&0u32.to_le_bytes());
    b.extend_from_slice(&data.to_le_bytes());
    b.extend_from_slice(&[0; 16]);
    b.extend(std::iter::repeat(0u8).take(data as usize));
    b
}

#[test]
fn image_dimensions_are_decoded() {
    let image = ImageExtractor::new(None);
    assert_eq!(image.dimensions(&bmp(2, 3)), Some((2, 3)));
}

#[test]
fn fresh_identifiers_are_hyphenated_lower_case_uuids() {
    let audio = AudioExtractor::new(None, "/tmp/a");
    let p = audio.new_download_path("https://x/song.mp3");
    let id = &p["/tmp/a/".len()..p.len() - ".mp3".len()];
    assert_eq!(id.len(), 36);
    for (i, c) in id.chars().enumerate() {
        if [8, 13, 18, 23].contains(&i) {
            assert_eq!(c, '-');
        } else {
            assert!(c.is_ascii_digit() || ('a'..='f').contains(&c), "{}", id);
        }
    }
}
