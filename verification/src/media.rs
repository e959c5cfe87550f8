//! What the PDF, audio and image extractors answer when a stage of theirs
//! fails or cannot run, and the paths and prompt they use.
use vstd::prelude::*;
use crate::cache::{join_path, path_join};
use crate::extractors::{
    audio_extension, audio_url, detect_audio_extension, detect_media_type, handles_audio,
    handles_image, handles_pdf, image_media_type, image_url, labelled, media_title, media_title_of,
    pdf_title, pdf_title_of, pdf_url, ContentType,
};
use crate::text::{chars_of, string_of, take_chars};

verus! {

/// The most characters of PDF text that are kept.
pub const MAX_PDF_CHARS: usize = 100000;

/// The text of an extracted PDF: the text found, or a note of why there is
/// none; cut to at most a hundred thousand characters.
pub open spec fn pdf_text(outcome: Result<Seq<char>, Seq<char>>) -> Seq<char> {
    let t = match outcome {
        Ok(text) => text,
        Err(e) => "[PDF extraction failed: "@ + e + "]"@,
    };
    t.take(if t.len() <= 100000 { t.len() as int } else { 100000 })
}

/// The text of an extracted PDF never holds more than a hundred thousand
/// characters.
pub proof fn lemma_pdf_text_bounded(outcome: Result<Seq<char>, Seq<char>>)
    ensures
        pdf_text(outcome).len() <= 100000,
{
}

/// The view of an outcome.
pub open spec fn outcome_view(o: Result<&str, &str>) -> Result<Seq<char>, Seq<char>> {
    match o {
        Ok(t) => Ok(t@),
        Err(e) => Err(e@),
    }
}

/// The text of an extracted PDF, from the outcome of reading its text.
pub fn pdf_content(outcome: Result<&str, &str>) -> (t: String)
    ensures
        t@ == pdf_text(outcome_view(outcome)),
{
    let full = match outcome {
        Ok(text) => chars_of(text),
        Err(e) => {
            let mut m = "[PDF extraction failed: ".to_owned();
            m.append(e);
            m.append("]");
            chars_of(m.as_str())
        },
    };
    string_of(&take_chars(&full, MAX_PDF_CHARS))
}

/// The transcript of extracted audio: none without a key for the
/// transcription service (`None`), else the transcription or a note of
/// why it failed.
pub open spec fn audio_text(outcome: Option<Result<Seq<char>, Seq<char>>>) -> Seq<char> {
    match outcome {
        None => "[Transcription unavailable - no API key]"@,
        Some(Ok(t)) => t,
        Some(Err(e)) => "[Transcription failed: "@ + e + "]"@,
    }
}

/// The transcript of extracted audio.
pub fn audio_transcript(outcome: Option<Result<&str, &str>>) -> (t: String)
    ensures
        t@ == audio_text(
            match outcome {
                None => None,
                Some(o) => Some(outcome_view(o)),
            },
        ),
{
    match outcome {
        None => "[Transcription unavailable - no API key]".to_owned(),
        Some(Ok(t)) => t.to_owned(),
        Some(Err(e)) => {
            let mut m = "[Transcription failed: ".to_owned();
            m.append(e);
            m.append("]");
            m
        },
    }
}

/// The description of an extracted image: none without a key for the
/// vision service (`None`), else the description or a note of why it
/// failed.
pub open spec fn image_text(outcome: Option<Result<Seq<char>, Seq<char>>>) -> Seq<char> {
    match outcome {
        None => "[Image analysis unavailable - no ANTHROPIC_API_KEY]"@,
        Some(Ok(t)) => t,
        Some(Err(e)) => "[Image analysis unavailable: "@ + e + "]"@,
    }
}

/// The description of an extracted image.
pub fn image_description(outcome: Option<Result<&str, &str>>) -> (t: String)
    ensures
        t@ == image_text(
            match outcome {
                None => None,
                Some(o) => Some(outcome_view(o)),
            },
        ),
{
    match outcome {
        None => "[Image analysis unavailable - no ANTHROPIC_API_KEY]".to_owned(),
        Some(Ok(t)) => t.to_owned(),
        Some(Err(e)) => {
            let mut m = "[Image analysis unavailable: ".to_owned();
            m.append(e);
            m.append("]");
            m
        },
    }
}

/// The description in the vision model's answer: its first content block,
/// else a note that there is none.
pub fn vision_answer(blocks: &Vec<String>) -> (t: String)
    ensures
        t@ == (if blocks.len() > 0 {
            blocks@[0]@
        } else {
            "[No description available]"@
        }),
{
    if blocks.len() > 0 {
        blocks[0].clone()
    } else {
        "[No description available]".to_owned()
    }
}

/// What the vision model is asked about an image.
pub open spec fn vision_prompt_text() -> Seq<char> {
    "Describe this image in detail. Include: what you see, any text present, key objects, colors, composition, and any notable features. If it's a chart/graph/diagram, explain what it shows."@
}

/// What the vision model is asked about an image.
pub fn vision_prompt() -> (p: String)
    ensures
        p@ == vision_prompt_text(),
{
    "Describe this image in detail. Include: what you see, any text present, key objects, colors, composition, and any notable features. If it's a chart/graph/diagram, explain what it shows.".to_owned()
}

/// The file a downloaded audio file is written to: `<dir>/<id>.<extension>`.
pub fn audio_file_path(dir: &str, file_id: &str, extension: &str) -> (p: String)
    ensures
        p@ == path_join(dir@, file_id@ + "."@ + extension@),
{
    let mut f = file_id.to_owned();
    f.append(".");
    f.append(extension);
    join_path(dir, f.as_str())
}

// ---------------------------------------------------------------------------
// The extractors
// ---------------------------------------------------------------------------

/// Extracts the text of PDF documents.
#[derive(Debug, Clone, Copy)]
pub struct PdfExtractor;

impl PdfExtractor {
    /// The PDF extractor.
    pub fn new() -> Self {
        PdfExtractor
    }

    /// Does this extractor take the URL? Those ending in `.pdf`, in any case.
    pub fn can_handle(&self, url: &str) -> (r: bool)
        ensures
            r == pdf_url(url@),
    {
        handles_pdf(url)
    }

    /// The content type this extractor produces.
    pub fn content_type(&self) -> (t: ContentType)
        ensures
            t == ContentType::PDF,
    {
        ContentType::PDF
    }

    /// The title of a PDF: its file name without `.pdf`, dashes and
    /// underscores as spaces; the URL when that leaves nothing.
    pub fn extract_title(&self, url: &str) -> (t: String)
        ensures
            t@ == pdf_title(url@),
    {
        pdf_title_of(url)
    }
}

/// Extracts audio files by transcribing them.
#[derive(Debug, Clone)]
pub struct AudioExtractor {
    openai_api_key: Option<String>,
    temp_dir: String,
}

impl AudioExtractor {
    /// The key of the transcription service, if any.
    pub closed spec fn api_key(&self) -> Option<Seq<char>> {
        match self.openai_api_key {
            Some(k) => Some(k@),
            None => None,
        }
    }

    /// The directory audio is downloaded to.
    pub closed spec fn dir(&self) -> Seq<char> {
        self.temp_dir@
    }

    /// An extractor that transcribes with the service when given its key
    /// and downloads into `temp_dir` (which the caller creates).
    pub fn new(openai_api_key: Option<String>, temp_dir: &str) -> (x: Self)
        ensures
            x.api_key() == match openai_api_key {
                Some(k) => Some(k@),
                None => None::<Seq<char>>,
            },
            x.dir() == temp_dir@,
    {
        AudioExtractor { openai_api_key, temp_dir: temp_dir.to_owned() }
    }

    /// Does this extractor take the URL? Common audio file names.
    pub fn can_handle(&self, url: &str) -> (r: bool)
        ensures
            r == audio_url(url@),
    {
        handles_audio(url)
    }

    /// The content type this extractor produces.
    pub fn content_type(&self) -> (t: ContentType)
        ensures
            t == ContentType::Audio,
    {
        ContentType::Audio
    }

    /// The file extension the download is saved with.
    pub fn detect_extension(&self, url: &str) -> (e: String)
        ensures
            e@ == audio_extension(url@),
    {
        detect_audio_extension(url)
    }

    /// The title of extracted audio: `[AUDIO] ` and the file's name.
    pub fn extract_title(&self, url: &str) -> (t: String)
        ensures
            t@ == "[AUDIO] "@ + media_title(url@),
    {
        labelled("[AUDIO] ", &media_title_of(url))
    }

    /// The file a download named `file_id` goes to.
    pub fn download_path(&self, file_id: &str, url: &str) -> (p: String)
        ensures
            p@ == path_join(self.dir(), file_id@ + "."@ + audio_extension(url@)),
    {
        let e = detect_audio_extension(url);
        audio_file_path(self.temp_dir.as_str(), file_id, e.as_str())
    }

    /// The key of the transcription service, if any.
    pub fn whisper_key(&self) -> (k: Option<String>)
        ensures
            match k {
                Some(s) => self.api_key() == Some(s@),
                None => self.api_key() is None,
            },
    {
        self.openai_api_key.clone()
    }
}

/// Extracts images by having a vision model describe them.
#[derive(Debug, Clone)]
pub struct ImageExtractor {
    api_key: Option<String>,
}

impl ImageExtractor {
    /// The key of the vision service, if any.
    pub closed spec fn key(&self) -> Option<Seq<char>> {
        match self.api_key {
            Some(k) => Some(k@),
            None => None,
        }
    }

    /// An extractor that describes images with the vision service when
    /// given its key.
    pub fn new(api_key: Option<String>) -> (x: Self)
        ensures
            x.key() == match api_key {
                Some(k) => Some(k@),
                None => None::<Seq<char>>,
            },
    {
        ImageExtractor { api_key }
    }

    /// Does this extractor take the URL? Common image file names.
    pub fn can_handle(&self, url: &str) -> (r: bool)
        ensures
            r == image_url(url@),
    {
        handles_image(url)
    }

    /// The content type this extractor produces.
    pub fn content_type(&self) -> (t: ContentType)
        ensures
            t == ContentType::Image,
    {
        ContentType::Image
    }

    /// The media type of a downloaded image.
    pub fn detect_media_type(&self, content_type: &str, url: &str) -> (m: String)
        ensures
            m@ == image_media_type(content_type@, url@),
    {
        detect_media_type(content_type, url)
    }

    /// The title of an extracted image: `[IMAGE] ` and the file's name.
    pub fn extract_title(&self, url: &str) -> (t: String)
        ensures
            t@ == "[IMAGE] "@ + media_title(url@),
    {
        labelled("[IMAGE] ", &media_title_of(url))
    }

    /// The key of the vision service, if any.
    pub fn vision_key(&self) -> (k: Option<String>)
        ensures
            match k {
                Some(s) => self.key() == Some(s@),
                None => self.key() is None,
            },
    {
        self.api_key.clone()
    }
}

// ---------------------------------------------------------------------------
// Image data, and fresh file names
// ---------------------------------------------------------------------------

/// The width and height of the image that `bytes` hold, as
/// `image::load_from_memory` decodes it; `None` when it cannot.
pub uninterp spec fn decoded_dimensions(bytes: Seq<u8>) -> Option<(u32, u32)>;

/// Decodes the image with `image::load_from_memory` and reads its width and
/// height. What the decoder computes is named, not restated.
#[verifier::external_body]
fn image_size(bytes: &[u8]) -> (r: Option<(u32, u32)>)
    ensures
        r == decoded_dimensions(bytes@),
{
    image::load_from_memory(bytes).ok().map(|img| (img.width(), img.height()))
}

/// The character of a six-bit value in the standard base64 alphabet:
/// `A`-`Z`, `a`-`z`, `0`-`9`, `+`, `/`.
pub open spec fn base64_digit(n: int) -> char {
    if n < 26 {
        (65 + n) as char
    } else if n < 52 {
        (71 + n) as char
    } else if n < 62 {
        (n - 4) as char
    } else if n == 62 {
        '+'
    } else {
        '/'
    }
}

/// The standard base64 text (RFC 4648, with padding) of `bytes`: each group
/// of three bytes becomes four characters of six bits each; a last group of
/// one or two bytes is padded with `=`.
pub open spec fn base64_text(bytes: Seq<u8>) -> Seq<char>
    decreases bytes.len(),
{
    if bytes.len() == 0 {
        Seq::empty()
    } else if bytes.len() == 1 {
        let a = bytes[0] as int;
        seq![base64_digit(a / 4), base64_digit((a % 4) * 16), '=', '=']
    } else if bytes.len() == 2 {
        let a = bytes[0] as int;
        let b = bytes[1] as int;
        seq![base64_digit(a / 4), base64_digit((a % 4) * 16 + b / 16), base64_digit((b % 16) * 4), '=']
    } else {
        let a = bytes[0] as int;
        let b = bytes[1] as int;
        let c = bytes[2] as int;
        seq![
            base64_digit(a / 4),
            base64_digit((a % 4) * 16 + b / 16),
            base64_digit((b % 16) * 4 + c / 64),
            base64_digit(c % 64),
        ] + base64_text(bytes.skip(3))
    }
}

/// Encodes the bytes with `base64::engine::general_purpose::STANDARD`,
/// which writes the standard alphabet with padding (RFC 4648).
#[verifier::external_body]
fn base64_encode(bytes: &[u8]) -> (r: String)
    ensures
        r@ == base64_text(bytes@),
{
    base64::Engine::encode(&base64::engine::general_purpose::STANDARD, bytes)
}

/// The hyphenated lower-case text of a UUID: 36 characters, `-` at
/// positions 8, 13, 18 and 23, and a lower-case hexadecimal digit
/// everywhere else.
pub open spec fn uuid_text(id: Seq<char>) -> bool {
    &&& id.len() == 36
    &&& forall|i: int|
        0 <= i < 36 ==> if i == 8 || i == 13 || i == 18 || i == 23 {
            #[trigger] id[i] == '-'
        } else {
            ('0' <= id[i] && id[i] <= '9') || ('a' <= id[i] && id[i] <= 'f')
        }
}

/// A fresh random identifier from `uuid::Uuid::new_v4`, written as its
/// hyphenated lower-case text (the crate's `Display` writes the
/// `LowerHex` hyphenated form). Which identifier comes out rests on
/// chance: only its form is stated.
#[verifier::external_body]
pub(crate) fn random_id() -> (id: String)
    ensures
        uuid_text(id@),
{
    uuid::Uuid::new_v4().to_string()
}

impl ImageExtractor {
    /// The width and height of a downloaded image, when it can be decoded.
    pub fn dimensions(&self, bytes: &[u8]) -> (d: Option<(u32, u32)>)
        ensures
            d == decoded_dimensions(bytes@),
    {
        image_size(bytes)
    }

    /// The image as the vision request carries it: base64 text.
    pub fn payload(&self, bytes: &[u8]) -> (t: String)
        ensures
            t@ == base64_text(bytes@),
    {
        base64_encode(bytes)
    }
}

impl AudioExtractor {
    /// A fresh file for a download of the URL: a new random name with the
    /// URL's audio extension, in the download directory.
    pub fn new_download_path(&self, url: &str) -> (p: String)
        ensures
            exists|id: Seq<char>|
                crate::media::uuid_text(id) && p@ == path_join(self.dir(), id + "."@ + audio_extension(url@)),
    {
        let id = random_id();
        self.download_path(id.as_str(), url)
    }
}

} // verus!
