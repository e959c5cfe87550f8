//! Content types, the rules that decide which extractor handles a URL, and
//! the pure parts of the extractors (titles, formats, cache policy).
use vstd::prelude::*;
use crate::text::{
    chars_of, contains_str, ends_with_str, extend_str, has_prefix, has_substring,
    has_suffix, lower, replace_all, replace_str, slice, starts_with_str, string_of,
    unicode_lowercase,
};

verus! {

/// The kinds of content the extractors produce.
#[derive(Debug, Clone, Copy, PartialEq, Eq, Structural)]
pub enum ContentType {
    Web,
    PDF,
    Video,
    Audio,
    Image,
    CodeRepository,
}

/// Unified content that can be analysed by the LLM. `metadata` holds the
/// extractor's metadata as JSON text.
#[derive(Debug, Clone)]
pub struct ExtractedContent {
    pub url: String,
    pub title: String,
    pub content: String,
    pub content_type: ContentType,
    pub metadata: Option<String>,
}

/// The name of a content type, as `{:?}` prints it.
pub open spec fn kind_name(t: ContentType) -> Seq<char> {
    match t {
        ContentType::Web => "Web"@,
        ContentType::PDF => "PDF"@,
        ContentType::Video => "Video"@,
        ContentType::Audio => "Audio"@,
        ContentType::Image => "Image"@,
        ContentType::CodeRepository => "CodeRepository"@,
    }
}

/// The name of a content type.
pub fn content_type_name(t: ContentType) -> (s: String)
    ensures
        s@ == kind_name(t),
{
    let lit = match t {
        ContentType::Web => "Web",
        ContentType::PDF => "PDF",
        ContentType::Video => "Video",
        ContentType::Audio => "Audio",
        ContentType::Image => "Image",
        ContentType::CodeRepository => "CodeRepository",
    };
    string_of(&chars_of(lit))
}

// ---------------------------------------------------------------------------
// Which extractor handles a URL
// ---------------------------------------------------------------------------

/// A GitHub repository page.
pub open spec fn code_repo_url(url: Seq<char>) -> bool {
    (has_substring(url, "github.com/"@) && !has_suffix(url, ".git"@)) || (has_substring(
        url,
        "github.com/"@,
    ) && has_substring(url, "/tree/"@))
}

/// A PDF document (by extension, ignoring case).
pub open spec fn pdf_url(url: Seq<char>) -> bool {
    has_suffix(unicode_lowercase(url), ".pdf"@)
}

/// A page of a video platform.
pub open spec fn video_url(url: Seq<char>) -> bool {
    ||| has_substring(url, "youtube.com"@)
    ||| has_substring(url, "youtu.be"@)
    ||| has_substring(url, "vimeo.com"@)
    ||| has_substring(url, "dailymotion.com"@)
    ||| has_substring(url, "twitch.tv"@)
    ||| has_substring(url, "tiktok.com"@)
}

/// An image file (by extension, ignoring case).
pub open spec fn image_url(url: Seq<char>) -> bool {
    let l = unicode_lowercase(url);
    ||| has_suffix(l, ".jpg"@)
    ||| has_suffix(l, ".jpeg"@)
    ||| has_suffix(l, ".png"@)
    ||| has_suffix(l, ".gif"@)
    ||| has_suffix(l, ".webp"@)
    ||| has_suffix(l, ".bmp"@)
}

/// An audio file (by extension, ignoring case).
pub open spec fn audio_url(url: Seq<char>) -> bool {
    let l = unicode_lowercase(url);
    ||| has_suffix(l, ".mp3"@)
    ||| has_suffix(l, ".wav"@)
    ||| has_suffix(l, ".m4a"@)
    ||| has_suffix(l, ".ogg"@)
    ||| has_suffix(l, ".flac"@)
    ||| has_suffix(l, ".aac"@)
}

/// An http or https URL.
pub open spec fn web_url(url: Seq<char>) -> bool {
    has_prefix(url, "http://"@) || has_prefix(url, "https://"@)
}

/// A URL that one of the specific extractors (PDF, video, image, audio,
/// repository) takes.
pub open spec fn specific_url(url: Seq<char>) -> bool {
    pdf_url(url) || video_url(url) || image_url(url) || audio_url(url) || code_repo_url(url)
}

/// A web page: an http or https URL that no specific extractor takes.
pub open spec fn web_page_url(url: Seq<char>) -> bool {
    web_url(url) && !specific_url(url)
}

/// The extractor of content type `t` handles `url`.
pub open spec fn handles(t: ContentType, url: Seq<char>) -> bool {
    match t {
        ContentType::CodeRepository => code_repo_url(url),
        ContentType::PDF => pdf_url(url),
        ContentType::Video => video_url(url),
        ContentType::Image => image_url(url),
        ContentType::Audio => audio_url(url),
        ContentType::Web => web_page_url(url),
    }
}

/// The order in which the router asks the extractors: file types first
/// (PDF, video, image, audio), then repository pages; the web extractor is
/// the fallback and comes last.
pub open spec fn routing_order() -> Seq<ContentType> {
    seq![
        ContentType::PDF,
        ContentType::Video,
        ContentType::Image,
        ContentType::Audio,
        ContentType::CodeRepository,
        ContentType::Web,
    ]
}

/// The first content type of `order` whose extractor handles `url`.
pub open spec fn first_handler(order: Seq<ContentType>, url: Seq<char>) -> Option<ContentType>
    decreases order.len(),
{
    if order.len() == 0 {
        None
    } else if handles(order[0], url) {
        Some(order[0])
    } else {
        first_handler(order.skip(1), url)
    }
}

/// The content type the router picks for `url`.
pub open spec fn routed_type(url: Seq<char>) -> Option<ContentType> {
    first_handler(routing_order(), url)
}

/// Is `url` a GitHub repository page?
pub fn handles_code_repo(url: &str) -> (r: bool)
    ensures
        r == code_repo_url(url@),
{
    let u = chars_of(url);
    (contains_str(&u, "github.com/") && !ends_with_str(&u, ".git")) || (contains_str(
        &u,
        "github.com/",
    ) && contains_str(&u, "/tree/"))
}

/// Is `url` a PDF document?
pub fn handles_pdf(url: &str) -> (r: bool)
    ensures
        r == pdf_url(url@),
{
    let l = lower(url);
    ends_with_str(&l, ".pdf")
}

/// Is `url` a page of a video platform?
pub fn handles_video(url: &str) -> (r: bool)
    ensures
        r == video_url(url@),
{
    let u = chars_of(url);
    contains_str(&u, "youtube.com") || contains_str(&u, "youtu.be") || contains_str(
        &u,
        "vimeo.com",
    ) || contains_str(&u, "dailymotion.com") || contains_str(&u, "twitch.tv") || contains_str(
        &u,
        "tiktok.com",
    )
}

/// Is `url` an image file?
pub fn handles_image(url: &str) -> (r: bool)
    ensures
        r == image_url(url@),
{
    let l = lower(url);
    ends_with_str(&l, ".jpg") || ends_with_str(&l, ".jpeg") || ends_with_str(&l, ".png")
        || ends_with_str(&l, ".gif") || ends_with_str(&l, ".webp") || ends_with_str(&l, ".bmp")
}

/// Is `url` an audio file?
pub fn handles_audio(url: &str) -> (r: bool)
    ensures
        r == audio_url(url@),
{
    let l = lower(url);
    ends_with_str(&l, ".mp3") || ends_with_str(&l, ".wav") || ends_with_str(&l, ".m4a")
        || ends_with_str(&l, ".ogg") || ends_with_str(&l, ".flac") || ends_with_str(&l, ".aac")
}

/// Is `url` a web page: an http or https URL that no specific extractor
/// takes?
pub fn handles_web(url: &str) -> (r: bool)
    ensures
        r == web_page_url(url@),
{
    let u = chars_of(url);
    (starts_with_str(&u, "http://") || starts_with_str(&u, "https://")) && !(handles_pdf(url)
        || handles_video(url) || handles_image(url) || handles_audio(url) || handles_code_repo(
        url,
    ))
}

/// Does the extractor of content type `t` handle `url`?
pub fn can_handle(t: ContentType, url: &str) -> (r: bool)
    ensures
        r == handles(t, url@),
{
    match t {
        ContentType::CodeRepository => handles_code_repo(url),
        ContentType::PDF => handles_pdf(url),
        ContentType::Video => handles_video(url),
        ContentType::Image => handles_image(url),
        ContentType::Audio => handles_audio(url),
        ContentType::Web => handles_web(url),
    }
}

/// Router that decides which extractor a URL goes to: the first, in a fixed
/// order, that can handle it.
pub struct ExtractorRouter {
    order: Vec<ContentType>,
}

impl ExtractorRouter {
    /// The router's invariant: it asks the extractors in routing order.
    #[verifier::type_invariant]
    spec fn wf(self) -> bool {
        self.order@ == routing_order()
    }

    /// The order in which this router asks the extractors.
    pub closed spec fn order(self) -> Seq<ContentType> {
        self.order@
    }

    /// A router over all extractors: PDF, video, image, audio, repository,
    /// and the web extractor last.
    pub fn new() -> (r: Self)
        ensures
            r.order() == routing_order(),
    {
        let mut order: Vec<ContentType> = Vec::new();
        order.push(ContentType::PDF);
        order.push(ContentType::Video);
        order.push(ContentType::Image);
        order.push(ContentType::Audio);
        order.push(ContentType::CodeRepository);
        order.push(ContentType::Web);
        assert(order@ =~= routing_order());
        ExtractorRouter { order }
    }

    /// Detect content type without extracting: the type of the first
    /// extractor that can handle the URL.
    pub fn detect_type(&self, url: &str) -> (t: Option<ContentType>)
        ensures
            t == routed_type(url@),
    {
        proof {
            use_type_invariant(self);
        }
        let mut i: usize = 0;
        assert(self.order@.skip(0) =~= self.order@);
        while i < self.order.len()
            invariant
                i <= self.order.len(),
                self.order@ == routing_order(),
                first_handler(self.order@, url@) == first_handler(self.order@.skip(i as int), url@),
            decreases self.order.len() - i,
        {
            let t = self.order[i];
            proof {
                assert(self.order@.skip(i as int)[0] == t);
                assert(self.order@.skip(i as int).skip(1) =~= self.order@.skip(i + 1));
            }
            if can_handle(t, url) {
                return Some(t);
            }
            i = i + 1;
        }
        None
    }
}

impl ExtractorRouter {
    /// The extractor a URL goes to; a URL that none takes is an error.
    pub fn route(&self, url: &str) -> (r: Result<ContentType, String>)
        ensures
            match r {
                Ok(t) => routed_type(url@) == Some(t),
                Err(m) => routed_type(url@) is None && m@ == "No extractor found for URL: "@ + url@,
            },
    {
        match self.detect_type(url) {
            Some(t) => Ok(t),
            None => {
                let mut m = "No extractor found for URL: ".to_owned();
                m.append(url);
                Err(m)
            },
        }
    }

    /// Where the extraction of a URL is cached: the category and time to
    /// live of its detected type, and the key of the URL.
    pub fn cache_plan(&self, url: &str) -> (plan: (CachePolicy, String))
        ensures
            plan.0.category@ == cache_category(routed_type(url@)),
            plan.0.ttl_hours == cache_ttl_hours(routed_type(url@)),
            plan.1@ == crate::hash::key_of(url@),
    {
        let t = self.detect_type(url);
        (extraction_cache_policy(t), crate::hash::cache_key(url))
    }
}

/// Every http or https URL has an extractor.
pub proof fn lemma_web_urls_are_routed(url: Seq<char>)
    requires
        web_url(url),
    ensures
        routed_type(url) is Some,
{
    reveal_with_fuel(first_handler, 7);
}

/// A URL is routed to a type only when that type's extractor handles it, and
/// no earlier extractor in the order does.
pub proof fn lemma_routed_type_handles(url: Seq<char>)
    ensures
        routed_type(url) matches Some(t) ==> handles(t, url),
        routed_type(url) is None ==> forall|i: int|
            0 <= i < routing_order().len() ==> !handles(#[trigger] routing_order()[i], url),
{
    reveal_with_fuel(first_handler, 7);
}

/// A PDF link: a URL ending in `.pdf`, in any case, goes to the PDF
/// extractor, whatever else it names.
pub proof fn lemma_pdf_links_go_to_pdf(url: Seq<char>)
    requires
        has_suffix(unicode_lowercase(url), ".pdf"@),
    ensures
        routed_type(url) == Some(ContentType::PDF),
{
    reveal_with_fuel(first_handler, 7);
}

/// A link to a video platform (YouTube, its `youtu.be` short links, Vimeo,
/// Dailymotion, Twitch, TikTok) that is not a PDF goes to the video
/// extractor.
pub proof fn lemma_video_links_go_to_video(url: Seq<char>)
    requires
        has_substring(url, "youtube.com"@) || has_substring(url, "youtu.be"@) || has_substring(
            url,
            "vimeo.com"@,
        ) || has_substring(url, "dailymotion.com"@) || has_substring(url, "twitch.tv"@)
            || has_substring(url, "tiktok.com"@),
        !has_suffix(unicode_lowercase(url), ".pdf"@),
    ensures
        routed_type(url) == Some(ContentType::Video),
{
    reveal_with_fuel(first_handler, 7);
}

/// A link to an image file (`.jpg`, `.jpeg`, `.png`, `.gif`, `.webp`,
/// `.bmp`, in any case) off the video platforms goes to the image extractor.
pub proof fn lemma_image_links_go_to_image(url: Seq<char>)
    requires
        ({
            let l = unicode_lowercase(url);
            has_suffix(l, ".jpg"@) || has_suffix(l, ".jpeg"@) || has_suffix(l, ".png"@)
                || has_suffix(l, ".gif"@) || has_suffix(l, ".webp"@) || has_suffix(l, ".bmp"@)
        }),
        !video_url(url),
    ensures
        routed_type(url) == Some(ContentType::Image),
{
    reveal_with_fuel(first_handler, 7);
    let l = unicode_lowercase(url);
    lemma_distinct_suffixes(l);
}

/// A link to an audio file (`.mp3`, `.wav`, `.m4a`, `.ogg`, `.flac`,
/// `.aac`, in any case) off the video platforms goes to the audio extractor.
pub proof fn lemma_audio_links_go_to_audio(url: Seq<char>)
    requires
        ({
            let l = unicode_lowercase(url);
            has_suffix(l, ".mp3"@) || has_suffix(l, ".wav"@) || has_suffix(l, ".m4a"@)
                || has_suffix(l, ".ogg"@) || has_suffix(l, ".flac"@) || has_suffix(l, ".aac"@)
        }),
        !video_url(url),
    ensures
        routed_type(url) == Some(ContentType::Audio),
{
    reveal_with_fuel(first_handler, 7);
    let l = unicode_lowercase(url);
    lemma_distinct_suffixes(l);
}

/// A GitHub page (`github.com/` in the URL, not a `.git` clone address
/// unless it shows a `/tree/`) that is no file of a specific kind and no
/// video goes to the repository extractor.
pub proof fn lemma_github_pages_go_to_repository(url: Seq<char>)
    requires
        has_substring(url, "github.com/"@),
        !has_suffix(url, ".git"@) || has_substring(url, "/tree/"@),
        !pdf_url(url),
        !video_url(url),
        !image_url(url),
        !audio_url(url),
    ensures
        routed_type(url) == Some(ContentType::CodeRepository),
{
    reveal_with_fuel(first_handler, 7);
}

/// An http or https URL that no specific extractor takes goes to the web
/// extractor; a URL that is neither is refused.
pub proof fn lemma_other_links_go_to_web(url: Seq<char>)
    requires
        !specific_url(url),
    ensures
        (has_prefix(url, "http://"@) || has_prefix(url, "https://"@)) ==> routed_type(url) == Some(
            ContentType::Web,
        ),
        !(has_prefix(url, "http://"@) || has_prefix(url, "https://"@)) ==> routed_type(url) is None,
{
    reveal_with_fuel(first_handler, 7);
}

/// Text that ends in a suffix of two or more characters ends in its last
/// two characters.
proof fn lemma_suffix_ends(l: Seq<char>, suffix: Seq<char>)
    requires
        suffix.len() >= 2,
    ensures
        has_suffix(l, suffix) ==> l[l.len() - 1] == suffix[suffix.len() - 1] && l[l.len() - 2]
            == suffix[suffix.len() - 2],
{
    if has_suffix(l, suffix) {
        let t = l.skip(l.len() - suffix.len());
        assert(t[suffix.len() - 1] == l[l.len() - 1]);
        assert(t[suffix.len() - 2] == l[l.len() - 2]);
    }
}

/// No text ends in two of the file suffixes the router tells apart.
proof fn lemma_distinct_suffixes(l: Seq<char>)
    ensures
        !(has_suffix(l, ".pdf"@) && (has_suffix(l, ".jpg"@) || has_suffix(l, ".jpeg"@) || has_suffix(
            l,
            ".png"@,
        ) || has_suffix(l, ".gif"@) || has_suffix(l, ".webp"@) || has_suffix(l, ".bmp"@)
            || has_suffix(l, ".mp3"@) || has_suffix(l, ".wav"@) || has_suffix(l, ".m4a"@)
            || has_suffix(l, ".ogg"@) || has_suffix(l, ".flac"@) || has_suffix(l, ".aac"@))),
        !((has_suffix(l, ".jpg"@) || has_suffix(l, ".jpeg"@) || has_suffix(l, ".png"@)
            || has_suffix(l, ".gif"@) || has_suffix(l, ".webp"@) || has_suffix(l, ".bmp"@)) && (
        has_suffix(l, ".mp3"@) || has_suffix(l, ".wav"@) || has_suffix(l, ".m4a"@) || has_suffix(
            l,
            ".ogg"@,
        ) || has_suffix(l, ".flac"@) || has_suffix(l, ".aac"@))),
{
    reveal_strlit(".pdf");
    reveal_strlit(".jpg");
    reveal_strlit(".jpeg");
    reveal_strlit(".png");
    reveal_strlit(".gif");
    reveal_strlit(".webp");
    reveal_strlit(".bmp");
    reveal_strlit(".mp3");
    reveal_strlit(".wav");
    reveal_strlit(".m4a");
    reveal_strlit(".ogg");
    reveal_strlit(".flac");
    reveal_strlit(".aac");
    lemma_suffix_ends(l, ".pdf"@);
    lemma_suffix_ends(l, ".jpg"@);
    lemma_suffix_ends(l, ".jpeg"@);
    lemma_suffix_ends(l, ".png"@);
    lemma_suffix_ends(l, ".gif"@);
    lemma_suffix_ends(l, ".webp"@);
    lemma_suffix_ends(l, ".bmp"@);
    lemma_suffix_ends(l, ".mp3"@);
    lemma_suffix_ends(l, ".wav"@);
    lemma_suffix_ends(l, ".m4a"@);
    lemma_suffix_ends(l, ".ogg"@);
    lemma_suffix_ends(l, ".flac"@);
    lemma_suffix_ends(l, ".aac"@);
}

// ---------------------------------------------------------------------------
// Cache policy
// ---------------------------------------------------------------------------

/// Where extracted content is cached, and for how long.
#[derive(Debug, Clone)]
pub struct CachePolicy {
    pub category: String,
    pub ttl_hours: u64,
}

/// The cache category of a detected content type.
pub open spec fn cache_category(t: Option<ContentType>) -> Seq<char> {
    match t {
        Some(ContentType::CodeRepository) => "extractors_code"@,
        Some(ContentType::PDF) => "extractors_pdf"@,
        Some(ContentType::Video) => "extractors_video"@,
        Some(ContentType::Audio) => "extractors_audio"@,
        Some(ContentType::Image) => "extractors_image"@,
        _ => "extractors_web"@,
    }
}

/// How long extracted content of a detected type stays fresh: a week for
/// repositories, videos and audio, a day otherwise.
pub open spec fn cache_ttl_hours(t: Option<ContentType>) -> u64 {
    match t {
        Some(ContentType::CodeRepository) => 168,
        Some(ContentType::Video) => 168,
        Some(ContentType::Audio) => 168,
        _ => 24,
    }
}

/// Extracted content is cached by kind: repositories under
/// `extractors_code`, videos under `extractors_video` and audio under
/// `extractors_audio` for a week (168 hours); PDFs under `extractors_pdf`,
/// images under `extractors_image`, and web pages and anything undetected
/// under `extractors_web` for a day (24 hours).
pub proof fn lemma_cache_policy_by_kind(t: Option<ContentType>)
    ensures
        (cache_category(t), cache_ttl_hours(t)) == match t {
            Some(ContentType::CodeRepository) => ("extractors_code"@, 168u64),
            Some(ContentType::Video) => ("extractors_video"@, 168u64),
            Some(ContentType::Audio) => ("extractors_audio"@, 168u64),
            Some(ContentType::PDF) => ("extractors_pdf"@, 24u64),
            Some(ContentType::Image) => ("extractors_image"@, 24u64),
            _ => ("extractors_web"@, 24u64),
        },
{
}

/// The cache policy for content of a detected type.
pub fn extraction_cache_policy(t: Option<ContentType>) -> (p: CachePolicy)
    ensures
        p.category@ == cache_category(t),
        p.ttl_hours == cache_ttl_hours(t),
{
    let (category, ttl_hours) = match t {
        Some(ContentType::CodeRepository) => ("extractors_code", 168u64),
        Some(ContentType::PDF) => ("extractors_pdf", 24u64),
        Some(ContentType::Video) => ("extractors_video", 168u64),
        Some(ContentType::Audio) => ("extractors_audio", 168u64),
        Some(ContentType::Image) => ("extractors_image", 24u64),
        _ => ("extractors_web", 24u64),
    };
    CachePolicy { category: string_of(&chars_of(category)), ttl_hours }
}

// ---------------------------------------------------------------------------
// Titles and formats derived from URLs
// ---------------------------------------------------------------------------

/// The part of `s` after its last `c` (all of `s` when there is none).
pub open spec fn after_last(s: Seq<char>, c: char) -> Seq<char>
    decreases s.len(),
{
    if s.len() == 0 {
        s
    } else if s.last() == c {
        Seq::empty()
    } else {
        after_last(s.drop_last(), c).push(s.last())
    }
}

/// The part of `s` before its first `c` (all of `s` when there is none).
pub open spec fn before_first(s: Seq<char>, c: char) -> Seq<char>
    decreases s.len(),
{
    if s.len() == 0 {
        s
    } else if s[0] == c {
        Seq::empty()
    } else {
        seq![s[0]] + before_first(s.skip(1), c)
    }
}

/// `s` without every trailing repetition of `suffix` (what
/// `str::trim_end_matches` does for a string pattern).
pub open spec fn strip_suffixes(s: Seq<char>, suffix: Seq<char>) -> Seq<char>
    decreases s.len(),
{
    if suffix.len() > 0 && has_suffix(s, suffix) {
        strip_suffixes(s.take(s.len() - suffix.len()), suffix)
    } else {
        s
    }
}

/// Dashes and underscores read as spaces.
pub open spec fn spaced(s: Seq<char>) -> Seq<char> {
    replace_all(replace_all(s, "-"@, " "@), "_"@, " "@)
}

/// The title of a PDF: its file name without `.pdf`, dashes and underscores
/// read as spaces; the URL itself when that leaves nothing.
pub open spec fn pdf_title(url: Seq<char>) -> Seq<char> {
    let t = spaced(strip_suffixes(after_last(url, '/'), ".pdf"@));
    if t.len() > 0 {
        t
    } else {
        url
    }
}

/// The title of a media file: its file name up to the first dot, dashes and
/// underscores read as spaces.
pub open spec fn media_title(url: Seq<char>) -> Seq<char> {
    spaced(before_first(after_last(url, '/'), '.'))
}

/// The position after the last `c` in `s`, or 0.
fn after_last_index(s: &Vec<char>, c: char) -> (i: usize)
    ensures
        i <= s.len(),
        s@.skip(i as int) == after_last(s@, c),
{
    let mut j: usize = s.len();
    assert(s@.take(j as int) =~= s@);
    assert(s@ + s@.skip(j as int) =~= s@);
    while j > 0 && s[j - 1] != c
        invariant
            j <= s.len(),
            after_last(s@, c) == after_last(s@.take(j as int), c) + s@.skip(j as int),
        decreases j,
    {
        proof {
            let t = s@.take(j as int);
            assert(t.drop_last() =~= s@.take(j - 1));
            assert(t.last() == s@[j - 1]);
            assert(s@.skip(j - 1) =~= seq![s@[j - 1]] + s@.skip(j as int));
        }
        j = j - 1;
    }
    proof {
        assert(s@.take(s.len() as int) =~= s@);
        if j > 0 {
            let t = s@.take(j as int);
            assert(t.last() == s@[j - 1]);
        } else {
            assert(s@.take(0) =~= Seq::<char>::empty());
        }
        assert(Seq::<char>::empty() + s@.skip(j as int) =~= s@.skip(j as int));
    }
    j
}

/// The position of the first `c` in `s`, or its length.
fn first_index(s: &Vec<char>, c: char) -> (i: usize)
    ensures
        i <= s.len(),
        s@.take(i as int) == before_first(s@, c),
{
    let mut j: usize = 0;
    assert(s@.skip(0) =~= s@);
    while j < s.len() && s[j] != c
        invariant
            j <= s.len(),
            before_first(s@, c) == s@.take(j as int) + before_first(s@.skip(j as int), c),
        decreases s.len() - j,
    {
        proof {
            let t = s@.skip(j as int);
            assert(t[0] == s@[j as int]);
            assert(t.skip(1) =~= s@.skip(j + 1));
            assert(s@.take(j + 1) =~= s@.take(j as int) + seq![s@[j as int]]);
        }
        j = j + 1;
    }
    proof {
        let t = s@.skip(j as int);
        if j < s.len() {
            assert(t[0] == s@[j as int]);
        }
        assert(s@.take(j as int) + Seq::<char>::empty() =~= s@.take(j as int));
    }
    j
}

/// `s` without every trailing repetition of `suffix`.
fn strip_suffixes_exec(s: &Vec<char>, suffix: &Vec<char>) -> (r: Vec<char>)
    ensures
        r@ == strip_suffixes(s@, suffix@),
{
    let mut end: usize = s.len();
    if suffix.len() == 0 {
        return slice(s, 0, end);
    }
    assert(s@.take(end as int) =~= s@);
    loop
        invariant
            suffix.len() > 0,
            end <= s.len(),
            strip_suffixes(s@, suffix@) == strip_suffixes(s@.take(end as int), suffix@),
        decreases end,
    {
        let t = slice(s, 0, end);
        assert(t@ =~= s@.take(end as int));
        if crate::text::ends_with(&t, suffix) {
            assert(t@.take(t@.len() - suffix@.len()) =~= s@.take(end - suffix@.len()));
            end = end - suffix.len();
        } else {
            return t;
        }
    }
}

/// Dashes and underscores read as spaces.
fn spaced_exec(s: &Vec<char>) -> (r: Vec<char>)
    ensures
        r@ == spaced(s@),
{
    proof {
        reveal_strlit("-");
        reveal_strlit("_");
    }
    let t = replace_str(s, "-", " ");
    replace_str(&t, "_", " ")
}

/// The title of a PDF document, from its URL.
pub fn pdf_title_of(url: &str) -> (t: String)
    ensures
        t@ == pdf_title(url@),
{
    let u = chars_of(url);
    let start = after_last_index(&u, '/');
    let name = slice(&u, start, u.len());
    assert(name@ =~= u@.skip(start as int));
    let suffix = chars_of(".pdf");
    let stem = strip_suffixes_exec(&name, &suffix);
    let t = spaced_exec(&stem);
    if t.len() > 0 {
        string_of(&t)
    } else {
        string_of(&u)
    }
}

/// The title of an audio or image file, from its URL.
pub fn media_title_of(url: &str) -> (t: String)
    ensures
        t@ == media_title(url@),
{
    let u = chars_of(url);
    let start = after_last_index(&u, '/');
    let name = slice(&u, start, u.len());
    assert(name@ =~= u@.skip(start as int));
    let end = first_index(&name, '.');
    let stem = slice(&name, 0, end);
    assert(stem@ =~= name@.take(end as int));
    string_of(&spaced_exec(&stem))
}

/// `label + title`, the title shown for extracted media.
pub fn labelled(label: &str, title: &String) -> (t: String)
    ensures
        t@ == label@ + title@,
{
    let mut v = chars_of(label);
    extend_str(&mut v, title.as_str());
    string_of(&v)
}

/// The file extension of an audio URL (ignoring case), `audio` when unknown.
pub open spec fn audio_extension(url: Seq<char>) -> Seq<char> {
    let l = unicode_lowercase(url);
    if has_suffix(l, ".mp3"@) {
        "mp3"@
    } else if has_suffix(l, ".wav"@) {
        "wav"@
    } else if has_suffix(l, ".m4a"@) {
        "m4a"@
    } else if has_suffix(l, ".ogg"@) {
        "ogg"@
    } else if has_suffix(l, ".flac"@) {
        "flac"@
    } else {
        "audio"@
    }
}

/// The format label of an audio URL: its extension in capitals.
pub open spec fn audio_format(url: Seq<char>) -> Seq<char> {
    let l = unicode_lowercase(url);
    if has_suffix(l, ".mp3"@) {
        "MP3"@
    } else if has_suffix(l, ".wav"@) {
        "WAV"@
    } else if has_suffix(l, ".m4a"@) {
        "M4A"@
    } else if has_suffix(l, ".ogg"@) {
        "OGG"@
    } else if has_suffix(l, ".flac"@) {
        "FLAC"@
    } else {
        "AUDIO"@
    }
}

/// Detect the audio file extension from a URL.
pub fn detect_audio_extension(url: &str) -> (e: String)
    ensures
        e@ == audio_extension(url@),
{
    let l = lower(url);
    let e = if ends_with_str(&l, ".mp3") {
        "mp3"
    } else if ends_with_str(&l, ".wav") {
        "wav"
    } else if ends_with_str(&l, ".m4a") {
        "m4a"
    } else if ends_with_str(&l, ".ogg") {
        "ogg"
    } else if ends_with_str(&l, ".flac") {
        "flac"
    } else {
        "audio"
    };
    string_of(&chars_of(e))
}

/// The format label of an audio URL.
pub fn audio_format_label(url: &str) -> (f: String)
    ensures
        f@ == audio_format(url@),
{
    let l = lower(url);
    let f = if ends_with_str(&l, ".mp3") {
        "MP3"
    } else if ends_with_str(&l, ".wav") {
        "WAV"
    } else if ends_with_str(&l, ".m4a") {
        "M4A"
    } else if ends_with_str(&l, ".ogg") {
        "OGG"
    } else if ends_with_str(&l, ".flac") {
        "FLAC"
    } else {
        "AUDIO"
    };
    string_of(&chars_of(f))
}

/// The media type of an image, from the response's content type or else the
/// URL's extension; JPEG when neither tells.
pub open spec fn image_media_type(content_type: Seq<char>, url: Seq<char>) -> Seq<char> {
    let l = unicode_lowercase(url);
    if has_substring(content_type, "png"@) || has_suffix(l, ".png"@) {
        "image/png"@
    } else if has_substring(content_type, "jpeg"@) || has_substring(content_type, "jpg"@)
        || has_suffix(l, ".jpg"@) || has_suffix(l, ".jpeg"@) {
        "image/jpeg"@
    } else if has_substring(content_type, "gif"@) || has_suffix(l, ".gif"@) {
        "image/gif"@
    } else if has_substring(content_type, "webp"@) || has_suffix(l, ".webp"@) {
        "image/webp"@
    } else {
        "image/jpeg"@
    }
}

/// Detect the media type of an image.
pub fn detect_media_type(content_type: &str, url: &str) -> (m: String)
    ensures
        m@ == image_media_type(content_type@, url@),
{
    let c = chars_of(content_type);
    let l = lower(url);
    let m = if contains_str(&c, "png") || ends_with_str(&l, ".png") {
        "image/png"
    } else if contains_str(&c, "jpeg") || contains_str(&c, "jpg") || ends_with_str(&l, ".jpg")
        || ends_with_str(&l, ".jpeg") {
        "image/jpeg"
    } else if contains_str(&c, "gif") || ends_with_str(&l, ".gif") {
        "image/gif"
    } else if contains_str(&c, "webp") || ends_with_str(&l, ".webp") {
        "image/webp"
    } else {
        "image/jpeg"
    };
    string_of(&chars_of(m))
}

} // verus!
