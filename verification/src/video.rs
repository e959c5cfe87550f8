//! Videos: the YouTube searcher's handling of `yt-dlp` output, the choice of
//! transcriber, and the universal video extractor's titles and fallbacks.
use vstd::prelude::*;
use crate::cache::{join_path, path_join};
use crate::extractors::{handles_video, video_url, ContentType, ExtractedContent};
use crate::query_expansion::string_views;
use crate::html::utf8_longer_than;
use crate::text::{chars_of, decimal, decimal_of, extend_str, string_of, trim_whitespace, trim_ws, utf8_len};

verus! {

// ---------------------------------------------------------------------------
// Lines of program output
// ---------------------------------------------------------------------------

/// The pieces of `s` between its newlines (as `str::split('\n')` gives them;
/// never empty).
pub open spec fn newline_pieces(s: Seq<char>) -> Seq<Seq<char>>
    decreases s.len(),
{
    if s.len() == 0 {
        seq![Seq::empty()]
    } else if s.last() == '\n' {
        newline_pieces(s.drop_last()).push(Seq::empty())
    } else {
        let p = newline_pieces(s.drop_last());
        p.update(p.len() - 1, p.last().push(s.last()))
    }
}

/// A line without the carriage return that ended it, if it had one.
pub open spec fn strip_cr(l: Seq<char>) -> Seq<char> {
    if l.len() > 0 && l.last() == '\r' {
        l.drop_last()
    } else {
        l
    }
}

/// The lines of `s` (what `str::lines` gives): the pieces between newlines,
/// each line ended by a newline losing a carriage return before it, and no
/// empty line after a final newline.
pub open spec fn text_lines(s: Seq<char>) -> Seq<Seq<char>> {
    let p = newline_pieces(s);
    let ended = Seq::new((p.len() - 1) as nat, |i: int| strip_cr(p[i]));
    if p.last().len() == 0 {
        ended
    } else {
        ended.push(p.last())
    }
}

/// The lines of a program's output.
pub fn lines(s: &str) -> (ls: Vec<Vec<char>>)
    ensures
        crate::text::views(ls@) == text_lines(s@),
{
    let v = chars_of(s);
    let mut ls: Vec<Vec<char>> = Vec::new();
    let mut cur: Vec<char> = Vec::new();
    proof {
        assert(v@.take(0) =~= Seq::<char>::empty());
    }
    for i in 0..v.len()
        invariant
            v@ == s@,
            newline_pieces(v@.take(i as int)).len() >= 1,
            cur@ == newline_pieces(v@.take(i as int)).last(),
            crate::text::views(ls@) =~= Seq::new(
                (newline_pieces(v@.take(i as int)).len() - 1) as nat,
                |k: int| strip_cr(newline_pieces(v@.take(i as int))[k]),
            ),
    {
        let ghost before = newline_pieces(v@.take(i as int));
        proof {
            assert(v@.take(i + 1).drop_last() =~= v@.take(i as int));
            assert(v@.take(i + 1).last() == v@[i as int]);
        }
        let c = v[i];
        if c == '\n' {
            let line = if cur.len() > 0 && cur[cur.len() - 1] == '\r' {
                let mut t: Vec<char> = Vec::new();
                for j in 0..cur.len() - 1
                    invariant
                        j <= cur.len() - 1,
                        cur.len() > 0,
                        t@ == cur@.take(j as int),
                {
                    t.push(cur[j]);
                    assert(t@ =~= cur@.take(j + 1));
                }
                assert(t@ =~= cur@.drop_last());
                t
            } else {
                cur
            };
            assert(line@ == strip_cr(before.last()));
            let ghost old_views = crate::text::views(ls@);
            ls.push(line);
            cur = Vec::new();
            proof {
                let after = newline_pieces(v@.take(i + 1));
                assert(after == before.push(Seq::empty()));
                assert(crate::text::views(ls@) =~= old_views.push(line@));
            }
            assert(crate::text::views(ls@) =~= Seq::new(
                (newline_pieces(v@.take(i + 1)).len() - 1) as nat,
                |k: int| strip_cr(newline_pieces(v@.take(i + 1))[k]),
            ));
        } else {
            cur.push(c);
            assert(crate::text::views(ls@) =~= Seq::new(
                (newline_pieces(v@.take(i + 1)).len() - 1) as nat,
                |k: int| strip_cr(newline_pieces(v@.take(i + 1))[k]),
            ));
        }
    }
    proof {
        assert(v@.take(v.len() as int) =~= v@);
    }
    if cur.len() > 0 {
        ls.push(cur);
    }
    proof {
        let p = newline_pieces(s@);
        assert(crate::text::views(ls@) =~= text_lines(s@));
    }
    ls
}

// ---------------------------------------------------------------------------
// YouTube
// ---------------------------------------------------------------------------

/// A transcribed YouTube video.
#[derive(Debug, Clone)]
pub struct YouTubeVideo {
    pub url: String,
    pub title: String,
    pub transcript: String,
}

/// The watch page of a video id.
pub open spec fn watch_url(id: Seq<char>) -> Seq<char> {
    "https://www.youtube.com/watch?v="@ + id
}

/// The watch pages of the ids that a `yt-dlp --get-id` listing names: each
/// non-empty line of eleven bytes, trimmed, in order.
pub open spec fn listed_urls(ls: Seq<Seq<char>>) -> Seq<Seq<char>>
    decreases ls.len(),
{
    if ls.len() == 0 {
        Seq::empty()
    } else {
        let rest = listed_urls(ls.drop_last());
        let l = ls.last();
        if l.len() > 0 && utf8_len(l) == 11 {
            rest.push(watch_url(trim_ws(l)))
        } else {
            rest
        }
    }
}

/// The search term that asks `yt-dlp` for `max` results of `query`.
pub open spec fn search_term(query: Seq<char>, max: nat) -> Seq<char> {
    "ytsearch"@ + decimal(max) + ":"@ + query
}

/// The search term that asks `yt-dlp` for `max` results of `query`.
pub fn youtube_search_term(query: &str, max: u64) -> (t: String)
    ensures
        t@ == search_term(query@, max as nat),
{
    let mut v = chars_of("ytsearch");
    crate::text::extend(&mut v, &decimal_of(max));
    extend_str(&mut v, ":");
    extend_str(&mut v, query);
    string_of(&v)
}

/// The watch pages that a `yt-dlp --get-id` listing names; a listing that
/// names none is an error.
pub fn video_urls_from_listing(stdout: &str) -> (r: Result<Vec<String>, String>)
    ensures
        match r {
            Ok(urls) => string_views(urls@) == listed_urls(text_lines(stdout@)) && urls.len() > 0,
            Err(m) => listed_urls(text_lines(stdout@)).len() == 0 && m@ == "No video IDs found"@,
        },
{
    let ls = lines(stdout);
    let ghost lv = crate::text::views(ls@);
    let mut urls: Vec<String> = Vec::new();
    proof {
        assert(lv.take(0) =~= Seq::<Seq<char>>::empty());
    }
    for i in 0..ls.len()
        invariant
            lv == crate::text::views(ls@),
            lv == text_lines(stdout@),
            string_views(urls@) == listed_urls(lv.take(i as int)),
    {
        proof {
            assert(lv.take(i + 1).drop_last() =~= lv.take(i as int));
            assert(lv.take(i + 1).last() == lv[i as int]);
        }
        let l = &ls[i];
        if l.len() > 0 && utf8_longer_than(l, 10) && !utf8_longer_than(l, 11) {
            let mut u = chars_of("https://www.youtube.com/watch?v=");
            let t = trim_whitespace(l);
            crate::text::extend(&mut u, &t);
            urls.push(string_of(&u));
        }
        assert(string_views(urls@) =~= listed_urls(lv.take(i + 1)));
    }
    assert(lv.take(ls.len() as int) =~= lv);
    if urls.len() == 0 {
        Err("No video IDs found".to_owned())
    } else {
        Ok(urls)
    }
}

/// The videos to fetch of those found: at most `max`, in order.
pub fn videos_to_fetch(urls: &Vec<String>, max: usize) -> (picked: Vec<String>)
    ensures
        string_views(picked@) == string_views(urls@).take(
            if max < urls.len() {
                max as int
            } else {
                urls.len() as int
            },
        ),
{
    let n = if max < urls.len() {
        max
    } else {
        urls.len()
    };
    let mut picked: Vec<String> = Vec::new();
    for i in 0..n
        invariant
            n <= urls.len(),
            string_views(picked@) == string_views(urls@).take(i as int),
    {
        let ghost prev = picked@;
        picked.push(urls[i].clone());
        proof {
            assert(picked@ =~= prev.push(urls@[i as int]));
            assert(string_views(picked@) =~= string_views(prev).push(urls@[i as int]@));
            assert(string_views(urls@).take(i + 1) =~= string_views(urls@).take(i as int).push(
                urls@[i as int]@,
            ));
        }
    }
    picked
}

/// The largest audio file the transcription service takes, in bytes.
pub const MAX_AUDIO_BYTES: u64 = 26214400;

/// Is a downloaded audio file too large to transcribe?
pub fn audio_too_large(len: u64) -> (r: bool)
    ensures
        r == (len > 25 * 1024 * 1024),
{
    len > MAX_AUDIO_BYTES
}

/// How speech is turned into text.
#[derive(Debug, Clone)]
pub enum Transcriber {
    /// The hosted Whisper service, with this key.
    WhisperApi { api_key: String },
    /// A local `whisper` program.
    LocalWhisper,
}

/// The text of a transcription by the local program: its output, trimmed,
/// when it ran and succeeded; otherwise a note that none was possible.
pub fn local_transcript(output: Option<&str>) -> (t: String)
    ensures
        t@ == match output {
            Some(o) => trim_ws(o@),
            None => "(Transcription unavailable - no OpenAI API key or local Whisper)"@,
        },
{
    match output {
        Some(o) => string_of(&trim_whitespace(&chars_of(o))),
        None => "(Transcription unavailable - no OpenAI API key or local Whisper)".to_owned(),
    }
}

/// The title of a video from `yt-dlp --get-title` output.
pub fn title_from_output(stdout: &str) -> (t: String)
    ensures
        t@ == trim_ws(stdout@),
{
    string_of(&trim_whitespace(&chars_of(stdout)))
}

/// Searches YouTube with `yt-dlp` and transcribes what it finds.
#[derive(Debug, Clone)]
pub struct YouTubeSearcher {
    openai_api_key: Option<String>,
    download_dir: String,
}

impl YouTubeSearcher {
    /// The key of the hosted transcription service, if any.
    pub closed spec fn api_key(&self) -> Option<Seq<char>> {
        match self.openai_api_key {
            Some(k) => Some(k@),
            None => None,
        }
    }

    /// The directory audio is downloaded to.
    pub closed spec fn dir(&self) -> Seq<char> {
        self.download_dir@
    }

    /// A searcher that transcribes with the hosted service when given its
    /// key, and downloads into `download_dir` (which the caller creates).
    pub fn new(openai_api_key: Option<String>, download_dir: &str) -> (s: Self)
        ensures
            s.api_key() == match openai_api_key {
                Some(k) => Some(k@),
                None => None::<Seq<char>>,
            },
            s.dir() == download_dir@,
    {
        YouTubeSearcher { openai_api_key, download_dir: download_dir.to_owned() }
    }

    /// The transcriber: the hosted service when there is a key, else the
    /// local program.
    pub fn transcriber(&self) -> (t: Transcriber)
        ensures
            match t {
                Transcriber::WhisperApi { api_key } => self.api_key() == Some(api_key@),
                Transcriber::LocalWhisper => self.api_key() is None,
            },
    {
        match &self.openai_api_key {
            Some(k) => Transcriber::WhisperApi { api_key: k.clone() },
            None => Transcriber::LocalWhisper,
        }
    }

    /// The file a download named `file_id` goes to: `<dir>/<file_id>.mp3`.
    pub fn audio_path(&self, file_id: &str) -> (p: String)
        ensures
            p@ == path_join(self.dir(), file_id@ + ".mp3"@),
    {
        let mut f = file_id.to_owned();
        f.append(".mp3");
        join_path(self.download_dir.as_str(), f.as_str())
    }

    /// A fresh file for a download: a new random name, in the download
    /// directory.
    pub fn new_audio_path(&self) -> (p: String)
        ensures
            exists|id: Seq<char>| crate::media::uuid_text(id) && p@ == path_join(self.dir(), id + ".mp3"@),
    {
        let id = crate::media::random_id();
        self.audio_path(id.as_str())
    }
}

/// A transcribed video as extracted content.
pub open spec fn video_as_content(v: YouTubeVideo, c: ExtractedContent) -> bool {
    &&& c.url@ == v.url@
    &&& c.title@ == v.title@
    &&& c.content@ == v.transcript@
    &&& c.content_type == ContentType::Video
    &&& c.metadata is None
}

/// Transcribed videos as extracted content, in order.
pub fn videos_as_contents(videos: &Vec<YouTubeVideo>) -> (cs: Vec<ExtractedContent>)
    ensures
        cs.len() == videos.len(),
        forall|i: int| 0 <= i < cs.len() ==> video_as_content(videos@[i], #[trigger] cs@[i]),
{
    let mut cs: Vec<ExtractedContent> = Vec::new();
    for i in 0..videos.len()
        invariant
            cs.len() == i,
            forall|j: int| 0 <= j < i ==> video_as_content(videos@[j], #[trigger] cs@[j]),
    {
        let v = &videos[i];
        cs.push(
            ExtractedContent {
                url: v.url.clone(),
                title: v.title.clone(),
                content: v.transcript.clone(),
                content_type: ContentType::Video,
                metadata: None,
            },
        );
    }
    cs
}

// ---------------------------------------------------------------------------
// The universal video extractor
// ---------------------------------------------------------------------------

/// Extracts any video page that `yt-dlp` can download, by transcribing it.
#[derive(Debug, Clone)]
pub struct VideoExtractor {
    openai_api_key: Option<String>,
    temp_dir: String,
}

impl VideoExtractor {
    /// The key of the hosted transcription service, if any.
    pub closed spec fn api_key(&self) -> Option<Seq<char>> {
        match self.openai_api_key {
            Some(k) => Some(k@),
            None => None,
        }
    }

    /// The directory audio is downloaded to.
    pub closed spec fn dir(&self) -> Seq<char> {
        self.temp_dir@
    }

    /// An extractor that transcribes with the hosted service when given its
    /// key, and downloads into `temp_dir` (which the caller creates).
    pub fn new(openai_api_key: Option<String>, temp_dir: &str) -> (s: Self)
        ensures
            s.api_key() == match openai_api_key {
                Some(k) => Some(k@),
                None => None::<Seq<char>>,
            },
            s.dir() == temp_dir@,
    {
        VideoExtractor { openai_api_key, temp_dir: temp_dir.to_owned() }
    }

    /// Does this extractor take the URL? Pages of the common video sites.
    pub fn can_handle(&self, url: &str) -> (r: bool)
        ensures
            r == video_url(url@),
    {
        handles_video(url)
    }

    /// The content type this extractor produces.
    pub fn content_type(&self) -> (t: ContentType)
        ensures
            t == ContentType::Video,
    {
        ContentType::Video
    }

    /// The file a download named `file_id` goes to: `<dir>/<file_id>.mp3`.
    pub fn audio_path(&self, file_id: &str) -> (p: String)
        ensures
            p@ == path_join(self.dir(), file_id@ + ".mp3"@),
    {
        let mut f = file_id.to_owned();
        f.append(".mp3");
        join_path(self.temp_dir.as_str(), f.as_str())
    }

    /// A fresh file for a download: a new random name, in the download
    /// directory.
    pub fn new_audio_path(&self) -> (p: String)
        ensures
            exists|id: Seq<char>| crate::media::uuid_text(id) && p@ == path_join(self.dir(), id + ".mp3"@),
    {
        let id = crate::media::random_id();
        self.audio_path(id.as_str())
    }

    /// The transcript: from the hosted service when there is a key (`None`
    /// here: the caller asks it), else a note that none was possible.
    pub fn fallback_transcript(&self) -> (t: Option<String>)
        ensures
            match t {
                Some(n) => self.api_key() is None && n@
                    == "[Transcription unavailable - no API key]"@,
                None => self.api_key() is Some,
            },
    {
        match &self.openai_api_key {
            Some(_) => None,
            None => Some("[Transcription unavailable - no API key]".to_owned()),
        }
    }

    /// The key of the hosted transcription service, if any.
    pub fn whisper_key(&self) -> (k: Option<String>)
        ensures
            match k {
                Some(s) => self.api_key() == Some(s@),
                None => self.api_key() is None,
            },
    {
        self.openai_api_key.clone()
    }
}

/// The title of a video from its metadata: the `title` given, else
/// `Unknown Video`.
pub fn metadata_title(title: Option<&str>) -> (t: String)
    ensures
        t@ == match title {
            Some(s) => s@,
            None => "Unknown Video"@,
        },
{
    match title {
        Some(s) => s.to_owned(),
        None => "Unknown Video".to_owned(),
    }
}

/// The title of extracted video content: `[VIDEO] ` before the video's.
pub fn video_content_title(title: &str) -> (t: String)
    ensures
        t@ == "[VIDEO] "@ + title@,
{
    let mut t = "[VIDEO] ".to_owned();
    t.append(title);
    t
}

/// The error of a failed download, with what `yt-dlp` reported.
pub fn download_failure(stderr: &str) -> (m: String)
    ensures
        m@ == "yt-dlp failed: "@ + stderr@,
{
    let mut m = "yt-dlp failed: ".to_owned();
    m.append(stderr);
    m
}

} // verus!
