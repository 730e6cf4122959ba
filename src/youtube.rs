use vstd::prelude::*;

verus! {

/// A resolved video reference: a stable identifier, an optional display
/// title and the link it was submitted as.
#[derive(Clone, Debug)]
pub struct VideoInfo {
    pub id: String,
    pub title: Option<String>,
    pub url: String,
}

const YOUTUBE_URL_PATTERN: &'static str = r"^((?:https?:)?//)?((?:www|m)\.)?((?:youtube(-nocookie)?\.com|youtu.be))(/(?:[\w\-]+\?v=|embed/|v/)?)([\w\-]+)(\S+)?$";

/// Whether a link matches the supported video-link pattern.
pub uninterp spec fn youtube_url_match(url: Seq<char>) -> bool;

/// The video identifier that the link pattern captures from a link, if it matches.
pub uninterp spec fn youtube_video_id(url: Seq<char>) -> Option<Seq<char>>;

/// Relies on regex::Regex::new (the link pattern compiles) and Regex::is_match.
#[verifier::external_body]
fn regex_is_match(url: &str) -> (r: bool)
    ensures
        r == youtube_url_match(url@),
{
    match regex::Regex::new(YOUTUBE_URL_PATTERN) {
        Ok(re) => re.is_match(url),
        Err(_) => false,
    }
}

/// Relies on regex::Regex::captures and Captures::get: the identifier group
/// is a mandatory, non-empty group of the link pattern, so it is present
/// exactly when the link matches.
#[verifier::external_body]
fn regex_capture_id(url: &str) -> (r: Option<String>)
    ensures
        r is Some <==> youtube_url_match(url@),
        r is Some ==> youtube_video_id(url@) == Some(r->0@) && r->0@.len() > 0,
        r is None ==> youtube_video_id(url@) is None,
{
    match regex::Regex::new(YOUTUBE_URL_PATTERN) {
        Ok(re) => re.captures(url).and_then(|cap| cap.get(6)).map(|m| m.as_str().to_string()),
        Err(_) => None,
    }
}

/// Whether `url` is a supported video link.
pub fn validate_youtube_url(url: &str) -> (r: bool)
    ensures
        r == youtube_url_match(url@),
{
    regex_is_match(url)
}

/// The video identifier of a supported link; `None` for any other text.
pub fn extract_video_id(url: &str) -> (r: Option<String>)
    ensures
        r is Some <==> youtube_url_match(url@),
        match r {
            Some(id) => youtube_video_id(url@) == Some(id@) && id@.len() > 0,
            None => youtube_video_id(url@) is None,
        },
{
    regex_capture_id(url)
}

/// The title shown for a video whose title could not be looked up.
pub open spec fn placeholder_title(id: Seq<char>) -> Seq<char> {
    "YouTube Video: "@ + id
}

/// The video reference for `url` with identifier `id`: the looked-up title
/// when there is one, else the placeholder title.
pub fn video_info_from_id(url: &str, id: String, fetched_title: Option<String>) -> (r: VideoInfo)
    ensures
        r.id@ == id@,
        r.url@ == url@,
        r.title is Some,
        r.title->0@ == match fetched_title {
            Some(t) => t@,
            None => placeholder_title(id@),
        },
{
    let title = match fetched_title {
        Some(t) => t,
        None => {
            let mut t = "YouTube Video: ".to_owned();
            t.append(id.as_str());
            t
        },
    };
    VideoInfo { id, title: Some(title), url: url.to_owned() }
}

/// Resolves a link into a video reference. Fails (`None`) exactly when the
/// link is not a supported video link; a missing title degrades to the
/// placeholder title.
pub fn create_video_info(url: &str, fetched_title: Option<String>) -> (r: Option<VideoInfo>)
    ensures
        r is Some <==> youtube_url_match(url@),
        match r {
            Some(info) => youtube_video_id(url@) == Some(info.id@) && info.url@ == url@
                && info.title is Some && info.title->0@ == match fetched_title {
                    Some(t) => t@,
                    None => placeholder_title(info.id@),
                },
            None => youtube_video_id(url@) is None,
        },
{
    match extract_video_id(url) {
        Some(id) => Some(video_info_from_id(url, id, fetched_title)),
        None => None,
    }
}

/// The embeddable player address of a video.
pub fn get_embed_url(video_id: &str) -> (r: String)
    ensures
        r@ == "https://www.youtube.com/embed/"@ + video_id@,
{
    let mut s = "https://www.youtube.com/embed/".to_owned();
    s.append(video_id);
    s
}

} // verus!
