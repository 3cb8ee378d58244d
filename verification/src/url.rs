//! Classification of the input: a local file (image or video), a YouTube
//! URL, an image URL, or any other web page; and the browser arguments
//! used to screenshot a page.
use vstd::prelude::*;
use crate::text::{
    chars_of, find_char, first_index_of, has_suffix, lowercase, occurs_at, same_chars,
    skip_prefixes, string_of, strip_prefixes, sub_chars, to_lowercase,
};

verus! {

/// What `std::path::Path::extension` gives for a path (as a string): the
/// part of the file name after its last `.`, if any; a function of the path.
pub uninterp spec fn path_extension(path: Seq<char>) -> Option<Seq<char>>;

/// `Path::new(path).extension()`, converted to a `String`. The contract
/// says only that the result is the path's extension (the std path
/// grammar is left unnamed in detail).
#[verifier::external_body]
fn file_extension(path: &str) -> (r: Option<String>)
    ensures
        match r {
            Some(e) => path_extension(path@) == Some(e@),
            None => path_extension(path@) is None,
        },
{
    match std::path::Path::new(path).extension() {
        Some(e) => Some(e.to_string_lossy().into_owned()),
        None => None,
    }
}

/// The kind of input a path or URL names.
#[derive(Clone, Copy, PartialEq, Eq, Debug, Structural)]
pub enum InputKind {
    /// A local file, played as a video or shown as an image.
    LocalFile { is_video: bool },
    /// A YouTube page: its stream is played.
    YouTube,
    /// An image URL: downloaded and shown.
    ImageUrl,
    /// Any other URL: a screenshot of the page is shown.
    WebPage,
}

/// Extensions (lowercase) of files played as video.
pub open spec fn is_video_extension(ext: Seq<char>) -> bool {
    ||| ext == "mp4"@
    ||| ext == "mkv"@
    ||| ext == "avi"@
    ||| ext == "mov"@
    ||| ext == "webm"@
    ||| ext == "flv"@
    ||| ext == "wmv"@
    ||| ext == "m4v"@
    ||| ext == "ts"@
    ||| ext == "gif"@
}

/// A local path names a video: its extension, lowercased, is a video
/// extension (no extension counts as empty).
pub open spec fn is_video_path_spec(path: Seq<char>) -> bool {
    let ext = match path_extension(path) {
        Some(e) => e,
        None => Seq::<char>::empty(),
    };
    is_video_extension(lowercase(ext))
}

/// The URL with all leading `https://`, then all `http://`, then all
/// `www.` removed.
pub open spec fn url_host(url: Seq<char>) -> Seq<char> {
    strip_prefixes(strip_prefixes(strip_prefixes(url, "https://"@), "http://"@), "www."@)
}

/// A YouTube URL: its host part starts with `youtube.com/`, `youtu.be/`
/// or `m.youtube.com/`.
pub open spec fn is_youtube(url: Seq<char>) -> bool {
    let host = url_host(url);
    ||| "youtube.com/"@.is_prefix_of(host)
    ||| "youtu.be/"@.is_prefix_of(host)
    ||| "m.youtube.com/"@.is_prefix_of(host)
}

/// The URL up to its query (`?`) and then up to its fragment (`#`).
pub open spec fn url_path(url: Seq<char>) -> Seq<char> {
    let p = url.take(first_index_of(url, '?'));
    p.take(first_index_of(p, '#'))
}

/// An image URL: its path, lowercased, ends with an image extension.
pub open spec fn is_image(url: Seq<char>) -> bool {
    let lower = lowercase(url_path(url));
    ||| ".jpg"@.is_suffix_of(lower)
    ||| ".jpeg"@.is_suffix_of(lower)
    ||| ".png"@.is_suffix_of(lower)
    ||| ".webp"@.is_suffix_of(lower)
    ||| ".bmp"@.is_suffix_of(lower)
    ||| ".gif"@.is_suffix_of(lower)
}

/// The kind of `input`: anything not starting with `http://` or `https://`
/// is a local file; URLs are YouTube, image or web pages, in that order.
pub open spec fn input_kind(input: Seq<char>) -> InputKind {
    if !"http://"@.is_prefix_of(input) && !"https://"@.is_prefix_of(input) {
        InputKind::LocalFile { is_video: is_video_path_spec(input) }
    } else if is_youtube(input) {
        InputKind::YouTube
    } else if is_image(input) {
        InputKind::ImageUrl
    } else {
        InputKind::WebPage
    }
}

/// A leading `https://` does not change whether a URL is a YouTube URL.
pub proof fn lemma_https_prefix_ignored(rest: Seq<char>)
    ensures
        is_youtube("https://"@ + rest) == is_youtube(rest),
{
    reveal_strlit("https://");
    let h = "https://"@;
    let u = h + rest;
    assert(h.is_prefix_of(u)) by {
        assert(u.subrange(0, h.len() as int) =~= h);
    }
    assert(u.skip(h.len() as int) =~= rest);
    assert(strip_prefixes(u, h) == strip_prefixes(rest, h));
}

/// The extensions, lowercase, of local files played as video.
pub open spec fn video_extensions() -> Seq<Seq<char>> {
    seq!["mp4"@, "mkv"@, "avi"@, "mov"@, "webm"@, "flv"@, "wmv"@, "m4v"@, "ts"@, "gif"@]
}

/// An input that is not an `http://` or `https://` URL is a local file,
/// and it is played as a video exactly when its lowercased extension (no
/// extension counting as empty) is one of mp4, mkv, avi, mov, webm, flv,
/// wmv, m4v, ts or gif: so `movie.avi` is a local video file.
pub proof fn lemma_local_video_extensions(input: Seq<char>)
    requires
        !"http://"@.is_prefix_of(input),
        !"https://"@.is_prefix_of(input),
    ensures
        input_kind(input) == (InputKind::LocalFile {
            is_video: video_extensions().contains(
                lowercase(
                    match path_extension(input) {
                        Some(e) => e,
                        None => Seq::<char>::empty(),
                    },
                ),
            ),
        }),
{
    let e = lowercase(
        match path_extension(input) {
            Some(e) => e,
            None => Seq::<char>::empty(),
        },
    );
    let l = video_extensions();
    if is_video_extension(e) {
        if e == "mp4"@ {
            assert(l[0] == e);
        } else if e == "mkv"@ {
            assert(l[1] == e);
        } else if e == "avi"@ {
            assert(l[2] == e);
        } else if e == "mov"@ {
            assert(l[3] == e);
        } else if e == "webm"@ {
            assert(l[4] == e);
        } else if e == "flv"@ {
            assert(l[5] == e);
        } else if e == "wmv"@ {
            assert(l[6] == e);
        } else if e == "m4v"@ {
            assert(l[7] == e);
        } else if e == "ts"@ {
            assert(l[8] == e);
        } else {
            assert(l[9] == e);
        }
    } else if l.contains(e) {
        let i = choose|i: int| 0 <= i < l.len() && l[i] == e;
        assert(0 <= i < 10);
        assert(false);
    }
}

/// The suffixes, lowercase, of image URL paths.
pub open spec fn image_suffixes() -> Seq<Seq<char>> {
    seq![".jpg"@, ".jpeg"@, ".png"@, ".webp"@, ".bmp"@, ".gif"@]
}

/// An `http://` or `https://` URL that is not a YouTube URL is an image
/// URL exactly when its path (before any `?` query and `#` fragment),
/// lowercased, ends with .jpg, .jpeg, .png, .webp, .bmp or .gif; any other
/// such URL is a web page.
pub proof fn lemma_image_url_suffixes(input: Seq<char>)
    requires
        "http://"@.is_prefix_of(input) || "https://"@.is_prefix_of(input),
        !is_youtube(input),
    ensures
        input_kind(input) == if exists|i: int|
            0 <= i < 6 && (#[trigger] image_suffixes()[i]).is_suffix_of(lowercase(url_path(input))) {
            InputKind::ImageUrl
        } else {
            InputKind::WebPage
        },
{
    let l = image_suffixes();
    let p = lowercase(url_path(input));
    if is_image(input) {
        if ".jpg"@.is_suffix_of(p) {
            assert(l[0] == ".jpg"@);
        } else if ".jpeg"@.is_suffix_of(p) {
            assert(l[1] == ".jpeg"@);
        } else if ".png"@.is_suffix_of(p) {
            assert(l[2] == ".png"@);
        } else if ".webp"@.is_suffix_of(p) {
            assert(l[3] == ".webp"@);
        } else if ".bmp"@.is_suffix_of(p) {
            assert(l[4] == ".bmp"@);
        } else {
            assert(l[5] == ".gif"@);
        }
    } else if exists|i: int| 0 <= i < 6 && (#[trigger] l[i]).is_suffix_of(p) {
        let i = choose|i: int| 0 <= i < 6 && (#[trigger] l[i]).is_suffix_of(p);
        assert(false);
    }
}

fn any_equal(s: &Vec<char>, options: &Vec<Vec<char>>) -> (r: bool)
    ensures
        r == exists|i: int| 0 <= i < options.len() && options@[i]@ == s@,
{
    let mut i: usize = 0;
    while i < options.len()
        invariant
            i <= options.len(),
            forall|j: int| 0 <= j < i ==> options@[j]@ != s@,
        decreases options.len() - i,
    {
        if same_chars(&options[i], s) {
            return true;
        }
        i = i + 1;
    }
    false
}

/// Whether a local path names a video file (by its lowercased extension).
pub fn is_video_path(path: &str) -> (r: bool)
    ensures
        r == is_video_path_spec(path@),
{
    let ext = match file_extension(path) {
        Some(e) => e,
        None => String::new(),
    };
    let lower = chars_of(to_lowercase(ext.as_str()).as_str());
    let options: Vec<Vec<char>> = vec![
        chars_of("mp4"),
        chars_of("mkv"),
        chars_of("avi"),
        chars_of("mov"),
        chars_of("webm"),
        chars_of("flv"),
        chars_of("wmv"),
        chars_of("m4v"),
        chars_of("ts"),
        chars_of("gif"),
    ];
    let r = any_equal(&lower, &options);
    proof {
        if is_video_extension(lower@) {
            if lower@ == "mp4"@ {
                assert(options@[0]@ == lower@);
            } else if lower@ == "mkv"@ {
                assert(options@[1]@ == lower@);
            } else if lower@ == "avi"@ {
                assert(options@[2]@ == lower@);
            } else if lower@ == "mov"@ {
                assert(options@[3]@ == lower@);
            } else if lower@ == "webm"@ {
                assert(options@[4]@ == lower@);
            } else if lower@ == "flv"@ {
                assert(options@[5]@ == lower@);
            } else if lower@ == "wmv"@ {
                assert(options@[6]@ == lower@);
            } else if lower@ == "m4v"@ {
                assert(options@[7]@ == lower@);
            } else if lower@ == "ts"@ {
                assert(options@[8]@ == lower@);
            } else {
                assert(options@[9]@ == lower@);
            }
        }
    }
    r
}

/// Whether `url` is a YouTube URL.
pub fn is_youtube_url(url: &str) -> (r: bool)
    ensures
        r == is_youtube(url@),
{
    let s = chars_of(url);
    proof {
        reveal_strlit("https://");
        reveal_strlit("http://");
        reveal_strlit("www.");
    }
    let i = skip_prefixes(&s, 0, &chars_of("https://"));
    let i = skip_prefixes(&s, i, &chars_of("http://"));
    let i = skip_prefixes(&s, i, &chars_of("www."));
    assert(s@.skip(0) =~= s@);
    occurs_at(&s, i, &chars_of("youtube.com/")) || occurs_at(&s, i, &chars_of("youtu.be/"))
        || occurs_at(&s, i, &chars_of("m.youtube.com/"))
}

/// Whether `url` names an image by the extension of its path.
pub fn is_image_url(url: &str) -> (r: bool)
    ensures
        r == is_image(url@),
{
    let s = chars_of(url);
    let q = find_char(&s, '?');
    let p = sub_chars(&s, 0, q);
    let h = find_char(&p, '#');
    let path = sub_chars(&p, 0, h);
    assert(path@ =~= url_path(url@));
    let lower = chars_of(to_lowercase(string_of(&path).as_str()).as_str());
    has_suffix(&lower, &chars_of(".jpg")) || has_suffix(&lower, &chars_of(".jpeg")) || has_suffix(
        &lower,
        &chars_of(".png"),
    ) || has_suffix(&lower, &chars_of(".webp")) || has_suffix(&lower, &chars_of(".bmp"))
        || has_suffix(&lower, &chars_of(".gif"))
}

/// The kind of input `input` names.
pub fn classify_input(input: &str) -> (k: InputKind)
    ensures
        k == input_kind(input@),
{
    let s = chars_of(input);
    assert(s@.skip(0) =~= s@);
    if !occurs_at(&s, 0, &chars_of("http://")) && !occurs_at(&s, 0, &chars_of("https://")) {
        InputKind::LocalFile { is_video: is_video_path(input) }
    } else if is_youtube_url(input) {
        InputKind::YouTube
    } else if is_image_url(input) {
        InputKind::ImageUrl
    } else {
        InputKind::WebPage
    }
}

/// The first line of `text` (as `str::lines` yields it: up to the first
/// `\n`, without a `\r` just before it), or `None` when there is no line.
pub open spec fn first_line(text: Seq<char>) -> Option<Seq<char>> {
    if text.len() == 0 {
        None
    } else {
        let i = first_index_of(text, '\n');
        if i == text.len() {
            Some(text)
        } else {
            let line = text.take(i);
            if line.len() > 0 && line.last() == '\r' {
                Some(line.drop_last())
            } else {
                Some(line)
            }
        }
    }
}

/// The stream URL in the output of `yt-dlp --get-url`: its first line;
/// `None` when that is empty or there is none.
pub open spec fn stream_url_in(output: Seq<char>) -> Option<Seq<char>> {
    match first_line(output) {
        Some(l) => if l.len() > 0 {
            Some(l)
        } else {
            None
        },
        None => None,
    }
}

/// Reads the stream URL from the output of `yt-dlp --get-url`.
pub fn stream_url_from_output(output: &str) -> (r: Option<String>)
    ensures
        match r {
            Some(u) => stream_url_in(output@) == Some(u@),
            None => stream_url_in(output@) is None,
        },
{
    let s = chars_of(output);
    if s.len() == 0 {
        return None;
    }
    let i = find_char(&s, '\n');
    let end: usize = if i == s.len() {
        i
    } else if i > 0 && s[i - 1] == '\r' {
        i - 1
    } else {
        i
    };
    let line = sub_chars(&s, 0, end);
    proof {
        if i < s.len() {
            assert(s@.take(i as int) =~= s@.subrange(0, i as int));
            if i > 0 {
                assert(s@.take(i as int).drop_last() =~= s@.subrange(0, i - 1));
            }
        } else {
            assert(s@.subrange(0, i as int) =~= s@);
        }
    }
    if line.len() == 0 {
        None
    } else {
        Some(string_of(&line))
    }
}

/// Arguments for a headless Chromium-based browser to screenshot `url`
/// into the file `dest`.
pub fn chromium_args(url: &str, dest: &str) -> (args: Vec<String>)
    ensures
        args.len() == 8,
        args[0]@ == "--headless=new"@,
        args[1]@ == "--screenshot="@ + dest@,
        args[2]@ == "--window-size=1280,720"@,
        args[3]@ == "--disable-gpu"@,
        args[4]@ == "--no-sandbox"@,
        args[5]@ == "--hide-scrollbars"@,
        args[6]@ == "--"@,
        args[7]@ == url@,
{
    let mut args: Vec<String> = Vec::new();
    args.push(String::from_str("--headless=new"));
    args.push(String::from_str("--screenshot=").concat(dest));
    args.push(String::from_str("--window-size=1280,720"));
    args.push(String::from_str("--disable-gpu"));
    args.push(String::from_str("--no-sandbox"));
    args.push(String::from_str("--hide-scrollbars"));
    args.push(String::from_str("--"));
    args.push(String::from_str(url));
    args
}

} // verus!
