use aa_media::url::{
    chromium_args, classify_input, is_image_url, is_video_path, is_youtube_url, stream_url_from_output,
    InputKind,
};
use std::path::Path;

fn is_video_reference(input: &str) -> bool {
    let ext = Path::new(input).extension().and_then(|e| e.to_str()).unwrap_or("").to_lowercase();
    matches!(ext.as_str(), "mp4" | "mkv" | "avi" | "mov" | "webm" | "flv" | "wmv" | "m4v" | "ts" | "gif")
}

#[test]
fn youtube_urls() {
    assert!(is_youtube_url("https://www.youtube.com/watch?v=abc"));
    assert!(is_youtube_url("http://youtu.be/abc"));
    assert!(is_youtube_url("https://m.youtube.com/watch?v=1"));
    assert!(is_youtube_url("https://https://youtube.com/x"));
    assert!(is_youtube_url("youtube.com/x"));
    assert!(!is_youtube_url("https://youtube.com"));
    assert!(!is_youtube_url("https://example.com/youtube.com/"));
    assert!(!is_youtube_url("http://https://youtube.com/x"));
}

#[test]
fn image_urls() {
    assert!(is_image_url("https://example.com/cat.jpg"));
    assert!(is_image_url("https://example.com/cat.JPEG?size=2#top"));
    assert!(is_image_url("https://example.com/a.PNG"));
    assert!(is_image_url("https://example.com/a.webp#x?y"));
    assert!(!is_image_url("https://example.com/a.png.html"));
    assert!(!is_image_url("https://example.com/page?img=a.png"));
    assert!(!is_image_url("https://example.com/gif"));
}

#[test]
fn video_paths_match_std_path_extension() {
    for p in [
        "movie.mp4", "MOVIE.MKV", "clip.Ts", "a/b/c.gif", "photo.jpg", "noext", ".mp4", "dir.mp4/", "a.tar.mov",
        "weird.m\u{212A}v", "x.", "", "..", "a/.hidden.webm",
    ] {
        assert_eq!(is_video_path(p), is_video_reference(p), "{:?}", p);
    }
}

#[test]
fn input_kinds() {
    assert_eq!(classify_input("video.MP4"), InputKind::LocalFile { is_video: true });
    assert_eq!(classify_input("image.png"), InputKind::LocalFile { is_video: false });
    assert_eq!(classify_input("https://youtu.be/xyz"), InputKind::YouTube);
    assert_eq!(classify_input("https://example.com/x.gif"), InputKind::ImageUrl);
    assert_eq!(classify_input("http://example.com/"), InputKind::WebPage);
    assert_eq!(classify_input("ftp://example.com/movie.mp4"), InputKind::LocalFile { is_video: true });
}

#[test]
fn browser_arguments() {
    let args = chromium_args("https://example.com", "/tmp/x/screenshot.png");
    assert_eq!(
        args,
        vec![
            "--headless=new",
            "--screenshot=/tmp/x/screenshot.png",
            "--window-size=1280,720",
            "--disable-gpu",
            "--no-sandbox",
            "--hide-scrollbars",
            "--",
            "https://example.com",
        ]
    );
}

#[test]
fn stream_url_first_line() {
    for out in ["https://a/b\nhttps://c/d\n", "https://a/b\r\nrest", "single", "", "\nsecond", "line\r", "\r\n"] {
        let expected = out.lines().next().unwrap_or("").to_string();
        let expected = if expected.is_empty() { None } else { Some(expected) };
        assert_eq!(stream_url_from_output(out), expected, "{:?}", out);
    }
}

#[test]
fn https_prefix_does_not_change_youtube_classification() {
    for rest in ["youtube.com/x", "www.youtu.be/a", "example.com/", "http://youtube.com/", "m.youtube.com/watch"] {
        assert_eq!(is_youtube_url(&format!("https://{}", rest)), is_youtube_url(rest));
    }
}
