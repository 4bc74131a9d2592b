use browser_bridge::recipes::youtubeinfo::watch_url;
use browser_bridge::recipes::youtuberinfo::videos_url;

#[test]
fn normalize_handle_url() {
    assert_eq!(
        videos_url("https://www.youtube.com/@xiaojunpodcast/videos").unwrap(),
        "https://www.youtube.com/@xiaojunpodcast/videos"
    );
    assert_eq!(
        videos_url("https://www.youtube.com/@xiaojunpodcast").unwrap(),
        "https://www.youtube.com/@xiaojunpodcast/videos"
    );
}

#[test]
fn normalize_bare_handle_and_domainless() {
    assert_eq!(
        videos_url("@xiaojunpodcast").unwrap(),
        "https://www.youtube.com/@xiaojunpodcast/videos"
    );
    assert_eq!(
        videos_url("youtube.com/@xiaojunpodcast/shorts").unwrap(),
        "https://www.youtube.com/@xiaojunpodcast/videos"
    );
}

#[test]
fn normalize_legacy_paths() {
    assert_eq!(
        videos_url("https://www.youtube.com/channel/UC123abc/videos").unwrap(),
        "https://www.youtube.com/channel/UC123abc/videos"
    );
    assert_eq!(
        videos_url("https://www.youtube.com/c/SomeName").unwrap(),
        "https://www.youtube.com/c/SomeName/videos"
    );
}

#[test]
fn reject_empty() {
    assert!(videos_url("").is_err());
    assert!(videos_url("https://www.youtube.com").is_err());
}

#[test]
fn channel_errors_name_the_input() {
    assert_eq!(videos_url("  ").unwrap_err(), "频道 URL 或 handle 不能为空");
    assert_eq!(
        videos_url(" https://www.youtube.com ").unwrap_err(),
        "无法从 'https://www.youtube.com' 识别频道 handle，请提供如 https://www.youtube.com/@handle/videos 或 @handle"
    );
    assert_eq!(
        videos_url("youtube.com/?x=1").unwrap_err(),
        "无法从 'youtube.com/?x=1' 识别频道 handle，请提供如 https://www.youtube.com/@handle/videos 或 @handle"
    );
}

#[test]
fn channel_forms_agree() {
    let page = "https://www.youtube.com/@a.b-c/videos";
    for input in [
        "@a.b-c",
        "http://m.youtube.com/@a.b-c",
        "https://www.youtube.com/@a.b-c/streams?view=0#top",
        "www.youtube.com/@a.b-c?si=1",
        "  youtube.com//@a.b-c/  ",
    ] {
        assert_eq!(videos_url(input).unwrap(), page);
    }
}

#[test]
fn channel_segments_are_encoded() {
    assert_eq!(
        videos_url("https://www.youtube.com/user/a b/videos").unwrap(),
        "https://www.youtube.com/user/a%20b/videos"
    );
    assert_eq!(videos_url("@小").unwrap(), "https://www.youtube.com/@%E5%B0%8F/videos");
    assert_eq!(videos_url("plain").unwrap(), "https://www.youtube.com/plain/videos");
    assert_eq!(videos_url("youtube.com/c").unwrap(), "https://www.youtube.com/c/videos");
    assert_eq!(
        videos_url("youtube.com/other/thing").unwrap(),
        "https://www.youtube.com/other/videos"
    );
}

#[test]
fn video_forms_agree() {
    let page = "https://www.youtube.com/watch?v=dQw4w9WgXcQ";
    for input in [
        "dQw4w9WgXcQ",
        " dQw4w9WgXcQ\n",
        "https://www.youtube.com/watch?v=dQw4w9WgXcQ",
        "https://m.youtube.com/watch?v=dQw4w9WgXcQ&t=10s",
        "https://youtu.be/dQw4w9WgXcQ",
        "https://youtu.be/dQw4w9WgXcQ?si=abc",
        "https://www.youtube.com/shorts/dQw4w9WgXcQ",
        "https://www.youtube.com/embed/dQw4w9WgXcQ#x",
        "https://www.youtube.com/live/dQw4w9WgXcQ/",
        "https://www.youtube.com/shorts/dQw4w9WgXcQ?feature=share&t=5#x",
        "https://www.youtube.com/embed/dQw4w9WgXcQ/ ",
        "\t https://www.youtube.com/live/dQw4w9WgXcQ#t \u{3000}",
        "youtu.be/dQw4w9WgXcQ/live/",
    ] {
        assert_eq!(watch_url(input).unwrap(), page);
    }
}

#[test]
fn markers_are_looked_for_in_order() {
    assert_eq!(
        watch_url("https://www.youtube.com/shorts/dQw4w9WgXcQ?u=youtu.be/abc").unwrap(),
        "https://www.youtube.com/watch?v=abc"
    );
    assert_eq!(
        watch_url("https://youtu.be/abcdefwatch?v=abc").unwrap(),
        "https://www.youtube.com/watch?v=abc"
    );
}

#[test]
fn video_errors_name_the_input() {
    assert_eq!(watch_url(" ").unwrap_err(), "视频 URL 或 ID 不能为空");
    assert_eq!(
        watch_url("abc").unwrap_err(),
        "无法从 'abc' 识别视频 ID，请提供 watch URL（https://www.youtube.com/watch?v=...）或 11 位视频 ID"
    );
    assert!(watch_url("https://www.youtube.com/watch?v=").is_err());
    assert_eq!(
        watch_url("https://x/watch?v=&u=/shorts/abc").unwrap(),
        "https://www.youtube.com/watch?v=abc"
    );
}
