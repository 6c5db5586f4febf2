use sounds_proxy::bbc::{
    container_uri, media_download_uri, media_uri, media_url_for_status, series_urn, BbcResponseError,
    Connection, ContainerListData, Download, Duration, Media, MediaList, QualityVariant,
    QualityVariants, Release, Synopses, Titles,
};
use sounds_proxy::sounds_proxy::{
    duration_text, enclosure, episode_summary, latest_release, object_key, object_url,
    pick_stream_url, relay_url, render_template, series_link, show_subtitle, template_url,
    TemplatePiece,
};

#[test]
fn template_url_fills_recipe() {
    assert_eq!(
        template_url("https://ichef.bbci.co.uk/images/ic/{recipe}/p0.jpg".to_string()),
        Some("https://ichef.bbci.co.uk/images/ic/400x400/p0.jpg".to_string())
    );
    assert_eq!(template_url("https://x/{recipe}/{recipe}".to_string()), Some("https://x/400x400/400x400".to_string()));
    assert_eq!(template_url("https://x/plain.jpg".to_string()), Some("https://x/plain.jpg".to_string()));
}

#[test]
fn template_url_with_unknown_variable() {
    assert_eq!(template_url("https://x/{recipe}/{width}.jpg".to_string()), None);
    // braces with nothing inside are no variable
    assert_eq!(template_url("https://x/{}".to_string()), Some("https://x/{}".to_string()));
}

#[test]
fn render_template_pieces() {
    let pieces = vec![
        TemplatePiece::Text("a/".to_string()),
        TemplatePiece::Var("recipe".to_string()),
        TemplatePiece::Text("/b".to_string()),
    ];
    assert_eq!(render_template(&pieces), Some("a/400x400/b".to_string()));
    assert_eq!(render_template(&vec![TemplatePiece::Var("size".to_string())]), None);
    assert_eq!(render_template(&Vec::new()), Some(String::new()));
}

fn connection(protocol: &str, href: &str) -> Connection {
    Connection { protocol: protocol.to_string(), href: href.to_string(), transfer_format: "hls".to_string() }
}

fn media(kind: &str, bitrate: &str, connection: Vec<Connection>) -> Media {
    Media {
        kind: kind.to_string(),
        media_type: "audio/mp4".to_string(),
        bitrate: bitrate.to_string(),
        encoding: "aac".to_string(),
        connection,
    }
}

#[test]
fn picks_highest_bitrate_and_secure_connection() {
    let list = MediaList {
        media: vec![
            media("video", "1000", vec![connection("https", "https://v/v.m3u8")]),
            media("audio", "128", vec![connection("https", "https://a/128.m3u8")]),
            media(
                "audio",
                "320",
                vec![
                    connection("https", "https://a/320s.m3u8"),
                    connection("http", "http://a/320.m3u8"),
                ],
            ),
            media("audio", "96", vec![connection("https", "https://a/96.m3u8")]),
        ],
    };
    assert_eq!(pick_stream_url("p0", &list).unwrap(), "https://a/320s.m3u8");
}

#[test]
fn equal_bitrates_take_the_last() {
    let list = MediaList {
        media: vec![
            media("audio", "128", vec![connection("https", "https://a/first.m3u8")]),
            media("audio", "128", vec![connection("https", "https://a/second.m3u8")]),
            media("audio", "x", vec![connection("https", "https://a/unparsed.m3u8")]),
        ],
    };
    assert_eq!(pick_stream_url("p0", &list).unwrap(), "https://a/second.m3u8");
}

#[test]
fn only_http_connections() {
    let list = MediaList {
        media: vec![media(
            "audio",
            "128",
            vec![connection("http", "http://a/one.m3u8"), connection("http", "http://a/two.m3u8")],
        )],
    };
    assert_eq!(pick_stream_url("p0", &list).unwrap(), "http://a/two.m3u8");
}

#[test]
fn no_audio_is_not_found() {
    let list = MediaList { media: vec![media("video", "128", vec![connection("https", "https://v.m3u8")])] };
    assert!(matches!(pick_stream_url("p0", &list), Err(BbcResponseError::NotFound)));
    assert!(matches!(pick_stream_url("p0", &MediaList { media: Vec::new() }), Err(BbcResponseError::NotFound)));
}

#[test]
fn no_connection_is_format_error() {
    let list = MediaList { media: vec![media("audio", "128", Vec::new())] };
    assert!(matches!(pick_stream_url("p0", &list), Err(BbcResponseError::FormatError)));
}

#[test]
fn non_hls_stream_is_unsupported() {
    let list = MediaList { media: vec![media("audio", "128", vec![connection("https", "https://a/file.mp3")])] };
    match pick_stream_url("p0btf00q", &list) {
        Err(BbcResponseError::UnsupportedMedia(pid, url)) => {
            assert_eq!(pid, "p0btf00q");
            assert_eq!(url, "https://a/file.mp3");
        }
        other => panic!("unexpected {:?}", other),
    }
}

fn episode(variants: QualityVariants, seconds: u64) -> ContainerListData {
    ContainerListData {
        id: "m0001".to_string(),
        titles: Titles { primary: "Show".to_string(), secondary: Some("Episode".to_string()) },
        synopses: Synopses { medium: None, long: None, short: None },
        duration: Duration { value: seconds },
        release: Release { date: "2024-01-01T00:00:00Z".to_string() },
        download: Download { download_type: "audio".to_string(), quality_variants: variants },
        image_url: None,
    }
}

fn variant(url: Option<&str>, size: Option<u64>) -> Option<QualityVariant> {
    Some(QualityVariant { file_url: url.map(|u| u.to_string()), file_size: size })
}

#[test]
fn enclosure_of_public_file() {
    let v = QualityVariants { low: variant(Some("https://f/low.mp3"), Some(1)), medium: None, high: variant(Some("https://f/high.m4a"), Some(1234)) };
    let e = enclosure("https://relay", &episode(v, 60));
    assert_eq!(e.url, "https://f/high.m4a");
    assert_eq!(e.length, 1234);
    assert_eq!(e.mime_type, "audio/mp4");
}

#[test]
fn enclosure_estimates_missing_size() {
    let v = QualityVariants { low: None, medium: variant(Some("https://f/a.b/medium.mp3"), None), high: None };
    let e = enclosure("https://relay", &episode(v, 60));
    assert_eq!(e.url, "https://f/a.b/medium.mp3");
    assert_eq!(e.length, 3_000_000);
    assert_eq!(e.mime_type, "audio/mpeg");
    let other = QualityVariants { low: variant(Some("https://f/noext"), Some(5)), medium: None, high: None };
    assert_eq!(enclosure("https://relay", &episode(other, 60)).mime_type, "audio/mpeg");
}

#[test]
fn enclosure_of_relayed_episode() {
    let v = QualityVariants { low: None, medium: None, high: variant(None, Some(99)) };
    let e = enclosure("https://relay", &episode(v, 100));
    assert_eq!(e.url, "https://relay/episode/m0001");
    assert_eq!(e.length, 5_000_000);
    assert_eq!(e.mime_type, "audio/aac");
    let none = QualityVariants { low: None, medium: None, high: None };
    assert_eq!(enclosure("https://relay", &episode(none, u64::MAX)).length, u64::MAX);
}

#[test]
fn durations_as_text() {
    assert_eq!(duration_text(3725), "1:02:05");
    assert_eq!(duration_text(59), "0:00:59");
    assert_eq!(duration_text(36000), "10:00:00");
    assert_eq!(duration_text(0), "0:00:00");
}

#[test]
fn synopsis_fallbacks() {
    let s = Synopses { medium: Some("medium".to_string()), long: Some("long".to_string()), short: None };
    assert_eq!(show_subtitle(&s), Some("medium".to_string()));
    assert_eq!(episode_summary(&s), Some("long".to_string()));
    let only_short = Synopses { medium: None, long: None, short: Some("short".to_string()) };
    assert_eq!(episode_summary(&only_short), Some("short".to_string()));
    let empty = Synopses { medium: None, long: None, short: None };
    assert_eq!(show_subtitle(&empty), None);
}

#[test]
fn latest_release_walk() {
    assert_eq!(latest_release(&vec![None, Some(5), Some(3), Some(9)]), Some(3));
    assert_eq!(latest_release(&vec![Some(5), None, Some(4)]), Some(0));
    assert_eq!(latest_release(&vec![None, None]), Some(1));
    assert_eq!(latest_release(&Vec::new()), None);
}

#[test]
fn upstream_uris() {
    assert_eq!(series_urn("p02pc9pj"), "urn:bbc:radio:series:p02pc9pj");
    assert_eq!(
        container_uri("urn:bbc:radio:series:p02pc9pj"),
        "https://rms.api.bbc.co.uk/v2/experience/inline/container/urn%3Abbc%3Aradio%3Aseries%3Ap02pc9pj"
    );
    assert_eq!(
        media_uri("p0btf00q"),
        "https://open.live.bbc.co.uk/mediaselector/6/select/version/2.0/format/json/mediaset/mobile-phone-main/vpid/p0btf00q/transferformat/hls/"
    );
    assert_eq!(
        media_download_uri("p0btf00q"),
        "https://open.live.bbc.co.uk/mediaselector/6/redir/version/2.0/mediaset/audio-nondrm-download/proto/https/vpid/p0btf00q.mp3"
    );
    assert_eq!(media_url_for_status("u".to_string(), 200), Some("u".to_string()));
    assert_eq!(media_url_for_status("u".to_string(), 404), None);
}

#[test]
fn relay_and_store_addresses() {
    assert_eq!(series_link("p02pc9pj"), "https://www.bbc.co.uk/sounds/series/p02pc9pj");
    assert_eq!(relay_url("https://relay", "m0001"), "https://relay/episode/m0001.aac");
    assert_eq!(object_key("m0001"), "m0001.aac");
    assert_eq!(object_url(Some("https://cdn"), "b", "eu-west-2", "m0001"), "https://cdn/m0001.aac");
    assert_eq!(
        object_url(None, "bucket", "eu-west-2", "m0001"),
        "https://bucket.s3.eu-west-2.amazonaws.com/m0001.aac"
    );
}

#[test]
fn bitrates_with_plus_sign_and_overflow() {
    let list = MediaList {
        media: vec![
            media("audio", "+320", vec![connection("https", "https://a/plus.m3u8")]),
            media("audio", "99999999999", vec![connection("https", "https://a/overflow.m3u8")]),
            media("audio", "-5", vec![connection("https", "https://a/minus.m3u8")]),
        ],
    };
    assert_eq!(pick_stream_url("p0", &list).unwrap(), "https://a/plus.m3u8");
}
