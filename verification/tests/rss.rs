use lum_yt::{
    channel_feed_url, channel_ids_from_json, classify, is_channel_id, rss_output_line,
    videos_only_feed_url, videos_only_playlist_id, ChannelListing, LinkKind, Rejected,
};

const CH: &str = "UCOC7Er4tw8VhkdB2D0wz2_A";
const CH_FEED: &str =
    "https://www.youtube.com/feeds/videos.xml?channel_id=UCOC7Er4tw8VhkdB2D0wz2_A";
const VF_PL: &str = "UULFOC7Er4tw8VhkdB2D0wz2_A";
const VF_FEED: &str =
    "https://www.youtube.com/feeds/videos.xml?playlist_id=UULFOC7Er4tw8VhkdB2D0wz2_A";

fn listing(json: &str) -> ChannelListing {
    ChannelListing::from_json(json.as_bytes()).unwrap()
}

#[test]
fn channel_id_validation_accepts_real_id() {
    assert!(is_channel_id(CH));
}

#[test]
fn channel_id_validation_rejects_junk() {
    for junk in [
        "",
        "NA",
        "UCshort",
        "UCOC7Er4tw8VhkdB2D0wz2_",   // 23 chars
        "UCOC7Er4tw8VhkdB2D0wz2_AB", // 25 chars
        "XCOC7Er4tw8VhkdB2D0wz2_A",  // wrong prefix
        "UC OC7Er4tw8VhkdB2D0wz2_A", // space
    ] {
        assert!(!is_channel_id(junk), "should reject {junk:?}");
    }
}

#[test]
fn channel_feed_url_is_exact() {
    assert_eq!(channel_feed_url(CH), CH_FEED);
}

#[test]
fn videos_only_playlist_id_replaces_uc_with_uulf() {
    assert_eq!(videos_only_playlist_id(CH).as_deref(), Some(VF_PL));
}

#[test]
fn videos_only_playlist_id_rejects_invalid() {
    assert_eq!(videos_only_playlist_id("NA"), None);
    assert_eq!(videos_only_playlist_id(""), None);
}

#[test]
fn videos_only_feed_url_is_exact() {
    assert_eq!(videos_only_feed_url(CH).as_deref(), Some(VF_FEED));
    assert_eq!(videos_only_feed_url("NA"), None);
}

#[test]
fn classify_accepts_video_links() {
    for url in [
        "https://www.youtube.com/watch?v=_aCA6vWGTno",
        "https://youtu.be/_aCA6vWGTno",
        "https://www.youtube.com/shorts/6ssqb1nkSJI",
        "https://www.youtube.com/live/abc123XYZ_-",
        "https://www.youtube.com/embed/_aCA6vWGTno",
        "https://m.youtube.com/watch?v=_aCA6vWGTno",
    ] {
        assert_eq!(classify(url), Ok(LinkKind::Video), "should accept {url}");
    }
}

#[test]
fn classify_accepts_channel_links() {
    for url in [
        "https://www.youtube.com/@phoboukaideimou/videos",
        "https://www.youtube.com/@phoboukaideimou",
        "https://www.youtube.com/channel/UCOC7Er4tw8VhkdB2D0wz2_A",
        "https://www.youtube.com/c/SomeName",
        "https://www.youtube.com/user/SomeName",
    ] {
        assert_eq!(classify(url), Ok(LinkKind::Channel), "should accept {url}");
    }
}

#[test]
fn classify_rejects_playlists_even_with_video_id() {
    for url in [
        "https://www.youtube.com/playlist?list=PL123",
        "https://www.youtube.com/watch?v=_aCA6vWGTno&list=PL123",
        "https://youtu.be/_aCA6vWGTno?list=PL123",
    ] {
        assert_eq!(classify(url), Err(Rejected::Playlist), "should reject {url}");
    }
}

#[test]
fn classify_rejects_non_video_channel_input() {
    for url in [
        "https://example.com/video",
        "UCOC7Er4tw8VhkdB2D0wz2_A",
        "@phoboukaideimou",
        "_aCA6vWGTno",
        "not a url",
        "https://www.youtube.com/",
        "https://www.youtube.com/watch",
        "https://vimeo.com/123",
    ] {
        assert_eq!(classify(url), Err(Rejected::Unsupported), "should reject {url}");
    }
}

#[test]
fn extractor_reads_video_json() {
    let v = listing(
        r#"{"id":"_aCA6vWGTno","title":"Anatomy Of A Fall","channel_id":"UCOC7Er4tw8VhkdB2D0wz2_A"}"#,
    );
    assert_eq!(channel_ids_from_json(&v), vec![CH.to_string()]);
}

#[test]
fn extractor_ignores_na_entries_in_channel_json() {
    let v = listing(
        r#"{"id":"UCOC7Er4tw8VhkdB2D0wz2_A","channel_id":"UCOC7Er4tw8VhkdB2D0wz2_A","entries":[{"id":"_aCA6vWGTno","channel_id":null},{"id":"IKU-3IdrWAQ","channel_id":"NA"}]}"#,
    );
    assert_eq!(channel_ids_from_json(&v), vec![CH.to_string()]);
}

#[test]
fn extractor_collects_distinct_ids_in_order() {
    let v = listing(
        r#"{"channel_id":"UCOC7Er4tw8VhkdB2D0wz2_A","entries":[{"channel_id":"UCOC7Er4tw8VhkdB2D0wz2_A"},{"channel_id":"UCAAAAAAAAAAAAAAAAAAAAAA"}]}"#,
    );
    assert_eq!(
        channel_ids_from_json(&v),
        vec![CH.to_string(), "UCAAAAAAAAAAAAAAAAAAAAAA".to_string()]
    );
}

#[test]
fn extractor_returns_empty_without_ids() {
    let v = listing(r#"{"id":"PL123"}"#);
    assert!(channel_ids_from_json(&v).is_empty());
}

#[test]
fn classify_accepts_trailing_slash_variants() {
    for url in [
        "https://www.youtube.com/watch/?v=_aCA6vWGTno",
        "https://www.youtube.com/shorts/6ssqb1nkSJI/",
        "https://www.youtube.com/@phoboukaideimou/",
    ] {
        assert!(classify(url).is_ok(), "should accept {url}");
    }
}

#[test]
fn classify_accepts_nocookie_embeds() {
    assert_eq!(
        classify("https://www.youtube-nocookie.com/embed/_aCA6vWGTno"),
        Ok(LinkKind::Video)
    );
}

// Further cases.

#[test]
fn classify_host_is_case_insensitive() {
    assert_eq!(classify("https://WWW.YouTube.COM/watch?v=abc"), Ok(LinkKind::Video));
    assert_eq!(classify("foo://WWW.YOUTUBE.COM/@handle"), Ok(LinkKind::Channel));
}

#[test]
fn classify_short_links_need_exactly_one_segment() {
    assert_eq!(classify("https://youtu.be/"), Err(Rejected::Unsupported));
    assert_eq!(classify("https://youtu.be/abc/def"), Err(Rejected::Unsupported));
    assert_eq!(classify("https://youtu.be//"), Err(Rejected::Unsupported));
}

#[test]
fn classify_short_link_ignores_trailing_slash() {
    assert_eq!(classify("https://youtu.be/abc/"), Ok(LinkKind::Video));
    assert_eq!(classify("https://youtu.be/abc/?t=5"), Ok(LinkKind::Video));
}

#[test]
fn classify_watch_needs_nonempty_video_id() {
    assert_eq!(classify("https://www.youtube.com/watch?v="), Err(Rejected::Unsupported));
    assert_eq!(classify("https://www.youtube.com/watch?x=1&v=id"), Ok(LinkKind::Video));
}

#[test]
fn classify_bare_list_query_is_playlist() {
    assert_eq!(classify("https://www.youtube.com/?list=PL1"), Err(Rejected::Playlist));
    // The query key is decoded before it is compared.
    assert_eq!(classify("https://www.youtube.com/watch?v=a&%6Cist=PL1"), Err(Rejected::Playlist));
}

#[test]
fn classify_playlist_path_with_slash_is_playlist() {
    assert_eq!(classify("https://www.youtube.com/playlist/"), Err(Rejected::Playlist));
}

#[test]
fn classify_rejects_lookalike_hosts() {
    assert_eq!(classify("https://notyoutube.com/watch?v=a"), Err(Rejected::Unsupported));
    assert_eq!(classify("https://youtube.com.evil.example/watch?v=a"), Err(Rejected::Unsupported));
}

#[test]
fn classify_video_prefix_needs_one_segment() {
    assert_eq!(classify("https://www.youtube.com/shorts/"), Err(Rejected::Unsupported));
    assert_eq!(classify("https://www.youtube.com/embed/a/b"), Err(Rejected::Unsupported));
    assert_eq!(classify("https://www.youtube.com/v/abc"), Ok(LinkKind::Video));
}

#[test]
fn extractor_ignores_non_string_and_missing_values() {
    let v = listing(r#"{"channel_id":12,"entries":[3,{"x":1},{"channel_id":"UCAAAAAAAAAAAAAAAAAAAAAA"}]}"#);
    assert_eq!(channel_ids_from_json(&v), vec!["UCAAAAAAAAAAAAAAAAAAAAAA".to_string()]);
    let v = listing(r#"{"channel_id":"UCAAAAAAAAAAAAAAAAAAAAAA","entries":{"channel_id":"UCBBBBBBBBBBBBBBBBBBBBBB"}}"#);
    assert_eq!(channel_ids_from_json(&v), vec!["UCAAAAAAAAAAAAAAAAAAAAAA".to_string()]);
}

#[test]
fn listing_from_json_rejects_non_json() {
    assert!(ChannelListing::from_json(b"not json\n").is_none());
    assert!(ChannelListing::from_json(b"").is_none());
}

#[test]
fn listing_from_json_reads_fields() {
    let v = listing(r#"{"channel_id":"abc","entries":[{"channel_id":null},{"channel_id":"x"}]}"#);
    assert_eq!(v.channel_id.as_deref(), Some("abc"));
    assert_eq!(v.entries, vec![None, Some("x".to_string())]);
}

#[test]
fn extractor_top_level_comes_first() {
    let v = listing(
        r#"{"channel_id":"UCBBBBBBBBBBBBBBBBBBBBBB","entries":[{"channel_id":"UCAAAAAAAAAAAAAAAAAAAAAA"},{"channel_id":"UCBBBBBBBBBBBBBBBBBBBBBB"}]}"#,
    );
    assert_eq!(
        channel_ids_from_json(&v),
        vec!["UCBBBBBBBBBBBBBBBBBBBBBB".to_string(), "UCAAAAAAAAAAAAAAAAAAAAAA".to_string()]
    );
}

#[test]
fn channel_id_accepts_all_allowed_characters() {
    assert!(is_channel_id("UCaz09AZ_-aaaaaaaaaaaaaa"));
    assert!(!is_channel_id("UCaz09AZ_-aaaaaaaaaaaaa."));
    assert!(!is_channel_id("UCaz09AZ_-aaaaaaaaaaaaaé"));
}

#[test]
fn playlist_id_keeps_channel_suffix() {
    let pl = videos_only_playlist_id(CH).unwrap();
    assert_eq!(pl.len(), 26);
    assert_eq!(format!("UC{}", &pl[4..]), CH);
}

#[test]
fn rss_output_line_covers_all_choices() {
    assert_eq!(rss_output_line(CH, false, false).as_deref(), Some(CH_FEED));
    assert_eq!(rss_output_line(CH, false, true).as_deref(), Some(CH));
    assert_eq!(rss_output_line(CH, true, false).as_deref(), Some(VF_FEED));
    assert_eq!(rss_output_line(CH, true, true).as_deref(), Some(VF_PL));
    assert_eq!(rss_output_line("NA", true, true), None);
    assert_eq!(rss_output_line("NA", true, false), None);
    assert_eq!(rss_output_line("NA", false, true).as_deref(), Some("NA"));
}
