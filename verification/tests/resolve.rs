use lum_yt::listing::ChannelListing;
use lum_yt::resolve::{channel_id_from_listing, channel_id_from_output, check_link};
use lum_yt::{LinkKind, ResolveError, RssAction, RssRun};

const URL: &str = "https://www.youtube.com/watch?v=_aCA6vWGTno";

#[test]
fn check_link_refuses_before_running() {
    assert!(matches!(check_link(URL), Ok(LinkKind::Video)));
    assert!(matches!(
        check_link("https://www.youtube.com/playlist?list=PL123"),
        Err(ResolveError::Playlist)
    ));
    assert!(matches!(check_link("https://example.com/video"), Err(ResolveError::Unsupported)));
}

#[test]
fn output_with_one_id_resolves() {
    let out = br#"{"id":"_aCA6vWGTno","channel_id":"UCOC7Er4tw8VhkdB2D0wz2_A"}
"#;
    let r = channel_id_from_output(true, Some(0), b"", out);
    assert_eq!(r.unwrap(), "UCOC7Er4tw8VhkdB2D0wz2_A");
}

#[test]
fn output_with_na_and_one_id_resolves() {
    let out = br#"{"channel_id":"NA","entries":[{"channel_id":"UCOC7Er4tw8VhkdB2D0wz2_A"},{"channel_id":"NA"}]}"#;
    let r = channel_id_from_output(true, Some(0), b"", out);
    assert_eq!(r.unwrap(), "UCOC7Er4tw8VhkdB2D0wz2_A");
}

#[test]
fn output_with_two_owners_is_refused() {
    let out = br#"{"channel_id":"UCOC7Er4tw8VhkdB2D0wz2_A","entries":[{"channel_id":"UCAAAAAAAAAAAAAAAAAAAAAA"}]}"#;
    match channel_id_from_output(true, Some(0), b"", out) {
        Err(ResolveError::MultipleOwners { ids }) => assert_eq!(
            ids,
            vec!["UCOC7Er4tw8VhkdB2D0wz2_A".to_string(), "UCAAAAAAAAAAAAAAAAAAAAAA".to_string()]
        ),
        other => panic!("unexpected {other:?}"),
    }
}

#[test]
fn output_without_ids_is_refused() {
    let r = channel_id_from_output(true, Some(0), b"", br#"{"id":"PL123"}"#);
    assert!(matches!(r, Err(ResolveError::NoChannelId)));
}

#[test]
fn unparseable_output_is_refused() {
    let r = channel_id_from_output(true, Some(0), b"", b"not json\n");
    assert!(matches!(r, Err(ResolveError::UnreadableOutput)));
}

#[test]
fn failed_run_is_reported_with_code_and_stderr() {
    let r = channel_id_from_output(false, Some(1), b"  ERROR: channel_tab_unavailable\n", b"{}");
    match r {
        Err(ResolveError::ToolFailed { code, stderr }) => {
            assert_eq!(code, Some(1));
            assert_eq!(stderr, "ERROR: channel_tab_unavailable");
        }
        other => panic!("unexpected {other:?}"),
    }
}

#[test]
fn listing_resolution_is_exact() {
    let one = ChannelListing { channel_id: Some("UCOC7Er4tw8VhkdB2D0wz2_A".to_string()), entries: vec![None] };
    assert_eq!(channel_id_from_listing(&one).unwrap(), "UCOC7Er4tw8VhkdB2D0wz2_A");
    let none = ChannelListing { channel_id: None, entries: vec![Some("NA".to_string())] };
    assert!(matches!(channel_id_from_listing(&none), Err(ResolveError::NoChannelId)));
}

#[test]
fn messages_are_exact() {
    assert_eq!(
        ResolveError::Playlist.message("u"),
        "playlist links are not supported: u (give a video or channel link instead)"
    );
    assert_eq!(
        ResolveError::Unsupported.message("u"),
        "unsupported YouTube link: u (give a video or channel link instead)"
    );
    assert_eq!(ResolveError::LaunchFailed.message("u"), "failed to run yt-dlp to resolve u");
    assert_eq!(
        ResolveError::UnreadableOutput.message("u"),
        "could not read channel_id from yt-dlp output for u"
    );
    assert_eq!(
        ResolveError::NoChannelId.message("u"),
        "no channel_id found for u (unsupported, private, or deleted?)"
    );
    let multi = ResolveError::MultipleOwners {
        ids: vec!["UCA".to_string(), "UCB".to_string(), "UCC".to_string()],
    };
    assert_eq!(
        multi.message("u"),
        "video has multiple owners/creators for u (found: UCA, UCB, UCC) — give a direct channel link instead"
    );
}

#[test]
fn tool_failure_message_shows_debug_exit_code() {
    let e = ResolveError::ToolFailed { code: Some(1), stderr: "boom".to_string() };
    assert_eq!(e.message("u"), "failed to resolve channel for u: yt-dlp exited with code Some(1): boom");
    let e = ResolveError::ToolFailed { code: None, stderr: String::new() };
    assert_eq!(e.message("u"), "failed to resolve channel for u: yt-dlp exited with code None: ");
    let e = ResolveError::ToolFailed { code: Some(-2147483648), stderr: "x".to_string() };
    assert_eq!(
        e.message("u"),
        format!("failed to resolve channel for u: yt-dlp exited with code {:?}: x", Some(i32::MIN))
    );
    let e = ResolveError::ToolFailed { code: Some(250), stderr: "x".to_string() };
    assert!(e.message("u").contains("code Some(250): x"));
}


fn urls(list: &[&str]) -> Vec<String> {
    list.iter().map(|u| u.to_string()).collect()
}

#[test]
fn rss_run_prints_in_order_and_finishes() {
    let mut run = RssRun::new(
        urls(&["https://www.youtube.com/@a", "https://youtu.be/x"]),
        false,
        true,
    );
    match run.advance() {
        RssAction::Resolve { raw_url } => assert_eq!(raw_url, "https://www.youtube.com/@a"),
        other => panic!("unexpected {other:?}"),
    }
    match run.resolved(Ok("UCOC7Er4tw8VhkdB2D0wz2_A".to_string())) {
        RssAction::Print { line } => assert_eq!(line, "UCOC7Er4tw8VhkdB2D0wz2_A"),
        other => panic!("unexpected {other:?}"),
    }
    match run.advance() {
        RssAction::Resolve { raw_url } => assert_eq!(raw_url, "https://youtu.be/x"),
        other => panic!("unexpected {other:?}"),
    }
    assert!(matches!(run.resolved(Ok("UCAAAAAAAAAAAAAAAAAAAAAA".to_string())), RssAction::Print { .. }));
    assert!(matches!(run.advance(), RssAction::Done));
    assert_eq!(run.next, 2);
    assert!(!run.failed);
}

#[test]
fn rss_run_fails_fast_on_refused_link() {
    // good, playlist, good: the playlist stops the run before yt-dlp is asked
    // about it, and the third link is never handed out.
    let mut run = RssRun::new(
        urls(&[
            "https://www.youtube.com/watch?v=goodvideo00001",
            "https://www.youtube.com/playlist?list=PL123",
            "https://www.youtube.com/watch?v=goodvideo00003",
        ]),
        false,
        false,
    );
    assert!(matches!(run.advance(), RssAction::Resolve { .. }));
    match run.resolved(Ok("UCOC7Er4tw8VhkdB2D0wz2_A".to_string())) {
        RssAction::Print { line } => assert_eq!(
            line,
            "https://www.youtube.com/feeds/videos.xml?channel_id=UCOC7Er4tw8VhkdB2D0wz2_A"
        ),
        other => panic!("unexpected {other:?}"),
    }
    match run.advance() {
        RssAction::Fail { message } => assert_eq!(
            message,
            "playlist links are not supported: https://www.youtube.com/playlist?list=PL123 (give a video or channel link instead)"
        ),
        other => panic!("unexpected {other:?}"),
    }
    assert!(run.failed);
    assert!(matches!(run.advance(), RssAction::Done));
    assert!(matches!(run.resolved(Ok("UCOC7Er4tw8VhkdB2D0wz2_A".to_string())), RssAction::Done));
    assert_eq!(run.next, 1);
}

#[test]
fn rss_run_fails_on_unresolved_link() {
    let mut run = RssRun::new(urls(&["https://www.youtube.com/@a", "https://www.youtube.com/@b"]), true, false);
    assert!(matches!(run.advance(), RssAction::Resolve { .. }));
    match run.resolved(Err(ResolveError::NoChannelId)) {
        RssAction::Fail { message } => assert_eq!(
            message,
            "no channel_id found for https://www.youtube.com/@a (unsupported, private, or deleted?)"
        ),
        other => panic!("unexpected {other:?}"),
    }
    assert!(matches!(run.advance(), RssAction::Done));
}

#[test]
fn rss_run_refuses_videos_only_line_for_invalid_id() {
    let mut run = RssRun::new(urls(&["https://www.youtube.com/@a"]), true, true);
    assert!(matches!(run.advance(), RssAction::Resolve { .. }));
    match run.resolved(Ok("NA".to_string())) {
        RssAction::Fail { message } => {
            assert_eq!(message, "invalid channel_id resolved for https://www.youtube.com/@a: NA")
        }
        other => panic!("unexpected {other:?}"),
    }
}

#[test]
fn failed_run_stderr_is_decoded_lossily_and_trimmed() {
    let r = channel_id_from_output(false, None, b"\t bad \xff byte\r\n\xc2\xa0", b"");
    match r {
        Err(ResolveError::ToolFailed { code, stderr }) => {
            assert_eq!(code, None);
            assert_eq!(stderr, "bad \u{FFFD} byte");
        }
        other => panic!("unexpected {other:?}"),
    }
}
