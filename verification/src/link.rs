//! Classifying a raw input string as a YouTube video or channel link, without
//! any network access.
use vstd::prelude::*;
use vstd::string::*;

use crate::text::{
    ascii_lower, contains_char, lower_ends_with, lower_eq, starts_with, str_eq,
};

verus! {

/// Accepted link kinds. Anything else is rejected before yt-dlp is invoked.
#[derive(Debug, Clone, Copy, PartialEq, Eq, Structural)]
pub enum LinkKind {
    Video,
    Channel,
}

/// Why a link was rejected without invoking yt-dlp.
#[derive(Debug, Clone, Copy, PartialEq, Eq, Structural)]
pub enum Rejected {
    Playlist,
    Unsupported,
}

/// The components of a parsed absolute URL that classification reads: the
/// host (if any), the percent-encoded path, and the decoded
/// `application/x-www-form-urlencoded` query pairs in order.
pub struct UrlParts {
    pub host: Option<String>,
    pub path: String,
    pub query: Vec<(String, String)>,
}

impl View for UrlParts {
    type V = (Option<Seq<char>>, Seq<char>, Seq<(Seq<char>, Seq<char>)>);

    open spec fn view(&self) -> Self::V {
        (self.host.deep_view(), self.path@, self.query.deep_view())
    }
}

/// What `url::Url::parse` makes of `raw`: `None` when it is no absolute URL,
/// else the host, the path and the query pairs of the parsed URL.
pub uninterp spec fn parsed_url(raw: Seq<char>) -> Option<
    (Option<Seq<char>>, Seq<char>, Seq<(Seq<char>, Seq<char>)>),
>;

/// Calls `url::Url::parse` and reads `host_str`, `path` and `query_pairs` of
/// the result. The contract claims only that the result is a function of `raw`
/// (named `parsed_url`); what the WHATWG parser makes of a string is left
/// to the `url` crate.
#[verifier::external_body]
fn parse_url(raw: &str) -> (r: Option<UrlParts>)
    ensures
        match r {
            Some(parts) => parsed_url(raw@) == Some(parts@),
            None => parsed_url(raw@) is None,
        },
{
    match url::Url::parse(raw) {
        Ok(url) => Some(UrlParts {
            host: url.host_str().map(String::from),
            path: url.path().to_string(),
            query: url.query_pairs().map(|(k, v)| (k.into_owned(), v.into_owned())).collect(),
        }),
        Err(_) => None,
    }
}

/// The host in ASCII lowercase, the empty string when there is none.
pub open spec fn lower_host(host: Option<Seq<char>>) -> Seq<char> {
    match host {
        Some(h) => ascii_lower(h),
        None => Seq::empty(),
    }
}

pub open spec fn youtube_host(h: Seq<char>) -> bool {
    h == "youtube.com"@ || ".youtube.com"@.is_suffix_of(h)
}

pub open spec fn short_host(h: Seq<char>) -> bool {
    h == "youtu.be"@
}

pub open spec fn nocookie_host(h: Seq<char>) -> bool {
    h == "youtube-nocookie.com"@ || ".youtube-nocookie.com"@.is_suffix_of(h)
}

/// Some query pair has key `key`.
pub open spec fn has_query_key(query: Seq<(Seq<char>, Seq<char>)>, key: Seq<char>) -> bool {
    exists|i: int| 0 <= i < query.len() && #[trigger] query[i].0 == key
}

/// Some query pair has key `key` and a non-empty value.
pub open spec fn has_query_value(query: Seq<(Seq<char>, Seq<char>)>, key: Seq<char>) -> bool {
    exists|i: int| 0 <= i < query.len() && #[trigger] query[i].0 == key && query[i].1.len() > 0
}

/// The path's `/`-separated segments (after its leading `/`) are exactly one
/// non-empty segment.
pub open spec fn single_segment(path: Seq<char>) -> bool {
    &&& path.len() >= 2
    &&& path[0] == '/'
    &&& !path.drop_first().contains('/')
}

/// The path with one trailing `/` removed, if it has one.
pub open spec fn strip_trailing_slash(path: Seq<char>) -> Seq<char> {
    if path.len() > 0 && path.last() == '/' {
        path.drop_last()
    } else {
        path
    }
}

/// `path` is `prefix` followed by one non-empty segment without `/`.
pub open spec fn prefixed_segment(path: Seq<char>, prefix: Seq<char>) -> bool {
    &&& prefix.is_prefix_of(path)
    &&& path.len() > prefix.len()
    &&& !path.subrange(prefix.len() as int, path.len() as int).contains('/')
}

pub open spec fn video_path(path: Seq<char>) -> bool {
    ||| prefixed_segment(path, "/shorts/"@)
    ||| prefixed_segment(path, "/live/"@)
    ||| prefixed_segment(path, "/embed/"@)
    ||| prefixed_segment(path, "/v/"@)
}

pub open spec fn channel_path(path: Seq<char>) -> bool {
    ||| "/channel/"@.is_prefix_of(path)
    ||| "/@"@.is_prefix_of(path)
    ||| "/c/"@.is_prefix_of(path)
    ||| "/user/"@.is_prefix_of(path)
}

/// Classification of a parsed URL given by its host, path and query pairs.
pub open spec fn classify_url(
    parts: (Option<Seq<char>>, Seq<char>, Seq<(Seq<char>, Seq<char>)>),
) -> Result<LinkKind, Rejected> {
    let host = lower_host(parts.0);
    // Trailing slashes do not change the resource, so one is ignored.
    let p = strip_trailing_slash(parts.1);
    let query = parts.2;
    if !youtube_host(host) && !short_host(host) && !nocookie_host(host) {
        Err(Rejected::Unsupported)
    } else if p == "/playlist"@ || has_query_key(query, "list"@) {
        Err(Rejected::Playlist)
    } else {
        if short_host(host) {
            if single_segment(p) {
                Ok(LinkKind::Video)
            } else {
                Err(Rejected::Unsupported)
            }
        } else if p == "/watch"@ {
            if has_query_value(query, "v"@) {
                Ok(LinkKind::Video)
            } else {
                Err(Rejected::Unsupported)
            }
        } else if video_path(p) {
            Ok(LinkKind::Video)
        } else if channel_path(p) {
            Ok(LinkKind::Channel)
        } else {
            Err(Rejected::Unsupported)
        }
    }
}

/// Classification of a raw input string: a string that is no absolute URL is
/// unsupported.
pub open spec fn classify_raw(raw: Seq<char>) -> Result<LinkKind, Rejected> {
    match parsed_url(raw) {
        Some(parts) => classify_url(parts),
        None => Err(Rejected::Unsupported),
    }
}

fn query_has_key(query: &Vec<(String, String)>, key: &str) -> (r: bool)
    ensures
        r == has_query_key(query.deep_view(), key@),
{
    let ghost q = query.deep_view();
    let mut i: usize = 0;
    while i < query.len()
        invariant
            q == query.deep_view(),
            i <= query.len(),
            forall|j: int| 0 <= j < i ==> q[j].0 != key@,
        decreases query.len() - i,
    {
        assert(q[i as int].0 == query[i as int].0@);
        if str_eq(query[i].0.as_str(), key) {
            return true;
        }
        i = i + 1;
    }
    false
}

fn query_has_value(query: &Vec<(String, String)>, key: &str) -> (r: bool)
    ensures
        r == has_query_value(query.deep_view(), key@),
{
    let ghost q = query.deep_view();
    let mut i: usize = 0;
    while i < query.len()
        invariant
            q == query.deep_view(),
            i <= query.len(),
            forall|j: int| 0 <= j < i ==> !(q[j].0 == key@ && q[j].1.len() > 0),
        decreases query.len() - i,
    {
        assert(q[i as int] == (query[i as int].0@, query[i as int].1@));
        if str_eq(query[i].0.as_str(), key) && query[i].1.unicode_len() > 0 {
            assert(q[i as int].0 == key@ && q[i as int].1.len() > 0);
            return true;
        }
        i = i + 1;
    }
    false
}

fn is_single_segment(path: &str) -> (r: bool)
    ensures
        r == single_segment(path@),
{
    let n = path.unicode_len();
    if n < 2 || path.get_char(0) != '/' {
        return false;
    }
    let rest = path.substring_char(1, n);
    assert(rest@ =~= path@.drop_first());
    !contains_char(rest, '/')
}

fn is_prefixed_segment(path: &str, prefix: &str) -> (r: bool)
    ensures
        r == prefixed_segment(path@, prefix@),
{
    if !starts_with(path, prefix) {
        return false;
    }
    let n = path.unicode_len();
    let m = prefix.unicode_len();
    if n <= m {
        return false;
    }
    !contains_char(path.substring_char(m, n), '/')
}

fn is_video_path(p: &str) -> (r: bool)
    ensures
        r == video_path(p@),
{
    is_prefixed_segment(p, "/shorts/") || is_prefixed_segment(p, "/live/")
        || is_prefixed_segment(p, "/embed/") || is_prefixed_segment(p, "/v/")
}

fn is_channel_path(p: &str) -> (r: bool)
    ensures
        r == channel_path(p@),
{
    starts_with(p, "/channel/") || starts_with(p, "/@") || starts_with(p, "/c/") || starts_with(
        p,
        "/user/",
    )
}

/// Classify the components of a parsed URL.
pub fn classify_parts(parts: &UrlParts) -> (r: Result<LinkKind, Rejected>)
    ensures
        r == classify_url(parts@),
{
    let host: &str = match &parts.host {
        Some(h) => h.as_str(),
        None => "",
    };
    proof {
        assert(ascii_lower(host@) == lower_host(parts@.0)) by {
            if parts.host is None {
                reveal_strlit("");
                assert(ascii_lower(host@) =~= Seq::<char>::empty());
            }
        }
    }
    let is_youtube = lower_eq(host, "youtube.com") || lower_ends_with(host, ".youtube.com");
    let is_short = lower_eq(host, "youtu.be");
    let is_nocookie = lower_eq(host, "youtube-nocookie.com") || lower_ends_with(
        host,
        ".youtube-nocookie.com",
    );
    if !is_youtube && !is_short && !is_nocookie {
        return Err(Rejected::Unsupported);
    }
    let path = parts.path.as_str();
    // Trailing slashes do not change the resource, so strip one before matching.
    let n = path.unicode_len();
    let p: &str = if n > 0 && path.get_char(n - 1) == '/' {
        path.substring_char(0, n - 1)
    } else {
        path
    };
    assert(p@ =~= strip_trailing_slash(path@));
    // Playlists are rejected even when they smuggle a video id
    // (`watch?v=...&list=...`, `youtu.be/<id>?list=...`).
    if str_eq(p, "/playlist") || query_has_key(&parts.query, "list") {
        return Err(Rejected::Playlist);
    }
    if is_short {
        return if is_single_segment(p) {
            Ok(LinkKind::Video)
        } else {
            Err(Rejected::Unsupported)
        };
    }
    if str_eq(p, "/watch") {
        return if query_has_value(&parts.query, "v") {
            Ok(LinkKind::Video)
        } else {
            Err(Rejected::Unsupported)
        };
    }
    if is_video_path(p) {
        return Ok(LinkKind::Video);
    }
    if is_channel_path(p) {
        return Ok(LinkKind::Channel);
    }
    Err(Rejected::Unsupported)
}

/// Classify a raw input string without any network access.
pub fn classify(raw: &str) -> (r: Result<LinkKind, Rejected>)
    ensures
        r == classify_raw(raw@),
{
    match parse_url(raw) {
        Some(parts) => classify_parts(&parts),
        None => Err(Rejected::Unsupported),
    }
}

/// A link on a YouTube host (any of `youtube.com`, `youtu.be`,
/// `youtube-nocookie.com` and their subdomains) whose path is `/playlist`
/// (with or without a trailing slash) or
/// whose query has a `list` key is rejected as a playlist, whatever else it
/// carries (such as a video id).
pub proof fn lemma_playlists_rejected(
    host: Option<Seq<char>>,
    path: Seq<char>,
    query: Seq<(Seq<char>, Seq<char>)>,
)
    requires
        youtube_host(lower_host(host)) || short_host(lower_host(host)) || nocookie_host(
            lower_host(host),
        ),
        strip_trailing_slash(path) == "/playlist"@ || has_query_key(query, "list"@),
    ensures
        classify_url((host, path, query)) == Err::<LinkKind, Rejected>(Rejected::Playlist),
{
}

/// Every accepted link is on a YouTube host; a link on any other host is
/// unsupported.
pub proof fn lemma_only_youtube_hosts(parts: (Option<Seq<char>>, Seq<char>, Seq<(Seq<char>, Seq<char>)>))
    ensures
        !(youtube_host(lower_host(parts.0)) || short_host(lower_host(parts.0)) || nocookie_host(
            lower_host(parts.0),
        )) ==> classify_url(parts) == Err::<LinkKind, Rejected>(Rejected::Unsupported),
        classify_url(parts) is Ok ==> youtube_host(lower_host(parts.0)) || short_host(
            lower_host(parts.0),
        ) || nocookie_host(lower_host(parts.0)),
{
}

/// The host is compared without regard to ASCII case.
pub proof fn lemma_host_case_insensitive(
    h1: Option<Seq<char>>,
    h2: Option<Seq<char>>,
    path: Seq<char>,
    query: Seq<(Seq<char>, Seq<char>)>,
)
    requires
        lower_host(h1) == lower_host(h2),
    ensures
        classify_url((h1, path, query)) == classify_url((h2, path, query)),
{
}

/// One trailing slash does not change the classification of a link.
pub proof fn lemma_trailing_slash_ignored(
    host: Option<Seq<char>>,
    path: Seq<char>,
    query: Seq<(Seq<char>, Seq<char>)>,
)
    requires
        !(path.len() > 0 && path.last() == '/'),
    ensures
        classify_url((host, path.push('/'), query)) == classify_url((host, path, query)),
{
    assert(path.push('/').drop_last() =~= path);
}

/// A `watch` link on a YouTube host (other than `youtu.be`) is a video link
/// whenever some query pair, at any position, has key `v` and a non-empty
/// value, and no pair has key `list`.
pub proof fn lemma_watch_with_video_id(
    host: Option<Seq<char>>,
    path: Seq<char>,
    query: Seq<(Seq<char>, Seq<char>)>,
    i: int,
)
    requires
        ascii_lower(host.unwrap_or(Seq::empty())) == "youtube.com"@ || ".youtube.com"@.is_suffix_of(
            ascii_lower(host.unwrap_or(Seq::empty())),
        ) || ascii_lower(host.unwrap_or(Seq::empty())) == "youtube-nocookie.com"@
            || ".youtube-nocookie.com"@.is_suffix_of(ascii_lower(host.unwrap_or(Seq::empty()))),
        path == "/watch"@ || path == "/watch/"@,
        forall|k: int| 0 <= k < query.len() ==> query[k].0 != "list"@,
        0 <= i < query.len(),
        query[i].0 == "v"@,
        query[i].1.len() > 0,
    ensures
        classify_url((host, path, query)) == Ok::<LinkKind, Rejected>(LinkKind::Video),
{
    reveal_strlit("youtube.com");
    reveal_strlit(".youtube.com");
    reveal_strlit("youtube-nocookie.com");
    reveal_strlit(".youtube-nocookie.com");
    reveal_strlit("youtu.be");
    reveal_strlit("/watch");
    reveal_strlit("/watch/");
    reveal_strlit("/playlist");
    let h = lower_host(host);
    assert(h == ascii_lower(host.unwrap_or(Seq::empty()))) by {
        if host is None {
            assert(ascii_lower(Seq::<char>::empty()) =~= Seq::<char>::empty());
        }
    }
    assert(!short_host(h)) by {
        if h == "youtu.be"@ {
            if ".youtube.com"@.is_suffix_of(h) || ".youtube-nocookie.com"@.is_suffix_of(h) {
                assert(false);
            }
            assert(h[7] == 'e');
        }
    }
    let p = strip_trailing_slash(path);
    assert(p == "/watch"@) by {
        if path == "/watch/"@ {
            assert(path.drop_last() =~= "/watch"@);
        }
    }
    assert(p != "/playlist"@) by {
        if p == "/playlist"@ {
            assert(p[1] == 'w');
        }
    }
    assert(!has_query_key(query, "list"@));
    assert(has_query_value(query, "v"@));
}

/// Inserting, at any position, a query pair whose key is neither `v` nor
/// `list` never changes how a link classifies.
pub proof fn lemma_unrelated_query_pair(
    host: Option<Seq<char>>,
    path: Seq<char>,
    query: Seq<(Seq<char>, Seq<char>)>,
    pos: int,
    key: Seq<char>,
    value: Seq<char>,
)
    requires
        0 <= pos <= query.len(),
        key != "v"@,
        key != "list"@,
    ensures
        classify_url((host, path, query.insert(pos, (key, value)))) == classify_url(
            (host, path, query),
        ),
{
    let q2 = query.insert(pos, (key, value));
    assert(has_query_key(q2, "list"@) == has_query_key(query, "list"@)) by {
        if has_query_key(query, "list"@) {
            let k = choose|k: int| 0 <= k < query.len() && #[trigger] query[k].0 == "list"@;
            if k < pos {
                assert(q2[k] == query[k]);
            } else {
                assert(q2[k + 1] == query[k]);
            }
        }
        if has_query_key(q2, "list"@) {
            let k = choose|k: int| 0 <= k < q2.len() && #[trigger] q2[k].0 == "list"@;
            if k < pos {
                assert(q2[k] == query[k]);
            } else if k > pos {
                assert(q2[k] == query[k - 1]);
            }
        }
    }
    assert(has_query_value(q2, "v"@) == has_query_value(query, "v"@)) by {
        if has_query_value(query, "v"@) {
            let k = choose|k: int|
                0 <= k < query.len() && #[trigger] query[k].0 == "v"@ && query[k].1.len() > 0;
            if k < pos {
                assert(q2[k] == query[k]);
            } else {
                assert(q2[k + 1] == query[k]);
            }
        }
        if has_query_value(q2, "v"@) {
            let k = choose|k: int|
                0 <= k < q2.len() && #[trigger] q2[k].0 == "v"@ && q2[k].1.len() > 0;
            if k < pos {
                assert(q2[k] == query[k]);
            } else if k > pos {
                assert(q2[k] == query[k - 1]);
            }
        }
    }
}

/// `path` is `prefix` followed by a non-empty segment without `/`.
pub open spec fn is_segment_after(path: Seq<char>, prefix: Seq<char>) -> bool {
    exists|id: Seq<char>| id.len() > 0 && !id.contains('/') && path == #[trigger] (prefix + id)
}

proof fn lemma_segment_after(path: Seq<char>, prefix: Seq<char>)
    ensures
        is_segment_after(path, prefix) == prefixed_segment(path, prefix),
{
    if prefixed_segment(path, prefix) {
        let id = path.subrange(prefix.len() as int, path.len() as int);
        assert(path =~= prefix + id);
    }
    if is_segment_after(path, prefix) {
        let id = choose|id: Seq<char>| id.len() > 0 && !id.contains('/') && path == #[trigger] (prefix
            + id);
        assert(prefix =~= path.subrange(0, prefix.len() as int));
        assert(id =~= path.subrange(prefix.len() as int, path.len() as int));
    }
}

/// Which links are video links and which are channel links, over the host
/// (compared in ASCII lowercase), the path with one trailing slash ignored,
/// and the query pairs:
/// - a video link is on a YouTube host, is no playlist (path `/playlist`, or a
///   `list` key), and is `youtu.be/<id>`, or `/watch` with a non-empty `v`,
///   or `/shorts/<id>`, `/live/<id>`, `/embed/<id>` or `/v/<id>` on the other
///   YouTube hosts, where `<id>` is non-empty and holds no `/`;
/// - a channel link is on a YouTube host other than `youtu.be`, is no
///   playlist and no video link, and its path starts with `/channel/`, `/@`,
///   `/c/` or `/user/`.
pub proof fn lemma_accepted_links(
    host: Option<Seq<char>>,
    path: Seq<char>,
    query: Seq<(Seq<char>, Seq<char>)>,
)
    ensures
        ({
            let h = ascii_lower(host.unwrap_or(Seq::empty()));
            let p = if path.len() > 0 && path.last() == '/' {
                path.drop_last()
            } else {
                path
            };
            let on_short = h == "youtu.be"@;
            let on_other = h == "youtube.com"@ || ".youtube.com"@.is_suffix_of(h) || h
                == "youtube-nocookie.com"@ || ".youtube-nocookie.com"@.is_suffix_of(h);
            let listed = p == "/playlist"@ || exists|k: int|
                0 <= k < query.len() && #[trigger] query[k].0 == "list"@;
            let video = if on_short {
                is_segment_after(p, "/"@)
            } else {
                (p == "/watch"@ && exists|k: int|
                    0 <= k < query.len() && #[trigger] query[k].0 == "v"@ && query[k].1.len() > 0)
                    || is_segment_after(p, "/shorts/"@) || is_segment_after(p, "/live/"@)
                    || is_segment_after(p, "/embed/"@) || is_segment_after(p, "/v/"@)
            };
            &&& (classify_url((host, path, query)) == Ok::<LinkKind, Rejected>(LinkKind::Video) <==> (
            on_short || on_other) && !listed && video)
            &&& (classify_url((host, path, query)) == Ok::<LinkKind, Rejected>(LinkKind::Channel) <==> (
            on_other && !on_short && !listed && !video && p != "/watch"@ && ("/channel/"@.is_prefix_of(
                p,
            ) || "/@"@.is_prefix_of(p) || "/c/"@.is_prefix_of(p) || "/user/"@.is_prefix_of(p))))
        }),
{
    reveal_strlit("youtube.com");
    reveal_strlit(".youtube.com");
    reveal_strlit("youtube-nocookie.com");
    reveal_strlit(".youtube-nocookie.com");
    reveal_strlit("youtu.be");
    reveal_strlit("/watch");
    reveal_strlit("/shorts/");
    reveal_strlit("/live/");
    reveal_strlit("/embed/");
    reveal_strlit("/v/");
    reveal_strlit("/");
    let h = lower_host(host);
    assert(h == ascii_lower(host.unwrap_or(Seq::empty()))) by {
        if host is None {
            assert(ascii_lower(Seq::<char>::empty()) =~= Seq::<char>::empty());
        }
    }
    if h == "youtu.be"@ {
        assert(h[7] == 'e');
        assert(!(".youtube.com"@.is_suffix_of(h)));
        assert(!(".youtube-nocookie.com"@.is_suffix_of(h)));
    }
    let p = strip_trailing_slash(path);
    lemma_segment_after(p, "/"@);
    lemma_segment_after(p, "/shorts/"@);
    lemma_segment_after(p, "/live/"@);
    lemma_segment_after(p, "/embed/"@);
    lemma_segment_after(p, "/v/"@);
    let on_short = h == "youtu.be"@;
    let on_other = h == "youtube.com"@ || ".youtube.com"@.is_suffix_of(h) || h
        == "youtube-nocookie.com"@ || ".youtube-nocookie.com"@.is_suffix_of(h);
    assert(on_other == (youtube_host(h) || nocookie_host(h)));
    assert(on_short == short_host(h));
    let listed = p == "/playlist"@ || exists|k: int|
        0 <= k < query.len() && #[trigger] query[k].0 == "list"@;
    assert(listed == (p == "/playlist"@ || has_query_key(query, "list"@)));
    let wv = exists|k: int|
        0 <= k < query.len() && #[trigger] query[k].0 == "v"@ && query[k].1.len() > 0;
    assert(wv == has_query_value(query, "v"@));
    assert(p == (if path.len() > 0 && path.last() == '/' { path.drop_last() } else { path }));
    assert(is_segment_after(p, "/"@) == single_segment(p)) by {
        if single_segment(p) {
            assert(p.drop_first() =~= p.subrange(1, p.len() as int));
            assert("/"@.is_prefix_of(p)) by {
                assert("/"@ =~= p.subrange(0, 1));
            }
        }
        if prefixed_segment(p, "/"@) {
            assert(p.drop_first() =~= p.subrange(1, p.len() as int));
            assert(p[0] == "/"@[0]) by {
                assert("/"@ =~= p.subrange(0, 1));
            }
        }
    }
    let video = if on_short {
        is_segment_after(p, "/"@)
    } else {
        (p == "/watch"@ && wv) || is_segment_after(p, "/shorts/"@) || is_segment_after(p, "/live/"@)
            || is_segment_after(p, "/embed/"@) || is_segment_after(p, "/v/"@)
    };
    assert(video == (if short_host(h) {
        single_segment(p)
    } else {
        (p == "/watch"@ && has_query_value(query, "v"@)) || video_path(p)
    }));
    if p == "/watch"@ {
        assert(!video_path(p)) by {
            if "/shorts/"@.is_prefix_of(p) || "/live/"@.is_prefix_of(p) || "/embed/"@.is_prefix_of(
                p,
            ) {
                assert(p.len() == 6);
            }
            if "/v/"@.is_prefix_of(p) {
                assert(p.subrange(0, 3)[1] == p[1]);
            }
        }
    }
    let r = classify_url((host, path, query));
    assert(r == Ok::<LinkKind, Rejected>(LinkKind::Video) <==> (on_short || on_other) && !listed
        && video);
    assert(r == Ok::<LinkKind, Rejected>(LinkKind::Channel) <==> (on_other && !on_short && !listed
        && !video && p != "/watch"@ && channel_path(p)));
}

} // verus!
