//! Channel IDs and the feed URLs built from them.
use vstd::prelude::*;
use vstd::string::*;

verus! {

/// Start of the feed URL that carries every upload type of a channel.
pub const CHANNEL_FEED_PREFIX: &'static str = "https://www.youtube.com/feeds/videos.xml?channel_id=";

/// Start of the feed URL of an upload playlist.
pub const PLAYLIST_FEED_PREFIX: &'static str = "https://www.youtube.com/feeds/videos.xml?playlist_id=";

/// Prefix of the long-form-videos-only upload playlist of a channel.
pub const VIDEOS_ONLY_PREFIX: &'static str = "UULF";

/// Characters allowed after the `UC` of a channel ID.
pub open spec fn is_channel_char(c: char) -> bool {
    ||| ('a' <= c && c <= 'z')
    ||| ('A' <= c && c <= 'Z')
    ||| ('0' <= c && c <= '9')
    ||| c == '_'
    ||| c == '-'
}

/// A channel ID: `UC` followed by 22 characters from `[A-Za-z0-9_-]`.
pub open spec fn valid_channel_id(s: Seq<char>) -> bool {
    &&& s.len() == 24
    &&& s[0] == 'U'
    &&& s[1] == 'C'
    &&& forall|i: int| 2 <= i < 24 ==> #[trigger] is_channel_char(s[i])
}

/// The feed carrying every upload type of channel `id`.
pub open spec fn channel_feed(id: Seq<char>) -> Seq<char> {
    CHANNEL_FEED_PREFIX@ + id
}

/// The long-form-videos-only playlist of channel `id`: `UULF` + the part after `UC`.
pub open spec fn videos_only_playlist(id: Seq<char>) -> Seq<char> {
    VIDEOS_ONLY_PREFIX@ + id.subrange(2, id.len() as int)
}

/// The feed of playlist `playlist`.
pub open spec fn playlist_feed(playlist: Seq<char>) -> Seq<char> {
    PLAYLIST_FEED_PREFIX@ + playlist
}

fn channel_char(c: char) -> (r: bool)
    ensures
        r == is_channel_char(c),
{
    ('a' <= c && c <= 'z') || ('A' <= c && c <= 'Z') || ('0' <= c && c <= '9') || c == '_' || c
        == '-'
}

/// `UC` + 22 base64url-ish characters.
pub fn is_channel_id(value: &str) -> (r: bool)
    ensures
        r == valid_channel_id(value@),
{
    let n = value.unicode_len();
    if n != 24 {
        return false;
    }
    if value.get_char(0) != 'U' || value.get_char(1) != 'C' {
        return false;
    }
    let mut i: usize = 2;
    while i < 24
        invariant
            n == value@.len(),
            n == 24,
            2 <= i <= 24,
            forall|j: int| 2 <= j < i ==> #[trigger] is_channel_char(value@[j]),
        decreases 24 - i,
    {
        if !channel_char(value.get_char(i)) {
            return false;
        }
        i = i + 1;
    }
    true
}

/// Feed URL carrying every upload type (videos, shorts and live).
pub fn channel_feed_url(channel_id: &str) -> (r: String)
    ensures
        r@ == channel_feed(channel_id@),
{
    let mut url = String::from_str(CHANNEL_FEED_PREFIX);
    url.append(channel_id);
    url
}

/// Long-form-videos-only playlist ID (`UULF` + channel suffix), or `None`
/// when `channel_id` is not a valid channel ID.
pub fn videos_only_playlist_id(channel_id: &str) -> (r: Option<String>)
    ensures
        valid_channel_id(channel_id@) <==> r is Some,
        r matches Some(p) ==> p@ == videos_only_playlist(channel_id@),
{
    if !is_channel_id(channel_id) {
        return None;
    }
    let n = channel_id.unicode_len();
    let mut id = String::from_str(VIDEOS_ONLY_PREFIX);
    id.append(channel_id.substring_char(2, n));
    Some(id)
}

/// Long-form-videos-only feed URL, or `None` for an invalid channel ID.
pub fn videos_only_feed_url(channel_id: &str) -> (r: Option<String>)
    ensures
        valid_channel_id(channel_id@) <==> r is Some,
        r matches Some(u) ==> u@ == playlist_feed(videos_only_playlist(channel_id@)),
{
    match videos_only_playlist_id(channel_id) {
        Some(playlist_id) => {
            let mut url = String::from_str(PLAYLIST_FEED_PREFIX);
            url.append(playlist_id.as_str());
            Some(url)
        },
        None => None,
    }
}

/// The line printed for channel `id`: the bare ID or the feed URL, of the
/// channel (every upload type) or of its long-form-videos-only playlist.
pub open spec fn output_line(id: Seq<char>, videos_only: bool, id_only: bool) -> Seq<char> {
    if videos_only {
        if id_only {
            videos_only_playlist(id)
        } else {
            playlist_feed(videos_only_playlist(id))
        }
    } else if id_only {
        id
    } else {
        channel_feed(id)
    }
}

/// The line printed for a resolved channel; `None` only for a videos-only
/// choice when `channel_id` is no channel ID.
pub fn rss_output_line(channel_id: &str, videos_only: bool, id_only: bool) -> (r: Option<String>)
    ensures
        r is Some <==> (!videos_only || valid_channel_id(channel_id@)),
        r matches Some(l) ==> l@ == output_line(channel_id@, videos_only, id_only),
{
    if videos_only {
        if id_only {
            videos_only_playlist_id(channel_id)
        } else {
            videos_only_feed_url(channel_id)
        }
    } else if id_only {
        Some(String::from_str(channel_id))
    } else {
        Some(channel_feed_url(channel_id))
    }
}

/// The videos-only playlist ID of a channel keeps the channel's 22-character
/// suffix byte for byte: it is 26 characters long, starts with `UULF`, and `UC`
/// followed by its part after `UULF` gives the channel ID back.
pub proof fn lemma_videos_only_playlist_keeps_suffix(id: Seq<char>)
    requires
        valid_channel_id(id),
    ensures
        videos_only_playlist(id).len() == 26,
        videos_only_playlist(id).subrange(0, 4) == seq!['U', 'U', 'L', 'F'],
        videos_only_playlist(id).subrange(4, 26) == id.subrange(2, 24),
        seq!['U', 'C'] + videos_only_playlist(id).subrange(4, 26) == id,
{
    reveal_strlit("UULF");
    let p = videos_only_playlist(id);
    assert(p.subrange(0, 4) =~= seq!['U', 'U', 'L', 'F']);
    assert(p.subrange(4, 26) =~= id.subrange(2, 24));
    assert(seq!['U', 'C'] + p.subrange(4, 26) =~= id);
}

} // verus!
