//! Resolving YouTube video and channel links to channel RSS feeds, and the
//! shell init scripts of `lum env`, with their quoting.
//!
//! - `feed`: channel IDs and the feed URLs and playlist IDs built from them.
//! - `link`: classifying a raw link as a video or channel link.
//! - `listing`: the channel IDs that a yt-dlp `-J` listing reports.
//! - `resolve`: the decisions around one yt-dlp run, and its error messages.
//! - `shell`: quoting for POSIX sh, PowerShell and fish, and the init scripts.
//! - `text`: character-level string helpers.
pub mod feed;
pub mod link;
pub mod listing;
pub mod resolve;
pub mod shell;
pub mod text;

pub use feed::{
    channel_feed_url, is_channel_id, rss_output_line, videos_only_feed_url, videos_only_playlist_id,
};
pub use link::{classify, LinkKind, Rejected};
pub use listing::{channel_ids_from_json, ChannelListing};
pub use resolve::{ResolveError, RssAction, RssRun};
pub use shell::{fish_quote, init_exports, init_script, powershell_quote, shell_quote, EnvShell};
