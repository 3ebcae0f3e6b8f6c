//! The decisions around the yt-dlp runs that resolve links to their channels:
//! which links are refused before a run, what a run's output resolves to, the
//! error messages, and a run over several links that stops at the first
//! failure.
use vstd::prelude::*;
use vstd::string::*;
use vstd::utf8::{decode_utf8, valid_utf8};

use crate::feed::{
    output_line, rss_output_line, valid_channel_id, CHANNEL_FEED_PREFIX, PLAYLIST_FEED_PREFIX,
    VIDEOS_ONLY_PREFIX,
};
use crate::link::{classify, classify_raw, LinkKind, Rejected};
use crate::listing::{
    candidates, channel_ids_from_json, distinct_ids, lemma_distinct_ids_properties, parsed_listing,
    ChannelListing,
};
use crate::text::{trim_white_space, trimmed};

verus! {

/// Why a link did not resolve to exactly one channel.
#[derive(Debug)]
pub enum ResolveError {
    /// The link is a playlist (refused before yt-dlp runs).
    Playlist,
    /// The link is no YouTube video or channel link (refused before yt-dlp runs).
    Unsupported,
    /// yt-dlp could not be started.
    LaunchFailed,
    /// yt-dlp exited unsuccessfully, with this exit code and (trimmed) stderr.
    ToolFailed { code: Option<i32>, stderr: String },
    /// yt-dlp's output is no JSON document.
    UnreadableOutput,
    /// The output holds no valid channel ID.
    NoChannelId,
    /// The output holds several distinct channel IDs (in order of first occurrence).
    MultipleOwners { ids: Vec<String> },
}

/// Refuse, before yt-dlp runs, every link that is no video or channel link.
pub fn check_link(raw_url: &str) -> (r: Result<LinkKind, ResolveError>)
    ensures
        classify_raw(raw_url@) matches Ok(kind) ==> r matches Ok(k) && k == kind,
        classify_raw(raw_url@) == Err::<LinkKind, Rejected>(Rejected::Playlist) ==> r matches Err(
            ResolveError::Playlist,
        ),
        classify_raw(raw_url@) == Err::<LinkKind, Rejected>(Rejected::Unsupported) ==> r matches Err(
            ResolveError::Unsupported,
        ),
{
    match classify(raw_url) {
        Ok(kind) => Ok(kind),
        Err(Rejected::Playlist) => Err(ResolveError::Playlist),
        Err(Rejected::Unsupported) => Err(ResolveError::Unsupported),
    }
}

/// `r` is what a listing whose collected IDs are `ids` resolves to: the one ID
/// when there is exactly one, `NoChannelId` when there is none, and
/// `MultipleOwners` with all of them when there are several.
pub open spec fn resolves_to(ids: Seq<Seq<char>>, r: Result<String, ResolveError>) -> bool {
    if ids.len() == 1 {
        r matches Ok(id) && id@ == ids[0]
    } else if ids.len() == 0 {
        r matches Err(ResolveError::NoChannelId)
    } else {
        r matches Err(ResolveError::MultipleOwners { ids: found }) && found.deep_view() == ids
    }
}

/// Resolve a listing: exactly one distinct valid channel ID is a success.
pub fn channel_id_from_listing(listing: &ChannelListing) -> (r: Result<String, ResolveError>)
    ensures
        resolves_to(distinct_ids(candidates(listing@)), r),
        r matches Ok(id) ==> valid_channel_id(id@),
{
    proof {
        lemma_distinct_ids_properties(candidates(listing@));
    }
    let ids = channel_ids_from_json(listing);
    if ids.len() == 1 {
        let id = ids[0].clone();
        Ok(id)
    } else if ids.len() == 0 {
        Err(ResolveError::NoChannelId)
    } else {
        Err(ResolveError::MultipleOwners { ids })
    }
}

/// What `String::from_utf8_lossy` makes of `bytes`: the decoded text, with
/// each invalid sequence replaced by U+FFFD.
pub uninterp spec fn lossy_utf8(bytes: Seq<u8>) -> Seq<char>;

/// Calls `String::from_utf8_lossy`. The contract claims that the result is a
/// function of `bytes` (named `lossy_utf8`) and, as the documentation says,
/// the plain decoding when the bytes are valid UTF-8; how invalid sequences
/// are replaced is left unsaid.
#[verifier::external_body]
fn decode_lossy(bytes: &[u8]) -> (r: String)
    ensures
        r@ == lossy_utf8(bytes@),
        valid_utf8(bytes@) ==> r@ == decode_utf8(bytes@),
{
    String::from_utf8_lossy(bytes).into_owned()
}

/// Resolve the result of one yt-dlp run: an unsuccessful exit is reported with
/// its code and its stderr (decoded, white space trimmed), output that is no
/// JSON is unreadable, and a listing resolves as `channel_id_from_listing`
/// says.
pub fn channel_id_from_output(
    succeeded: bool,
    exit_code: Option<i32>,
    stderr: &[u8],
    stdout: &[u8],
) -> (r: Result<String, ResolveError>)
    ensures
        !succeeded ==> (r matches Err(ResolveError::ToolFailed { code, stderr: text }) && code
            == exit_code && text@ == trimmed(lossy_utf8(stderr@))),
        succeeded && parsed_listing(stdout@) is None ==> r matches Err(
            ResolveError::UnreadableOutput,
        ),
        succeeded ==> (parsed_listing(stdout@) matches Some(l) ==> resolves_to(
            distinct_ids(candidates(l)),
            r,
        )),
        r matches Ok(id) ==> valid_channel_id(id@),
{
    if !succeeded {
        let decoded = decode_lossy(stderr);
        let text = String::from_str(trim_white_space(decoded.as_str()));
        return Err(ResolveError::ToolFailed { code: exit_code, stderr: text });
    }
    match ChannelListing::from_json(stdout) {
        Some(listing) => channel_id_from_listing(&listing),
        None => Err(ResolveError::UnreadableOutput),
    }
}

/// The ten decimal digits, in order.
pub const DIGITS: &'static str = "0123456789";

/// Decimal digits of `n`, most significant first, without leading zeros.
pub open spec fn decimal_digits(n: nat) -> Seq<char>
    decreases n,
{
    if n < 10 {
        seq![DIGITS@[n as int]]
    } else {
        decimal_digits(n / 10).push(DIGITS@[(n % 10) as int])
    }
}

/// Decimal text of an integer, with a leading `-` when it is negative.
pub open spec fn decimal(n: int) -> Seq<char> {
    if n < 0 {
        seq!['-'] + decimal_digits((-n) as nat)
    } else {
        decimal_digits(n as nat)
    }
}

/// `{:?}` text of an exit code: `Some(<decimal>)` or `None`.
pub open spec fn exit_code_text(code: Option<i32>) -> Seq<char> {
    match code {
        Some(c) => "Some("@ + decimal(c as int) + ")"@,
        None => "None"@,
    }
}

/// The elements of `list` separated by `sep`.
pub open spec fn join(list: Seq<Seq<char>>, sep: Seq<char>) -> Seq<char>
    decreases list.len(),
{
    if list.len() == 0 {
        Seq::empty()
    } else if list.len() == 1 {
        list[0]
    } else {
        join(list.drop_last(), sep) + sep + list.last()
    }
}

/// The message reported for `e` while resolving `url`.
pub open spec fn error_message(e: ResolveError, url: Seq<char>) -> Seq<char> {
    match e {
        ResolveError::Playlist => "playlist links are not supported: "@ + url
            + " (give a video or channel link instead)"@,
        ResolveError::Unsupported => "unsupported YouTube link: "@ + url
            + " (give a video or channel link instead)"@,
        ResolveError::LaunchFailed => "failed to run yt-dlp to resolve "@ + url,
        ResolveError::ToolFailed { code, stderr } => "failed to resolve channel for "@ + url
            + ": yt-dlp exited with code "@ + exit_code_text(code) + ": "@ + stderr@,
        ResolveError::UnreadableOutput => "could not read channel_id from yt-dlp output for "@
            + url,
        ResolveError::NoChannelId => "no channel_id found for "@ + url
            + " (unsupported, private, or deleted?)"@,
        ResolveError::MultipleOwners { ids } => "video has multiple owners/creators for "@ + url
            + " (found: "@ + join(ids.deep_view(), ", "@)
            + ") \u{2014} give a direct channel link instead"@,
    }
}

fn append_digits(text: &mut String, n: u64)
    ensures
        final(text)@ == old(text)@ + decimal_digits(n as nat),
    decreases n,
{
    proof {
        reveal_strlit("0123456789");
    }
    if n >= 10 {
        append_digits(text, n / 10);
    }
    let d = (n % 10) as usize;
    text.append(DIGITS.substring_char(d, d + 1));
    proof {
        assert(DIGITS@.subrange(d as int, d + 1) =~= seq![DIGITS@[d as int]]);
        if n >= 10 {
            assert(decimal_digits(n as nat) == decimal_digits((n / 10) as nat).push(
                DIGITS@[d as int],
            ));
        }
    }
}

fn append_exit_code(text: &mut String, code: Option<i32>)
    ensures
        final(text)@ == old(text)@ + exit_code_text(code),
{
    match code {
        Some(c) => {
            text.append("Some(");
            if c < 0 {
                text.append("-");
                proof {
                    reveal_strlit("-");
                }
                let magnitude: u64 = (0i64 - (c as i64)) as u64;
                append_digits(text, magnitude);
            } else {
                append_digits(text, c as u64);
            }
            text.append(")");
        },
        None => {
            text.append("None");
        },
    }
}

fn append_joined(text: &mut String, list: &Vec<String>, sep: &str)
    ensures
        final(text)@ == old(text)@ + join(list.deep_view(), sep@),
{
    let ghost l = list.deep_view();
    let ghost start = text@;
    let mut i: usize = 0;
    while i < list.len()
        invariant
            l == list.deep_view(),
            i <= list.len(),
            text@ == start + join(l.take(i as int), sep@),
        decreases list.len() - i,
    {
        proof {
            assert(l.take(i + 1).drop_last() =~= l.take(i as int));
            assert(l.take(i + 1).last() == list[i as int]@);
        }
        if i > 0 {
            text.append(sep);
        } else {
            assert(l.take(0) =~= Seq::<Seq<char>>::empty());
        }
        text.append(list[i].as_str());
        i = i + 1;
    }
    assert(l.take(list.len() as int) =~= l);
}

impl ResolveError {
    /// The message reported for this error while resolving `raw_url`.
    pub fn message(&self, raw_url: &str) -> (r: String)
        ensures
            r@ == error_message(*self, raw_url@),
    {
        match self {
            ResolveError::Playlist => {
                let mut m = String::from_str("playlist links are not supported: ");
                m.append(raw_url);
                m.append(" (give a video or channel link instead)");
                m
            },
            ResolveError::Unsupported => {
                let mut m = String::from_str("unsupported YouTube link: ");
                m.append(raw_url);
                m.append(" (give a video or channel link instead)");
                m
            },
            ResolveError::LaunchFailed => {
                let mut m = String::from_str("failed to run yt-dlp to resolve ");
                m.append(raw_url);
                m
            },
            ResolveError::ToolFailed { code, stderr } => {
                let mut m = String::from_str("failed to resolve channel for ");
                m.append(raw_url);
                m.append(": yt-dlp exited with code ");
                append_exit_code(&mut m, *code);
                m.append(": ");
                m.append(stderr.as_str());
                m
            },
            ResolveError::UnreadableOutput => {
                let mut m = String::from_str("could not read channel_id from yt-dlp output for ");
                m.append(raw_url);
                m
            },
            ResolveError::NoChannelId => {
                let mut m = String::from_str("no channel_id found for ");
                m.append(raw_url);
                m.append(" (unsupported, private, or deleted?)");
                m
            },
            ResolveError::MultipleOwners { ids } => {
                let mut m = String::from_str("video has multiple owners/creators for ");
                m.append(raw_url);
                m.append(" (found: ");
                append_joined(&mut m, ids, ", ");
                m.append(") \u{2014} give a direct channel link instead");
                m
            },
        }
    }
}

/// The error for a link that classification refuses.
pub open spec fn refusal(rejected: Rejected) -> ResolveError {
    match rejected {
        Rejected::Playlist => ResolveError::Playlist,
        Rejected::Unsupported => ResolveError::Unsupported,
    }
}

/// The message for a resolved ID that has no line to print.
pub open spec fn invalid_id_message(url: Seq<char>, id: Seq<char>) -> Seq<char> {
    "invalid channel_id resolved for "@ + url + ": "@ + id
}

/// What the program does next while printing the feeds of several links.
#[derive(Debug)]
pub enum RssAction {
    /// Run yt-dlp on this link and hand what it resolves to to `RssRun::resolved`.
    Resolve { raw_url: String },
    /// Print this line, then ask `RssRun::advance` for the next action.
    Print { line: String },
    /// Stop with this message and a failure status.
    Fail { message: String },
    /// Nothing is left to do.
    Done,
}

/// Printing the feed lines of several links in input order, stopping at the
/// first link that fails: refused, unresolved, or resolved to no line.
pub struct RssRun {
    pub urls: Vec<String>,
    pub videos_only: bool,
    pub id_only: bool,
    /// The link at hand; every link before it is printed.
    pub next: usize,
    /// A link failed; nothing further is done.
    pub failed: bool,
}

/// `after` is `before` with `failed` set.
pub open spec fn stopped_at(before: RssRun, after: RssRun) -> bool {
    after == RssRun { failed: true, ..before }
}

/// The run has nothing left to do: a link failed, or every link is printed.
pub open spec fn finished(run: RssRun) -> bool {
    run.failed || run.next >= run.urls.len()
}

/// The URL of the link at hand.
pub open spec fn current_url(run: RssRun) -> Seq<char> {
    run.urls@[run.next as int]@
}

/// One `advance` from `before` to `after` giving `r`: a finished run stays as
/// it is and gives `Done`; a link that classification refuses fails the run
/// with its message; an accepted link is handed out, unchanged.
pub open spec fn advance_step(before: RssRun, after: RssRun, r: RssAction) -> bool {
    if finished(before) {
        r is Done && after == before
    } else {
        let url = current_url(before);
        match classify_raw(url) {
            Ok(_) => (r matches RssAction::Resolve { raw_url } && raw_url@ == url) && after
                == before,
            Err(rejected) => (r matches RssAction::Fail { message } && message@ == error_message(
                refusal(rejected),
                url,
            )) && stopped_at(before, after),
        }
    }
}

/// One `resolved` with `result` from `before` to `after` giving `r`: a
/// finished run stays as it is and gives `Done`; a resolved ID that has a
/// line gives that line and moves to the next link; anything else fails the
/// run with its message.
pub open spec fn resolved_step(
    before: RssRun,
    result: Result<String, ResolveError>,
    after: RssRun,
    r: RssAction,
) -> bool {
    if finished(before) {
        r is Done && after == before
    } else {
        let url = current_url(before);
        match result {
            Err(e) => (r matches RssAction::Fail { message } && message@ == error_message(e, url))
                && stopped_at(before, after),
            Ok(id) => if !before.videos_only || valid_channel_id(id@) {
                &&& r matches RssAction::Print { line }
                &&& line@ == output_line(id@, before.videos_only, before.id_only)
                &&& after == RssRun { next: (before.next + 1) as usize, ..before }
            } else {
                &&& r matches RssAction::Fail { message }
                &&& message@ == invalid_id_message(url, id@)
                &&& stopped_at(before, after)
            },
        }
    }
}

impl RssRun {
    pub fn new(urls: Vec<String>, videos_only: bool, id_only: bool) -> (r: RssRun)
        ensures
            r == (RssRun { urls, videos_only, id_only, next: 0, failed: false }),
    {
        RssRun { urls, videos_only, id_only, next: 0, failed: false }
    }

    /// The action for the link at hand. A link that classification refuses
    /// fails the run before yt-dlp is asked about it; an accepted link is
    /// handed out to be resolved. After a failure, or past the last link,
    /// there is nothing to do.
    pub fn advance(&mut self) -> (r: RssAction)
        ensures
            advance_step(*old(self), *final(self), r),
    {
        if self.failed || self.next >= self.urls.len() {
            return RssAction::Done;
        }
        let raw_url = self.urls[self.next].clone();
        match check_link(raw_url.as_str()) {
            Ok(_) => RssAction::Resolve { raw_url },
            Err(error) => {
                let message = error.message(raw_url.as_str());
                self.failed = true;
                RssAction::Fail { message }
            },
        }
    }

    /// The action once the link at hand resolved to `result`: print its line
    /// and move to the next link, or fail the run.
    pub fn resolved(&mut self, result: Result<String, ResolveError>) -> (r: RssAction)
        ensures
            resolved_step(*old(self), result, *final(self), r),
    {
        if self.failed || self.next >= self.urls.len() {
            return RssAction::Done;
        }
        let raw_url = self.urls[self.next].clone();
        match result {
            Ok(channel_id) => match rss_output_line(channel_id.as_str(), self.videos_only, self.id_only) {
                Some(line) => {
                    self.next = self.next + 1;
                    RssAction::Print { line }
                },
                None => {
                    let mut message = String::from_str("invalid channel_id resolved for ");
                    message.append(raw_url.as_str());
                    message.append(": ");
                    message.append(channel_id.as_str());
                    self.failed = true;
                    RssAction::Fail { message }
                },
            },
            Err(error) => {
                let message = error.message(raw_url.as_str());
                self.failed = true;
                RssAction::Fail { message }
            },
        }
    }
}

/// The number of lines printed by `actions`.
pub open spec fn prints(actions: Seq<RssAction>) -> nat
    decreases actions.len(),
{
    if actions.len() == 0 {
        0
    } else {
        prints(actions.drop_last()) + if actions.last() is Print {
            1nat
        } else {
            0nat
        }
    }
}

/// Step `j` of a run: `resolved` with `results[j]` right after a `Resolve`,
/// `advance` otherwise.
pub open spec fn step_taken(
    states: Seq<RssRun>,
    actions: Seq<RssAction>,
    results: Seq<Result<String, ResolveError>>,
    j: int,
) -> bool {
    if j > 0 && actions[j - 1] is Resolve {
        resolved_step(states[j], results[j], states[j + 1], actions[j])
    } else {
        advance_step(states[j], states[j + 1], actions[j])
    }
}

/// `states`, `actions` and `results` record a run driven as the program does:
/// it starts from `RssRun::new(urls, ..)`, takes one step per action, and
/// goes on only after a `Resolve` or a `Print`.
pub open spec fn driven_run(
    urls: Vec<String>,
    videos_only: bool,
    id_only: bool,
    states: Seq<RssRun>,
    actions: Seq<RssAction>,
    results: Seq<Result<String, ResolveError>>,
) -> bool {
    &&& states.len() == actions.len() + 1
    &&& results.len() == actions.len()
    &&& states[0] == RssRun { urls, videos_only, id_only, next: 0, failed: false }
    &&& forall|j: int| 0 <= j < actions.len() ==> #[trigger] step_taken(states, actions, results, j)
    &&& forall|j: int|
        0 <= j < actions.len() - 1 ==> (#[trigger] actions[j] is Resolve || actions[j] is Print)
}

proof fn lemma_prints_step(actions: Seq<RssAction>, j: int)
    requires
        0 <= j < actions.len(),
    ensures
        prints(actions.take(j + 1)) == prints(actions.take(j)) + if actions[j] is Print {
            1nat
        } else {
            0nat
        },
{
    assert(actions.take(j + 1).drop_last() =~= actions.take(j));
}

proof fn lemma_driven_states(
    urls: Vec<String>,
    videos_only: bool,
    id_only: bool,
    states: Seq<RssRun>,
    actions: Seq<RssAction>,
    results: Seq<Result<String, ResolveError>>,
    j: int,
)
    requires
        driven_run(urls, videos_only, id_only, states, actions, results),
        0 <= j < actions.len(),
    ensures
        states[j] == (RssRun {
            urls,
            videos_only,
            id_only,
            next: prints(actions.take(j)) as usize,
            failed: false,
        }),
        prints(actions.take(j)) <= urls.len(),
        actions[j] is Resolve ==> j == 0 || actions[j - 1] is Print,
        actions[j] is Print ==> j > 0 && actions[j - 1] is Resolve,
    decreases j,
{
    assert(step_taken(states, actions, results, j));
    if j == 0 {
        assert(actions.take(0) =~= Seq::<RssAction>::empty());
    } else {
        lemma_driven_states(urls, videos_only, id_only, states, actions, results, j - 1);
        assert(step_taken(states, actions, results, j - 1));
        assert(actions[j - 1] is Resolve || actions[j - 1] is Print);
        lemma_prints_step(actions, j - 1);
        if j - 1 > 0 && actions[j - 2] is Resolve {
            assert(!(actions[j - 1] is Resolve));
        }
    }
}

/// A run stops at its first failing link: the links before it are printed,
/// in input order, each as its resolved line, and no later link is handed
/// out. For every run driven as the program drives it:
/// - the link handed out for resolving is always the first link not yet
///   printed, and classification accepts it;
/// - the `i`-th printed line is the line of link `i`, right after link `i`
///   was handed out and resolved;
/// - a run that ends in `Done` has printed every link; one that ends in
///   `Fail` has printed exactly the links before the failing one, and no
///   link after it was ever handed out.
pub proof fn lemma_fail_fast(
    urls: Vec<String>,
    videos_only: bool,
    id_only: bool,
    states: Seq<RssRun>,
    actions: Seq<RssAction>,
    results: Seq<Result<String, ResolveError>>,
)
    requires
        driven_run(urls, videos_only, id_only, states, actions, results),
    ensures
        forall|j: int|
            0 <= j < actions.len() && #[trigger] actions[j] is Resolve ==> {
                let i = prints(actions.take(j)) as int;
                &&& i < urls.len()
                &&& actions[j]->Resolve_raw_url@ == urls@[i]@
                &&& classify_raw(urls@[i]@) is Ok
            },
        forall|j: int|
            0 <= j < actions.len() && #[trigger] actions[j] is Print ==> {
                let i = prints(actions.take(j)) as int;
                &&& j > 0 && actions[j - 1] is Resolve
                &&& actions[j - 1]->Resolve_raw_url@ == urls@[i]@
                &&& results[j] is Ok
                &&& actions[j]->Print_line@ == output_line(
                    results[j]->Ok_0@,
                    videos_only,
                    id_only,
                )
            },
        actions.len() > 0 && actions.last() is Done ==> prints(actions) == urls.len(),
        actions.len() > 0 && actions.last() is Fail ==> prints(actions) < urls.len(),
        forall|j: int|
            0 <= j < actions.len() && #[trigger] actions[j] is Resolve ==> prints(actions.take(j))
                <= prints(actions),
{
    let n = actions.len() as int;
    assert forall|j: int| 0 <= j < actions.len() && #[trigger] actions[j] is Resolve implies {
        let i = prints(actions.take(j)) as int;
        &&& i < urls.len()
        &&& actions[j]->Resolve_raw_url@ == urls@[i]@
        &&& classify_raw(urls@[i]@) is Ok
    } by {
        lemma_driven_states(urls, videos_only, id_only, states, actions, results, j);
        assert(step_taken(states, actions, results, j));
    }
    assert forall|j: int| 0 <= j < actions.len() && #[trigger] actions[j] is Print implies {
        let i = prints(actions.take(j)) as int;
        &&& j > 0 && actions[j - 1] is Resolve
        &&& actions[j - 1]->Resolve_raw_url@ == urls@[i]@
        &&& results[j] is Ok
        &&& actions[j]->Print_line@ == output_line(results[j]->Ok_0@, videos_only, id_only)
    } by {
        lemma_driven_states(urls, videos_only, id_only, states, actions, results, j);
        lemma_driven_states(urls, videos_only, id_only, states, actions, results, j - 1);
        assert(step_taken(states, actions, results, j));
        assert(step_taken(states, actions, results, j - 1));
        lemma_prints_step(actions, j - 1);
    }
    assert(actions.take(n) =~= actions);
    if n > 0 {
        lemma_driven_states(urls, videos_only, id_only, states, actions, results, n - 1);
        lemma_prints_step(actions, n - 1);
        assert(step_taken(states, actions, results, n - 1));
    }
    assert forall|j: int| 0 <= j < actions.len() && #[trigger] actions[j] is Resolve implies prints(
        actions.take(j),
    ) <= prints(actions) by {
        lemma_prints_monotone(actions, j, n);
    }
}

proof fn lemma_prints_monotone(actions: Seq<RssAction>, j: int, k: int)
    requires
        0 <= j <= k <= actions.len(),
    ensures
        prints(actions.take(j)) <= prints(actions.take(k)),
    decreases k - j,
{
    if j < k {
        lemma_prints_monotone(actions, j, k - 1);
        lemma_prints_step(actions, k - 1);
    }
}

/// When the link at hand resolves to a valid channel ID, the run prints a
/// line and moves to the next link, whatever the output choice: the bare ID
/// or `CHANNEL_FEED_PREFIX` + ID, and with videos only `UULF` + the ID after
/// `UC`, bare or after `PLAYLIST_FEED_PREFIX`.
pub proof fn lemma_valid_id_is_printed(
    before: RssRun,
    id: String,
    after: RssRun,
    r: RssAction,
)
    requires
        resolved_step(before, Ok(id), after, r),
        !before.failed,
        before.next < before.urls.len(),
        valid_channel_id(id@),
    ensures
        r is Print,
        r->Print_line@ == (if before.videos_only {
            if before.id_only {
                VIDEOS_ONLY_PREFIX@ + id@.subrange(2, id@.len() as int)
            } else {
                PLAYLIST_FEED_PREFIX@ + (VIDEOS_ONLY_PREFIX@ + id@.subrange(2, id@.len() as int))
            }
        } else if before.id_only {
            id@
        } else {
            CHANNEL_FEED_PREFIX@ + id@
        }),
        after.next == before.next + 1,
        !after.failed,
        after.urls == before.urls,
        after.videos_only == before.videos_only,
        after.id_only == before.id_only,
{
}

/// A run fails only on a link that classification refuses, on a link whose
/// resolution is an error, or (with videos only) on a resolved ID that is no
/// channel ID; and a step that does not fail never stops the run.
pub proof fn lemma_failure_causes(
    before: RssRun,
    result: Result<String, ResolveError>,
    after: RssRun,
    r: RssAction,
    advanced: RssRun,
    a: RssAction,
)
    requires
        resolved_step(before, result, after, r),
        advance_step(before, advanced, a),
    ensures
        r is Fail ==> !before.failed && before.next < before.urls.len() && (result is Err || (
        before.videos_only && !valid_channel_id(result->Ok_0@))),
        a is Fail ==> !before.failed && before.next < before.urls.len() && classify_raw(
            before.urls@[before.next as int]@,
        ) is Err,
        !(r is Fail) ==> after.failed == before.failed,
        !(a is Fail) ==> advanced.failed == before.failed,
        after.failed ==> before.failed || r is Fail,
        advanced.failed ==> before.failed || a is Fail,
{
}

/// What a listing resolves to, in terms of its candidate IDs: `Ok` with an ID
/// that is the one valid channel ID among the candidates (every valid
/// candidate equals it); `MultipleOwners`, carrying every valid candidate,
/// whenever two valid candidates differ; `NoChannelId` when no candidate is a
/// valid channel ID.
pub proof fn lemma_resolution_by_candidates(
    listing: (Option<Seq<char>>, Seq<Option<Seq<char>>>),
    r: Result<String, ResolveError>,
)
    requires
        resolves_to(distinct_ids(candidates(listing)), r),
    ensures
        r matches Ok(id) ==> {
            &&& valid_channel_id(id@)
            &&& candidates(listing).contains(Some(id@))
            &&& forall|k: int|
                0 <= k < candidates(listing).len() && (#[trigger] candidates(listing)[k] matches Some(
                    x,
                ) && valid_channel_id(x)) ==> candidates(listing)[k] == Some(id@)
        },
        forall|a: int, b: int|
            0 <= a < candidates(listing).len() && 0 <= b < candidates(listing).len() && (
            #[trigger] candidates(listing)[a] matches Some(x) && valid_channel_id(x)) && (
            #[trigger] candidates(listing)[b] matches Some(y) && valid_channel_id(y))
                && candidates(listing)[a] != candidates(listing)[b] ==> (r matches Err(
                ResolveError::MultipleOwners { ids },
            ) && ids@.len() >= 2 && ids.deep_view().contains(candidates(listing)[a]->0)
                && ids.deep_view().contains(candidates(listing)[b]->0)),
        (forall|k: int|
            0 <= k < candidates(listing).len() ==> !(#[trigger] candidates(listing)[k] matches Some(
                x,
            ) && valid_channel_id(x))) ==> r matches Err(ResolveError::NoChannelId),
        r matches Err(ResolveError::MultipleOwners { ids }) ==> forall|k: int|
            0 <= k < candidates(listing).len() && (#[trigger] candidates(listing)[k] matches Some(
                x,
            ) && valid_channel_id(x)) ==> ids.deep_view().contains(candidates(listing)[k]->0),
{
    let c = candidates(listing);
    let ids = distinct_ids(c);
    lemma_distinct_ids_properties(c);
    if ids.len() > 0 {
        assert(valid_channel_id(ids[0]));
        assert(c.contains(Some(ids[0])));
    }
    assert forall|a: int, b: int|
        0 <= a < c.len() && 0 <= b < c.len() && (#[trigger] c[a] matches Some(x) && valid_channel_id(
            x,
        )) && (#[trigger] c[b] matches Some(y) && valid_channel_id(y)) && c[a] != c[b] implies (r matches Err(
        ResolveError::MultipleOwners { ids: found },
    ) && found@.len() >= 2 && found.deep_view().contains(c[a]->0) && found.deep_view().contains(
        c[b]->0,
    )) by {
        assert(ids.contains(c[a]->0));
        assert(ids.contains(c[b]->0));
        let ia = choose|t: int| 0 <= t < ids.len() && ids[t] == c[a]->0;
        let ib = choose|t: int| 0 <= t < ids.len() && ids[t] == c[b]->0;
        assert(ia != ib);
        assert(ids.len() >= 2);
    }
    if r is Ok {
        assert(ids.len() == 1);
        assert forall|k: int|
            0 <= k < c.len() && (#[trigger] c[k] matches Some(x) && valid_channel_id(x)) implies c[k]
            == Some(r->Ok_0@) by {
            assert(ids.contains(c[k]->0));
        }
    }
    if ids.len() > 0 {
        let j = choose|j: int| 0 <= j < c.len() && c[j] == Some(ids[0]);
        assert(c[j] matches Some(x) && valid_channel_id(x));
    }
}

/// Every error message names the link it is about: the URL occurs in it.
pub proof fn lemma_message_names_url(e: ResolveError, url: Seq<char>)
    ensures
        exists|start: int|
            0 <= start && start + url.len() <= error_message(e, url).len() && #[trigger] error_message(
                e,
                url,
            ).subrange(start, start + url.len()) == url,
{
    let m = error_message(e, url);
    let head: Seq<char> = match e {
        ResolveError::Playlist => "playlist links are not supported: "@,
        ResolveError::Unsupported => "unsupported YouTube link: "@,
        ResolveError::LaunchFailed => "failed to run yt-dlp to resolve "@,
        ResolveError::ToolFailed { .. } => "failed to resolve channel for "@,
        ResolveError::UnreadableOutput => "could not read channel_id from yt-dlp output for "@,
        ResolveError::NoChannelId => "no channel_id found for "@,
        ResolveError::MultipleOwners { .. } => "video has multiple owners/creators for "@,
    };
    let tail = m.subrange((head.len() + url.len()) as int, m.len() as int);
    assert(m =~= head + url + tail);
    assert(m.subrange(head.len() as int, (head.len() + url.len()) as int) =~= url);
}

} // verus!
