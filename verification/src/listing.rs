//! The channel IDs that a yt-dlp `-J` listing reports.
use vstd::prelude::*;
use vstd::string::*;

use crate::feed::{is_channel_id, valid_channel_id};
use crate::text::str_eq;

verus! {

/// What resolution reads from yt-dlp's `-J` output: the top-level
/// `channel_id` and, in order, the `channel_id` of each element of `entries`.
/// A value that is missing or is no JSON string (such as `null`) is `None`;
/// a missing or non-array `entries` gives no entries.
pub struct ChannelListing {
    pub channel_id: Option<String>,
    pub entries: Vec<Option<String>>,
}

impl View for ChannelListing {
    type V = (Option<Seq<char>>, Seq<Option<Seq<char>>>);

    open spec fn view(&self) -> Self::V {
        (self.channel_id.deep_view(), self.entries.deep_view())
    }
}

/// What `serde_json::from_slice` makes of `bytes`, read as a listing: `None`
/// when the bytes are no JSON document, else the top-level `channel_id` and
/// the per-entry `channel_id`s (each `None` unless it is a JSON string).
pub uninterp spec fn parsed_listing(bytes: Seq<u8>) -> Option<
    (Option<Seq<char>>, Seq<Option<Seq<char>>>),
>;

/// Calls `serde_json::from_slice` into a `serde_json::Value` and reads
/// `value["channel_id"]` and `value["entries"][i]["channel_id"]` as strings.
/// The contract claims only that the result is a function of `bytes` (named
/// `parsed_listing`); JSON syntax is left to `serde_json`.
#[verifier::external_body]
fn parse_listing(bytes: &[u8]) -> (r: Option<ChannelListing>)
    ensures
        match r {
            Some(listing) => parsed_listing(bytes@) == Some(listing@),
            None => parsed_listing(bytes@) is None,
        },
{
    match serde_json::from_slice::<serde_json::Value>(bytes) {
        Ok(value) => Some(ChannelListing {
            channel_id: value["channel_id"].as_str().map(String::from),
            entries: match value["entries"].as_array() {
                Some(entries) => entries.iter().map(|e| e["channel_id"].as_str().map(String::from)).collect(),
                None => Vec::new(),
            },
        }),
        Err(_) => None,
    }
}

impl ChannelListing {
    /// Read a listing from yt-dlp's `-J` output; `None` when it is no JSON.
    pub fn from_json(bytes: &[u8]) -> (r: Option<ChannelListing>)
        ensures
            match r {
                Some(listing) => parsed_listing(bytes@) == Some(listing@),
                None => parsed_listing(bytes@) is None,
            },
    {
        parse_listing(bytes)
    }
}

/// The candidate IDs in the order they are considered: the top-level one
/// first, then one per entry.
pub open spec fn candidates(listing: (Option<Seq<char>>, Seq<Option<Seq<char>>>)) -> Seq<
    Option<Seq<char>>,
> {
    seq![listing.0] + listing.1
}

/// One step of collection: keep `candidate` if it is a valid channel ID not
/// seen yet.
pub open spec fn collect_step(ids: Seq<Seq<char>>, candidate: Option<Seq<char>>) -> Seq<
    Seq<char>,
> {
    match candidate {
        Some(id) => if valid_channel_id(id) && !ids.contains(id) {
            ids.push(id)
        } else {
            ids
        },
        None => ids,
    }
}

/// The distinct valid channel IDs among `c`, in order of first occurrence.
pub open spec fn distinct_ids(c: Seq<Option<Seq<char>>>) -> Seq<Seq<char>>
    decreases c.len(),
{
    if c.len() == 0 {
        Seq::empty()
    } else {
        collect_step(distinct_ids(c.drop_last()), c.last())
    }
}

fn push_candidate(ids: &mut Vec<String>, candidate: &Option<String>)
    ensures
        final(ids).deep_view() == collect_step(old(ids).deep_view(), candidate.deep_view()),
{
    if let Some(id) = candidate {
        if is_channel_id(id.as_str()) {
            let ghost seen = ids.deep_view();
            assert(candidate.deep_view() == Some(id@));
            let mut i: usize = 0;
            while i < ids.len()
                invariant
                    seen == ids.deep_view(),
                    seen == old(ids).deep_view(),
                    candidate.deep_view() == Some(id@),
                    valid_channel_id(id@),
                    i <= ids.len(),
                    forall|j: int| 0 <= j < i ==> seen[j] != id@,
                decreases ids.len() - i,
            {
                assert(seen[i as int] == ids[i as int]@);
                if str_eq(ids[i].as_str(), id.as_str()) {
                    assert(seen[i as int] == id@);
                    return;
                }
                i = i + 1;
            }
            assert(!seen.contains(id@));
            ids.push(id.clone());
            assert(ids.deep_view() =~= seen.push(id@));
        }
    }
}

/// Collect distinct, valid channel IDs from yt-dlp `-J` output: the top-level
/// `channel_id` first, then per-entry IDs in order. Missing values, `null`s
/// and non-IDs such as `NA` are ignored.
pub fn channel_ids_from_json(listing: &ChannelListing) -> (r: Vec<String>)
    ensures
        r.deep_view() == distinct_ids(candidates(listing@)),
{
    let ghost c = candidates(listing@);
    let mut ids: Vec<String> = Vec::new();
    push_candidate(&mut ids, &listing.channel_id);
    proof {
        lemma_distinct_ids_single(c);
        assert(c[0] == listing.channel_id.deep_view());
    }
    let mut i: usize = 0;
    while i < listing.entries.len()
        invariant
            c == candidates(listing@),
            c.len() == listing.entries.len() + 1,
            i <= listing.entries.len(),
            ids.deep_view() == distinct_ids(c.take(i + 1)),
        decreases listing.entries.len() - i,
    {
        push_candidate(&mut ids, &listing.entries[i]);
        proof {
            assert(c.take(i + 2).drop_last() =~= c.take(i + 1));
            assert(c.take(i + 2).last() == listing.entries@[i as int].deep_view());
        }
        i = i + 1;
    }
    assert(c.take(c.len() as int) =~= c);
    ids
}

proof fn lemma_distinct_ids_single(c: Seq<Option<Seq<char>>>)
    requires
        c.len() > 0,
    ensures
        distinct_ids(c.take(1)) == collect_step(Seq::empty(), c[0]),
{
    let t = c.take(1);
    assert(t.drop_last() =~= Seq::<Option<Seq<char>>>::empty());
    assert(distinct_ids(t.drop_last()) == Seq::<Seq<char>>::empty());
    assert(t.last() == c[0]);
}

proof fn lemma_collect_step_prefix(ids: Seq<Seq<char>>, candidate: Option<Seq<char>>)
    ensures
        ids.is_prefix_of(collect_step(ids, candidate)),
        collect_step(ids, candidate).len() <= ids.len() + 1,
{
    assert(ids =~= collect_step(ids, candidate).subrange(0, ids.len() as int));
}

/// Collecting over a longer list only appends to what a shorter one gave.
pub proof fn lemma_distinct_ids_prefix(c: Seq<Option<Seq<char>>>, k: int)
    requires
        0 <= k <= c.len(),
    ensures
        distinct_ids(c.take(k)).is_prefix_of(distinct_ids(c)),
    decreases c.len() - k,
{
    if k < c.len() {
        lemma_distinct_ids_prefix(c, k + 1);
        assert(c.take(k + 1).drop_last() =~= c.take(k));
        lemma_collect_step_prefix(distinct_ids(c.take(k)), c.take(k + 1).last());
    } else {
        assert(c.take(k) =~= c);
    }
}

/// What the collected IDs are: each is a valid channel ID taken from some
/// candidate; none occurs twice; and every valid candidate occurs.
pub proof fn lemma_distinct_ids_properties(c: Seq<Option<Seq<char>>>)
    ensures
        forall|k: int| 0 <= k < distinct_ids(c).len() ==> valid_channel_id(#[trigger] distinct_ids(c)[k]),
        forall|k: int| 0 <= k < distinct_ids(c).len() ==> c.contains(Some(#[trigger] distinct_ids(c)[k])),
        forall|a: int, b: int|
            0 <= a < b < distinct_ids(c).len() ==> distinct_ids(c)[a] != distinct_ids(c)[b],
        forall|k: int|
            0 <= k < c.len() && (#[trigger] c[k] matches Some(id) && valid_channel_id(id)) ==> distinct_ids(c).contains(c[k]->0),
    decreases c.len(),
{
    if c.len() > 0 {
        let prev = c.drop_last();
        lemma_distinct_ids_properties(prev);
        let r = distinct_ids(c);
        let p = distinct_ids(prev);
        assert forall|k: int| 0 <= k < r.len() implies c.contains(Some(#[trigger] r[k])) by {
            if k < p.len() {
                assert(r[k] == p[k]);
                let j = choose|j: int| 0 <= j < prev.len() && prev[j] == Some(p[k]);
                assert(c[j] == Some(r[k]));
            } else {
                assert(c[c.len() - 1] == Some(r[k]));
            }
        }
        assert forall|k: int|
            0 <= k < c.len() && (#[trigger] c[k] matches Some(id) && valid_channel_id(id)) implies r.contains(c[k]->0) by {
            if k < c.len() - 1 {
                assert(prev[k] == c[k]);
                let j = choose|j: int| 0 <= j < p.len() && p[j] == c[k]->0;
                assert(r[j] == p[j]);
            } else {
                if p.contains(c[k]->0) {
                    let j = choose|j: int| 0 <= j < p.len() && p[j] == c[k]->0;
                    assert(r[j] == p[j]);
                } else {
                    assert(r[r.len() - 1] == c[k]->0);
                }
            }
        }
    }
}

/// The top-level `channel_id`, when it is a valid channel ID, comes first.
pub proof fn lemma_top_level_first(listing: (Option<Seq<char>>, Seq<Option<Seq<char>>>))
    requires
        listing.0 matches Some(id) && valid_channel_id(id),
    ensures
        distinct_ids(candidates(listing)).len() > 0,
        distinct_ids(candidates(listing))[0] == listing.0->0,
{
    let c = candidates(listing);
    lemma_distinct_ids_prefix(c, 1);
    lemma_distinct_ids_single(c);
    assert(c[0] == listing.0);
    let a = distinct_ids(c.take(1));
    let b = distinct_ids(c);
    assert(a =~= seq![listing.0->0]);
    assert(a == b.subrange(0, 1));
    assert(b.subrange(0, 1)[0] == b[0]);
}

/// The collected IDs keep the order in which they first occur: if `x` occurs
/// at candidate `a` and `y` first occurs at a later candidate `b`, then `x`
/// comes before `y`.
pub proof fn lemma_first_occurrence_order(c: Seq<Option<Seq<char>>>, a: int, b: int)
    requires
        0 <= a < b < c.len(),
        c[a] matches Some(x) && valid_channel_id(x),
        c[b] matches Some(y) && valid_channel_id(y),
        c[a] != c[b],
        forall|k: int| 0 <= k < b ==> c[k] != c[b],
    ensures
        forall|i: int, j: int|
            0 <= i < distinct_ids(c).len() && 0 <= j < distinct_ids(c).len() && #[trigger] distinct_ids(
                c,
            )[i] == c[a]->0 && #[trigger] distinct_ids(c)[j] == c[b]->0 ==> i < j,
{
    let ids = distinct_ids(c);
    let pre = c.take(b);
    let p = distinct_ids(pre);
    lemma_distinct_ids_prefix(c, b);
    lemma_distinct_ids_properties(c);
    lemma_distinct_ids_properties(pre);
    assert(pre[a] == c[a]);
    assert(p.contains(c[a]->0));
    let t = choose|t: int| 0 <= t < p.len() && p[t] == c[a]->0;
    assert(ids[t] == p[t]);
    assert forall|i: int, j: int|
        0 <= i < ids.len() && 0 <= j < ids.len() && #[trigger] ids[i] == c[a]->0 && #[trigger] ids[j]
            == c[b]->0 implies i < j by {
        if i != t {
            if i < t {
                assert(ids[i] != ids[t]);
            } else {
                assert(ids[t] != ids[i]);
            }
        }
        if j < p.len() {
            assert(p[j] == ids[j]);
            assert(pre.contains(Some(p[j])));
            let k = choose|k: int| 0 <= k < pre.len() && pre[k] == Some(p[j]);
            assert(c[k] == pre[k]);
        }
    }
}

} // verus!
