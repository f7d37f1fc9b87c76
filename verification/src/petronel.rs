//! The aggregation core: a per-boss table of entries, each holding the boss's
//! metadata, the timestamp of its latest sighting, and a bounded ring of its
//! most recent sightings.
//!
//! The table is meant to be owned by a single actor task that applies one
//! event at a time; every mutation goes through [`AggregationTable::handle_event`]
//! (or [`AggregationTable::handle_raid_info`]), so an embedding that serializes
//! events into it gets linearizable, single-writer semantics for free.

use std::sync::Arc;

use vstd::prelude::*;

use crate::circular_buffer::{is_rotation_of, lemma_snapshot_is_recent, recent_of, CircularBuffer};
use crate::raid::{
    BossLevel, BossName, BossView, DateTime, InfoView, RaidBoss, RaidInfo, RaidTweet, TweetView,
    DEFAULT_BOSS_LEVEL,
};

verus! {

/// Relies on std's `Arc::clone`: the result is a second handle to the same
/// allocation, so it carries the same value as the argument.
#[verifier::external_body]
fn arc_clone(t: &Arc<RaidTweet>) -> (r: Arc<RaidTweet>)
    ensures
        r == *t,
{
    Arc::clone(t)
}

/// The sightings a buffer has recorded, as mathematical values, oldest first.
pub open spec fn tweet_views(s: Seq<Arc<RaidTweet>>) -> Seq<TweetView> {
    s.map_values(|t: Arc<RaidTweet>| t.deep_view())
}

/// One boss's aggregate state: metadata, last-seen timestamp, and the bounded
/// history of its most recent sightings (shared references, never copies).
pub struct RaidBossEntry {
    pub boss: RaidBoss,
    pub last_seen: DateTime,
    pub recent_tweets: CircularBuffer<Arc<RaidTweet>>,
}

/// Mathematical value of a `RaidBossEntry`. `sightings` records every
/// sighting ever applied to the entry, oldest first; the ring retains only
/// the most recent `history_size` of them.
#[verifier::ext_equal]
pub ghost struct EntryView {
    pub boss: BossView,
    pub last_seen: DateTime,
    pub sightings: Seq<TweetView>,
}

impl DeepView for RaidBossEntry {
    type V = EntryView;

    open spec fn deep_view(&self) -> EntryView {
        EntryView {
            boss: self.boss.deep_view(),
            last_seen: self.last_seen,
            sightings: tweet_views(self.recent_tweets.pushed()),
        }
    }
}

/// There is an entry for `name`.
pub open spec fn has_boss(v: Seq<EntryView>, name: Seq<char>) -> bool {
    exists|i: int| 0 <= i < v.len() && #[trigger] v[i].boss.name == name
}

/// The index of the entry for `name` (meaningful when `has_boss` holds and
/// the names are unique).
pub open spec fn boss_index(v: Seq<EntryView>, name: Seq<char>) -> int {
    choose|i: int| 0 <= i < v.len() && #[trigger] v[i].boss.name == name
}

/// No two entries share a boss identifier.
pub open spec fn names_unique(v: Seq<EntryView>) -> bool {
    forall|i: int, j: int|
        0 <= i < j < v.len() ==> v[i].boss.name != v[j].boss.name
}

/// The level a new entry gets: the parser's result, or the sentinel.
pub open spec fn level_or_default(parsed_level: Option<BossLevel>) -> BossLevel {
    match parsed_level {
        Some(l) => l,
        None => DEFAULT_BOSS_LEVEL,
    }
}

/// An already-known boss after one more sighting: last-seen moves to the
/// sighting's timestamp, the sighting joins the history, and the image is
/// attached only if the entry had none (first seen wins).
pub open spec fn sighted(e: EntryView, info: InfoView) -> EntryView {
    EntryView {
        boss: BossView {
            name: e.boss.name,
            level: e.boss.level,
            image: if e.boss.image is None && info.image is Some {
                info.image
            } else {
                e.boss.image
            },
            language: e.boss.language,
        },
        last_seen: info.tweet.created_at,
        sightings: e.sightings.push(info.tweet),
    }
}

/// The entry created on the first sighting of a previously-unseen boss.
pub open spec fn fresh_entry(info: InfoView, parsed_level: Option<BossLevel>) -> EntryView {
    EntryView {
        boss: BossView {
            name: info.tweet.boss_name,
            level: level_or_default(parsed_level),
            image: info.image,
            language: info.tweet.language,
        },
        last_seen: info.tweet.created_at,
        sightings: seq![info.tweet],
    }
}

/// One sighting applied to the table: update the entry for its boss
/// identifier, or append a fresh one.
pub open spec fn apply_sighting(
    v: Seq<EntryView>,
    info: InfoView,
    parsed_level: Option<BossLevel>,
) -> Seq<EntryView> {
    if has_boss(v, info.tweet.boss_name) {
        let i = boss_index(v, info.tweet.boss_name);
        v.update(i, sighted(v[i], info))
    } else {
        v.push(fresh_entry(info, parsed_level))
    }
}

/// The boss records of all entries, in table order.
pub open spec fn boss_views(v: Seq<EntryView>) -> Seq<BossView> {
    v.map_values(|e: EntryView| e.boss)
}

/// The mapping from boss identifier to boss entry, exclusively owned and
/// mutated by the actor that drives it.
pub struct AggregationTable {
    entries: Vec<RaidBossEntry>,
    tweet_history_size: usize,
}

impl View for AggregationTable {
    type V = Seq<EntryView>;

    closed spec fn view(&self) -> Seq<EntryView> {
        self.entries.deep_view()
    }
}

impl AggregationTable {
    /// The history capacity every entry's ring is created with.
    pub closed spec fn history_size(&self) -> nat {
        self.tweet_history_size as nat
    }

    pub closed spec fn wf(&self) -> bool {
        &&& forall|i: int|
            0 <= i < self.entries@.len() ==> {
                &&& (#[trigger] self.entries@[i]).recent_tweets.wf()
                &&& self.entries@[i].recent_tweets.capacity() == self.tweet_history_size
            }
        &&& names_unique(self@)
    }

    pub fn new(tweet_history_size: usize) -> (r: Self)
        ensures
            r.wf(),
            r@ == Seq::<EntryView>::empty(),
            r.history_size() == tweet_history_size,
    {
        let r = AggregationTable { entries: Vec::new(), tweet_history_size };
        proof {
            assert(r@ =~= Seq::<EntryView>::empty());
        }
        r
    }

    /// Linear search for the entry of `boss_name`.
    fn find_index(&self, boss_name: &BossName) -> (r: Option<usize>)
        requires
            self.wf(),
        ensures
            match r {
                Some(i) => i < self@.len() && self@[i as int].boss.name == boss_name.deep_view(),
                None => !has_boss(self@, boss_name.deep_view()),
            },
    {
        let mut i: usize = 0;
        while i < self.entries.len()
            invariant
                i <= self.entries@.len(),
                self@.len() == self.entries@.len(),
                forall|j: int|
                    0 <= j < i ==> self@[j].boss.name != boss_name.deep_view(),
            decreases self.entries@.len() - i,
        {
            if self.entries[i].boss.name == *boss_name {
                return Some(i);
            }
            i += 1;
        }
        None
    }

    /// Apply one sighting to the table. `parsed_level` is what the external
    /// identifier parser made of the boss identifier; it is read only when
    /// the boss is new, with 0 as the fallback.
    pub fn handle_raid_info(&mut self, info: RaidInfo, parsed_level: Option<BossLevel>)
        requires
            old(self).wf(),
        ensures
            final(self).wf(),
            final(self)@ == apply_sighting(old(self)@, info.deep_view(), parsed_level),
            final(self).history_size() == old(self).history_size(),
    {
        let ghost vold = self@;
        let ghost iview = info.deep_view();
        match self.find_index(&info.tweet.boss_name) {
            Some(i) => {
                proof {
                    lemma_boss_index_of(vold, iview.tweet.boss_name, i as int);
                }
                let mut e = self.entries.remove(i);
                let ghost eold = e.deep_view();
                let RaidInfo { tweet, image } = info;
                e.last_seen = tweet.created_at;
                e.recent_tweets.push(Arc::new(tweet));
                if e.boss.image.is_none() && image.is_some() {
                    e.boss.image = image;
                }
                self.entries.insert(i, e);
                proof {
                    assert(e.deep_view().sightings =~= eold.sightings.push(iview.tweet));
                    assert(e.deep_view() =~~= sighted(vold[i as int], iview));
                    assert(self@ =~~= vold.update(i as int, sighted(vold[i as int], iview)));
                    assert(names_unique(self@));
                }
            },
            None => {
                let RaidInfo { tweet, image } = info;
                let name = tweet.boss_name.clone();
                let language = tweet.language;
                let created_at = tweet.created_at;
                let level = match parsed_level {
                    Some(l) => l,
                    None => DEFAULT_BOSS_LEVEL,
                };
                let boss = RaidBoss { name, level, image, language };
                let mut recent_tweets = CircularBuffer::with_capacity(self.tweet_history_size);
                recent_tweets.push(Arc::new(tweet));
                self.entries.push(RaidBossEntry { boss, last_seen: created_at, recent_tweets });
                proof {
                    let e = self.entries@[vold.len() as int];
                    assert(e.deep_view().sightings =~= seq![iview.tweet]);
                    assert(e.deep_view() =~~= fresh_entry(iview, parsed_level));
                    assert(self@ =~~= vold.push(fresh_entry(iview, parsed_level)));
                    assert(names_unique(self@));
                }
            },
        }
    }
}

/// What a history query must hand back: nothing for an unknown boss (that is
/// a valid empty result, not an error), and for a known boss exactly the most
/// recent `min(cap, sightings)` of its sightings, in some order.
pub open spec fn recent_tweets_ok(
    v: Seq<EntryView>,
    cap: nat,
    name: Seq<char>,
    out: Seq<TweetView>,
) -> bool {
    if has_boss(v, name) {
        out.to_multiset() == recent_of(v[boss_index(v, name)].sightings, cap).to_multiset()
    } else {
        out == Seq::<TweetView>::empty()
    }
}

impl AggregationTable {
    /// Snapshot of every boss currently in the table, in table order (callers
    /// that need another order sort on their side).
    pub fn bosses(&self) -> (r: Vec<RaidBoss>)
        requires
            self.wf(),
        ensures
            r.deep_view() == boss_views(self@),
    {
        let mut out: Vec<RaidBoss> = Vec::new();
        let mut i: usize = 0;
        while i < self.entries.len()
            invariant
                self.wf(),
                i <= self.entries@.len(),
                self@.len() == self.entries@.len(),
                out.deep_view() == boss_views(self@.take(i as int)),
            decreases self.entries@.len() - i,
        {
            let ghost before = out.deep_view();
            out.push(self.entries[i].boss.clone());
            i += 1;
            proof {
                assert(out.deep_view() =~= before.push(self@[i - 1].boss));
                assert(before.push(self@[i - 1].boss) =~= boss_views(self@.take(i as int)));
            }
        }
        proof {
            assert(self@.take(self@.len() as int) =~= self@);
        }
        out
    }

    /// The unordered snapshot of one boss's recent sightings; empty when the
    /// boss is unknown.
    pub fn recent_tweets(&self, boss_name: &BossName) -> (r: Vec<Arc<RaidTweet>>)
        requires
            self.wf(),
        ensures
            recent_tweets_ok(self@, self.history_size(), boss_name.deep_view(), r.deep_view()),
    {
        match self.find_index(boss_name) {
            Some(i) => {
                proof {
                    lemma_boss_index_of(self@, boss_name.deep_view(), i as int);
                }
                let buf = &self.entries[i].recent_tweets;
                let slice = buf.as_unordered_slice();
                let mut out: Vec<Arc<RaidTweet>> = Vec::new();
                let mut j: usize = 0;
                while j < slice.len()
                    invariant
                        j <= slice@.len(),
                        out@ == slice@.take(j as int),
                    decreases slice@.len() - j,
                {
                    out.push(arc_clone(&slice[j]));
                    j += 1;
                    proof {
                        assert(out@ =~= slice@.take(j as int));
                    }
                }
                proof {
                    assert(out@ =~= buf.contents());
                    lemma_snapshot_is_recent(buf);
                    lemma_tweet_views_rotation(buf.contents(), buf.recent());
                    crate::circular_buffer::lemma_rotation_multiset(
                        tweet_views(buf.contents()),
                        tweet_views(buf.recent()),
                    );
                    lemma_tweet_views_recent_of(buf.pushed(), buf.capacity());
                    assert(out.deep_view() =~= tweet_views(buf.contents()));
                    assert(self@[i as int].sightings == tweet_views(buf.pushed()));
                }
                out
            },
            None => {
                let out: Vec<Arc<RaidTweet>> = Vec::new();
                proof {
                    assert(out.deep_view() =~= Seq::<TweetView>::empty());
                }
                out
            },
        }
    }
}

/// One event of the actor's merged input: a sighting from the upstream
/// stream, a query from the mailbox, or a swallowed upstream read failure.
/// The embedding layer pairs each query with the one-shot reply destination
/// it came with; this core only computes the reply's payload.
pub enum Event {
    NewRaidInfo(RaidInfo),
    GetBosses,
    GetRecentTweets { boss_name: BossName },
    ReadError,
}

/// The payload an event produces: a reply for a query, nothing for a
/// sighting or a swallowed read error.
pub enum Reply {
    Bosses(Vec<RaidBoss>),
    Tweets(Vec<Arc<RaidTweet>>),
    Nothing,
}

/// The only failure a query caller can see: the actor was gone before a
/// reply could be deposited. An unknown boss is not an error.
#[derive(Clone, Copy, Debug, PartialEq, Eq, Structural)]
pub enum Error {
    Closed,
}

impl AggregationTable {
    /// Apply one event and produce the reply it owes, fully, before the next
    /// event is looked at: an embedding that calls this from a single task
    /// gives every query a consistent view that reflects exactly the
    /// sightings dequeued before it. A read failure of the upstream source is
    /// a no-op, never a reason to stop aggregating. `parsed_level` is read
    /// only for a sighting of a new boss.
    pub fn handle_event(&mut self, event: Event, parsed_level: Option<BossLevel>) -> (r: Reply)
        requires
            old(self).wf(),
        ensures
            final(self).wf(),
            final(self).history_size() == old(self).history_size(),
            match event {
                Event::NewRaidInfo(info) => {
                    &&& final(self)@ == apply_sighting(old(self)@, info.deep_view(), parsed_level)
                    &&& r is Nothing
                },
                Event::GetBosses => {
                    &&& final(self)@ == old(self)@
                    &&& r matches Reply::Bosses(bs) && bs.deep_view() == boss_views(old(self)@)
                },
                Event::GetRecentTweets { boss_name } => {
                    &&& final(self)@ == old(self)@
                    &&& r matches Reply::Tweets(ts) && recent_tweets_ok(
                        old(self)@,
                        old(self).history_size(),
                        boss_name.deep_view(),
                        ts.deep_view(),
                    )
                },
                Event::ReadError => {
                    &&& final(self)@ == old(self)@
                    &&& r is Nothing
                },
            },
    {
        match event {
            Event::NewRaidInfo(info) => {
                self.handle_raid_info(info, parsed_level);
                Reply::Nothing
            },
            Event::GetBosses => Reply::Bosses(self.bosses()),
            Event::GetRecentTweets { boss_name } => Reply::Tweets(self.recent_tweets(&boss_name)),
            Event::ReadError => Reply::Nothing,
        }
    }
}

/// Taking views commutes with rotation.
proof fn lemma_tweet_views_rotation(a: Seq<Arc<RaidTweet>>, b: Seq<Arc<RaidTweet>>)
    requires
        is_rotation_of(a, b),
    ensures
        is_rotation_of(tweet_views(a), tweet_views(b)),
{
    let k = choose|k: int|
        0 <= k <= b.len() && a == #[trigger] (b.subrange(k, b.len() as int) + b.subrange(0, k));
    let bv = tweet_views(b);
    assert(tweet_views(a) == bv.subrange(k, bv.len() as int) + bv.subrange(0, k)) by {
        assert(tweet_views(a) =~= bv.subrange(k, bv.len() as int) + bv.subrange(0, k));
    }
}

/// Taking views commutes with taking the retained suffix.
proof fn lemma_tweet_views_recent_of(s: Seq<Arc<RaidTweet>>, c: nat)
    ensures
        tweet_views(recent_of(s, c)) == recent_of(tweet_views(s), c),
{
    assert(tweet_views(recent_of(s, c)) =~= recent_of(tweet_views(s), c));
}

/// With unique names, the entry found at `i` is the one `boss_index` names.
pub proof fn lemma_boss_index_of(v: Seq<EntryView>, name: Seq<char>, i: int)
    requires
        names_unique(v),
        0 <= i < v.len(),
        v[i].boss.name == name,
    ensures
        has_boss(v, name),
        boss_index(v, name) == i,
{
    assert(has_boss(v, name));
    let j = boss_index(v, name);
    if j != i {
        assert(v[i].boss.name != v[j].boss.name);
    }
}

} // verus!
