//! The table-level laws of the aggregation core, stated over the spec-level
//! transition `apply_sighting` that `handle_raid_info` and `handle_event` are
//! proved to implement.

use vstd::prelude::*;

use crate::petronel::{
    apply_sighting, boss_index, fresh_entry, has_boss, lemma_boss_index_of, names_unique, sighted,
    EntryView,
};
use crate::raid::{BossLevel, DateTime, InfoView, TweetView};

verus! {

/// One step of the feed: a sighting together with the level the external
/// identifier parser made of its boss identifier.
pub ghost struct SightingStep {
    pub info: InfoView,
    pub parsed_level: Option<BossLevel>,
}

/// A whole feed, applied in order.
pub open spec fn apply_sightings(v: Seq<EntryView>, steps: Seq<SightingStep>) -> Seq<EntryView>
    decreases steps.len(),
{
    if steps.len() == 0 {
        v
    } else {
        apply_sightings(apply_sighting(v, steps[0].info, steps[0].parsed_level), steps.skip(1))
    }
}

/// The boss identifiers of the table, in table order.
pub open spec fn name_seq(v: Seq<EntryView>) -> Seq<Seq<char>> {
    v.map_values(|e: EntryView| e.boss.name)
}

/// The set of boss identifiers in the table.
pub open spec fn table_names(v: Seq<EntryView>) -> Set<Seq<char>> {
    name_seq(v).to_set()
}

/// The boss identifiers a feed mentions, in feed order.
pub open spec fn step_name_seq(steps: Seq<SightingStep>) -> Seq<Seq<char>> {
    steps.map_values(|s: SightingStep| s.info.tweet.boss_name)
}

/// The set of boss identifiers a feed mentions.
pub open spec fn step_names(steps: Seq<SightingStep>) -> Set<Seq<char>> {
    step_name_seq(steps).to_set()
}

/// One sighting creates exactly one entry when its boss identifier is new and
/// none otherwise; either way the boss's entry afterwards records the
/// sighting's timestamp as last seen, and no other entry moves or changes.
pub proof fn lemma_one_entry_per_boss(
    v: Seq<EntryView>,
    info: InfoView,
    parsed_level: Option<BossLevel>,
)
    requires
        names_unique(v),
    ensures
        names_unique(apply_sighting(v, info, parsed_level)),
        apply_sighting(v, info, parsed_level).len() == if has_boss(v, info.tweet.boss_name) {
            v.len()
        } else {
            v.len() + 1
        },
        has_boss(apply_sighting(v, info, parsed_level), info.tweet.boss_name),
        boss_index(apply_sighting(v, info, parsed_level), info.tweet.boss_name) == if has_boss(
            v,
            info.tweet.boss_name,
        ) {
            boss_index(v, info.tweet.boss_name)
        } else {
            v.len() as int
        },
        apply_sighting(v, info, parsed_level)[boss_index(
            apply_sighting(v, info, parsed_level),
            info.tweet.boss_name,
        )] == if has_boss(v, info.tweet.boss_name) {
            sighted(v[boss_index(v, info.tweet.boss_name)], info)
        } else {
            fresh_entry(info, parsed_level)
        },
        apply_sighting(v, info, parsed_level)[boss_index(
            apply_sighting(v, info, parsed_level),
            info.tweet.boss_name,
        )].last_seen == info.tweet.created_at,
        forall|j: int|
            0 <= j < v.len() ==> #[trigger] apply_sighting(v, info, parsed_level)[j].boss.name
                == v[j].boss.name,
        forall|j: int|
            0 <= j < v.len() && v[j].boss.name != info.tweet.boss_name
                ==> #[trigger] apply_sighting(v, info, parsed_level)[j] == v[j],
{
    let nm = info.tweet.boss_name;
    let w = apply_sighting(v, info, parsed_level);
    if has_boss(v, nm) {
        let i = boss_index(v, nm);
        assert(0 <= i < v.len() && v[i].boss.name == nm);
        assert(forall|j: int| 0 <= j < v.len() ==> #[trigger] w[j].boss.name == v[j].boss.name);
        assert(names_unique(w));
        lemma_boss_index_of(w, nm, i);
    } else {
        assert(forall|i: int| 0 <= i < v.len() ==> #[trigger] v[i].boss.name != nm);
        assert(w[v.len() as int].boss.name == nm);
        assert(forall|j: int| 0 <= j < v.len() ==> #[trigger] w[j] == v[j]);
        assert(names_unique(w));
        lemma_boss_index_of(w, nm, v.len() as int);
    }
}

/// Image attachment is monotone across one sighting: an entry that already
/// carries an image keeps exactly that image, whatever the sighting brings.
pub proof fn lemma_image_monotone_step(
    v: Seq<EntryView>,
    info: InfoView,
    parsed_level: Option<BossLevel>,
    name: Seq<char>,
)
    requires
        names_unique(v),
        has_boss(v, name),
        v[boss_index(v, name)].boss.image is Some,
    ensures
        names_unique(apply_sighting(v, info, parsed_level)),
        has_boss(apply_sighting(v, info, parsed_level), name),
        apply_sighting(v, info, parsed_level)[boss_index(
            apply_sighting(v, info, parsed_level),
            name,
        )].boss.image == v[boss_index(v, name)].boss.image,
{
    lemma_one_entry_per_boss(v, info, parsed_level);
    let w = apply_sighting(v, info, parsed_level);
    let i = boss_index(v, name);
    assert(0 <= i < v.len() && v[i].boss.name == name);
    if name == info.tweet.boss_name {
        assert(w[i] == sighted(v[i], info));
    } else {
        assert(w[i] == v[i]);
    }
    lemma_boss_index_of(w, name, i);
}

/// Image attachment is monotone across any feed: once an entry has an image,
/// no later sighting (with or without an image of its own) changes it.
pub proof fn lemma_image_monotone(v: Seq<EntryView>, steps: Seq<SightingStep>, name: Seq<char>)
    requires
        names_unique(v),
        has_boss(v, name),
        v[boss_index(v, name)].boss.image is Some,
    ensures
        names_unique(apply_sightings(v, steps)),
        has_boss(apply_sightings(v, steps), name),
        apply_sightings(v, steps)[boss_index(apply_sightings(v, steps), name)].boss.image
            == v[boss_index(v, name)].boss.image,
    decreases steps.len(),
{
    if steps.len() == 0 {
    } else {
        let v1 = apply_sighting(v, steps[0].info, steps[0].parsed_level);
        lemma_image_monotone_step(v, steps[0].info, steps[0].parsed_level, name);
        lemma_image_monotone(v1, steps.skip(1), name);
    }
}

/// The timestamp of the feed's last sighting of `name`, if it has one.
pub open spec fn last_sighting_time(steps: Seq<SightingStep>, name: Seq<char>) -> Option<
    DateTime,
>
    decreases steps.len(),
{
    if steps.len() == 0 {
        None
    } else {
        let rest = last_sighting_time(steps.skip(1), name);
        if rest is Some {
            rest
        } else if steps[0].info.tweet.boss_name == name {
            Some(steps[0].info.tweet.created_at)
        } else {
            None
        }
    }
}

/// A boss's last-seen timestamp always follows the feed: after any feed it is
/// the timestamp of the feed's latest sighting of that boss, or unchanged if
/// the feed never mentions it.
pub proof fn lemma_last_seen_is_latest(
    v: Seq<EntryView>,
    steps: Seq<SightingStep>,
    name: Seq<char>,
)
    requires
        names_unique(v),
        has_boss(v, name) || last_sighting_time(steps, name) is Some,
    ensures
        names_unique(apply_sightings(v, steps)),
        has_boss(apply_sightings(v, steps), name),
        apply_sightings(v, steps)[boss_index(apply_sightings(v, steps), name)].last_seen
            == match last_sighting_time(steps, name) {
                Some(t) => t,
                None => v[boss_index(v, name)].last_seen,
            },
    decreases steps.len(),
{
    if steps.len() == 0 {
    } else {
        let s0 = steps[0];
        let nm0 = s0.info.tweet.boss_name;
        let v1 = apply_sighting(v, s0.info, s0.parsed_level);
        lemma_one_entry_per_boss(v, s0.info, s0.parsed_level);
        if nm0 == name {
            lemma_last_seen_is_latest(v1, steps.skip(1), name);
            assert(v1[boss_index(v1, name)].last_seen == s0.info.tweet.created_at);
        } else {
            if has_boss(v, name) {
                let i = boss_index(v, name);
                assert(0 <= i < v.len() && v[i].boss.name == name);
                assert(v1[i] == v[i]);
                lemma_boss_index_of(v1, name, i);
            }
            lemma_last_seen_is_latest(v1, steps.skip(1), name);
        }
    }
}

/// The sightings the feed carries for `name`, in feed order.
pub open spec fn feed_sightings_of(steps: Seq<SightingStep>, name: Seq<char>) -> Seq<
    TweetView,
>
    decreases steps.len(),
{
    if steps.len() == 0 {
        Seq::empty()
    } else {
        let rest = feed_sightings_of(steps.skip(1), name);
        if steps[0].info.tweet.boss_name == name {
            seq![steps[0].info.tweet] + rest
        } else {
            rest
        }
    }
}

/// A boss's recorded history follows the feed exactly: after any feed it is
/// what the entry held before, followed by the feed's sightings of that boss,
/// in feed order. (The ring then retains the most recent `capacity` of them:
/// see the history query's contract.)
pub proof fn lemma_history_is_the_feed(
    v: Seq<EntryView>,
    steps: Seq<SightingStep>,
    name: Seq<char>,
)
    requires
        names_unique(v),
        has_boss(v, name) || feed_sightings_of(steps, name).len() > 0,
    ensures
        names_unique(apply_sightings(v, steps)),
        has_boss(apply_sightings(v, steps), name),
        apply_sightings(v, steps)[boss_index(apply_sightings(v, steps), name)].sightings == (if
            has_boss(v, name) {
            v[boss_index(v, name)].sightings
        } else {
            Seq::<TweetView>::empty()
        }) + feed_sightings_of(steps, name),
    decreases steps.len(),
{
    let u = apply_sightings(v, steps);
    if steps.len() == 0 {
        assert(v[boss_index(v, name)].sightings + feed_sightings_of(steps, name)
            =~= v[boss_index(v, name)].sightings);
    } else {
        let s0 = steps[0];
        let tw0 = s0.info.tweet;
        let nm0 = tw0.boss_name;
        let v1 = apply_sighting(v, s0.info, s0.parsed_level);
        lemma_one_entry_per_boss(v, s0.info, s0.parsed_level);
        if nm0 == name {
            lemma_history_is_the_feed(v1, steps.skip(1), name);
            if has_boss(v, name) {
                let i = boss_index(v, name);
                assert(v1[boss_index(v1, name)].sightings == v[i].sightings.push(tw0));
                assert(v[i].sightings.push(tw0) + feed_sightings_of(steps.skip(1), name)
                    =~= v[i].sightings + (seq![tw0] + feed_sightings_of(steps.skip(1), name)));
            } else {
                assert(v1[boss_index(v1, name)].sightings =~= seq![tw0]);
                assert(seq![tw0] + feed_sightings_of(steps.skip(1), name)
                    =~= Seq::<TweetView>::empty() + (seq![tw0]
                        + feed_sightings_of(steps.skip(1), name)));
            }
        } else {
            if has_boss(v, name) {
                let i = boss_index(v, name);
                assert(0 <= i < v.len() && v[i].boss.name == name);
                assert(v1[i] == v[i]);
                lemma_boss_index_of(v1, name, i);
            } else {
                assert(!has_boss(v1, name)) by {
                    if has_boss(v1, name) {
                        let j = boss_index(v1, name);
                        assert(0 <= j < v1.len() && v1[j].boss.name == name);
                        if j < v.len() {
                            assert(v[j].boss.name == name);
                        }
                    }
                }
            }
            lemma_history_is_the_feed(v1, steps.skip(1), name);
        }
    }
}

/// From an empty table, a boss's recorded history after a feed is exactly
/// the feed's sightings of it, in feed order.
pub proof fn lemma_history_from_empty(steps: Seq<SightingStep>, name: Seq<char>)
    requires
        feed_sightings_of(steps, name).len() > 0,
    ensures
        has_boss(apply_sightings(Seq::<EntryView>::empty(), steps), name),
        apply_sightings(Seq::<EntryView>::empty(), steps)[boss_index(
            apply_sightings(Seq::<EntryView>::empty(), steps),
            name,
        )].sightings == feed_sightings_of(steps, name),
{
    let v0 = Seq::<EntryView>::empty();
    assert(names_unique(v0));
    assert(!has_boss(v0, name));
    lemma_history_is_the_feed(v0, steps, name);
    assert(Seq::<TweetView>::empty() + feed_sightings_of(steps, name)
        =~= feed_sightings_of(steps, name));
}

/// One sighting adds exactly its boss identifier to the set of known names.
pub proof fn lemma_step_adds_name(
    v: Seq<EntryView>,
    info: InfoView,
    parsed_level: Option<BossLevel>,
)
    requires
        names_unique(v),
    ensures
        table_names(apply_sighting(v, info, parsed_level)) == table_names(v).insert(
            info.tweet.boss_name,
        ),
{
    lemma_one_entry_per_boss(v, info, parsed_level);
    let nm = info.tweet.boss_name;
    let w = apply_sighting(v, info, parsed_level);
    assert forall|x: Seq<char>| table_names(w).contains(x) implies table_names(v).insert(
        nm,
    ).contains(x) by {
        let k = choose|k: int| 0 <= k < name_seq(w).len() && name_seq(w)[k] == x;
        if k < v.len() {
            assert(name_seq(v)[k] == x);
            assert(name_seq(v).contains(x));
        }
    }
    assert forall|x: Seq<char>| table_names(v).insert(nm).contains(x) implies table_names(
        w,
    ).contains(x) by {
        if x == nm {
            let i = boss_index(w, nm);
            assert(name_seq(w)[i] == x);
            assert(name_seq(w).contains(x));
        } else {
            let k = choose|k: int| 0 <= k < name_seq(v).len() && name_seq(v)[k] == x;
            assert(name_seq(w)[k] == x);
            assert(name_seq(w).contains(x));
        }
    }
    assert(table_names(w) =~= table_names(v).insert(nm));
}

/// After a feed, the known names are exactly the names known before plus the
/// names the feed mentions — and no two entries ever share a name.
pub proof fn lemma_feed_names(v: Seq<EntryView>, steps: Seq<SightingStep>)
    requires
        names_unique(v),
    ensures
        names_unique(apply_sightings(v, steps)),
        table_names(apply_sightings(v, steps)) == table_names(v).union(step_names(steps)),
    decreases steps.len(),
{
    if steps.len() == 0 {
        assert(step_name_seq(steps).len() == 0);
        assert(forall|x: Seq<char>| !step_name_seq(steps).contains(x));
        assert(table_names(apply_sightings(v, steps)) =~= table_names(v).union(
            step_names(steps),
        ));
    } else {
        let nm = steps[0].info.tweet.boss_name;
        let v1 = apply_sighting(v, steps[0].info, steps[0].parsed_level);
        lemma_one_entry_per_boss(v, steps[0].info, steps[0].parsed_level);
        lemma_step_adds_name(v, steps[0].info, steps[0].parsed_level);
        lemma_feed_names(v1, steps.skip(1));
        assert(step_names(steps) =~= step_names(steps.skip(1)).insert(nm)) by {
            assert forall|x: Seq<char>| step_names(steps).contains(x) implies step_names(
                steps.skip(1),
            ).insert(nm).contains(x) by {
                let k = choose|k: int|
                    0 <= k < step_name_seq(steps).len() && step_name_seq(steps)[k] == x;
                if k > 0 {
                    assert(step_name_seq(steps.skip(1))[k - 1] == x);
                    assert(step_name_seq(steps.skip(1)).contains(x));
                }
            }
            assert forall|x: Seq<char>| step_names(steps.skip(1)).insert(nm).contains(
                x,
            ) implies step_names(steps).contains(x) by {
                if x == nm {
                    assert(step_name_seq(steps)[0] == x);
                    assert(step_name_seq(steps).contains(x));
                } else {
                    let k = choose|k: int|
                        0 <= k < step_name_seq(steps.skip(1)).len() && step_name_seq(
                            steps.skip(1),
                        )[k] == x;
                    assert(step_name_seq(steps)[k + 1] == x);
                    assert(step_name_seq(steps).contains(x));
                }
            }
        }
        assert(table_names(apply_sightings(v, steps)) =~= table_names(v).union(
            step_names(steps),
        ));
    }
}

/// With unique names, the table holds exactly one entry per known name.
pub proof fn lemma_table_card(v: Seq<EntryView>)
    requires
        names_unique(v),
    ensures
        table_names(v).len() == v.len(),
{
    let ns = name_seq(v);
    assert(ns.no_duplicates());
    ns.unique_seq_to_set();
}

/// A feed applied to the empty table yields exactly one entry per distinct
/// boss identifier the feed mentions.
pub proof fn lemma_boss_count(steps: Seq<SightingStep>)
    ensures
        names_unique(apply_sightings(Seq::<EntryView>::empty(), steps)),
        apply_sightings(Seq::<EntryView>::empty(), steps).len() == step_names(steps).len(),
{
    let v0 = Seq::<EntryView>::empty();
    assert(names_unique(v0));
    lemma_feed_names(v0, steps);
    lemma_table_card(apply_sightings(v0, steps));
    assert(forall|x: Seq<char>| !name_seq(v0).contains(x));
    assert(table_names(v0).union(step_names(steps)) =~= step_names(steps));
}

/// Sightings of already-known bosses never create entries, however many
/// there are.
pub proof fn lemma_known_bosses_add_nothing(v: Seq<EntryView>, steps: Seq<SightingStep>)
    requires
        names_unique(v),
        step_names(steps).subset_of(table_names(v)),
    ensures
        apply_sightings(v, steps).len() == v.len(),
{
    lemma_feed_names(v, steps);
    lemma_table_card(v);
    lemma_table_card(apply_sightings(v, steps));
    assert(table_names(v).union(step_names(steps)) =~= table_names(v));
}

} // verus!
