use petronel::petronel::{AggregationTable, Error, Event, Reply};
use petronel::raid::{Language, RaidInfo, RaidTweet};

fn tweet(boss: &str, user: &str, created_at: i64) -> RaidTweet {
    RaidTweet {
        boss_name: boss.to_string(),
        user: user.to_string(),
        user_image: None,
        text: Some("help".to_string()),
        created_at,
        language: Language::English,
    }
}

fn sighting(boss: &str, created_at: i64) -> RaidInfo {
    RaidInfo { tweet: tweet(boss, "reporter", created_at), image: None }
}

fn sighting_with_image(boss: &str, created_at: i64, image: &str) -> RaidInfo {
    RaidInfo { tweet: tweet(boss, "reporter", created_at), image: Some(image.to_string()) }
}

fn timestamps(table: &AggregationTable, boss: &str) -> Vec<i64> {
    let mut ts: Vec<i64> = table
        .recent_tweets(&boss.to_string())
        .iter()
        .map(|t| t.created_at)
        .collect();
    ts.sort();
    ts
}

#[test]
fn first_sighting_creates_one_boss() {
    let mut table = AggregationTable::new(10);
    table.handle_raid_info(sighting("Lv60 Celeste", 100), Some(60));
    let bosses = table.bosses();
    assert_eq!(bosses.len(), 1);
    assert_eq!(bosses[0].name, "Lv60 Celeste");
    assert_eq!(bosses[0].level, 60);
    assert_eq!(bosses[0].image, None);
    assert_eq!(bosses[0].language, Language::English);
}

#[test]
fn unparsed_level_falls_back_to_zero() {
    let mut table = AggregationTable::new(10);
    table.handle_raid_info(sighting("Celeste", 100), None);
    let bosses = table.bosses();
    assert_eq!(bosses.len(), 1);
    assert_eq!(bosses[0].level, 0);
}

#[test]
fn repeated_sightings_never_add_entries() {
    let mut table = AggregationTable::new(10);
    for i in 0..5 {
        table.handle_raid_info(sighting("X", i), None);
    }
    assert_eq!(table.bosses().len(), 1);
    assert_eq!(timestamps(&table, "X"), vec![0, 1, 2, 3, 4]);
}

#[test]
fn replaying_a_sighting_pushes_a_duplicate() {
    let mut table = AggregationTable::new(10);
    table.handle_raid_info(sighting("X", 42), None);
    table.handle_raid_info(sighting("X", 42), None);
    assert_eq!(table.bosses().len(), 1);
    assert_eq!(timestamps(&table, "X"), vec![42, 42]);
}

#[test]
fn image_is_attached_first_seen_wins() {
    let mut table = AggregationTable::new(10);
    table.handle_raid_info(sighting("X", 1), None);
    assert_eq!(table.bosses()[0].image, None);
    table.handle_raid_info(sighting_with_image("X", 2, "http://a"), None);
    assert_eq!(table.bosses()[0].image, Some("http://a".to_string()));
    table.handle_raid_info(sighting_with_image("X", 3, "http://b"), None);
    assert_eq!(table.bosses()[0].image, Some("http://a".to_string()));
    table.handle_raid_info(sighting("X", 4), None);
    assert_eq!(table.bosses()[0].image, Some("http://a".to_string()));
}

#[test]
fn image_on_first_sighting_sticks() {
    let mut table = AggregationTable::new(10);
    table.handle_raid_info(sighting_with_image("X", 1, "http://first"), None);
    assert_eq!(table.bosses()[0].image, Some("http://first".to_string()));
}

#[test]
fn unknown_boss_gives_empty_history_not_an_error() {
    let table = AggregationTable::new(10);
    assert!(table.recent_tweets(&"nobody".to_string()).is_empty());
}

#[test]
fn distinct_identifiers_give_distinct_bosses() {
    let mut table = AggregationTable::new(10);
    table.handle_raid_info(sighting("A", 1), None);
    table.handle_raid_info(sighting("B", 2), None);
    table.handle_raid_info(sighting("A", 3), None);
    table.handle_raid_info(sighting("C", 4), None);
    table.handle_raid_info(sighting("B", 5), None);
    let mut names: Vec<String> = table.bosses().into_iter().map(|b| b.name).collect();
    names.sort();
    assert_eq!(names, vec!["A".to_string(), "B".to_string(), "C".to_string()]);
}

#[test]
fn history_evicts_oldest_sighting() {
    // capacity = 2; sightings S1, S2, S3: the history must be exactly
    // {S2, S3}, in any order.
    let mut table = AggregationTable::new(2);
    table.handle_raid_info(sighting("X", 1), None);
    table.handle_raid_info(sighting("X", 2), None);
    table.handle_raid_info(sighting("X", 3), None);
    assert_eq!(timestamps(&table, "X"), vec![2, 3]);
}

#[test]
fn history_capacity_zero_keeps_nothing() {
    let mut table = AggregationTable::new(0);
    table.handle_raid_info(sighting("X", 1), None);
    assert_eq!(table.bosses().len(), 1);
    assert!(table.recent_tweets(&"X".to_string()).is_empty());
}

#[test]
fn histories_are_kept_per_boss() {
    let mut table = AggregationTable::new(5);
    table.handle_raid_info(sighting("A", 1), None);
    table.handle_raid_info(sighting("B", 2), None);
    table.handle_raid_info(sighting("A", 3), None);
    assert_eq!(timestamps(&table, "A"), vec![1, 3]);
    assert_eq!(timestamps(&table, "B"), vec![2]);
}

#[test]
fn events_are_dispatched_to_the_table() {
    let mut table = AggregationTable::new(10);
    let r = table.handle_event(Event::NewRaidInfo(sighting("X", 1)), Some(7));
    assert!(matches!(r, Reply::Nothing));
    match table.handle_event(Event::GetBosses, None) {
        Reply::Bosses(bs) => {
            assert_eq!(bs.len(), 1);
            assert_eq!(bs[0].name, "X");
            assert_eq!(bs[0].level, 7);
        }
        _ => panic!("a boss-list query must be answered with bosses"),
    }
    match table.handle_event(Event::GetRecentTweets { boss_name: "X".to_string() }, None) {
        Reply::Tweets(ts) => {
            assert_eq!(ts.len(), 1);
            assert_eq!(ts[0].created_at, 1);
        }
        _ => panic!("a history query must be answered with tweets"),
    }
}

#[test]
fn read_errors_are_swallowed() {
    let mut table = AggregationTable::new(10);
    table.handle_raid_info(sighting("X", 1), None);
    let r = table.handle_event(Event::ReadError, None);
    assert!(matches!(r, Reply::Nothing));
    assert_eq!(table.bosses().len(), 1);
    assert_eq!(timestamps(&table, "X"), vec![1]);
}

#[test]
fn interleaved_queries_see_a_consistent_advancing_view() {
    // Three call sites' commands, once serialized into one queue, each
    // observe the table as of their dequeue point: never a partially
    // applied sighting.
    let mut table = AggregationTable::new(10);
    match table.handle_event(Event::GetBosses, None) {
        Reply::Bosses(bs) => assert!(bs.is_empty()),
        _ => panic!("a boss-list query must be answered with bosses"),
    }
    table.handle_event(Event::NewRaidInfo(sighting_with_image("X", 5, "http://img")), None);
    match table.handle_event(Event::GetBosses, None) {
        Reply::Bosses(bs) => {
            assert_eq!(bs.len(), 1);
            assert_eq!(bs[0].image, Some("http://img".to_string()));
        }
        _ => panic!("a boss-list query must be answered with bosses"),
    }
    match table.handle_event(Event::GetRecentTweets { boss_name: "X".to_string() }, None) {
        Reply::Tweets(ts) => assert_eq!(ts.len(), 1),
        _ => panic!("a history query must be answered with tweets"),
    }
}

#[test]
fn shared_sightings_are_reference_counted_not_copied() {
    let mut table = AggregationTable::new(3);
    table.handle_raid_info(sighting("X", 1), None);
    let a = table.recent_tweets(&"X".to_string());
    let b = table.recent_tweets(&"X".to_string());
    assert!(std::sync::Arc::ptr_eq(&a[0], &b[0]));
}

#[test]
fn the_only_query_error_is_the_closed_condition() {
    assert_eq!(Error::Closed, Error::Closed);
}
