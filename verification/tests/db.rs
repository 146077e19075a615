//! Duplicate feeds are merged into one.
use myriad::db::item_merge::{self, Item, StateStep, UserState};
use myriad::db::source_merge::{self, FeedSource, RoundEnd, SourceType, DEDUPE_ROUNDS};

fn list(names: &[&str]) -> Vec<String> {
    names.iter().map(|n| n.to_string()).collect()
}

fn feed(id: i32) -> FeedSource {
    FeedSource {
        id,
        source_type: SourceType::Rss,
        feed_type: "rss".to_string(),
        category: None,
        icon: None,
        description: None,
        site_url: None,
        card_size: None,
        theme_color: None,
        sort_order: None,
        ai_style_tags: None,
        extra_config: None,
        rsshub_route: None,
        enabled: true,
        update_interval: 60,
        admin_only: false,
        last_fetched_at: None,
        last_success_at: None,
        created_at: 1000,
    }
}

#[test]
fn category_union_keeps_survivor_order_and_width() {
    assert_eq!(
        source_merge::merged_category(&list(&["友情链接, 技术", "技术, 生活", " 我 "])),
        Some("友情链接, 技术, 生活, 我".into())
    );
    assert_eq!(source_merge::merged_category(&list(&[])), None);
    assert_eq!(source_merge::merged_category(&list(&["", " "])), Some("".into()));
    let long = "x".repeat(60);
    let other = "y".repeat(60);
    assert_eq!(
        source_merge::merged_category(&list(&[long.as_str(), other.as_str()])),
        Some(long.clone())
    );
}

#[test]
fn the_merged_source_carries_everything() {
    let mut survivor = feed(1);
    survivor.category = Some("Tech".to_string());
    survivor.last_success_at = Some(5);
    let mut loser = feed(2);
    loser.category = Some("Life".to_string());
    loser.icon = Some("icon.png".to_string());
    loser.last_success_at = Some(9);
    loser.created_at = 500;
    let merged = source_merge::merged_settings(&survivor, &vec![loser]);
    assert_eq!(merged.id, 1);
    assert_eq!(merged.category.as_deref(), Some("Tech, Life"));
    assert_eq!(merged.icon.as_deref(), Some("icon.png"));
    assert_eq!(merged.last_success_at, Some(9));
    assert_eq!(merged.created_at, 500);
    assert_eq!(source_merge::later_of(Some(1), None), Some(1));
    assert_eq!(source_merge::later_of(None, None), None);
}

#[test]
fn the_oldest_of_the_best_kind_survives() {
    let mut link = feed(1);
    link.source_type = SourceType::Link;
    let rows = vec![link, feed(4), feed(3)];
    let kept = source_merge::survivor_position(&rows);
    let best = source_merge::survivor_rank(&rows[kept]);
    assert!(rows.iter().all(|row| best <= source_merge::survivor_rank(row)));
}

fn item(id: i32, guid: &str) -> Item {
    Item { id, guid: guid.to_string(), federated: false, topic: None }
}

#[test]
fn the_copy_that_others_know_stays() {
    let known = |id: i32, guid: &str| Item { federated: true, ..item(id, guid) };
    let pair = |loser: Item, survivor: Item| {
        let pairs = item_merge::move_items(&vec![loser], &vec![survivor]);
        (pairs[0].drop, pairs[0].keep)
    };
    assert_eq!(pair(known(10, "a"), item(1, "a")), (1, 10));
    assert_eq!(pair(item(10, "a"), known(1, "a")), (10, 1));
    assert_eq!(pair(known(10, "a"), known(1, "a")), (10, 1));
}

#[test]
fn copies_of_an_item_become_one() {
    let pairs = item_merge::move_items(
        &vec![item(10, "a"), item(11, "b")],
        &vec![item(1, "a"), item(2, "c")],
    );
    assert_eq!(pairs.len(), 1);
    assert_eq!((pairs[0].drop, pairs[0].keep), (10, 1));
    let mut with_topic = item(10, "a");
    with_topic.topic = Some("t".to_string());
    assert_eq!(item_merge::merged_topic(&item(1, "a"), &with_topic).as_deref(), Some("t"));
}

fn state(user_id: i32, is_read: bool, updated_at: Option<i64>) -> UserState {
    UserState {
        user_id,
        is_read,
        read_at: None,
        is_starred: false,
        starred_at: None,
        progress: None,
        notes: None,
        updated_at,
    }
}

#[test]
fn reading_history_is_never_lost() {
    let keep = state(1, false, Some(1));
    let drop = state(1, true, Some(2));
    let merged = item_merge::merge_user_state(&keep, &drop);
    assert!(merged.is_read);
    assert_eq!(merged.user_id, 1);
    assert!(matches!(
        item_merge::carry_state(&vec![state(1, false, None)], &drop),
        StateStep::Combine(s) if s.is_read
    ));
    assert!(matches!(
        item_merge::carry_state(&vec![state(2, false, None)], &drop),
        StateStep::Move
    ));
    assert!(!item_merge::derived_moves(true));
    assert!(item_merge::derived_moves(false));
}

#[test]
fn duplicates_are_merged_a_few_times_over() {
    assert_eq!(source_merge::after_round(1, false), RoundEnd::MakeUnique);
    assert_eq!(source_merge::after_round(DEDUPE_ROUNDS, false), RoundEnd::MakeUnique);
    assert_eq!(source_merge::after_round(1, true), RoundEnd::Again);
    assert_eq!(source_merge::after_round(2, true), RoundEnd::Again);
    assert_eq!(source_merge::after_round(3, true), RoundEnd::GiveUp);
}

#[test]
fn a_type_of_source_has_a_label() {
    assert_eq!(SourceType::Note.label(), "Note");
    assert_eq!(SourceType::Rss.label(), "Rss");
    assert_eq!(SourceType::Phantasiai.label(), "Phantasiai");
    assert_eq!(SourceType::Link.label(), "Link");
}
