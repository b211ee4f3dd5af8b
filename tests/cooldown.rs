use game::item::ShopItem;
use game::profile::{UserData, Wait, DAY_SECS, HALF_DAY_SECS};

fn record(points: u16, next: i64, items: Vec<ShopItem>) -> UserData {
    UserData {
        username: "bo".to_string(),
        hash: "h".to_string(),
        points,
        next,
        ready: false,
        items,
    }
}

#[test]
fn claim_when_ready_adds_a_point_and_starts_a_day() {
    let mut d = record(3, 1_000, vec![]);
    assert_eq!(d.claim_at(1_000), None);
    assert_eq!(d.points, 4);
    assert_eq!(d.next, 1_000 + DAY_SECS);
    assert!(!d.ready);
}

#[test]
fn claim_with_double_speed_starts_half_a_day() {
    let mut d = record(0, 500, vec![ShopItem::DoubleSpeed]);
    assert_eq!(d.claim_at(2_000), None);
    assert_eq!(d.points, 1);
    assert_eq!(d.next, 2_000 + HALF_DAY_SECS);
}

#[test]
fn claim_while_cooling_reports_wait() {
    let mut d = record(7, 10_000, vec![]);
    let w = d.claim_at(10_000 - 3_661);
    assert_eq!(w, Some(Wait { hours: 1, minutes: 1 }));
    assert_eq!(d.points, 7);
    assert_eq!(d.next, 10_000);
    assert_eq!(w.unwrap().message(), "come back in 1h 1m to get again");
}

#[test]
fn repeated_cooling_claims_never_grow_the_wait() {
    let mut d = record(2, 100_000, vec![]);
    let mut last = u64::MAX;
    for now in [10_000i64, 20_000, 20_059, 50_000, 99_999] {
        let w = d.claim_at(now).unwrap();
        let total = w.hours * 60 + w.minutes;
        assert!(total <= last);
        last = total;
        assert_eq!(d.points, 2);
    }
}

#[test]
fn claim_saturates_points() {
    let mut d = record(u16::MAX, 0, vec![]);
    assert_eq!(d.claim_at(0), None);
    assert_eq!(d.points, u16::MAX);
}

#[test]
fn claim_near_end_of_time_saturates_next() {
    let mut d = record(0, 0, vec![]);
    assert_eq!(d.claim_at(i64::MAX - 10), None);
    assert_eq!(d.next, i64::MAX);
}

#[test]
fn refresh_reports_dirty_only_on_change() {
    let mut d = record(0, 100, vec![]);
    assert!(!d.refresh_at(50));
    assert!(!d.ready);
    assert!(d.refresh_at(100));
    assert!(d.ready);
    assert!(!d.refresh_at(200));
}

#[test]
fn wait_message_of_long_wait() {
    let w = Wait { hours: 23, minutes: 59 };
    assert_eq!(w.message(), "come back in 23h 59m to get again");
    let z = Wait { hours: 0, minutes: 0 };
    assert_eq!(z.message(), "come back in 0h 0m to get again");
}

#[test]
fn new_record_is_ready_and_empty() {
    let d = UserData::new_at("cy".to_string(), "x".to_string(), 42);
    assert_eq!(d.points, 0);
    assert_eq!(d.next, 42);
    assert!(d.ready);
    assert!(d.items.is_empty());
    let e = UserData::new("dee".to_string(), "y".to_string());
    assert_eq!(e.username, "dee");
    assert!(e.ready);
}

#[test]
fn remove_and_add_items() {
    let mut d = record(0, 0, vec![ShopItem::DarkMode, ShopItem::Thanos, ShopItem::GayButton]);
    d.remove_item(ShopItem::Thanos);
    assert_eq!(d.items, vec![ShopItem::DarkMode, ShopItem::GayButton]);
    d.add_item(ShopItem::FiftyFifty);
    assert_eq!(d.items, vec![ShopItem::DarkMode, ShopItem::GayButton, ShopItem::FiftyFifty]);
    assert!(d.has_item(ShopItem::FiftyFifty));
}

#[test]
fn import_row_builds_record() {
    let d = UserData::imported(
        "eve".to_string(),
        "hh".to_string(),
        12,
        "2020-01-02 03:04:05.123456",
        true,
        true,
    )
    .unwrap();
    assert_eq!(d.next, 1_577_934_245);
    assert_eq!(d.points, 12);
    assert!(!d.ready);
    assert_eq!(d.items, vec![ShopItem::GayButton, ShopItem::DarkMode]);
    let plain = UserData::imported("f".to_string(), "h".to_string(), 0, "1970-01-01 00:01:00", false, false)
        .unwrap();
    assert_eq!(plain.next, 60);
    assert!(plain.items.is_empty());
    assert!(UserData::imported("g".to_string(), "h".to_string(), 0, "yesterday", false, true).is_none());
}

#[test]
fn duplicate_items_are_detected() {
    let ok = record(0, 0, vec![ShopItem::DarkMode, ShopItem::Thanos]);
    assert!(ok.items_unique());
    let bad = record(0, 0, vec![ShopItem::DarkMode, ShopItem::Thanos, ShopItem::DarkMode]);
    assert!(!bad.items_unique());
}
