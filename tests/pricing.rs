use game::item::ShopItem;
use game::profile::{Profile, UserData};
use game::shop::{apply_bonus, trade, Trade};

fn profile_with(points: u16, items: Vec<ShopItem>) -> Profile {
    Profile::new(
        "1".to_string(),
        UserData {
            username: "ann".to_string(),
            hash: "h".to_string(),
            points,
            next: 0,
            ready: true,
            items,
        },
    )
}

#[test]
fn dark_mode_price_depends_on_ownership() {
    let owner = profile_with(0, vec![ShopItem::DarkMode]);
    let other = profile_with(0, vec![]);
    assert_eq!(ShopItem::DarkMode.get_price(&owner), Some(2));
    assert_eq!(ShopItem::DarkMode.get_price(&other), Some(3));
}

#[test]
fn sell_prices_are_eighty_percent_truncated() {
    assert_eq!(ShopItem::DarkMode.price_with_sell(true), 2);
    assert_eq!(ShopItem::GayButton.price_with_sell(true), 8);
    assert_eq!(ShopItem::DoubleSpeed.price_with_sell(true), 16);
    assert_eq!(ShopItem::FiftyFifty.price_with_sell(true), 0);
    assert_eq!(ShopItem::Thanos.price_with_sell(true), 40);
    assert_eq!(ShopItem::Thanos.price_with_sell(false), 50);
}

#[test]
fn catalog_lists_base_prices() {
    let prices = ShopItem::get_prices();
    assert_eq!(
        prices,
        vec![
            (ShopItem::FiftyFifty, 1),
            (ShopItem::DarkMode, 3),
            (ShopItem::GayButton, 10),
            (ShopItem::DoubleSpeed, 20),
            (ShopItem::Thanos, 50),
        ]
    );
}

#[test]
fn item_codes_round_trip() {
    for item in [
        ShopItem::DarkMode,
        ShopItem::GayButton,
        ShopItem::DoubleSpeed,
        ShopItem::FiftyFifty,
        ShopItem::Thanos,
    ] {
        assert_eq!(ShopItem::from_code(item.code()), Some(item));
    }
    assert_eq!(ShopItem::DarkMode.code(), 1);
    assert_eq!(ShopItem::Thanos.code(), 5);
    assert_eq!(ShopItem::from_code(0), None);
    assert_eq!(ShopItem::from_code(6), None);
}

#[test]
fn display_prices_sorted_by_price() {
    let p = profile_with(0, vec![]);
    let shown = ShopItem::get_display_prices(&p);
    assert_eq!(
        shown,
        vec![
            ("FiftyFifty".to_string(), 1, false),
            ("DarkMode".to_string(), 3, false),
            ("GayButton".to_string(), 10, false),
            ("DoubleSpeed".to_string(), 20, false),
            ("Thanos".to_string(), 50, false),
        ]
    );
}

#[test]
fn display_prices_use_sell_price_of_owned_items() {
    let p = profile_with(0, vec![ShopItem::Thanos, ShopItem::DarkMode]);
    let shown = ShopItem::get_display_prices(&p);
    assert_eq!(
        shown,
        vec![
            ("FiftyFifty".to_string(), 1, false),
            ("DarkMode".to_string(), 2, true),
            ("GayButton".to_string(), 10, false),
            ("DoubleSpeed".to_string(), 20, false),
            ("Thanos".to_string(), 40, true),
        ]
    );
}

#[test]
fn buying_dark_mode_with_five_points() {
    let mut p = profile_with(5, vec![]);
    assert_eq!(trade(&mut p.data, ShopItem::DarkMode), Trade::Bought);
    assert_eq!(p.data.points, 2);
    assert_eq!(p.data.items, vec![ShopItem::DarkMode]);
}

#[test]
fn thanos_declined_with_five_points() {
    let mut p = profile_with(5, vec![ShopItem::GayButton]);
    assert_eq!(trade(&mut p.data, ShopItem::Thanos), Trade::Declined);
    assert_eq!(p.data.points, 5);
    assert_eq!(p.data.items, vec![ShopItem::GayButton]);
}

#[test]
fn selling_credits_discounted_price() {
    let mut p = profile_with(1, vec![ShopItem::GayButton, ShopItem::DarkMode]);
    assert_eq!(trade(&mut p.data, ShopItem::GayButton), Trade::Sold);
    assert_eq!(p.data.points, 9);
    assert_eq!(p.data.items, vec![ShopItem::DarkMode]);
}

#[test]
fn selling_saturates_points() {
    let mut p = profile_with(u16::MAX - 1, vec![ShopItem::Thanos]);
    assert_eq!(trade(&mut p.data, ShopItem::Thanos), Trade::Sold);
    assert_eq!(p.data.points, u16::MAX);
    assert!(p.data.items.is_empty());
}

#[test]
fn bonus_is_added_and_item_used_up() {
    let mut p = profile_with(4, vec![ShopItem::DarkMode, ShopItem::FiftyFifty]);
    apply_bonus(&mut p.data, 2);
    assert_eq!(p.data.points, 6);
    assert_eq!(p.data.items, vec![ShopItem::DarkMode]);
    let mut q = profile_with(4, vec![ShopItem::FiftyFifty]);
    apply_bonus(&mut q.data, 0);
    assert_eq!(q.data.points, 4);
    assert!(q.data.items.is_empty());
}

#[test]
fn owned_items_follow_catalog() {
    let p = profile_with(0, vec![ShopItem::DoubleSpeed]);
    let owned = p.owned_items();
    assert_eq!(owned.len(), 5);
    assert_eq!(owned[0], ("FiftyFifty".to_string(), false));
    assert_eq!(owned[3], ("DoubleSpeed".to_string(), true));
    assert!(p.has_item(ShopItem::DoubleSpeed));
    assert!(!p.has_item(ShopItem::Thanos));
}

#[test]
fn items_parse_by_name() {
    assert_eq!(ShopItem::parse(&"DarkMode".to_string()), Some(ShopItem::DarkMode));
    assert_eq!(ShopItem::parse(&"Thanos".to_string()), Some(ShopItem::Thanos));
    assert_eq!(ShopItem::parse(&"thanos".to_string()), None);
    assert_eq!(ShopItem::parse(&"".to_string()), None);
    assert_eq!(ShopItem::FiftyFifty.name(), "FiftyFifty");
}
