use game::codec::encode;
use game::item::ShopItem;
use game::leaderboard::rank;
use game::profile::{Profile, UserData};
use game::shop::{buy, Trade};
use game::store::{first_with_username, profiles_of, Database, StoreError};
use game::text::decimal_text;

fn temp_store() -> (tempfile::TempDir, Database) {
    let dir = tempfile::tempdir().unwrap();
    let path = dir.path().join("db");
    let db = Database::open(path.to_str().unwrap()).unwrap();
    (dir, db)
}

fn record(name: &str, points: u16) -> UserData {
    UserData {
        username: name.to_string(),
        hash: "h".to_string(),
        points,
        next: 0,
        ready: true,
        items: vec![],
    }
}

#[test]
fn profiles_of_keeps_order_and_skips_bad_entries() {
    let entries = vec![
        (b"1".to_vec(), encode(&record("ann", 3))),
        (vec![0xffu8, 0xfe], encode(&record("bad", 1))),
        (b"2".to_vec(), vec![9u8, 9]),
        (b"3".to_vec(), encode(&record("cid", 5))),
    ];
    let out = profiles_of(&entries);
    assert_eq!(out.len(), 2);
    assert_eq!(out[0].id, "1");
    assert_eq!(out[0].data.username, "ann");
    assert_eq!(out[1].id, "3");
    assert_eq!(out[1].data.points, 5);
}

#[test]
fn first_with_username_takes_the_earliest() {
    let profiles = vec![
        Profile::new("1".to_string(), record("bea", 1)),
        Profile::new("2".to_string(), record("ann", 2)),
        Profile::new("3".to_string(), record("ann", 3)),
    ];
    let p = first_with_username(&profiles, &"ann".to_string()).unwrap();
    assert_eq!(p.id, "2");
    assert!(first_with_username(&profiles, &"zed".to_string()).is_none());
}

#[test]
fn find_by_username_follows_key_order() {
    let (_dir, mut db) = temp_store();
    db.save_profile(&Profile::new("2".to_string(), record("ann", 1))).unwrap();
    db.save_profile(&Profile::new("10".to_string(), record("ann", 2))).unwrap();
    let p = db.find_by_username(&"ann".to_string()).unwrap().unwrap();
    assert_eq!(p.id, "10");
    let all = db.get_profiles().unwrap();
    assert_eq!(all[0].id, "10");
    assert_eq!(all[1].id, "2");
}

#[test]
fn rank_orders_by_points_then_name() {
    let profiles = vec![
        Profile::new("1".to_string(), record("zed", 4)),
        Profile::new("2".to_string(), record("amy", 9)),
        Profile::new("3".to_string(), record("bob", 4)),
    ];
    let board = rank(&profiles);
    assert_eq!(
        board,
        vec![("amy".to_string(), 9), ("bob".to_string(), 4), ("zed".to_string(), 4)]
    );
    assert!(rank(&vec![]).is_empty());
}

#[test]
fn generated_ids_increase() {
    let (_dir, mut db) = temp_store();
    let a = db.gen_id().unwrap();
    let b = db.gen_id().unwrap();
    assert!(b > a);
}

#[test]
fn insert_new_leaves_a_taken_id_alone() {
    let (_dir, mut db) = temp_store();
    let n = db.gen_id().unwrap();
    let taken = (n + 1).to_string();
    db.save_profile(&Profile::new(taken.clone(), record("old", 7))).unwrap();
    let r = db.insert_new(record("new", 0));
    assert!(matches!(r, Err(StoreError::WriteError)));
    assert_eq!(db.load_profile(&taken).unwrap().unwrap().data.username, "old");
}

#[test]
fn declined_purchase_is_ok_and_changes_nothing() {
    let (_dir, mut db) = temp_store();
    let mut p = Profile::new("1".to_string(), record("ann", 4));
    let r = buy(&mut db, &mut p, ShopItem::GayButton);
    assert_eq!(r, Ok(Trade::Declined));
    assert_eq!(p.data.points, 4);
    assert!(p.data.items.is_empty());
    assert!(db.load_profile("1").unwrap().is_none());
}

#[test]
fn decimal_text_writes_digits() {
    assert_eq!(decimal_text(0), "0");
    assert_eq!(decimal_text(7), "7");
    assert_eq!(decimal_text(10), "10");
    assert_eq!(decimal_text(12345), "12345");
    assert_eq!(decimal_text(u64::MAX), "18446744073709551615");
}
