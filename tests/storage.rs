use game::account::{claim, create_profile, login, register, AccountError};
use game::item::ShopItem;
use game::leaderboard::leaderboard;
use game::profile::{Profile, UserData};
use game::shop::{buy, Trade};
use game::store::{Database, StoreError};

fn temp_store() -> (tempfile::TempDir, Database) {
    let dir = tempfile::tempdir().unwrap();
    let path = dir.path().join("db");
    let db = Database::open(path.to_str().unwrap()).unwrap();
    (dir, db)
}

fn stored(db: &mut Database, id: &str, name: &str, points: u16, items: Vec<ShopItem>) -> Profile {
    let p = Profile::new(
        id.to_string(),
        UserData {
            username: name.to_string(),
            hash: "h".to_string(),
            points,
            next: 0,
            ready: true,
            items,
        },
    );
    db.save_profile(&p).unwrap();
    p
}

#[test]
fn save_then_load() {
    let (_dir, mut db) = temp_store();
    stored(&mut db, "12", "ann", 7, vec![ShopItem::DarkMode]);
    let p = db.load_profile("12").unwrap().unwrap();
    assert_eq!(p.id, "12");
    assert_eq!(p.data.username, "ann");
    assert_eq!(p.data.points, 7);
    assert_eq!(p.data.items, vec![ShopItem::DarkMode]);
    assert!(db.load_profile("13").unwrap().is_none());
}

#[test]
fn save_overwrites() {
    let (_dir, mut db) = temp_store();
    stored(&mut db, "1", "ann", 7, vec![]);
    stored(&mut db, "1", "ann", 9, vec![]);
    assert_eq!(db.load_profile("1").unwrap().unwrap().data.points, 9);
    assert_eq!(db.get_profiles().unwrap().len(), 1);
}

#[test]
fn corrupt_record_is_reported_on_load_and_skipped_in_scans() {
    let dir = tempfile::tempdir().unwrap();
    let path = dir.path().join("db");
    {
        let raw = sled::open(&path).unwrap();
        raw.insert(b"5", vec![1u8, 2, 3]).unwrap();
        raw.insert(vec![0xffu8, 0xfe], vec![0u8]).unwrap();
        raw.flush().unwrap();
    }
    let mut db = Database::open(path.to_str().unwrap()).unwrap();
    stored(&mut db, "6", "bea", 1, vec![]);
    assert!(matches!(db.load_profile("5"), Err(StoreError::DataCorruption)));
    let all = db.get_profiles().unwrap();
    assert_eq!(all.len(), 1);
    assert_eq!(all[0].id, "6");
}

#[test]
fn find_by_username_finds_the_right_profile() {
    let (_dir, mut db) = temp_store();
    stored(&mut db, "1", "ann", 1, vec![]);
    stored(&mut db, "2", "bea", 2, vec![]);
    let p = db.find_by_username(&"bea".to_string()).unwrap().unwrap();
    assert_eq!(p.id, "2");
    assert_eq!(p.data.points, 2);
    assert!(db.find_by_username(&"cid".to_string()).unwrap().is_none());
    assert_eq!(db.get_id(&"ann".to_string()).unwrap(), Some("1".to_string()));
    assert_eq!(db.get_id(&"zed".to_string()).unwrap(), None);
}

#[test]
fn leaderboard_sorted_by_points() {
    let (_dir, mut db) = temp_store();
    stored(&mut db, "1", "ann", 5, vec![]);
    stored(&mut db, "2", "bea", 9, vec![]);
    stored(&mut db, "3", "cid", 1, vec![]);
    stored(&mut db, "4", "dan", 5, vec![]);
    let board = leaderboard(&db).unwrap();
    assert_eq!(board.len(), 4);
    assert_eq!(
        board,
        vec![
            ("bea".to_string(), 9),
            ("ann".to_string(), 5),
            ("dan".to_string(), 5),
            ("cid".to_string(), 1),
        ]
    );
}

#[test]
fn leaderboard_of_empty_store() {
    let (_dir, db) = temp_store();
    assert!(leaderboard(&db).unwrap().is_empty());
}

#[test]
fn create_profile_rejects_taken_username() {
    let (_dir, mut db) = temp_store();
    let p = create_profile(&mut db, "ann".to_string(), "h1".to_string()).unwrap();
    assert_eq!(p.data.points, 0);
    assert!(p.data.ready);
    assert!(p.id.parse::<u64>().is_ok());
    let again = create_profile(&mut db, "ann".to_string(), "h2".to_string());
    assert!(matches!(again, Err(AccountError::DuplicateUsername)));
    let q = create_profile(&mut db, "bea".to_string(), "h3".to_string()).unwrap();
    assert_ne!(p.id, q.id);
    assert_eq!(db.get_profiles().unwrap().len(), 2);
}

#[test]
fn register_and_login() {
    let (_dir, mut db) = temp_store();
    let p = register(&mut db, "ann".to_string(), "secret".to_string()).unwrap();
    assert_ne!(p.data.hash, "secret");
    assert!(matches!(
        register(&mut db, "ann".to_string(), "other".to_string()),
        Err(AccountError::DuplicateUsername)
    ));
    assert!(matches!(
        register(&mut db, "".to_string(), "x".to_string()),
        Err(AccountError::EmptyCredentials)
    ));
    assert!(matches!(
        register(&mut db, "bob".to_string(), "".to_string()),
        Err(AccountError::EmptyCredentials)
    ));
    let q = login(&db, &"ann".to_string(), &"secret".to_string()).unwrap();
    assert_eq!(q.id, p.id);
    assert!(matches!(
        login(&db, &"ann".to_string(), &"wrong".to_string()),
        Err(AccountError::WrongPassword)
    ));
    assert!(matches!(
        login(&db, &"bob".to_string(), &"secret".to_string()),
        Err(AccountError::UnknownUser)
    ));
    assert!(matches!(
        login(&db, &"ann".to_string(), &"".to_string()),
        Err(AccountError::EmptyCredentials)
    ));
}

#[test]
fn claim_persists_and_then_cools_down() {
    let (_dir, mut db) = temp_store();
    let mut p = stored(&mut db, "1", "ann", 0, vec![]);
    assert_eq!(claim(&mut db, &mut p).unwrap(), None);
    assert_eq!(p.data.points, 1);
    assert_eq!(db.load_profile("1").unwrap().unwrap().data.points, 1);
    let msg = claim(&mut db, &mut p).unwrap().unwrap();
    assert!(msg.starts_with("come back in 2"));
    assert_eq!(p.data.points, 1);
    assert_eq!(db.load_profile("1").unwrap().unwrap().data.points, 1);
}

#[test]
fn buying_dark_mode_is_stored() {
    let (_dir, mut db) = temp_store();
    let mut p = stored(&mut db, "1", "ann", 5, vec![]);
    assert_eq!(buy(&mut db, &mut p, ShopItem::DarkMode).unwrap(), Trade::Bought);
    let s = db.load_profile("1").unwrap().unwrap();
    assert_eq!(s.data.points, 2);
    assert_eq!(s.data.items, vec![ShopItem::DarkMode]);
    assert_eq!(buy(&mut db, &mut p, ShopItem::Thanos).unwrap(), Trade::Declined);
    assert_eq!(p.data.points, 2);
    assert_eq!(buy(&mut db, &mut p, ShopItem::DarkMode).unwrap(), Trade::Sold);
    let s = db.load_profile("1").unwrap().unwrap();
    assert_eq!(s.data.points, 4);
    assert!(s.data.items.is_empty());
}

#[test]
fn fifty_fifty_is_used_up() {
    let (_dir, mut db) = temp_store();
    let mut p = stored(&mut db, "1", "ann", 5, vec![ShopItem::DarkMode]);
    assert_eq!(buy(&mut db, &mut p, ShopItem::FiftyFifty).unwrap(), Trade::Bought);
    assert!(p.data.points == 4 || p.data.points == 6);
    assert_eq!(p.data.items, vec![ShopItem::DarkMode]);
    let s = db.load_profile("1").unwrap().unwrap();
    assert_eq!(s.data.points, p.data.points);
    assert_eq!(s.data.items, vec![ShopItem::DarkMode]);
}

#[test]
fn thanos_zeroes_half_of_the_others() {
    let (_dir, mut db) = temp_store();
    for i in 2..7 {
        stored(&mut db, &i.to_string(), &format!("u{}", i), 10, vec![]);
    }
    let mut buyer = stored(&mut db, "1", "buyer", 60, vec![]);
    assert_eq!(buy(&mut db, &mut buyer, ShopItem::Thanos).unwrap(), Trade::Bought);
    assert!(!buyer.data.items.contains(&ShopItem::Thanos));
    assert_eq!(buyer.data.points, 10);
    let all = db.get_profiles().unwrap();
    assert_eq!(all.len(), 6);
    let zeroed = all.iter().filter(|p| p.data.points == 0).count();
    assert_eq!(zeroed, 2);
    let me = db.load_profile("1").unwrap().unwrap();
    assert_eq!(me.data.points, 10);
    assert!(me.data.items.is_empty());
}

#[test]
fn thanos_alone_zeroes_nobody() {
    let (_dir, mut db) = temp_store();
    let mut buyer = stored(&mut db, "1", "buyer", 50, vec![]);
    let victims = ShopItem::Thanos.buy_hook(&mut db, &mut buyer).unwrap();
    assert!(victims.is_empty());
    assert_eq!(buyer.data.points, 50);
}

#[test]
fn insert_new_uses_fresh_decimal_ids() {
    let (_dir, mut db) = temp_store();
    let d = UserData::new_at("ann".to_string(), "h".to_string(), 0);
    let p = db.insert_new(d).unwrap();
    assert!(p.id.chars().all(|c| c.is_ascii_digit()));
    let q = db.insert_new(UserData::new_at("bea".to_string(), "h".to_string(), 0)).unwrap();
    assert_ne!(p.id, q.id);
    assert_eq!(db.load_profile(&q.id).unwrap().unwrap().data.username, "bea");
}

#[test]
fn leaderboard_breaks_ties_by_username() {
    let (_dir, mut db) = temp_store();
    stored(&mut db, "1", "zed", 5, vec![]);
    stored(&mut db, "2", "amy", 5, vec![]);
    stored(&mut db, "3", "max", 7, vec![]);
    let board = leaderboard(&db).unwrap();
    assert_eq!(
        board,
        vec![("max".to_string(), 7), ("amy".to_string(), 5), ("zed".to_string(), 5)]
    );
}

#[test]
fn unusable_path_is_store_unavailable() {
    let file = tempfile::NamedTempFile::new().unwrap();
    let inside = file.path().join("db");
    assert!(matches!(
        Database::open(inside.to_str().unwrap()),
        Err(StoreError::StoreUnavailable)
    ));
}

#[test]
fn malformed_stored_hash_fails_login() {
    let (_dir, mut db) = temp_store();
    stored(&mut db, "1", "ann", 0, vec![]);
    assert!(matches!(
        login(&db, &"ann".to_string(), &"pw".to_string()),
        Err(AccountError::HashFailed)
    ));
}
