use game::account::{claim_at, refresh_at};
use game::profile::{Profile, UserData};
use game::store::Database;

fn temp_store() -> (tempfile::TempDir, Database) {
    let dir = tempfile::tempdir().unwrap();
    let path = dir.path().join("db");
    let db = Database::open(path.to_str().unwrap()).unwrap();
    (dir, db)
}

fn profile(points: u16, next: i64, ready: bool) -> Profile {
    Profile::new(
        "1".to_string(),
        UserData {
            username: "ann".to_string(),
            hash: "h".to_string(),
            points,
            next,
            ready,
            items: vec![],
        },
    )
}

#[test]
fn claim_at_from_ready_adds_a_point_and_stores_it() {
    let (_dir, mut db) = temp_store();
    let mut p = profile(4, 0, true);
    db.save_profile(&p).unwrap();
    let r = claim_at(&mut db, &mut p, 1000).unwrap();
    assert!(r.is_none());
    assert_eq!(p.data.points, 5);
    assert_eq!(p.data.next, 1000 + 86400);
    assert!(!p.data.ready);
    let q = db.load_profile("1").unwrap().unwrap();
    assert_eq!(q.data.points, 5);
    assert_eq!(q.data.next, 1000 + 86400);
}

#[test]
fn claim_at_while_cooling_keeps_points_and_stores_nothing() {
    let (_dir, mut db) = temp_store();
    let mut p = profile(4, 10_000, false);
    let r = claim_at(&mut db, &mut p, 10_000 - 3_720).unwrap();
    assert_eq!(r, Some("come back in 1h 2m to get again".to_string()));
    let r2 = claim_at(&mut db, &mut p, 10_000 - 60).unwrap();
    assert_eq!(r2, Some("come back in 0h 1m to get again".to_string()));
    assert_eq!(p.data.points, 4);
    assert!(db.load_profile("1").unwrap().is_none());
}

#[test]
fn refresh_at_stores_the_flip_to_ready() {
    let (_dir, mut db) = temp_store();
    let mut p = profile(4, 500, false);
    db.save_profile(&p).unwrap();
    let r = refresh_at(&mut db, &mut p, 600).unwrap();
    assert!(r.is_none());
    assert!(p.data.ready);
    assert!(db.load_profile("1").unwrap().unwrap().data.ready);
}
