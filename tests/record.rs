use game::codec::{decode, encode};
use game::item::ShopItem;
use game::profile::UserData;

fn sample() -> UserData {
    UserData {
        username: "zoë".to_string(),
        hash: "$2b$04$abc".to_string(),
        points: 513,
        next: -86_401,
        ready: true,
        items: vec![ShopItem::Thanos, ShopItem::DarkMode],
    }
}

fn same(a: &UserData, b: &UserData) -> bool {
    a.username == b.username
        && a.hash == b.hash
        && a.points == b.points
        && a.next == b.next
        && a.ready == b.ready
        && a.items == b.items
}

#[test]
fn encode_then_decode_is_lossless() {
    let d = sample();
    let bytes = encode(&d);
    let back = decode(&bytes).unwrap();
    assert!(same(&d, &back));
}

#[test]
fn encode_matches_bincode_layout() {
    let d = sample();
    let codes: Vec<u8> = d.items.iter().map(|i| i.code()).collect();
    let expected = bincode::serialize(&(
        d.username.clone(),
        d.hash.clone(),
        d.points,
        d.next,
        d.ready,
        codes,
    ))
    .unwrap();
    assert_eq!(encode(&d), expected);
}

#[test]
fn encoded_bytes_of_small_record() {
    let d = UserData {
        username: "a".to_string(),
        hash: "".to_string(),
        points: 258,
        next: 1,
        ready: false,
        items: vec![ShopItem::GayButton],
    };
    let mut expected = vec![1, 0, 0, 0, 0, 0, 0, 0, b'a'];
    expected.extend_from_slice(&[0; 8]);
    expected.extend_from_slice(&[2, 1]);
    expected.extend_from_slice(&[1, 0, 0, 0, 0, 0, 0, 0]);
    expected.push(0);
    expected.extend_from_slice(&[1, 0, 0, 0, 0, 0, 0, 0]);
    expected.push(2);
    assert_eq!(encode(&d), expected);
}

#[test]
fn decode_rejects_bad_records() {
    let good = encode(&sample());
    assert!(decode(&good[..good.len() - 1]).is_none());
    let mut longer = good.clone();
    longer.push(0);
    assert!(decode(&longer).is_none());
    let mut bad_code = good.clone();
    let last = bad_code.len() - 1;
    bad_code[last] = 9;
    assert!(decode(&bad_code).is_none());
    let mut dup = good.clone();
    dup[last] = 5;
    assert!(decode(&dup).is_none());
    let mut bad_flag = good.clone();
    let flag_at = good.len() - 2 - 8 - 1;
    bad_flag[flag_at] = 2;
    assert!(decode(&bad_flag).is_none());
    assert!(decode(&[]).is_none());
    let bad_text = vec![1, 0, 0, 0, 0, 0, 0, 0, 0xff];
    assert!(decode(&bad_text).is_none());
}

#[test]
fn empty_record_round_trips() {
    let d = UserData {
        username: String::new(),
        hash: String::new(),
        points: 0,
        next: i64::MIN,
        ready: false,
        items: vec![],
    };
    let back = decode(&encode(&d)).unwrap();
    assert!(same(&d, &back));
}
