//! Buying and selling items, and the effects of the special items.

use rand::seq::SliceRandom;
use rand::Rng;
use vstd::prelude::*;

use crate::codec::lemma_parse_exact;
use crate::item::{catalog, ShopItem};
use crate::profile::{other_than, saturating_points, Profile, UserData, UserRecord};
use crate::store::{id_key, lemma_store_record, listing, Database, StoreError};

verus! {

/// The order in which the shop lists items: by effective price, then by name.
pub open spec fn display_key(item: ShopItem, d: UserRecord) -> int {
    item.effective_price(d.owns(item)) * 5 + item.name_rank()
}

/// What a trade did.
#[derive(Clone, Copy, Debug, PartialEq, Eq, Structural)]
pub enum Trade {
    /// The item was owned and was sold back.
    Sold,
    /// The item was bought.
    Bought,
    /// The item was not owned and the points did not cover its price.
    Declined,
}

/// The record and the outcome of asking to trade `item`: an owned item is
/// sold back at the discounted price; another is bought when the points
/// cover its base price, and nothing happens otherwise.
pub open spec fn traded(d: UserRecord, item: ShopItem) -> (UserRecord, Trade) {
    if d.owns(item) {
        (
            UserRecord {
                points: saturating_points(d.points + item.sell_price()),
                items: d.items.filter(other_than(item)),
                ..d
            },
            Trade::Sold,
        )
    } else if d.points >= item.base_price() {
        (
            UserRecord {
                points: (d.points - item.base_price()) as u16,
                items: d.items.push(item),
                ..d
            },
            Trade::Bought,
        )
    } else {
        (d, Trade::Declined)
    }
}

/// The record after the `FiftyFifty` hook with a bonus of `bonus` points:
/// the bonus is added (saturating) and the item is used up.
pub open spec fn with_bonus(d: UserRecord, bonus: u16) -> UserRecord {
    UserRecord {
        points: saturating_points(d.points + bonus),
        items: d.items.filter(other_than(ShopItem::FiftyFifty)),
        ..d
    }
}

impl ShopItem {
    /// The item's price for a profile: discounted where the profile owns it.
    pub fn get_price(&self, profile: &Profile) -> (r: Option<u16>)
        ensures
            r == Some(self.effective_price(profile@.data.owns(*self))),
    {
        Some(self.price_with_sell(profile.has_item(*self)))
    }

    /// Every catalog item as (name, effective price, owned), by effective
    /// price and then by name.
    pub fn get_display_prices(profile: &Profile) -> (r: Vec<(String, u16, bool)>)
        ensures
            r@.len() == catalog().len(),
            exists|items: Seq<ShopItem>|
                {
                    &&& items.len() == r@.len()
                    &&& items.no_duplicates()
                    &&& forall|it: ShopItem| items.contains(it)
                    &&& forall|i: int|
                        #![trigger items[i]]
                        0 <= i < items.len() ==> r@[i].0@ == items[i].spec_name() && r@[i].1
                            == items[i].effective_price(profile@.data.owns(items[i])) && r@[i].2
                            == profile@.data.owns(items[i])
                    &&& forall|i: int, j: int|
                        0 <= i < j < items.len() ==> display_key(items[i], profile@.data)
                            < display_key(items[j], profile@.data)
                },
    {
        let d = &profile.data;
        let prices = ShopItem::get_prices();
        let mut order: Vec<ShopItem> = Vec::new();
        let mut k: usize = 0;
        while k < prices.len()
            invariant
                k <= prices@.len(),
                prices@.len() == catalog().len(),
                forall|j: int|
                    0 <= j < prices@.len() ==> #[trigger] prices@[j] == (
                        catalog()[j],
                        catalog()[j].base_price(),
                    ),
                order@.len() == k,
                order@.no_duplicates(),
                forall|x: ShopItem| order@.contains(x) <==> exists|j: int| 0 <= j < k && catalog()[j] == x,
                forall|a: int, b: int|
                    0 <= a < b < order@.len() ==> display_key(order@[a], d@) < display_key(order@[b], d@),
            decreases prices@.len() - k,
        {
            let item = prices[k].0;
            assert(prices@[k as int] == (catalog()[k as int], catalog()[k as int].base_price()));
            let key = item.price_with_sell(d.has_item(item)) as u64 * 5 + item.rank();
            let mut pos: usize = 0;
            while pos < order.len() && order[pos].price_with_sell(d.has_item(order[pos])) as u64 * 5
                + order[pos].rank() < key
                invariant
                    pos <= order@.len(),
                    key == display_key(item, d@),
                    forall|a: int| 0 <= a < pos ==> display_key(order@[a], d@) < key,
                decreases order@.len() - pos,
            {
                pos = pos + 1;
            }
            let ghost before = order@;
            proof {
                assert(!before.contains(item)) by {
                    if before.contains(item) {
                        let j = choose|j: int| 0 <= j < k && catalog()[j] == item;
                        assert(j == k as int);
                    }
                }
                if pos < before.len() {
                    assert(display_key(before[pos as int], d@) != key) by {
                        if display_key(before[pos as int], d@) == key {
                            assert(before[pos as int].name_rank() == item.name_rank());
                            assert(before.contains(before[pos as int]));
                        }
                    }
                }
            }
            order.insert(pos, item);
            proof {
                before.insert_ensures(pos as int, item);
                assert forall|a: int, b: int| 0 <= a < b < order@.len() implies display_key(
                    order@[a],
                    d@,
                ) < display_key(order@[b], d@) by {
                    if b < pos {
                    } else if b == pos {
                    } else if a < pos {
                        assert(order@[b] == before[b - 1]);
                        if b - 1 > pos {
                            assert(display_key(before[pos as int], d@) < display_key(before[b - 1], d@));
                        }
                    } else if a == pos {
                        assert(order@[b] == before[b - 1]);
                        if b - 1 > pos {
                            assert(display_key(before[pos as int], d@) < display_key(before[b - 1], d@));
                        }
                    } else {
                        assert(order@[a] == before[a - 1]);
                        assert(order@[b] == before[b - 1]);
                    }
                }
                assert forall|a: int, b: int| 0 <= a < b < order@.len() implies order@[a] != order@[b] by {
                    if a == pos {
                        assert(order@[b] == before[b - 1]);
                    } else if b == pos {
                        assert(order@[a] == before[a]);
                    } else if a < pos && b < pos {
                        assert(order@[a] == before[a]);
                        assert(order@[b] == before[b]);
                    } else if a < pos {
                        assert(order@[a] == before[a]);
                        assert(order@[b] == before[b - 1]);
                    } else {
                        assert(order@[a] == before[a - 1]);
                        assert(order@[b] == before[b - 1]);
                    }
                }
                assert forall|x: ShopItem| order@.contains(x) <==> exists|j: int|
                    0 <= j < k + 1 && catalog()[j] == x by {
                    if order@.contains(x) {
                        let i = choose|i: int| 0 <= i < order@.len() && order@[i] == x;
                        if i < pos {
                            assert(before[i] == x);
                            assert(before.contains(x));
                        } else if i > pos {
                            assert(before[i - 1] == x);
                            assert(before.contains(x));
                        } else {
                            assert(catalog()[k as int] == x);
                        }
                    }
                    if exists|j: int| 0 <= j < k + 1 && catalog()[j] == x {
                        let j = choose|j: int| 0 <= j < k + 1 && catalog()[j] == x;
                        if j == k {
                            assert(order@[pos as int] == x);
                        } else {
                            assert(before.contains(x));
                            let i = choose|i: int| 0 <= i < before.len() && before[i] == x;
                            if i < pos {
                                assert(order@[i] == x);
                            } else {
                                assert(order@[i + 1] == x);
                            }
                        }
                    }
                }
            }
            k = k + 1;
        }
        let mut out: Vec<(String, u16, bool)> = Vec::new();
        let mut i: usize = 0;
        while i < order.len()
            invariant
                i <= order@.len(),
                out@.len() == i,
                forall|a: int|
                    #![trigger out@[a]]
                    0 <= a < i ==> out@[a].0@ == order@[a].spec_name() && out@[a].1
                        == order@[a].effective_price(d@.owns(order@[a])) && out@[a].2 == d@.owns(
                        order@[a],
                    ),
            decreases order@.len() - i,
        {
            let item = order[i];
            let owned = d.has_item(item);
            out.push((item.name(), item.price_with_sell(owned), owned));
            i = i + 1;
        }
        proof {
            assert forall|it: ShopItem| order@.contains(it) by {
                let j: int = match it {
                    ShopItem::FiftyFifty => 0,
                    ShopItem::DarkMode => 1,
                    ShopItem::GayButton => 2,
                    ShopItem::DoubleSpeed => 3,
                    ShopItem::Thanos => 4,
                };
                assert(catalog()[j] == it);
            }
        }
        out
    }
}

/// Trades an item: sells it back where it is owned, buys it where the points
/// cover its base price, and does nothing otherwise.
pub fn trade(data: &mut UserData, item: ShopItem) -> (r: Trade)
    requires
        old(data)@.wf(),
    ensures
        (final(data)@, r) == traded(old(data)@, item),
        final(data)@.wf(),
{
    if data.has_item(item) {
        let price = item.price_with_sell(true);
        data.points = data.points.saturating_add(price);
        data.remove_item(item);
        Trade::Sold
    } else {
        let price = item.base();
        if data.points >= price {
            data.points = data.points - price;
            data.add_item(item);
            Trade::Bought
        } else {
            Trade::Declined
        }
    }
}

/// The `FiftyFifty` hook with a drawn bonus: adds the bonus and uses the
/// item up, so that it cannot be sold back.
pub fn apply_bonus(data: &mut UserData, bonus: u16)
    requires
        old(data)@.wf(),
    ensures
        final(data)@ == with_bonus(old(data)@, bonus),
        final(data)@.wf(),
        !final(data)@.owns(ShopItem::FiftyFifty),
{
    data.points = data.points.saturating_add(bonus);
    data.remove_item(ShopItem::FiftyFifty);
}

/// A record with its points taken away.
pub open spec fn zeroed(d: UserRecord) -> UserRecord {
    UserRecord { points: 0, ..d }
}

/// The profiles `m` with the points of each of `victims` taken away.
pub open spec fn snapped(m: Map<Seq<char>, UserRecord>, victims: Seq<Seq<char>>) -> Map<
    Seq<char>,
    UserRecord,
> {
    Map::new(
        |id: Seq<char>| m.contains_key(id),
        |id: Seq<char>|
            if victims.contains(id) {
                zeroed(m[id])
            } else {
                m[id]
            },
    )
}

/// The ids of every profile of `m` but the buyer's.
pub open spec fn others(m: Map<Seq<char>, UserRecord>, buyer: Seq<char>) -> Set<Seq<char>> {
    m.dom().remove(buyer)
}

/// `victims` picks exactly half (rounded down) of the profiles other than
/// the buyer's, each once.
pub open spec fn fair_pick(
    before: Map<Seq<char>, UserRecord>,
    buyer: Seq<char>,
    victims: Seq<Seq<char>>,
) -> bool {
    &&& others(before, buyer).finite()
    &&& victims.no_duplicates()
    &&& forall|i: int| 0 <= i < victims.len() ==> others(before, buyer).contains(#[trigger] victims[i])
    &&& victims.len() == others(before, buyer).len() / 2
}

/// The outcome of the `Thanos` hook: the points of exactly half (rounded
/// down) of the other profiles, each picked once, are taken away, and
/// nothing else changes.
pub open spec fn snap_outcome(
    before: Map<Seq<char>, UserRecord>,
    buyer: Seq<char>,
    victims: Seq<Seq<char>>,
    after: Map<Seq<char>, UserRecord>,
) -> bool {
    &&& fair_pick(before, buyer, victims)
    &&& after == snapped(before, victims)
}

/// The view of a list of ids.
pub open spec fn id_view(v: Seq<String>) -> Seq<Seq<char>> {
    v.map_values(|s: String| s@)
}

/// Relies on `rand::Rng::gen_range` over `rand::thread_rng`: a value drawn
/// from `0..n`.
#[verifier::external_body]
fn draw_below(n: u16) -> (r: u16)
    requires
        n > 0,
    ensures
        r < n,
{
    rand::thread_rng().gen_range(0, n)
}

/// Relies on `rand::seq::SliceRandom::shuffle` over `rand::thread_rng`: the
/// same values, in some order.
#[verifier::external_body]
fn shuffle(v: &mut Vec<usize>)
    ensures
        final(v)@.to_multiset() == old(v)@.to_multiset(),
{
    v.shuffle(&mut rand::thread_rng())
}

/// The numbers `0..n` in a random order.
fn random_order(n: usize) -> (r: Vec<usize>)
    ensures
        r@.len() == n,
        r@.no_duplicates(),
        forall|i: int| 0 <= i < n ==> #[trigger] r@[i] < n,
{
    let mut v: Vec<usize> = Vec::new();
    let mut i: usize = 0;
    while i < n
        invariant
            i <= n,
            v@.len() == i,
            forall|j: int| 0 <= j < i ==> #[trigger] v@[j] == j,
        decreases n - i,
    {
        v.push(i);
        i = i + 1;
    }
    let ghost before = v@;
    shuffle(&mut v);
    proof {
        broadcast use vstd::seq_lib::group_to_multiset_ensures;
        assert(before.no_duplicates());
        before.to_multiset_ensures();
        v@.to_multiset_ensures();
        before.lemma_multiset_has_no_duplicates();
        v@.lemma_multiset_has_no_duplicates_conv();
        assert forall|i: int| 0 <= i < n implies #[trigger] v@[i] < n by {
            let x = v@[i];
            assert(v@.contains(x));
            assert(v@.to_multiset().count(x) > 0);
            assert(before.to_multiset().count(x) > 0);
            assert(before.contains(x));
            let j = choose|j: int| 0 <= j < before.len() && before[j] == x;
        }
        assert(v@.len() == before.len());
    }
    v
}

/// Holds between the store's contents `c` while victims are being picked and
/// the contents `c0` before: each profile not yet picked is stored as it was.
pub open spec fn unpicked_as_before(
    c: Map<Seq<u8>, Seq<u8>>,
    c0: Map<Seq<u8>, Seq<u8>>,
    victims: Seq<Seq<char>>,
) -> bool {
    forall|id: Seq<char>|
        #[trigger] crate::store::stored_profiles(c0).contains_key(id) && !victims.contains(id)
            ==> c.contains_key(id_key(id)) && c[id_key(id)] == c0[id_key(id)]
}

/// The profiles of `profiles` other than the buyer's.
#[verifier::spinoff_prover]
#[verifier::rlimit(60)]
fn others_of(profiles: &Vec<Profile>, buyer: &String, Ghost(m): Ghost<Map<Seq<char>, UserRecord>>) -> (pool: Vec<Profile>)
    requires
        listing(profiles@.map_values(|p: Profile| p@), m),
    ensures
        forall|a: int, b: int| 0 <= a < b < pool@.len() ==> pool@[a]@.id != pool@[b]@.id,
        forall|a: int|
            #![trigger pool@[a]]
            0 <= a < pool@.len() ==> others(m, buyer@).contains(pool@[a]@.id) && m[pool@[a]@.id]
                == pool@[a]@.data,
        others(m, buyer@).finite(),
        others(m, buyer@).len() == pool@.len(),
{
    let ghost v = profiles@.map_values(|p: Profile| p@);
    let mut pool: Vec<Profile> = Vec::new();
    let mut i: usize = 0;
    while i < profiles.len()
        invariant
            i <= profiles@.len(),
            v == profiles@.map_values(|p: Profile| p@),
            listing(v, m),
            forall|a: int, b: int| 0 <= a < b < pool@.len() ==> pool@[a]@.id != pool@[b]@.id,
            forall|a: int|
                #![trigger pool@[a]]
                0 <= a < pool@.len() ==> others(m, buyer@).contains(pool@[a]@.id) && m[pool@[a]@.id]
                    == pool@[a]@.data,
            forall|a: int| #![trigger pool@[a]] 0 <= a < pool@.len() ==> exists|j: int| 0 <= j < i && v[j].id == pool@[a]@.id,
            forall|j: int|
                #![trigger v[j]]
                0 <= j < i && v[j].id != buyer@ ==> exists|a: int|
                    0 <= a < pool@.len() && pool@[a]@.id == v[j].id,
        decreases profiles@.len() - i,
    {
        let ghost prev = pool@;
        assert(v[i as int] == profiles@[i as int]@);
        if profiles[i].id != *buyer {
            proof {
                assert forall|a: int| 0 <= a < prev.len() implies prev[a]@.id != v[i as int].id by {
                    let j = choose|j: int| 0 <= j < i && v[j].id == prev[a]@.id;
                }
            }
            pool.push(profiles[i].duplicate());
        }
        proof {
            assert forall|a: int| #![trigger pool@[a]] 0 <= a < pool@.len() implies exists|j: int| 0 <= j < i + 1 && v[j].id == pool@[a]@.id by {
                if a < prev.len() {
                    assert(pool@[a] == prev[a]);
                    let j = choose|j: int| 0 <= j < i && v[j].id == prev[a]@.id;
                } else {
                    assert(v[i as int].id == pool@[a]@.id);
                }
            }
            assert forall|j: int|
                #![trigger v[j]]
                0 <= j < i + 1 && v[j].id != buyer@ implies exists|a: int|
                    0 <= a < pool@.len() && pool@[a]@.id == v[j].id by {
                if j < i {
                    let a = choose|a: int| 0 <= a < prev.len() && prev[a]@.id == v[j].id;
                    assert(pool@[a] == prev[a]);
                } else {
                    assert(pool@[pool@.len() - 1]@.id == v[j].id);
                }
            }
        }
        i = i + 1;
    }
    proof {
        let pool_ids = pool@.map_values(|p: Profile| p@.id);
        assert(pool_ids.no_duplicates());
        assert forall|x: Seq<char>| pool_ids.to_set().contains(x) <==> others(m, buyer@).contains(x) by {
            if others(m, buyer@).contains(x) {
                let j = choose|j: int| 0 <= j < v.len() && v[j].id == x;
                let a = choose|a: int| 0 <= a < pool@.len() && pool@[a]@.id == v[j].id;
                assert(pool_ids[a] == x);
            }
            if pool_ids.to_set().contains(x) {
                assert(pool_ids.contains(x));
                let a = choose|a: int| 0 <= a < pool_ids.len() && pool_ids[a] == x;
                assert(pool@[a]@.id == x);
            }
        }
        assert(pool_ids.to_set() =~= others(m, buyer@));
        pool_ids.unique_seq_to_set();
    }
    pool
}

/// Takes away the points of one profile that has not been picked yet: its
/// record is replaced only where it is still stored as it was read.
fn take_points(
    db: &mut Database,
    p: &Profile,
    Ghost(c0): Ghost<Map<Seq<u8>, Seq<u8>>>,
    Ghost(victims): Ghost<Seq<Seq<char>>>,
) -> (r: Result<bool, StoreError>)
    requires
        crate::store::stored_profiles(c0).contains_key(p@.id),
        crate::store::stored_profiles(c0)[p@.id] == p@.data,
        !victims.contains(p@.id),
        old(db).profiles() == snapped(crate::store::stored_profiles(c0), victims),
        unpicked_as_before(old(db).entries(), c0, victims),
    ensures
        r matches Ok(b) ==> b && final(db).profiles() == snapped(
            crate::store::stored_profiles(c0),
            victims.push(p@.id),
        ) && unpicked_as_before(final(db).entries(), c0, victims.push(p@.id)),
        r matches Err(e) ==> e == StoreError::WriteError,
{
    let ghost m0 = crate::store::stored_profiles(c0);
    let ghost id = p@.id;
    proof {
        lemma_parse_exact(c0[id_key(id)]);
        crate::codec::lemma_parse_wf(c0[id_key(id)]);
    }
    let mut data = p.data.duplicate();
    data.points = 0;
    let ghost e_before = db.entries();
    match db.replace_if_unchanged(p, &data) {
        Ok(true) => {},
        Ok(false) => {
            return Ok(false);
        },
        Err(e) => {
            return Err(e);
        },
    }
    proof {
        lemma_store_record(e_before, id, data@);
        let vids2 = victims.push(id);
        assert(vids2[victims.len() as int] == id);
        assert forall|x: Seq<char>| vids2.contains(x) <==> victims.contains(x) || x == id by {
            if vids2.contains(x) && x != id {
                let j = choose|j: int| 0 <= j < vids2.len() && vids2[j] == x;
                assert(victims[j] == x);
            }
            if victims.contains(x) {
                let j = choose|j: int| 0 <= j < victims.len() && victims[j] == x;
                assert(vids2[j] == x);
            }
        }
        assert(data@ == zeroed(m0[id]));
        assert(db.profiles() =~= snapped(m0, vids2));
        assert forall|x: Seq<char>|
            #[trigger] m0.contains_key(x) && !vids2.contains(x) implies db.entries().contains_key(id_key(x))
                && db.entries()[id_key(x)] == c0[id_key(x)] by {
            vstd::utf8::encode_utf8_decode_utf8(x);
            vstd::utf8::encode_utf8_decode_utf8(id);
        }
    }
    Ok(true)
}

/// The `Thanos` hook: takes away the points of exactly half (rounded down)
/// of the stored profiles other than the buyer's, picked at random. The
/// buyer is never picked. A record that changed since it was read is
/// skipped, not retried.
pub fn snap(db: &mut Database, buyer: &String) -> (r: Result<Vec<String>, StoreError>)
    ensures
        r matches Ok(v) ==> snap_outcome(old(db).profiles(), buyer@, id_view(v@), final(db).profiles()),
        r matches Err(e) ==> e == StoreError::ReadError || e == StoreError::WriteError,
        r == Err::<Vec<String>, StoreError>(StoreError::ReadError) ==> final(db).profiles() == old(
            db,
        ).profiles(),
{
    let profiles = db.get_profiles()?;
    let ghost c0 = db.entries();
    let ghost m0 = db.profiles();
    let pool = others_of(&profiles, buyer, Ghost(m0));
    let n = pool.len();
    let order = random_order(n);
    let half = n / 2;
    let mut victims: Vec<String> = Vec::new();
    let ghost mut vids: Seq<Seq<char>> = Seq::empty();
    proof {
        assert(db.profiles() =~= snapped(m0, vids));
    }
    let mut t: usize = 0;
    while t < half
        invariant
            t <= half,
            half == n / 2,
            n == pool@.len(),
            order@.len() == n,
            order@.no_duplicates(),
            forall|j: int| 0 <= j < n ==> #[trigger] order@[j] < n,
            forall|a: int, b: int| 0 <= a < b < pool@.len() ==> pool@[a]@.id != pool@[b]@.id,
            forall|a: int|
                #![trigger pool@[a]]
                0 <= a < pool@.len() ==> others(m0, buyer@).contains(pool@[a]@.id) && m0[pool@[a]@.id]
                    == pool@[a]@.data,
            others(m0, buyer@).finite(),
            others(m0, buyer@).len() == n,
            m0 == crate::store::stored_profiles(c0),
            vids.len() == t,
            id_view(victims@) == vids,
            forall|j: int| 0 <= j < t ==> #[trigger] vids[j] == pool@[order@[j] as int]@.id,
            db.profiles() == snapped(m0, vids),
            unpicked_as_before(db.entries(), c0, vids),
        decreases half - t,
    {
        let p = &pool[order[t]];
        let ghost id = p@.id;
        proof {
            assert(!vids.contains(id)) by {
                if vids.contains(id) {
                    let j = choose|j: int| 0 <= j < t && vids[j] == id;
                    assert(pool@[order@[j] as int]@.id == pool@[order@[t as int] as int]@.id);
                    assert(order@[j] == order@[t as int]);
                }
            }
        }
        if take_points(db, p, Ghost(c0), Ghost(vids))? {
            victims.push(p.id.clone());
            proof {
                vids = vids.push(id);
                assert(id_view(victims@) =~= vids);
            }
        }
        t = t + 1;
    }
    proof {
        assert forall|a: int, b: int| 0 <= a < b < vids.len() implies vids[a] != vids[b] by {
            assert(order@[a] != order@[b]);
        }
    }
    Ok(victims)
}

/// After the `Thanos` hook, exactly half (rounded down) of the profiles other
/// than the buyer's are picked, each picked one has no points, and every
/// other profile, the buyer's included, is as it was.
pub proof fn lemma_snap_effect(
    before: Map<Seq<char>, UserRecord>,
    buyer: Seq<char>,
    victims: Seq<Seq<char>>,
    after: Map<Seq<char>, UserRecord>,
)
    requires
        snap_outcome(before, buyer, victims, after),
    ensures
        victims.len() == others(before, buyer).len() / 2,
        after.dom() == before.dom(),
        forall|i: int| 0 <= i < victims.len() ==> #[trigger] after[victims[i]].points == 0,
        forall|id: Seq<char>|
            #[trigger] before.contains_key(id) && !victims.contains(id) ==> after[id] == before[id],
        before.contains_key(buyer) ==> after[buyer] == before[buyer],
{
    assert(after.dom() =~= before.dom());
    assert forall|i: int| 0 <= i < victims.len() implies #[trigger] after[victims[i]].points == 0 by {
        assert(victims.contains(victims[i]));
        assert(others(before, buyer).contains(victims[i]));
    }
    if before.contains_key(buyer) && victims.contains(buyer) {
        let i = choose|i: int| 0 <= i < victims.len() && victims[i] == buyer;
        assert(others(before, buyer).contains(victims[i]));
    }
}

/// What a purchase of `item` leads to, after the trade itself gave `bought`:
/// `FiftyFifty` adds a bonus of 0 or 2 points and is used up; `Thanos`
/// takes away the points of half of the other profiles and is used up; the
/// other items have no effect. The buyer's record is stored last.
pub open spec fn purchase_outcome(
    item: ShopItem,
    before: Map<Seq<char>, UserRecord>,
    id: Seq<char>,
    bought: UserRecord,
    after_data: UserRecord,
    after: Map<Seq<char>, UserRecord>,
) -> bool {
    match item {
        ShopItem::FiftyFifty => exists|bonus: u16|
            (bonus == 0 || bonus == 2) && after_data == #[trigger] with_bonus(bought, bonus)
                && after == before.insert(id, after_data),
        ShopItem::Thanos => exists|victims: Seq<Seq<char>>|
            #[trigger] fair_pick(before, id, victims)
                && after_data == (UserRecord {
                items: bought.items.filter(other_than(ShopItem::Thanos)),
                ..bought
            }) && after == snapped(before, victims).insert(id, after_data),
        _ => after_data == bought && after == before.insert(id, bought),
    }
}

/// Buying `FiftyFifty` uses it up at once, and leaves the points at what
/// they were, less its price of one point, plus the bonus of 0 or 2.
pub proof fn lemma_fifty_fifty(d: UserRecord, bonus: u16)
    requires
        d.wf(),
        !d.owns(ShopItem::FiftyFifty),
        1 <= d.points < u16::MAX,
        bonus == 0 || bonus == 2,
    ensures
        ({
            let (bought, t) = traded(d, ShopItem::FiftyFifty);
            let after = with_bonus(bought, bonus);
            &&& t == Trade::Bought
            &&& !after.owns(ShopItem::FiftyFifty)
            &&& after.points == d.points - 1 + bonus
        }),
{
    let bought = traded(d, ShopItem::FiftyFifty).0;
    let kept = bought.items.filter(other_than(ShopItem::FiftyFifty));
    if kept.contains(ShopItem::FiftyFifty) {
        let i = choose|i: int| 0 <= i < kept.len() && kept[i] == ShopItem::FiftyFifty;
        bought.items.lemma_filter_pred(other_than(ShopItem::FiftyFifty), i);
    }
}

impl ShopItem {
    /// The item's effect right after it was bought. `FiftyFifty` draws a bonus
    /// of 0 or 2 points and is used up; `Thanos` takes away the points of half
    /// of the other stored profiles and is used up; the others do nothing.
    /// Returns the ids of the profiles whose points were taken away.
    pub fn buy_hook(&self, db: &mut Database, profile: &mut Profile) -> (r: Result<
        Vec<String>,
        StoreError,
    >)
        requires
            old(profile)@.data.wf(),
        ensures
            final(profile)@.id == old(profile)@.id,
            final(profile)@.data.wf(),
            r matches Err(e) ==> e == StoreError::ReadError || e == StoreError::WriteError,
            *self != ShopItem::Thanos ==> r is Ok,
            r is Err ==> final(profile)@ == old(profile)@,
            r == Err::<Vec<String>, StoreError>(StoreError::ReadError) ==> final(db).profiles()
                == old(db).profiles(),
            r is Ok ==> match *self {
                ShopItem::FiftyFifty => {
                    &&& final(db).profiles() == old(db).profiles()
                    &&& exists|bonus: u16|
                        (bonus == 0 || bonus == 2) && final(profile)@.data == #[trigger] with_bonus(
                            old(profile)@.data,
                            bonus,
                        )
                },
                ShopItem::Thanos => {
                    &&& snap_outcome(
                        old(db).profiles(),
                        old(profile)@.id,
                        id_view(r->Ok_0@),
                        final(db).profiles(),
                    )
                    &&& final(profile)@.data == (UserRecord {
                        items: old(profile)@.data.items.filter(other_than(ShopItem::Thanos)),
                        ..old(profile)@.data
                    })
                },
                _ => final(db).profiles() == old(db).profiles() && final(profile)@ == old(profile)@,
            },
    {
        match self {
            ShopItem::FiftyFifty => {
                let bonus = draw_below(2) * 2;
                apply_bonus(&mut profile.data, bonus);
                Ok(Vec::new())
            },
            ShopItem::Thanos => {
                let victims = snap(db, &profile.id)?;
                profile.data.remove_item(ShopItem::Thanos);
                Ok(victims)
            },
            _ => Ok(Vec::new()),
        }
    }
}

/// Buys or sells an item for a profile and stores the profile: an owned item
/// is sold back at the discounted price; another is bought where the points
/// cover its base price, and its hook runs; where they do not, nothing
/// happens and nothing is stored.
pub fn buy(db: &mut Database, profile: &mut Profile, item: ShopItem) -> (r: Result<Trade, StoreError>)
    requires
        old(profile)@.data.wf(),
    ensures
        final(profile)@.id == old(profile)@.id,
        final(profile)@.data.wf(),
        r matches Err(e) ==> e == StoreError::ReadError || e == StoreError::WriteError,
        traded(old(profile)@.data, item).1 == Trade::Declined ==> r == Ok::<Trade, StoreError>(
            Trade::Declined,
        ),
        traded(old(profile)@.data, item).1 == Trade::Sold ==> final(profile)@.data == traded(
            old(profile)@.data,
            item,
        ).0,
        traded(old(profile)@.data, item).1 == Trade::Bought && item != ShopItem::Thanos ==> (r
            is Err ==> r == Err::<Trade, StoreError>(StoreError::WriteError)),
        traded(old(profile)@.data, item).1 == Trade::Bought && item != ShopItem::Thanos && item
            != ShopItem::FiftyFifty ==> final(profile)@.data == traded(old(profile)@.data, item).0,
        traded(old(profile)@.data, item).1 == Trade::Bought && item == ShopItem::FiftyFifty
            ==> exists|bonus: u16|
            (bonus == 0 || bonus == 2) && final(profile)@.data == #[trigger] with_bonus(
                traded(old(profile)@.data, item).0,
                bonus,
            ),
        r matches Ok(t) ==> {
            let (bought, t1) = traded(old(profile)@.data, item);
            &&& t == t1
            &&& t == Trade::Declined ==> final(profile)@ == old(profile)@ && final(db).profiles()
                == old(db).profiles()
            &&& t == Trade::Sold ==> final(profile)@.data == bought && final(db).profiles() == old(
                db,
            ).profiles().insert(old(profile)@.id, bought)
            &&& t == Trade::Bought ==> purchase_outcome(
                item,
                old(db).profiles(),
                old(profile)@.id,
                bought,
                final(profile)@.data,
                final(db).profiles(),
            )
        },
{
    let t = trade(&mut profile.data, item);
    match t {
        Trade::Declined => Ok(t),
        Trade::Sold => {
            db.save_profile(profile)?;
            Ok(t)
        },
        Trade::Bought => {
            let ghost bought = profile@.data;
            let ghost before = db.profiles();
            proof {
                assert(bought == traded(old(profile)@.data, item).0);
            }
            let victims = item.buy_hook(db, profile)?;
            proof {
                if item == ShopItem::FiftyFifty {
                    let b = choose|b: u16|
                        (b == 0 || b == 2) && profile@.data == #[trigger] with_bonus(bought, b);
                    assert(profile@.data == with_bonus(traded(old(profile)@.data, item).0, b));
                }
            }
            db.save_profile(profile)?;
            proof {
                if item == ShopItem::Thanos {
                    let vs = id_view(victims@);
                    assert(fair_pick(before, profile@.id, vs));
                    assert(db.profiles() == snapped(before, vs).insert(profile@.id, profile@.data));
                }
            }
            Ok(t)
        },
    }
}

} // verus!
