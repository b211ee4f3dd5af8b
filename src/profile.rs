//! Profiles, their records, and the claim cooldown state machine.

use vstd::prelude::*;

use vstd::arithmetic::div_mod::{
    lemma_div_is_ordered, lemma_div_pos_is_pos, lemma_fundamental_div_mod,
    lemma_fundamental_div_mod_converse, lemma_mod_bound,
};

use crate::item::ShopItem;
use crate::text::{decimal, decimal_text};

verus! {

/// Cooldown after a claim, in seconds, for a profile that owns `DoubleSpeed`.
pub const HALF_DAY_SECS: i64 = 43200;

/// Cooldown after a claim, in seconds, for any other profile.
pub const DAY_SECS: i64 = 86400;

/// The persisted game state of one user, as contracts see it.
pub struct UserRecord {
    pub username: Seq<char>,
    pub hash: Seq<char>,
    pub points: u16,
    pub next: i64,
    pub ready: bool,
    pub items: Seq<ShopItem>,
}

/// A stored profile, as contracts see it.
pub struct ProfileRecord {
    pub id: Seq<char>,
    pub data: UserRecord,
}

impl UserRecord {
    /// Each item is owned at most once.
    pub open spec fn wf(self) -> bool {
        self.items.no_duplicates()
    }

    pub open spec fn owns(self, item: ShopItem) -> bool {
        self.items.contains(item)
    }

    /// The cooldown that a claim starts, in seconds.
    pub open spec fn cooldown(self) -> int {
        if self.owns(ShopItem::DoubleSpeed) {
            HALF_DAY_SECS as int
        } else {
            DAY_SECS as int
        }
    }

    /// The record with the derived `ready` flag recomputed for the time `now`.
    pub open spec fn refreshed(self, now: i64) -> UserRecord {
        UserRecord { ready: now >= self.next, ..self }
    }

    /// The record and the reply of a claim at time `now`: from READY it adds a
    /// point and starts the cooldown; while COOLING it changes nothing but the
    /// derived flag and reports the remaining wait.
    pub open spec fn claimed(self, now: i64) -> (UserRecord, Option<Wait>) {
        if now >= self.next {
            (
                UserRecord {
                    points: saturating_points(self.points + 1),
                    next: saturating_time(now + self.cooldown()),
                    ready: false,
                    ..self
                },
                None,
            )
        } else {
            (UserRecord { ready: false, ..self }, Some(wait_between(now, self.next)))
        }
    }
}

/// Holds of every item but `item`.
pub open spec fn other_than(item: ShopItem) -> spec_fn(ShopItem) -> bool {
    |x: ShopItem| x != item
}

/// A point count clamped to the 16-bit range.
pub open spec fn saturating_points(p: int) -> u16 {
    if p > u16::MAX { u16::MAX } else { p as u16 }
}

/// A timestamp clamped to the largest representable one.
pub open spec fn saturating_time(t: int) -> i64 {
    if t > i64::MAX { i64::MAX } else { t as i64 }
}

/// The remaining wait from `now` until `until`, in whole hours and whole
/// minutes (seconds dropped).
pub open spec fn wait_between(now: i64, until: i64) -> Wait {
    Wait {
        hours: ((until - now) / 3600) as u64,
        minutes: ((until - now) % 3600 / 60) as u64,
    }
}

/// The remaining cooldown, in whole hours and whole minutes.
#[derive(Clone, Copy, Debug, PartialEq, Eq, Structural)]
pub struct Wait {
    pub hours: u64,
    pub minutes: u64,
}

impl Wait {
    /// The wait in whole minutes.
    pub open spec fn total_minutes(self) -> int {
        self.hours * 60 + self.minutes
    }

    /// The text shown to a user who has to wait.
    pub open spec fn spec_message(self) -> Seq<char> {
        "come back in "@ + decimal(self.hours as nat) + "h "@ + decimal(self.minutes as nat)
            + "m to get again"@
    }

    pub fn message(&self) -> (r: String)
        ensures
            r@ == self.spec_message(),
    {
        let mut s = String::from_str("come back in ");
        let h = decimal_text(self.hours);
        s.append(h.as_str());
        s.append("h ");
        let m = decimal_text(self.minutes);
        s.append(m.as_str());
        s.append("m to get again");
        s
    }
}

/// Relies on `chrono::Utc::now` and `DateTime::timestamp`: the current time
/// in unix seconds. Nothing is known of the value.
#[verifier::external_body]
pub(crate) fn now_seconds() -> (r: i64) {
    chrono::Utc::now().timestamp()
}

/// The wait reported before `until`, counted in whole minutes, is the number
/// of whole minutes left.
pub proof fn lemma_wait_total(now: i64, until: i64)
    requires
        now < until,
    ensures
        wait_between(now, until).total_minutes() == (until - now) / 60,
{
    let s: int = until - now;
    let h = s / 3600;
    let rest = s % 3600;
    let m = rest / 60;
    lemma_div_pos_is_pos(s, 3600);
    lemma_mod_bound(s, 3600);
    lemma_fundamental_div_mod(s, 3600);
    lemma_fundamental_div_mod(rest, 60);
    lemma_mod_bound(rest, 60);
    lemma_div_pos_is_pos(rest, 60);
    lemma_div_is_ordered(s, 0x1_0000_0000_0000_0000, 3600);
    assert(s == (h * 60 + m) * 60 + rest % 60) by (nonlinear_arith)
        requires
            s == 3600 * h + rest,
            rest == 60 * m + rest % 60,
    ;
    lemma_fundamental_div_mod_converse(s, 60, h * 60 + m, rest % 60);
}

/// While a profile is cooling, claims at times `t1 <= t2` before the cooldown
/// ends leave the points and the cooldown as they were, and the later claim
/// reports a wait no longer than the earlier one.
pub proof fn lemma_cooling_claims(d: UserRecord, t1: i64, t2: i64)
    requires
        t1 <= t2 < d.next,
    ensures
        ({
            let (d1, w1) = d.claimed(t1);
            let (d2, w2) = d1.claimed(t2);
            &&& d1.points == d.points && d2.points == d.points
            &&& d1.next == d.next && d2.next == d.next
            &&& w1 is Some && w2 is Some
            &&& w2.unwrap().total_minutes() <= w1.unwrap().total_minutes()
        }),
{
    lemma_wait_total(t1, d.next);
    lemma_wait_total(t2, d.next);
    lemma_div_is_ordered(d.next - t2, d.next - t1, 60);
}

/// A claim from READY adds exactly one point and starts a cooldown of twelve
/// hours when `DoubleSpeed` is owned, else of twenty-four hours.
pub proof fn lemma_claim_from_ready(d: UserRecord, now: i64)
    requires
        d.next <= now,
        now + DAY_SECS <= i64::MAX,
        d.points < u16::MAX,
    ensures
        ({
            let (d1, w) = d.claimed(now);
            &&& w is None
            &&& d1.points == d.points + 1
            &&& d1.next == now + if d.owns(ShopItem::DoubleSpeed) {
                HALF_DAY_SECS
            } else {
                DAY_SECS
            }
            &&& d1.items == d.items
        }),
{
}

/// The format of the claim time in a bulk import row.
pub const IMPORT_TIME_FORMAT: &'static str = "%Y-%m-%d %H:%M:%S%.f";

/// The unix time, in seconds, that a text names in UTC under a chrono
/// format, if it names one.
pub uninterp spec fn timestamp_of(text: Seq<char>, format: Seq<char>) -> Option<i64>;

/// Relies on `chrono::NaiveDateTime::parse_from_str`, and on `timestamp` of
/// the result: the time in UTC that the text names under the format.
#[verifier::external_body]
fn parse_timestamp(text: &str, format: &str) -> (r: Option<i64>)
    ensures
        r == timestamp_of(text@, format@),
{
    chrono::NaiveDateTime::parse_from_str(text, format).ok().map(|t| t.and_utc().timestamp())
}

/// The persisted game state of one user.
pub struct UserData {
    pub username: String,
    pub hash: String,
    pub points: u16,
    pub next: i64,
    pub ready: bool,
    pub items: Vec<ShopItem>,
}

impl View for UserData {
    type V = UserRecord;

    open spec fn view(&self) -> UserRecord {
        UserRecord {
            username: self.username@,
            hash: self.hash@,
            points: self.points,
            next: self.next,
            ready: self.ready,
            items: self.items@,
        }
    }
}

impl UserData {
    /// A fresh record at registration time `now`: no points, no items, and a
    /// claim available at once.
    pub fn new_at(username: String, hash: String, now: i64) -> (r: UserData)
        ensures
            r@ == (UserRecord {
                username: username@,
                hash: hash@,
                points: 0,
                next: now,
                ready: true,
                items: Seq::empty(),
            }),
            r@.wf(),
    {
        let r = UserData { username, hash, points: 0, next: now, ready: true, items: Vec::new() };
        assert(r.items@ =~= Seq::<ShopItem>::empty());
        r
    }

    /// A fresh record, created now.
    pub fn new(username: String, hash: String) -> (r: UserData)
        ensures
            r@.username == username@,
            r@.hash == hash@,
            r@.points == 0,
            r@.ready,
            r@.items == Seq::<ShopItem>::empty(),
            r@.wf(),
    {
        let now = now_seconds();
        UserData::new_at(username, hash, now)
    }

    /// A record brought in from a bulk import row: the cosmetic items are
    /// owned as the flags say, and the time of the next claim is the one
    /// that `next` names. `None` where `next` names no time.
    pub fn imported(
        username: String,
        hash: String,
        points: u16,
        next: &str,
        dark_mode: bool,
        gay_button: bool,
    ) -> (r: Option<UserData>)
        ensures
            r is None <==> timestamp_of(next@, IMPORT_TIME_FORMAT@) is None,
            r matches Some(d) ==> {
                &&& d@.username == username@ && d@.hash == hash@ && d@.points == points
                &&& d@.next == timestamp_of(next@, IMPORT_TIME_FORMAT@).unwrap()
                &&& !d@.ready
                &&& d@.wf()
                &&& d@.owns(ShopItem::DarkMode) == dark_mode
                &&& d@.owns(ShopItem::GayButton) == gay_button
                &&& forall|it: ShopItem|
                    #[trigger] d@.owns(it) ==> it == ShopItem::DarkMode || it == ShopItem::GayButton
            },
    {
        let next = match parse_timestamp(next, IMPORT_TIME_FORMAT) {
            Some(t) => t,
            None => {
                return None;
            },
        };
        let mut items: Vec<ShopItem> = Vec::new();
        if gay_button {
            items.push(ShopItem::GayButton);
        }
        if dark_mode {
            items.push(ShopItem::DarkMode);
        }
        let r = UserData { username, hash, points, next, ready: false, items };
        assert(r@.owns(ShopItem::DarkMode) == dark_mode) by {
            if dark_mode {
                assert(r.items@[r.items@.len() - 1] == ShopItem::DarkMode);
            }
        }
        assert(r@.owns(ShopItem::GayButton) == gay_button) by {
            if gay_button {
                assert(r.items@[0] == ShopItem::GayButton);
            }
        }
        Some(r)
    }

    /// Whether each item is owned at most once.
    pub fn items_unique(&self) -> (r: bool)
        ensures
            r == self@.wf(),
    {
        let mut i: usize = 0;
        while i < self.items.len()
            invariant
                i <= self.items@.len(),
                forall|a: int, b: int| 0 <= a < b < self.items@.len() && a < i ==> self.items@[a] != self.items@[b],
            decreases self.items@.len() - i,
        {
            let mut j: usize = i + 1;
            while j < self.items.len()
                invariant
                    i < j <= self.items@.len(),
                    forall|a: int, b: int| 0 <= a < b < self.items@.len() && a < i ==> self.items@[a] != self.items@[b],
                    forall|b: int| i < b < j ==> self.items@[i as int] != self.items@[b],
                decreases self.items@.len() - j,
            {
                if self.items[i] == self.items[j] {
                    return false;
                }
                j = j + 1;
            }
            i = i + 1;
        }
        true
    }

    /// Copies the record field by field.
    pub fn duplicate(&self) -> (r: UserData)
        ensures
            r@ == self@,
    {
        let mut items: Vec<ShopItem> = Vec::new();
        let mut i: usize = 0;
        while i < self.items.len()
            invariant
                i <= self.items@.len(),
                items@ == self.items@.subrange(0, i as int),
            decreases self.items@.len() - i,
        {
            items.push(self.items[i]);
            i = i + 1;
            assert(items@ =~= self.items@.subrange(0, i as int));
        }
        assert(self.items@.subrange(0, self.items@.len() as int) =~= self.items@);
        UserData {
            username: self.username.clone(),
            hash: self.hash.clone(),
            points: self.points,
            next: self.next,
            ready: self.ready,
            items,
        }
    }

    pub fn has_item(&self, item: ShopItem) -> (r: bool)
        ensures
            r == self@.owns(item),
    {
        let mut i: usize = 0;
        while i < self.items.len()
            invariant
                i <= self.items@.len(),
                forall|j: int| 0 <= j < i ==> self.items@[j] != item,
            decreases self.items@.len() - i,
        {
            if self.items[i] == item {
                return true;
            }
            i = i + 1;
        }
        false
    }

    /// Takes an item out of the owned set; the other items keep their order.
    pub fn remove_item(&mut self, item: ShopItem)
        requires
            old(self)@.wf(),
        ensures
            final(self)@ == (UserRecord {
                items: old(self)@.items.filter(other_than(item)),
                ..old(self)@
            }),
            final(self)@.wf(),
            forall|x: ShopItem| #[trigger] final(self)@.owns(x) <==> old(self)@.owns(x) && x != item,
    {
        let ghost pred = other_than(item);
        let ghost src = self.items@;
        let mut kept: Vec<ShopItem> = Vec::new();
        let mut i: usize = 0;
        while i < self.items.len()
            invariant
                i <= src.len(),
                self.items@ == src,
                pred == other_than(item),
                src.no_duplicates(),
                kept@ == src.subrange(0, i as int).filter(pred),
                kept@.no_duplicates(),
                forall|x: ShopItem|
                    #[trigger] kept@.contains(x) <==> src.subrange(0, i as int).contains(x) && x != item,
            decreases src.len() - i,
        {
            let x = self.items[i];
            proof {
                src.subrange(0, i as int).lemma_filter_push(x, pred);
                assert(src.subrange(0, i as int + 1) =~= src.subrange(0, i as int).push(x));
                assert(!src.subrange(0, i as int).contains(x)) by {
                    if src.subrange(0, i as int).contains(x) {
                        let j = choose|j: int| 0 <= j < i && src.subrange(0, i as int)[j] == x;
                        assert(src[j] == src[i as int]);
                    }
                }
            }
            let ghost before = src.subrange(0, i as int);
            let ghost prev = kept@;
            assert(!prev.contains(x));
            if x != item {
                kept.push(x);
            }
            proof {
                assert(pred(x) == (x != item));
                assert(kept@ == before.push(x).filter(pred));
                assert forall|y: ShopItem| #[trigger] kept@.contains(y) <==> before.push(x).contains(
                    y,
                ) && y != item by {
                    if before.push(x).contains(y) && y != item {
                        let j = choose|j: int| 0 <= j < before.len() + 1 && before.push(x)[j] == y;
                        if j < before.len() {
                            assert(before.contains(y));
                            assert(prev.contains(y));
                            let k = choose|k: int| 0 <= k < prev.len() && prev[k] == y;
                            assert(kept@[k] == y);
                        } else {
                            assert(kept@.last() == y);
                        }
                    }
                    if kept@.contains(y) {
                        let j = choose|j: int| 0 <= j < kept@.len() && kept@[j] == y;
                        if j < prev.len() {
                            assert(prev[j] == y);
                            assert(prev.contains(y));
                            let k = choose|k: int| 0 <= k < before.len() && before[k] == y;
                            assert(before.push(x)[k] == y);
                        } else {
                            assert(before.push(x)[before.len() as int] == y);
                        }
                    }
                }
            }
            i = i + 1;
        }
        assert(src.subrange(0, src.len() as int) =~= src);
        self.items = kept;
    }

    /// Adds an item that the record does not own yet.
    pub fn add_item(&mut self, item: ShopItem)
        requires
            old(self)@.wf(),
            !old(self)@.owns(item),
        ensures
            final(self)@ == (UserRecord { items: old(self)@.items.push(item), ..old(self)@ }),
            final(self)@.wf(),
    {
        self.items.push(item);
    }

    /// Recomputes the derived `ready` flag for time `now`, and tells whether
    /// that changed the persisted fields (the record then needs saving).
    pub fn refresh_at(&mut self, now: i64) -> (dirty: bool)
        ensures
            final(self)@ == old(self)@.refreshed(now),
            dirty == (old(self)@.ready != (now >= old(self)@.next)),
    {
        let ready = now >= self.next;
        let dirty = self.ready != ready;
        self.ready = ready;
        dirty
    }

    /// The remaining wait at time `now`, where the record is cooling.
    pub fn remaining_at(&self, now: i64) -> (r: Option<Wait>)
        ensures
            r == if now >= self.next {
                None
            } else {
                Some(wait_between(now, self.next))
            },
    {
        if now >= self.next {
            None
        } else {
            let secs: i128 = self.next as i128 - now as i128;
            Some(Wait { hours: (secs / 3600) as u64, minutes: (secs % 3600 / 60) as u64 })
        }
    }

    /// A claim at time `now`: from READY it adds a point (saturating) and
    /// starts the cooldown; while COOLING it returns the remaining wait.
    pub fn claim_at(&mut self, now: i64) -> (r: Option<Wait>)
        ensures
            (final(self)@, r) == old(self)@.claimed(now),
    {
        if now >= self.next {
            let cooldown = if self.has_item(ShopItem::DoubleSpeed) {
                HALF_DAY_SECS
            } else {
                DAY_SECS
            };
            self.points = self.points.saturating_add(1);
            self.next = if now <= i64::MAX - cooldown {
                now + cooldown
            } else {
                i64::MAX
            };
            self.ready = false;
            None
        } else {
            self.ready = false;
            self.remaining_at(now)
        }
    }
}

/// A user's identity and game state.
pub struct Profile {
    pub id: String,
    pub data: UserData,
}

impl View for Profile {
    type V = ProfileRecord;

    open spec fn view(&self) -> ProfileRecord {
        ProfileRecord { id: self.id@, data: self.data@ }
    }
}

impl Profile {
    pub fn new(id: String, data: UserData) -> (r: Profile)
        ensures
            r@ == (ProfileRecord { id: id@, data: data@ }),
    {
        Profile { id, data }
    }

    /// Copies the profile field by field.
    pub fn duplicate(&self) -> (r: Profile)
        ensures
            r@ == self@,
    {
        Profile { id: self.id.clone(), data: self.data.duplicate() }
    }

    pub fn has_item(&self, item: ShopItem) -> (r: bool)
        ensures
            r == self@.data.owns(item),
    {
        self.data.has_item(item)
    }

    /// For each catalog item, its name and whether the profile owns it.
    pub fn owned_items(&self) -> (r: Vec<(String, bool)>)
        ensures
            r@.len() == crate::item::catalog().len(),
            forall|i: int|
                #![trigger r@[i]]
                0 <= i < r@.len() ==> r@[i].0@ == crate::item::catalog()[i].spec_name()
                    && r@[i].1 == self@.data.owns(crate::item::catalog()[i]),
    {
        let prices = ShopItem::get_prices();
        let mut out: Vec<(String, bool)> = Vec::new();
        let mut i: usize = 0;
        while i < prices.len()
            invariant
                i <= prices@.len(),
                prices@.len() == crate::item::catalog().len(),
                forall|j: int|
                    0 <= j < prices@.len() ==> #[trigger] prices@[j] == (
                        crate::item::catalog()[j],
                        crate::item::catalog()[j].base_price(),
                    ),
                out@.len() == i,
                forall|j: int|
                    #![trigger out@[j]]
                    0 <= j < i ==> out@[j].0@ == crate::item::catalog()[j].spec_name()
                        && out@[j].1 == self@.data.owns(crate::item::catalog()[j]),
            decreases prices@.len() - i,
        {
            let item = prices[i].0;
            assert(prices@[i as int] == (
                crate::item::catalog()[i as int],
                crate::item::catalog()[i as int].base_price(),
            ));
            let name = item.name();
            let owned = self.has_item(item);
            out.push((name, owned));
            assert(out@[i as int].0@ == crate::item::catalog()[i as int].spec_name());
            i = i + 1;
        }
        out
    }

    /// Recomputes the derived `ready` flag for time `now`; true when the
    /// persisted record changed and has to be saved.
    pub fn refresh_at(&mut self, now: i64) -> (dirty: bool)
        ensures
            final(self)@ == (ProfileRecord { data: old(self)@.data.refreshed(now), ..old(self)@ }),
            dirty == (old(self)@.data.ready != (now >= old(self)@.data.next)),
    {
        self.data.refresh_at(now)
    }

    /// A claim at time `now` (see `UserRecord::claimed`).
    pub fn claim_at(&mut self, now: i64) -> (r: Option<Wait>)
        ensures
            final(self)@.id == old(self)@.id,
            (final(self)@.data, r) == old(self)@.data.claimed(now),
    {
        self.data.claim_at(now)
    }

    /// A claim now: `None` when a point was collected, else the text that
    /// tells how long to wait.
    pub fn update(&mut self) -> (r: Option<String>)
        ensures
            final(self)@.id == old(self)@.id,
            exists|now: i64|
                {
                    let (d, w) = #[trigger] old(self)@.data.claimed(now);
                    &&& final(self)@.data == d
                    &&& match w {
                        None => r is None,
                        Some(w) => r matches Some(m) && m@ == w.spec_message(),
                    }
                },
    {
        let now = now_seconds();
        let w = self.claim_at(now);
        match w {
            None => None,
            Some(w) => Some(w.message()),
        }
    }
}

} // verus!
