//! Registration, login, and the claim of the periodic point, against the store.

use vstd::prelude::*;

use crate::item::ShopItem;
use crate::profile::{now_seconds, Profile, UserData, UserRecord};
use crate::store::{Database, StoreError};
use crate::text::decimal;

verus! {

#[verifier::external_type_specification]
#[verifier::external_body]
pub struct ExBcryptError(bcrypt::BcryptError);

/// The bcrypt cost with which passwords are hashed.
pub const HASH_COST: u32 = 4;

/// Whether a password matches a bcrypt hash.
pub uninterp spec fn password_matches(password: Seq<char>, hash: Seq<char>) -> bool;

/// Relies on `bcrypt::hash`: a salted hash of the password. The salt is
/// random, but `bcrypt::verify` accepts the password against the hash it
/// gives: both cut the password at 72 bytes alike.
#[verifier::external_body]
fn hash_password(password: &str, cost: u32) -> (r: Result<String, bcrypt::BcryptError>)
    ensures
        r matches Ok(h) ==> password_matches(password@, h@),
{
    bcrypt::hash(password, cost)
}

/// Relies on `bcrypt::verify`: whether the password matches the hash, which
/// depends on the two texts alone.
#[verifier::external_body]
fn verify_password(password: &str, hash: &str) -> (r: Result<bool, bcrypt::BcryptError>)
    ensures
        r matches Ok(b) ==> b == password_matches(password@, hash@),
{
    bcrypt::verify(password, hash)
}

/// Why a registration or a login was refused.
#[derive(Clone, Copy, Debug, PartialEq, Eq, Structural)]
pub enum AccountError {
    /// The username or the password is empty.
    EmptyCredentials,
    /// Another profile has the username.
    DuplicateUsername,
    /// No profile has the username.
    UnknownUser,
    /// The password does not match.
    WrongPassword,
    /// The password could not be hashed or checked.
    HashFailed,
    /// The store failed.
    Store(StoreError),
}

/// Some stored profile has the username.
pub open spec fn username_taken(m: Map<Seq<char>, UserRecord>, username: Seq<char>) -> bool {
    exists|id: Seq<char>| #[trigger] m.contains_key(id) && m[id].username == username
}

/// A freshly registered record.
pub open spec fn fresh_record(d: UserRecord, username: Seq<char>, hash: Seq<char>) -> bool {
    &&& d.username == username
    &&& d.hash == hash
    &&& d.points == 0
    &&& d.ready
    &&& d.items == Seq::<ShopItem>::empty()
}

/// Creates and stores a profile for a username that no stored profile has
/// yet, under a fresh id from the store, with the credential hash given.
pub fn create_profile(db: &mut Database, username: String, hash: String) -> (r: Result<
    Profile,
    AccountError,
>)
    ensures
        r matches Ok(p) ==> {
            &&& !username_taken(old(db).profiles(), username@)
            &&& fresh_record(p@.data, username@, hash@)
            &&& !old(db).profiles().contains_key(p@.id)
            &&& final(db).profiles() == old(db).profiles().insert(p@.id, p@.data)
            &&& exists|n: u64| p@.id == decimal(n as nat)
        },
        r matches Err(e) ==> (e == AccountError::DuplicateUsername && username_taken(
            old(db).profiles(),
            username@,
        )) || e == AccountError::Store(StoreError::ReadError) || e == AccountError::Store(
            StoreError::WriteError,
        ),
        r matches Err(e) && e != AccountError::Store(StoreError::WriteError) ==> final(db).profiles()
            == old(db).profiles(),
{
    match db.find_by_username(&username) {
        Err(e) => {
            return Err(AccountError::Store(e));
        },
        Ok(Some(_)) => {
            return Err(AccountError::DuplicateUsername);
        },
        Ok(None) => {},
    }
    let data = UserData::new(username, hash);
    match db.insert_new(data) {
        Ok(profile) => Ok(profile),
        Err(e) => Err(AccountError::Store(e)),
    }
}

/// Registers a user: both texts must be non-empty and the username unused;
/// the password is stored as a bcrypt hash.
pub fn register(db: &mut Database, username: String, password: String) -> (r: Result<
    Profile,
    AccountError,
>)
    ensures
        (username@.len() == 0 || password@.len() == 0) <==> r == Err::<Profile, AccountError>(
            AccountError::EmptyCredentials,
        ),
        r matches Ok(p) ==> {
            &&& !username_taken(old(db).profiles(), username@)
            &&& p@.data.username == username@ && p@.data.points == 0 && p@.data.ready
            &&& p@.data.items == Seq::<ShopItem>::empty()
            &&& password_matches(password@, p@.data.hash)
            &&& !old(db).profiles().contains_key(p@.id)
            &&& final(db).profiles() == old(db).profiles().insert(p@.id, p@.data)
        },
        r == Err::<Profile, AccountError>(AccountError::DuplicateUsername) ==> username_taken(
            old(db).profiles(),
            username@,
        ),
        r matches Err(e) ==> e == AccountError::EmptyCredentials || e
            == AccountError::DuplicateUsername || e == AccountError::HashFailed || e
            == AccountError::Store(StoreError::ReadError) || e == AccountError::Store(
            StoreError::WriteError,
        ),
        r matches Err(e) && e != AccountError::Store(StoreError::WriteError) ==> final(db).profiles()
            == old(db).profiles(),
{
    if username.as_str().is_empty() || password.as_str().is_empty() {
        return Err(AccountError::EmptyCredentials);
    }
    match db.find_by_username(&username) {
        Err(e) => {
            return Err(AccountError::Store(e));
        },
        Ok(Some(_)) => {
            return Err(AccountError::DuplicateUsername);
        },
        Ok(None) => {},
    }
    let hash = match hash_password(password.as_str(), HASH_COST) {
        Ok(h) => h,
        Err(_) => {
            return Err(AccountError::HashFailed);
        },
    };
    create_profile(db, username, hash)
}

/// Logs a user in: the stored profile with the username, where the password
/// matches its hash.
pub fn login(db: &Database, username: &String, password: &String) -> (r: Result<
    Profile,
    AccountError,
>)
    ensures
        (username@.len() == 0 || password@.len() == 0) <==> r == Err::<Profile, AccountError>(
            AccountError::EmptyCredentials,
        ),
        r matches Ok(p) ==> {
            &&& db.profiles().contains_key(p@.id)
            &&& db.profiles()[p@.id] == p@.data
            &&& p@.data.username == username@
            &&& password_matches(password@, p@.data.hash)
        },
        r == Err::<Profile, AccountError>(AccountError::UnknownUser) ==> !username_taken(
            db.profiles(),
            username@,
        ),
        r == Err::<Profile, AccountError>(AccountError::WrongPassword) ==> exists|id: Seq<char>|
            #[trigger] db.profiles().contains_key(id) && db.profiles()[id].username == username@
                && !password_matches(password@, db.profiles()[id].hash),
        r == Err::<Profile, AccountError>(AccountError::HashFailed) ==> username_taken(
            db.profiles(),
            username@,
        ),
        r matches Err(e) ==> e == AccountError::EmptyCredentials || e == AccountError::UnknownUser
            || e == AccountError::WrongPassword || e == AccountError::HashFailed || e
            == AccountError::Store(StoreError::ReadError),
        username@.len() > 0 && password@.len() > 0 && username_taken(db.profiles(), username@)
            && (forall|id: Seq<char>|
            #[trigger] db.profiles().contains_key(id) && db.profiles()[id].username == username@
                ==> password_matches(password@, db.profiles()[id].hash)) ==> r is Ok || r == Err::<
            Profile,
            AccountError,
        >(AccountError::HashFailed) || r == Err::<Profile, AccountError>(
            AccountError::Store(StoreError::ReadError),
        ),
{
    if username.as_str().is_empty() || password.as_str().is_empty() {
        return Err(AccountError::EmptyCredentials);
    }
    let profile = match db.find_by_username(username) {
        Err(e) => {
            return Err(AccountError::Store(e));
        },
        Ok(None) => {
            return Err(AccountError::UnknownUser);
        },
        Ok(Some(p)) => p,
    };
    match verify_password(password.as_str(), profile.data.hash.as_str()) {
        Ok(true) => Ok(profile),
        Ok(false) => Err(AccountError::WrongPassword),
        Err(_) => Err(AccountError::HashFailed),
    }
}

/// Recomputes at time `now` whether the profile can claim, and stores it
/// where that changed the persisted record. Returns the text that tells how
/// long to wait, where the profile is cooling.
pub fn refresh_at(db: &mut Database, profile: &mut Profile, now: i64) -> (r: Result<
    Option<String>,
    StoreError,
>)
    requires
        old(profile)@.data.wf(),
    ensures
        final(profile)@.id == old(profile)@.id,
        final(profile)@.data == old(profile)@.data.refreshed(now),
        r matches Ok(m) ==> match m {
            None => now >= old(profile)@.data.next,
            Some(m) => now < old(profile)@.data.next && m@ == crate::profile::wait_between(
                now,
                old(profile)@.data.next,
            ).spec_message(),
        },
        final(profile)@.data == old(profile)@.data ==> r is Ok && final(db).profiles() == old(
            db,
        ).profiles(),
        r is Ok && final(profile)@.data != old(profile)@.data ==> final(db).profiles() == old(
            db,
        ).profiles().insert(final(profile)@.id, final(profile)@.data),
        r matches Err(e) ==> e == StoreError::WriteError,
{
    let dirty = profile.refresh_at(now);
    if dirty {
        db.save_profile(profile)?;
    }
    match profile.data.remaining_at(now) {
        None => Ok(None),
        Some(wait) => Ok(Some(wait.message())),
    }
}

/// Recomputes whether the profile can claim now, and stores it where that
/// changed the persisted record. Returns the text that tells how long to wait,
/// where the profile is cooling.
pub fn refresh(db: &mut Database, profile: &mut Profile) -> (r: Result<Option<String>, StoreError>)
    requires
        old(profile)@.data.wf(),
    ensures
        final(profile)@.id == old(profile)@.id,
        exists|now: i64|
            {
                &&& final(profile)@.data == #[trigger] old(profile)@.data.refreshed(now)
                &&& r matches Ok(m) ==> match m {
                    None => now >= old(profile)@.data.next,
                    Some(m) => now < old(profile)@.data.next && m@ == crate::profile::wait_between(
                        now,
                        old(profile)@.data.next,
                    ).spec_message(),
                }
            },
        final(profile)@.data == old(profile)@.data ==> r is Ok && final(db).profiles() == old(
            db,
        ).profiles(),
        r is Ok && final(profile)@.data != old(profile)@.data ==> final(db).profiles() == old(
            db,
        ).profiles().insert(final(profile)@.id, final(profile)@.data),
        r matches Err(e) ==> e == StoreError::WriteError,
{
    let now = now_seconds();
    let r = refresh_at(db, profile, now);
    assert(profile@.data == old(profile)@.data.refreshed(now));
    r
}

/// A claim at time `now`, stored where it changed the persisted record.
/// Returns the text that tells how long to wait, where the profile is
/// cooling.
pub fn claim_at(db: &mut Database, profile: &mut Profile, now: i64) -> (r: Result<
    Option<String>,
    StoreError,
>)
    requires
        old(profile)@.data.wf(),
    ensures
        final(profile)@.id == old(profile)@.id,
        final(profile)@.data.wf(),
        final(profile)@.data == old(profile)@.data.claimed(now).0,
        r matches Ok(m) ==> match old(profile)@.data.claimed(now).1 {
            None => m is None,
            Some(w) => m matches Some(m) && m@ == w.spec_message(),
        },
        final(profile)@.data == old(profile)@.data ==> r is Ok && final(db).profiles() == old(
            db,
        ).profiles(),
        r is Ok && final(profile)@.data != old(profile)@.data ==> final(db).profiles() == old(
            db,
        ).profiles().insert(final(profile)@.id, final(profile)@.data),
        r matches Err(e) ==> e == StoreError::WriteError,
{
    let points = profile.data.points;
    let next = profile.data.next;
    let ready = profile.data.ready;
    let w = profile.claim_at(now);
    let dirty = profile.data.points != points || profile.data.next != next || profile.data.ready
        != ready;
    if dirty {
        db.save_profile(profile)?;
    }
    match w {
        None => Ok(None),
        Some(w) => Ok(Some(w.message())),
    }
}

/// Claims the periodic point now, and stores the profile where the claim
/// changed it. Returns the text that tells how long to wait, where the
/// profile is cooling.
pub fn claim(db: &mut Database, profile: &mut Profile) -> (r: Result<Option<String>, StoreError>)
    requires
        old(profile)@.data.wf(),
    ensures
        final(profile)@.id == old(profile)@.id,
        final(profile)@.data.wf(),
        exists|now: i64|
            {
                let (d, w) = #[trigger] old(profile)@.data.claimed(now);
                &&& final(profile)@.data == d
                &&& r matches Ok(m) ==> match w {
                    None => m is None,
                    Some(w) => m matches Some(m) && m@ == w.spec_message(),
                }
            },
        final(profile)@.data == old(profile)@.data ==> r is Ok && final(db).profiles() == old(
            db,
        ).profiles(),
        r is Ok && final(profile)@.data != old(profile)@.data ==> final(db).profiles() == old(
            db,
        ).profiles().insert(final(profile)@.id, final(profile)@.data),
        r matches Err(e) ==> e == StoreError::WriteError,
{
    let now = now_seconds();
    let r = claim_at(db, profile, now);
    assert(profile@.data == old(profile)@.data.claimed(now).0);
    r
}

} // verus!
