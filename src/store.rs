//! The profile repository over an embedded ordered key-value store.

use vstd::prelude::*;
use vstd::utf8::{decode_utf8, encode_utf8, encode_utf8_decode_utf8, valid_utf8};

use crate::codec::{decode, encode, encodable, lemma_round_trip, parse};
use crate::leaderboard::lex_le;
use crate::profile::{Profile, ProfileRecord, UserData, UserRecord};
use crate::text::{decimal, decimal_text, text_bytes, utf8_text};

verus! {

#[verifier::external_type_specification]
#[verifier::external_body]
pub struct ExDb(sled::Db);

#[verifier::external_type_specification]
#[verifier::external_body]
pub struct ExSledError(sled::Error);

/// What a store holds: the value bytes under each key. The library holds one
/// handle to the store and writes only through it; writes through other
/// handles or processes are not part of this account.
pub uninterp spec fn contents(db: sled::Db) -> Map<Seq<u8>, Seq<u8>>;

/// The least identifier that the store may still give out: each one it
/// gives is at least this, and the next one is above it.
pub uninterp spec fn ids_from(db: sled::Db) -> nat;

/// Relies on `sled::open`: opens or creates the store at a path.
#[verifier::external_body]
fn open_db(path: &str) -> (r: Result<sled::Db, sled::Error>) {
    sled::open(path)
}

/// Relies on `sled::Tree::get`: the value stored under a key, if any.
#[verifier::external_body]
fn db_get(db: &sled::Db, key: &[u8]) -> (r: Result<Option<Vec<u8>>, sled::Error>)
    ensures
        r matches Ok(Some(v)) ==> contents(*db).contains_key(key@) && contents(*db)[key@] == v@,
        r matches Ok(None) ==> !contents(*db).contains_key(key@),
{
    db.get(key).map(|v| v.map(|v| v.to_vec()))
}

/// Relies on `sled::Tree::insert`: stores a value under a key, replacing
/// what was there.
#[verifier::external_body]
fn db_insert(db: &mut sled::Db, key: &[u8], value: &[u8]) -> (r: Result<(), sled::Error>)
    ensures
        r is Ok ==> contents(*final(db)) == contents(*old(db)).insert(key@, value@),
        ids_from(*final(db)) == ids_from(*old(db)),
{
    db.insert(key, value).map(|_| ())
}

/// Relies on `sled::Tree::flush`: writes what is buffered to disk and
/// leaves the contents as they are.
#[verifier::external_body]
fn db_flush(db: &mut sled::Db) -> (r: Result<(), sled::Error>)
    ensures
        contents(*final(db)) == contents(*old(db)),
        ids_from(*final(db)) == ids_from(*old(db)),
{
    db.flush().map(|_| ())
}

/// The contents `c` hold `expected` under `key`: the value, or no entry
/// where `expected` is `None`.
pub open spec fn holds_value(c: Map<Seq<u8>, Seq<u8>>, key: Seq<u8>, expected: Option<&[u8]>) -> bool {
    match expected {
        Some(e) => c.contains_key(key) && c[key] == e@,
        None => !c.contains_key(key),
    }
}

/// Relies on `sled::Tree::compare_and_swap`: stores a value under a key
/// only where the key still holds `expected` (`None`: no entry at all).
#[verifier::external_body]
fn db_compare_and_swap(db: &mut sled::Db, key: &[u8], expected: Option<&[u8]>, value: &[u8]) -> (r: Result<
    bool,
    sled::Error,
>)
    ensures
        r matches Ok(true) ==> holds_value(contents(*old(db)), key@, expected)
            && contents(*final(db)) == contents(*old(db)).insert(key@, value@),
        r matches Ok(false) ==> contents(*final(db)) == contents(*old(db)) && !holds_value(
            contents(*old(db)),
            key@,
            expected,
        ),
        ids_from(*final(db)) == ids_from(*old(db)),
{
    match db.compare_and_swap(key, expected, Some(value)) {
        Ok(Ok(())) => Ok(true),
        Ok(Err(_)) => Ok(false),
        Err(e) => Err(e),
    }
}

/// The view of store entries as byte strings.
pub open spec fn entry_view(v: Seq<(Vec<u8>, Vec<u8>)>) -> Seq<(Seq<u8>, Seq<u8>)> {
    v.map_values(|x: (Vec<u8>, Vec<u8>)| (x.0@, x.1@))
}

/// Key `a` comes strictly before key `b` in the store's byte order.
pub open spec fn key_before(a: Seq<u8>, b: Seq<u8>) -> bool {
    lex_le(a, b) && a != b
}

/// `e` lists every entry of `c` once, in ascending key order.
pub open spec fn store_listing(e: Seq<(Seq<u8>, Seq<u8>)>, c: Map<Seq<u8>, Seq<u8>>) -> bool {
    &&& forall|i: int, j: int| 0 <= i < j < e.len() ==> key_before(e[i].0, e[j].0)
    &&& forall|i: int|
        #![trigger e[i]]
        0 <= i < e.len() ==> c.contains_key(e[i].0) && c[e[i].0] == e[i].1
    &&& forall|k: Seq<u8>|
        #[trigger] c.contains_key(k) ==> exists|i: int| 0 <= i < e.len() && e[i].0 == k
}

/// Relies on `sled::Tree::iter`: every entry of the store, each key once,
/// with its value, in ascending byte order of the keys.
#[verifier::external_body]
fn db_entries(db: &sled::Db) -> (r: Result<Vec<(Vec<u8>, Vec<u8>)>, sled::Error>)
    ensures
        r matches Ok(v) ==> store_listing(entry_view(v@), contents(*db)),
{
    db.iter().map(|e| e.map(|(k, v)| (k.to_vec(), v.to_vec()))).collect()
}

/// Relies on `sled::Db::generate_id`: a monotonic identifier, never given
/// out twice; the contents are left as they are.
#[verifier::external_body]
fn db_generate_id(db: &mut sled::Db) -> (r: Result<u64, sled::Error>)
    ensures
        contents(*final(db)) == contents(*old(db)),
        r matches Ok(n) ==> ids_from(*old(db)) <= n && n < ids_from(*final(db)),
        ids_from(*old(db)) <= ids_from(*final(db)),
{
    db.generate_id()
}

/// What can go wrong with the store.
#[derive(Clone, Copy, Debug, PartialEq, Eq, Structural)]
pub enum StoreError {
    /// The store could not be opened or created.
    StoreUnavailable,
    /// A write did not reach the store.
    WriteError,
    /// A read from the store failed.
    ReadError,
    /// A stored record does not decode.
    DataCorruption,
}

/// The key under which a profile id is stored: its UTF-8 text.
pub open spec fn id_key(id: Seq<char>) -> Seq<u8> {
    encode_utf8(id)
}

/// The profiles that a store's contents hold: every entry whose key is text
/// and whose value decodes.
pub open spec fn stored_profiles(c: Map<Seq<u8>, Seq<u8>>) -> Map<Seq<char>, UserRecord> {
    Map::new(
        |id: Seq<char>| c.contains_key(id_key(id)) && parse(c[id_key(id)]) is Some,
        |id: Seq<char>| parse(c[id_key(id)]).unwrap(),
    )
}

/// Storing a record under an id's key stores that profile and changes no
/// other.
pub proof fn lemma_store_record(c: Map<Seq<u8>, Seq<u8>>, id: Seq<char>, d: UserRecord)
    requires
        encodable(d),
    ensures
        stored_profiles(c.insert(id_key(id), crate::codec::encoding(d))) == stored_profiles(
            c,
        ).insert(id, d),
{
    lemma_round_trip(d);
    let c2 = c.insert(id_key(id), crate::codec::encoding(d));
    assert forall|other: Seq<char>| other != id implies id_key(other) != id_key(id) by {
        encode_utf8_decode_utf8(other);
        encode_utf8_decode_utf8(id);
    }
    assert(stored_profiles(c2) =~= stored_profiles(c).insert(id, d));
}

/// The persistent profile store.
pub struct Database {
    db: sled::Db,
}

impl Database {
    /// The raw contents of the store.
    pub closed spec fn entries(&self) -> Map<Seq<u8>, Seq<u8>> {
        contents(self.db)
    }

    /// The least identifier that the store may still give out.
    pub closed spec fn next_id(&self) -> nat {
        ids_from(self.db)
    }

    /// The profiles that the store holds, by id.
    pub open spec fn profiles(&self) -> Map<Seq<char>, UserRecord> {
        stored_profiles(self.entries())
    }

    /// Opens the store at a path, creating it where it does not exist.
    pub fn open(path: &str) -> (r: Result<Database, StoreError>)
        ensures
            r matches Err(e) ==> e == StoreError::StoreUnavailable,
    {
        match open_db(path) {
            Ok(db) => Ok(Database { db }),
            Err(_) => Err(StoreError::StoreUnavailable),
        }
    }

    /// Writes a profile under its id, replacing what was stored there, and
    /// makes it durable.
    pub fn save_profile(&mut self, profile: &Profile) -> (r: Result<(), StoreError>)
        requires
            profile@.data.wf(),
        ensures
            r is Ok ==> final(self).entries() == old(self).entries().insert(
                id_key(profile@.id),
                crate::codec::encoding(profile@.data),
            ),
            r is Ok ==> final(self).profiles() == old(self).profiles().insert(
                profile@.id,
                profile@.data,
            ),
            r matches Err(e) ==> e == StoreError::WriteError,
            final(self).next_id() == old(self).next_id(),
    {
        let key = text_bytes(profile.id.as_str());
        let value = encode(&profile.data);
        match db_insert(&mut self.db, key.as_slice(), value.as_slice()) {
            Ok(()) => {},
            Err(_) => {
                return Err(StoreError::WriteError);
            },
        }
        proof {
            lemma_store_record(old(self).entries(), profile@.id, profile@.data);
        }
        match db_flush(&mut self.db) {
            Ok(()) => Ok(()),
            Err(_) => Err(StoreError::WriteError),
        }
    }

    /// The profile stored under an id: `None` where nothing is stored there,
    /// `DataCorruption` where what is stored does not decode.
    pub fn load_profile(&self, id: &str) -> (r: Result<Option<Profile>, StoreError>)
        ensures
            r matches Ok(None) ==> !self.entries().contains_key(id_key(id@)),
            r matches Ok(Some(p)) ==> p@.id == id@ && self.profiles().contains_key(id@)
                && self.profiles()[id@] == p@.data && p@.data.wf(),
            r matches Err(e) ==> e == StoreError::ReadError || (e == StoreError::DataCorruption
                && self.entries().contains_key(id_key(id@)) && parse(self.entries()[id_key(id@)]) is None),
    {
        let key = text_bytes(id);
        match db_get(&self.db, key.as_slice()) {
            Err(_) => Err(StoreError::ReadError),
            Ok(None) => Ok(None),
            Ok(Some(bytes)) => match decode(bytes.as_slice()) {
                Some(data) => Ok(Some(Profile { id: id.to_owned(), data })),
                None => Err(StoreError::DataCorruption),
            },
        }
    }

    /// Every stored profile, once each, in ascending key order; entries
    /// whose key is not text or whose value does not decode are skipped.
    pub fn get_profiles(&self) -> (r: Result<Vec<Profile>, StoreError>)
        ensures
            r matches Ok(v) ==> exists|e: Seq<(Seq<u8>, Seq<u8>)>|
                store_listing(e, self.entries()) && #[trigger] decoded_entries(e)
                    == v@.map_values(|p: Profile| p@),
            r matches Ok(v) ==> listing(v@.map_values(|p: Profile| p@), self.profiles()),
            r matches Err(e) ==> e == StoreError::ReadError,
    {
        let entries = match db_entries(&self.db) {
            Ok(entries) => entries,
            Err(_) => {
                return Err(StoreError::ReadError);
            },
        };
        let out = profiles_of(&entries);
        proof {
            let c = self.entries();
            let ev = entry_view(entries@);
            assert forall|a: int, b: int|
                0 <= a < b < entries@.len() implies entries@[a].0@ != entries@[b].0@ by {
                assert(ev[a].0 == entries@[a].0@ && ev[b].0 == entries@[b].0@);
                assert(key_before(ev[a].0, ev[b].0));
            }
            let v = out@.map_values(|p: Profile| p@);
            assert forall|a: int|
                #![trigger v[a]]
                0 <= a < v.len() implies stored_profiles(c).contains_key(v[a].id)
                    && stored_profiles(c)[v[a].id] == v[a].data by {
                assert(v[a] == out@[a]@);
                let k = choose|k: int|
                    0 <= k < entries@.len() && entries@[k].0@ == id_key(out@[a]@.id) && parse(
                        entries@[k].1@,
                    ) == Some(out@[a]@.data);
                assert(ev[k] == (entries@[k].0@, entries@[k].1@));
            }
            assert forall|id: Seq<char>| #[trigger] stored_profiles(c).contains_key(id) implies exists|a: int|
                0 <= a < v.len() && v[a].id == id by {
                let k = choose|k: int| 0 <= k < ev.len() && #[trigger] ev[k].0 == id_key(id);
                assert(ev[k] == (entries@[k].0@, entries@[k].1@));
                vstd::utf8::encode_utf8_valid_utf8(id);
                assert(entries@[k].0@ == id_key(id));
                assert(valid_utf8(entries@[k].0@));
                let a = choose|a: int| 0 <= a < out@.len() && id_key(out@[a]@.id) == entries@[k].0@;
                encode_utf8_decode_utf8(id);
                encode_utf8_decode_utf8(out@[a]@.id);
                assert(v[a].id == id);
            }
            assert(decoded_entries(ev) == v);
        }
        Ok(out)
    }

    /// The stored profile with a username: the first in ascending key
    /// order, found by a scan of every profile.
    pub fn find_by_username(&self, username: &String) -> (r: Result<Option<Profile>, StoreError>)
        ensures
            r matches Ok(o) ==> exists|e: Seq<(Seq<u8>, Seq<u8>)>|
                store_listing(e, self.entries()) && first_named(#[trigger] decoded_entries(e), username@)
                    == profile_option_view(o),
            r matches Ok(Some(p)) ==> self.profiles().contains_key(p@.id) && self.profiles()[p@.id]
                == p@.data && p@.data.username == username@ && p@.data.wf(),
            r matches Ok(None) ==> forall|id: Seq<char>|
                #[trigger] self.profiles().contains_key(id) ==> self.profiles()[id].username
                    != username@,
            r matches Err(e) ==> e == StoreError::ReadError,
    {
        let profiles = self.get_profiles()?;
        let found = first_with_username(&profiles, username);
        proof {
            let v = profiles@.map_values(|p: Profile| p@);
            lemma_first_named(v, username@);
            if found is Some {
                let p = found->Some_0;
                let i = choose|i: int| 0 <= i < v.len() && v[i] == p@;
                assert(v[i] == p@);
                crate::codec::lemma_parse_wf(self.entries()[id_key(p@.id)]);
            } else {
                assert forall|id: Seq<char>| #[trigger] self.profiles().contains_key(id) implies self.profiles()[id].username != username@ by {
                    let a = choose|a: int| 0 <= a < v.len() && v[a].id == id;
                    assert(v[a] == profiles@[a]@);
                }
            }
        }
        Ok(found)
    }

    /// The id of the stored profile with a username: the first in ascending
    /// key order.
    pub fn get_id(&self, username: &String) -> (r: Result<Option<String>, StoreError>)
        ensures
            r matches Ok(o) ==> exists|e: Seq<(Seq<u8>, Seq<u8>)>|
                store_listing(e, self.entries()) && match first_named(
                    #[trigger] decoded_entries(e),
                    username@,
                ) {
                    None => o is None,
                    Some(q) => o matches Some(id) && id@ == q.id,
                },
            r matches Ok(Some(id)) ==> self.profiles().contains_key(id@) && self.profiles()[id@].username
                == username@,
            r matches Ok(None) ==> forall|id: Seq<char>|
                #[trigger] self.profiles().contains_key(id) ==> self.profiles()[id].username
                    != username@,
            r matches Err(e) ==> e == StoreError::ReadError,
    {
        match self.find_by_username(username)? {
            Some(p) => Ok(Some(p.id)),
            None => Ok(None),
        }
    }

    /// Replaces the stored record of a profile with `data`, only where the
    /// store still holds exactly `current`'s record, and makes it durable.
    pub fn replace_if_unchanged(&mut self, current: &Profile, data: &UserData) -> (r: Result<
        bool,
        StoreError,
    >)
        ensures
            r matches Ok(true) ==> old(self).entries().contains_key(id_key(current@.id))
                && old(self).entries()[id_key(current@.id)] == crate::codec::encoding(
                current@.data,
            ) && final(self).entries() == old(self).entries().insert(
                id_key(current@.id),
                crate::codec::encoding(data@),
            ),
            r matches Ok(false) ==> final(self).entries() == old(self).entries() && !(old(
                self,
            ).entries().contains_key(id_key(current@.id)) && old(self).entries()[id_key(
                current@.id,
            )] == crate::codec::encoding(current@.data)),
            r matches Err(e) ==> e == StoreError::WriteError,
            data@.wf() ==> crate::codec::encodable(data@),
            final(self).next_id() == old(self).next_id(),
    {
        let key = text_bytes(current.id.as_str());
        let expected = encode(&current.data);
        let value = encode(data);
        match db_compare_and_swap(&mut self.db, key.as_slice(), Some(expected.as_slice()), value.as_slice()) {
            Ok(true) => {},
            Ok(false) => {
                return Ok(false);
            },
            Err(_) => {
                return Err(StoreError::WriteError);
            },
        }
        match db_flush(&mut self.db) {
            Ok(()) => Ok(true),
            Err(_) => Err(StoreError::WriteError),
        }
    }

    /// Stores a record under a fresh id from the store, written as decimal
    /// text, and makes it durable. The record is written only where nothing
    /// is stored under that id yet; otherwise the store is left as it was
    /// and `WriteError` is returned.
    pub fn insert_new(&mut self, data: UserData) -> (r: Result<Profile, StoreError>)
        requires
            data@.wf(),
        ensures
            r matches Ok(p) ==> {
                &&& p@.data == data@
                &&& exists|n: u64| p@.id == decimal(n as nat)
                &&& !old(self).entries().contains_key(id_key(p@.id))
                &&& !old(self).profiles().contains_key(p@.id)
                &&& final(self).profiles() == old(self).profiles().insert(p@.id, data@)
            },
            r matches Err(e) ==> e == StoreError::ReadError || e == StoreError::WriteError,
            r == Err::<Profile, StoreError>(StoreError::ReadError) ==> final(self).entries() == old(
                self,
            ).entries(),
            final(self).next_id() >= old(self).next_id(),
    {
        let n = self.gen_id()?;
        let profile = Profile::new(decimal_text(n), data);
        let key = text_bytes(profile.id.as_str());
        let value = encode(&profile.data);
        match db_compare_and_swap(&mut self.db, key.as_slice(), None, value.as_slice()) {
            Ok(true) => {},
            Ok(false) => {
                return Err(StoreError::WriteError);
            },
            Err(_) => {
                return Err(StoreError::WriteError);
            },
        }
        proof {
            lemma_store_record(old(self).entries(), profile@.id, profile@.data);
        }
        match db_flush(&mut self.db) {
            Ok(()) => Ok(profile),
            Err(_) => Err(StoreError::WriteError),
        }
    }

    /// A fresh identifier from the store: never below one given out
    /// before, so each is new.
    pub fn gen_id(&mut self) -> (r: Result<u64, StoreError>)
        ensures
            r matches Err(e) ==> e == StoreError::ReadError,
            final(self).entries() == old(self).entries(),
            r matches Ok(n) ==> old(self).next_id() <= n && n < final(self).next_id(),
            old(self).next_id() <= final(self).next_id(),
    {
        match db_generate_id(&mut self.db) {
            Ok(n) => Ok(n),
            Err(_) => Err(StoreError::ReadError),
        }
    }
}

/// The profiles that a list of entries holds, in its order: an entry whose
/// key is text and whose value decodes gives one; any other is skipped.
pub open spec fn decoded_entries(e: Seq<(Seq<u8>, Seq<u8>)>) -> Seq<ProfileRecord>
    decreases e.len(),
{
    if e.len() == 0 {
        Seq::empty()
    } else {
        let rest = decoded_entries(e.drop_last());
        let (k, v) = e.last();
        if valid_utf8(k) && parse(v) is Some {
            rest.push(ProfileRecord { id: decode_utf8(k), data: parse(v).unwrap() })
        } else {
            rest
        }
    }
}

/// No key occurs twice among the entries.
pub open spec fn distinct_keys(e: Seq<(Vec<u8>, Vec<u8>)>) -> bool {
    forall|a: int, b: int| 0 <= a < b < e.len() ==> e[a].0@ != e[b].0@
}

/// The profiles of one entry more: the entry's own, where it has one.
proof fn lemma_decoded_step(e: Seq<(Seq<u8>, Seq<u8>)>, i: int)
    requires
        0 <= i < e.len(),
    ensures
        decoded_entries(e.take(i + 1)) == if valid_utf8(e[i].0) && parse(e[i].1) is Some {
            decoded_entries(e.take(i)).push(
                ProfileRecord { id: decode_utf8(e[i].0), data: parse(e[i].1).unwrap() },
            )
        } else {
            decoded_entries(e.take(i))
        },
{
    assert(e.take(i + 1).drop_last() =~= e.take(i));
}

/// The entry gives the profile: its key is the profile's id as text and its
/// value decodes to the profile's record.
#[verifier::opaque]
spec fn yields_profile(e: (Seq<u8>, Seq<u8>), p: ProfileRecord) -> bool {
    valid_utf8(e.0) && e.0 == id_key(p.id) && parse(e.1) == Some(p.data)
}

/// The entry gives some profile.
#[verifier::opaque]
spec fn has_profile(e: (Seq<u8>, Seq<u8>)) -> bool {
    valid_utf8(e.0) && parse(e.1) is Some
}

/// The profiles that store entries hold, in their order: an entry whose key
/// is not text, or whose value does not decode, is skipped.
#[verifier::spinoff_prover]
pub fn profiles_of(entries: &Vec<(Vec<u8>, Vec<u8>)>) -> (r: Vec<Profile>)
    ensures
        r@.map_values(|p: Profile| p@) == decoded_entries(entry_view(entries@)),
        forall|a: int|
            #![trigger r@[a]]
            0 <= a < r@.len() ==> r@[a]@.data.wf() && exists|k: int|
                0 <= k < entries@.len() && entries@[k].0@ == id_key(r@[a]@.id) && parse(
                    entries@[k].1@,
                ) == Some(r@[a]@.data),
        forall|k: int|
            #![trigger valid_utf8(entries@[k].0@)]
            0 <= k < entries@.len() && valid_utf8(entries@[k].0@) && parse(entries@[k].1@) is Some
                ==> exists|a: int| 0 <= a < r@.len() && id_key(r@[a]@.id) == entries@[k].0@,
        distinct_keys(entries@) ==> forall|a: int, b: int|
            0 <= a < b < r@.len() ==> r@[a]@.id != r@[b]@.id,
{
    let ghost ev = entry_view(entries@);
    let mut out: Vec<Profile> = Vec::new();
    let mut i: usize = 0;
    assert(ev.take(0) =~= Seq::<(Seq<u8>, Seq<u8>)>::empty());
    assert(out@.map_values(|p: Profile| p@) =~= Seq::<ProfileRecord>::empty());
    while i < entries.len()
        invariant
            i <= entries@.len(),
            ev == entry_view(entries@),
            out@.map_values(|p: Profile| p@) == decoded_entries(ev.take(i as int)),
            forall|a: int|
                #![trigger out@[a]]
                0 <= a < out@.len() ==> out@[a]@.data.wf() && exists|k: int|
                    0 <= k < i && yields_profile(ev[k], out@[a]@),
            distinct_keys(entries@) ==> forall|a: int, b: int|
                0 <= a < b < out@.len() ==> out@[a]@.id != out@[b]@.id,
            forall|k: int|
                #![trigger has_profile(ev[k])]
                0 <= k < i && has_profile(ev[k]) ==> exists|a: int|
                    0 <= a < out@.len() && id_key(out@[a]@.id) == ev[k].0,
        decreases entries@.len() - i,
    {
        let ghost prev = out@;
        let key = &entries[i].0;
        let value = &entries[i].1;
        proof {
            lemma_decoded_step(ev, i as int);
            assert(ev[i as int] == (key@, value@));
        }
        let text = utf8_text(key.as_slice());
        let decoded = decode(value.as_slice());
        assert(has_profile(ev[i as int]) == (text.is_some() && decoded.is_some())) by {
            reveal(has_profile);
        }
        if text.is_some() && decoded.is_some() {
            let id = text.unwrap();
            let data = decoded.unwrap();
            proof {
                vstd::utf8::decode_utf8_encode_utf8(key@);
                if distinct_keys(entries@) {
                    assert forall|a: int| 0 <= a < out@.len() implies out@[a]@.id != id@ by {
                        let k = choose|k: int| 0 <= k < i && yields_profile(ev[k], out@[a]@);
                        reveal(yields_profile);
                        if out@[a]@.id == id@ {
                            assert(entries@[k].0@ == ev[k].0);
                            assert(entries@[k].0@ == entries@[i as int].0@);
                        }
                    }
                }
            }
            out.push(Profile { id, data });
            proof {
                let n = out@.len() - 1;
                assert(yields_profile(ev[i as int], out@[n]@)) by {
                    reveal(yields_profile);
                }
                assert(out@.map_values(|p: Profile| p@) =~= prev.map_values(|p: Profile| p@).push(
                    out@[n]@,
                ));
            }
        }
        proof {
            assert(forall|a: int| 0 <= a < prev.len() ==> out@[a] == prev[a]);
            assert forall|a: int|
                #![trigger out@[a]]
                0 <= a < out@.len() implies out@[a]@.data.wf() && exists|k: int|
                    0 <= k < i + 1 && yields_profile(ev[k], out@[a]@) by {
                if a >= prev.len() {
                    assert(yields_profile(ev[i as int], out@[a]@));
                } else {
                    assert(out@[a] == prev[a]);
                    let k = choose|k: int| 0 <= k < i && yields_profile(ev[k], prev[a]@);
                }
            }
            assert forall|k: int|
                #![trigger has_profile(ev[k])]
                0 <= k < i + 1 && has_profile(ev[k]) implies exists|a: int|
                    0 <= a < out@.len() && id_key(out@[a]@.id) == ev[k].0 by {
                if k < i {
                    let a = choose|a: int| 0 <= a < prev.len() && id_key(prev[a]@.id) == ev[k].0;
                    assert(out@[a] == prev[a]);
                } else {
                    let a = out@.len() - 1;
                    assert(id_key(out@[a]@.id) == ev[k].0) by {
                        reveal(yields_profile);
                    }
                }
            }
        }
        i = i + 1;
    }
    assert(ev.take(entries@.len() as int) =~= ev);
    assert forall|a: int|
        #![trigger out@[a]]
        0 <= a < out@.len() implies out@[a]@.data.wf() && exists|k: int|
            0 <= k < entries@.len() && entries@[k].0@ == id_key(out@[a]@.id) && parse(
                entries@[k].1@,
            ) == Some(out@[a]@.data) by {
        let k = choose|k: int| 0 <= k < entries@.len() && yields_profile(ev[k], out@[a]@);
        reveal(yields_profile);
        assert(ev[k] == (entries@[k].0@, entries@[k].1@));
    }
    assert forall|k: int|
        #![trigger valid_utf8(entries@[k].0@)]
        0 <= k < entries@.len() && valid_utf8(entries@[k].0@) && parse(entries@[k].1@) is Some
            implies exists|a: int| 0 <= a < out@.len() && id_key(out@[a]@.id) == entries@[k].0@ by {
        assert(ev[k] == (entries@[k].0@, entries@[k].1@));
        assert(has_profile(ev[k])) by {
            reveal(has_profile);
        }
    }
    out
}

/// The view of an optional profile.
pub open spec fn profile_option_view(o: Option<Profile>) -> Option<ProfileRecord> {
    match o {
        Some(p) => Some(p@),
        None => None,
    }
}

/// The first profile of `v` with the username, if any.
pub open spec fn first_named(v: Seq<ProfileRecord>, username: Seq<char>) -> Option<ProfileRecord>
    decreases v.len(),
{
    if v.len() == 0 {
        None
    } else if v[0].data.username == username {
        Some(v[0])
    } else {
        first_named(v.drop_first(), username)
    }
}

/// The first profile with a username is one of them; where there is none,
/// no profile has the username.
pub proof fn lemma_first_named(v: Seq<ProfileRecord>, username: Seq<char>)
    ensures
        first_named(v, username) matches Some(p) ==> p.data.username == username && exists|i: int|
            0 <= i < v.len() && v[i] == p,
        first_named(v, username) is None ==> forall|i: int|
            0 <= i < v.len() ==> v[i].data.username != username,
    decreases v.len(),
{
    if v.len() > 0 && v[0].data.username != username {
        let rest = v.drop_first();
        lemma_first_named(rest, username);
        if let Some(p) = first_named(rest, username) {
            let i = choose|i: int| 0 <= i < rest.len() && rest[i] == p;
            assert(v[i + 1] == p);
        } else {
            assert forall|i: int| 0 <= i < v.len() implies v[i].data.username != username by {
                if i > 0 {
                    assert(v[i] == rest[i - 1]);
                }
            }
        }
    } else if v.len() > 0 {
        assert(v[0] == v[0]);
    }
}

/// The first of the profiles with the username, if any.
pub fn first_with_username(profiles: &Vec<Profile>, username: &String) -> (r: Option<Profile>)
    ensures
        profile_option_view(r) == first_named(profiles@.map_values(|p: Profile| p@), username@),
{
    let ghost v = profiles@.map_values(|p: Profile| p@);
    let mut i: usize = 0;
    assert(v.subrange(0, v.len() as int) =~= v);
    while i < profiles.len()
        invariant
            i <= profiles@.len(),
            v == profiles@.map_values(|p: Profile| p@),
            first_named(v, username@) == first_named(v.subrange(i as int, v.len() as int), username@),
        decreases profiles@.len() - i,
    {
        proof {
            let rest = v.subrange(i as int, v.len() as int);
            assert(rest.drop_first() =~= v.subrange(i + 1, v.len() as int));
            assert(rest[0] == profiles@[i as int]@);
        }
        if profiles[i].data.username == *username {
            return Some(profiles[i].duplicate());
        }
        i = i + 1;
    }
    None
}

/// `v` lists the profiles of `m`, each once.
pub open spec fn listing(v: Seq<ProfileRecord>, m: Map<Seq<char>, UserRecord>) -> bool {
    &&& forall|i: int, j: int| 0 <= i < j < v.len() ==> v[i].id != v[j].id
    &&& forall|i: int|
        #![trigger v[i]]
        0 <= i < v.len() ==> m.contains_key(v[i].id) && m[v[i].id] == v[i].data
    &&& forall|id: Seq<char>|
        #[trigger] m.contains_key(id) ==> exists|i: int| 0 <= i < v.len() && v[i].id == id
}

} // verus!
