//! The ranking of all profiles by points.

use vstd::prelude::*;
use vstd::utf8::encode_utf8;

use crate::profile::{Profile, ProfileRecord, UserRecord};
use crate::store::{decoded_entries, listing, store_listing, Database, StoreError};
use crate::text::text_bytes;

verus! {

/// Byte-wise lexicographic order, the order of Rust's `str`.
pub open spec fn lex_le(a: Seq<u8>, b: Seq<u8>) -> bool
    decreases a.len(),
{
    if a.len() == 0 {
        true
    } else if b.len() == 0 {
        false
    } else if a[0] != b[0] {
        a[0] < b[0]
    } else {
        lex_le(a.drop_first(), b.drop_first())
    }
}

/// Any two byte strings are ordered one way or the other.
pub proof fn lemma_lex_total(a: Seq<u8>, b: Seq<u8>)
    ensures
        lex_le(a, b) || lex_le(b, a),
    decreases a.len(),
{
    if a.len() > 0 && b.len() > 0 && a[0] == b[0] {
        lemma_lex_total(a.drop_first(), b.drop_first());
    }
}

/// The order is transitive.
pub proof fn lemma_lex_transitive(a: Seq<u8>, b: Seq<u8>, c: Seq<u8>)
    requires
        lex_le(a, b),
        lex_le(b, c),
    ensures
        lex_le(a, c),
    decreases a.len(),
{
    if a.len() > 0 && b.len() > 0 && c.len() > 0 && a[0] == b[0] && b[0] == c[0] {
        lemma_lex_transitive(a.drop_first(), b.drop_first(), c.drop_first());
    }
}

/// Whether `x` may stand before `y` in a ranking: more points first, equal
/// points by username.
pub open spec fn ranks_before(x: (Seq<char>, u16), y: (Seq<char>, u16)) -> bool {
    x.1 > y.1 || (x.1 == y.1 && lex_le(encode_utf8(x.0), encode_utf8(y.0)))
}

proof fn lemma_ranks_total(x: (Seq<char>, u16), y: (Seq<char>, u16))
    ensures
        ranks_before(x, y) || ranks_before(y, x),
{
    lemma_lex_total(encode_utf8(x.0), encode_utf8(y.0));
}

proof fn lemma_ranks_transitive(x: (Seq<char>, u16), y: (Seq<char>, u16), z: (Seq<char>, u16))
    requires
        ranks_before(x, y),
        ranks_before(y, z),
    ensures
        ranks_before(x, z),
{
    if x.1 == y.1 && y.1 == z.1 {
        lemma_lex_transitive(encode_utf8(x.0), encode_utf8(y.0), encode_utf8(z.0));
    }
}

/// Compares two byte strings in lexicographic order.
fn bytes_le(a: &Vec<u8>, b: &Vec<u8>) -> (r: bool)
    ensures
        r == lex_le(a@, b@),
{
    let mut i: usize = 0;
    assert(a@.subrange(0, a@.len() as int) =~= a@);
    assert(b@.subrange(0, b@.len() as int) =~= b@);
    while i < a.len() && i < b.len() && a[i] == b[i]
        invariant
            i <= a@.len(),
            i <= b@.len(),
            lex_le(a@, b@) == lex_le(a@.subrange(i as int, a@.len() as int), b@.subrange(i as int, b@.len() as int)),
        decreases a@.len() - i,
    {
        proof {
            let sa = a@.subrange(i as int, a@.len() as int);
            let sb = b@.subrange(i as int, b@.len() as int);
            assert(sa.drop_first() =~= a@.subrange(i as int + 1, a@.len() as int));
            assert(sb.drop_first() =~= b@.subrange(i as int + 1, b@.len() as int));
        }
        i = i + 1;
    }
    if i == a.len() {
        true
    } else if i == b.len() {
        false
    } else {
        a[i] < b[i]
    }
}

/// Whether one ranking entry may stand before another.
fn entry_before(x: &(String, u16), y: &(String, u16)) -> (r: bool)
    ensures
        r == ranks_before((x.0@, x.1), (y.0@, y.1)),
{
    if x.1 != y.1 {
        x.1 > y.1
    } else {
        bytes_le(&text_bytes(x.0.as_str()), &text_bytes(y.0.as_str()))
    }
}

/// `r` ranks every profile of `m` once, as (username, points), with points
/// non-increasing and equal points by username.
pub open spec fn ranks(r: Seq<(Seq<char>, u16)>, m: Map<Seq<char>, UserRecord>) -> bool {
    &&& forall|i: int, j: int| 0 <= i < j < r.len() ==> ranks_before(r[i], r[j])
    &&& exists|ids: Seq<Seq<char>>|
        {
            &&& ids.len() == r.len()
            &&& ids.no_duplicates()
            &&& forall|i: int|
                #![trigger ids[i]]
                0 <= i < ids.len() ==> m.contains_key(ids[i]) && r[i] == (
                    m[ids[i]].username,
                    m[ids[i]].points,
                )
            &&& forall|id: Seq<char>| #[trigger] m.contains_key(id) ==> ids.contains(id)
        }
}

/// The view of a ranking as text and points.
pub open spec fn ranking_view(r: Seq<(String, u16)>) -> Seq<(Seq<char>, u16)> {
    r.map_values(|e: (String, u16)| (e.0@, e.1))
}

/// A ranking has one entry per stored profile, and its points never
/// increase along it.
pub proof fn lemma_ranking_counts(r: Seq<(Seq<char>, u16)>, m: Map<Seq<char>, UserRecord>)
    requires
        ranks(r, m),
    ensures
        m.dom().finite(),
        r.len() == m.dom().len(),
        forall|i: int, j: int| 0 <= i < j < r.len() ==> r[i].1 >= r[j].1,
{
    let ids = choose|ids: Seq<Seq<char>>|
        {
            &&& ids.len() == r.len()
            &&& ids.no_duplicates()
            &&& forall|i: int|
                #![trigger ids[i]]
                0 <= i < ids.len() ==> m.contains_key(ids[i]) && r[i] == (
                    m[ids[i]].username,
                    m[ids[i]].points,
                )
            &&& forall|id: Seq<char>| #[trigger] m.contains_key(id) ==> ids.contains(id)
        };
    assert(ids.to_set() =~= m.dom()) by {
        assert forall|x: Seq<char>| ids.to_set().contains(x) implies m.dom().contains(x) by {
            let i = choose|i: int| 0 <= i < ids.len() && ids[i] == x;
        }
    }
    ids.unique_seq_to_set();
    assert forall|i: int, j: int| 0 <= i < j < r.len() implies r[i].1 >= r[j].1 by {
        assert(ranks_before(r[i], r[j]));
    }
}

/// `r` holds one entry per profile of `v`, as (username, points), with
/// points non-increasing and equal points by username.
pub open spec fn ranked(r: Seq<(Seq<char>, u16)>, v: Seq<ProfileRecord>) -> bool {
    &&& forall|i: int, j: int| 0 <= i < j < r.len() ==> ranks_before(r[i], r[j])
    &&& exists|idx: Seq<int>|
        {
            &&& idx.len() == r.len()
            &&& r.len() == v.len()
            &&& idx.no_duplicates()
            &&& forall|a: int|
                #![trigger idx[a]]
                0 <= a < idx.len() ==> 0 <= idx[a] < v.len() && r[a] == (
                    v[idx[a]].data.username,
                    v[idx[a]].data.points,
                )
            &&& forall|j: int| 0 <= j < v.len() ==> #[trigger] idx.contains(j)
        }
}

/// A ranking of a listing of the stored profiles ranks the stored profiles.
proof fn lemma_ranked_ranks(
    r: Seq<(Seq<char>, u16)>,
    v: Seq<ProfileRecord>,
    m: Map<Seq<char>, UserRecord>,
)
    requires
        ranked(r, v),
        listing(v, m),
    ensures
        ranks(r, m),
{
    let idx = choose|idx: Seq<int>|
        {
            &&& idx.len() == r.len()
            &&& r.len() == v.len()
            &&& idx.no_duplicates()
            &&& forall|a: int|
                #![trigger idx[a]]
                0 <= a < idx.len() ==> 0 <= idx[a] < v.len() && r[a] == (
                    v[idx[a]].data.username,
                    v[idx[a]].data.points,
                )
            &&& forall|j: int| 0 <= j < v.len() ==> #[trigger] idx.contains(j)
        };
    let ids = Seq::new(r.len(), |a: int| v[idx[a]].id);
    assert forall|a: int, b: int| 0 <= a < b < ids.len() implies ids[a] != ids[b] by {
        assert(idx[a] != idx[b]);
        assert(0 <= idx[a] < v.len() && 0 <= idx[b] < v.len());
        if idx[a] < idx[b] {
            assert(v[idx[a]].id != v[idx[b]].id);
        } else {
            assert(v[idx[b]].id != v[idx[a]].id);
        }
    }
    assert forall|a: int|
        #![trigger ids[a]]
        0 <= a < ids.len() implies m.contains_key(ids[a]) && r[a] == (
            m[ids[a]].username,
            m[ids[a]].points,
        ) by {
        assert(0 <= idx[a] < v.len());
        assert(v[idx[a]] == v[idx[a]]);
    }
    assert forall|id: Seq<char>| #[trigger] m.contains_key(id) implies ids.contains(id) by {
        let j = choose|j: int| 0 <= j < v.len() && v[j].id == id;
        assert(idx.contains(j));
        let a = choose|a: int| 0 <= a < idx.len() && idx[a] == j;
        assert(ids[a] == id);
    }
}

/// The profiles as (username, points), highest points first; equal points
/// in username order.
pub fn rank(profiles: &Vec<Profile>) -> (r: Vec<(String, u16)>)
    ensures
        ranked(ranking_view(r@), profiles@.map_values(|p: Profile| p@)),
{
    let ghost v = profiles@.map_values(|p: Profile| p@);
    let mut out: Vec<(String, u16)> = Vec::new();
    let ghost mut idx: Seq<int> = Seq::empty();
    let mut k: usize = 0;
    while k < profiles.len()
        invariant
            k <= profiles@.len(),
            v == profiles@.map_values(|p: Profile| p@),
            idx.len() == out@.len(),
            out@.len() == k,
            idx.no_duplicates(),
            forall|a: int|
                #![trigger idx[a]]
                0 <= a < idx.len() ==> 0 <= idx[a] < k && ranking_view(out@)[a] == (
                    v[idx[a]].data.username,
                    v[idx[a]].data.points,
                ),
            forall|j: int| 0 <= j < k ==> #[trigger] idx.contains(j),
            forall|a: int, b: int|
                0 <= a < b < out@.len() ==> ranks_before(ranking_view(out@)[a], ranking_view(out@)[b]),
        decreases profiles@.len() - k,
    {
        let points = profiles[k].data.points;
        let entry = (profiles[k].data.username.clone(), points);
        let ghost e = (entry.0@, entry.1);
        let mut pos: usize = 0;
        while pos < out.len() && entry_before(&out[pos], &entry)
            invariant
                pos <= out@.len(),
                e == (entry.0@, entry.1),
                forall|a: int| 0 <= a < pos ==> ranks_before(ranking_view(out@)[a], e),
            decreases out@.len() - pos,
        {
            pos = pos + 1;
        }
        let ghost before = out@;
        proof {
            assert(v[k as int] == profiles@[k as int]@);
        }
        out.insert(pos, entry);
        proof {
            before.insert_ensures(pos as int, out@[pos as int]);
            idx.insert_ensures(pos as int, k as int);
            let idx2 = idx.insert(pos as int, k as int);
            let rv = ranking_view(out@);
            let bv = ranking_view(before);
            assert(rv[pos as int] == e);
            if pos < before.len() {
                assert(!ranks_before(bv[pos as int], e));
                lemma_ranks_total(bv[pos as int], e);
            }
            assert forall|a: int, b: int| 0 <= a < b < out@.len() implies ranks_before(rv[a], rv[b]) by {
                if b < pos {
                    assert(rv[a] == bv[a] && rv[b] == bv[b]);
                } else if b == pos {
                    assert(rv[a] == bv[a]);
                } else if a < pos {
                    assert(rv[a] == bv[a] && rv[b] == bv[b - 1]);
                    lemma_ranks_total(bv[pos as int], e);
                    if b - 1 > pos {
                        lemma_ranks_transitive(e, bv[pos as int], bv[b - 1]);
                    }
                    lemma_ranks_transitive(bv[a], e, bv[b - 1]);
                } else if a == pos {
                    assert(rv[b] == bv[b - 1]);
                    if b - 1 > pos {
                        lemma_ranks_transitive(e, bv[pos as int], bv[b - 1]);
                    }
                } else {
                    assert(rv[a] == bv[a - 1]);
                    assert(rv[b] == bv[b - 1]);
                }
            }
            assert forall|a: int, b: int| 0 <= a < b < idx2.len() implies idx2[a] != idx2[b] by {
                if a == pos {
                    assert(idx2[b] == idx[b - 1]);
                } else if b == pos {
                    assert(idx2[a] == idx[a]);
                } else if a < pos && b < pos {
                    assert(idx2[a] == idx[a] && idx2[b] == idx[b]);
                } else if a < pos {
                    assert(idx2[a] == idx[a] && idx2[b] == idx[b - 1]);
                } else {
                    assert(idx2[a] == idx[a - 1] && idx2[b] == idx[b - 1]);
                }
            }
            assert forall|a: int|
                #![trigger idx2[a]]
                0 <= a < idx2.len() implies 0 <= idx2[a] < k + 1 && ranking_view(out@)[a] == (
                    v[idx2[a]].data.username,
                    v[idx2[a]].data.points,
                ) by {
                if a < pos {
                    assert(idx2[a] == idx[a]);
                    assert(ranking_view(out@)[a] == ranking_view(before)[a]);
                } else if a == pos {
                } else {
                    assert(idx2[a] == idx[a - 1]);
                    assert(ranking_view(out@)[a] == ranking_view(before)[a - 1]);
                }
            }
            assert forall|j: int| 0 <= j < k + 1 implies #[trigger] idx2.contains(j) by {
                if j == k {
                    assert(idx2[pos as int] == j);
                } else {
                    assert(idx.contains(j));
                    let a = choose|a: int| 0 <= a < idx.len() && idx[a] == j;
                    if a < pos {
                        assert(idx2[a] == j);
                    } else {
                        assert(idx2[a + 1] == j);
                    }
                }
            }
            idx = idx2;
        }
        k = k + 1;
    }
    out
}

/// Every stored profile as (username, points), highest points first; equal
/// points in username order.
pub fn leaderboard(db: &Database) -> (r: Result<Vec<(String, u16)>, StoreError>)
    ensures
        r matches Ok(v) ==> ranks(ranking_view(v@), db.profiles()),
        r matches Ok(v) ==> exists|e: Seq<(Seq<u8>, Seq<u8>)>|
            store_listing(e, db.entries()) && ranked(ranking_view(v@), #[trigger] decoded_entries(e)),
        r matches Err(e) ==> e == StoreError::ReadError,
{
    let profiles = db.get_profiles()?;
    let out = rank(&profiles);
    proof {
        lemma_ranked_ranks(
            ranking_view(out@),
            profiles@.map_values(|p: Profile| p@),
            db.profiles(),
        );
    }
    Ok(out)
}

} // verus!
