//! The fixed binary layout of a stored record, and its decoder.

use vstd::bytes::{
    lemma_auto_spec_u64_to_from_le_bytes, lemma_auto_spec_u16_to_from_le_bytes,
    spec_u16_from_le_bytes, spec_u16_to_le_bytes, spec_u64_from_le_bytes, spec_u64_to_le_bytes,
    u16_from_le_bytes, u16_to_le_bytes, u64_from_le_bytes, u64_to_le_bytes,
};
use vstd::prelude::*;
use vstd::slice::slice_subrange;
use vstd::utf8::{
    decode_utf8, decode_utf8_encode_utf8, encode_utf8, encode_utf8_decode_utf8,
    encode_utf8_valid_utf8, valid_utf8,
};

use crate::item::ShopItem;
use crate::profile::{UserData, UserRecord};
use crate::text::{text_bytes, utf8_text};

verus! {

// The persisted record is laid out as:
//   username  (u64 little-endian byte length, then UTF-8 bytes)
//   hash      (u64 little-endian byte length, then UTF-8 bytes)
//   points    (u16 little-endian)
//   next      (i64 little-endian, two's complement)
//   ready     (one byte, 0 or 1)
//   items     (u64 little-endian count, then one code byte per item)

/// A text field: its UTF-8 byte length, then its UTF-8 bytes.
pub open spec fn text_field(s: Seq<char>) -> Seq<u8> {
    spec_u64_to_le_bytes(encode_utf8(s).len() as u64) + encode_utf8(s)
}

/// The code bytes of a sequence of items.
pub open spec fn item_codes(items: Seq<ShopItem>) -> Seq<u8> {
    items.map_values(|it: ShopItem| it.spec_code())
}

/// The byte that stands for a flag.
pub open spec fn flag_byte(b: bool) -> u8 {
    if b { 1 } else { 0 }
}

/// The bytes of a record.
pub open spec fn encoding(d: UserRecord) -> Seq<u8> {
    text_field(d.username) + text_field(d.hash) + spec_u16_to_le_bytes(d.points)
        + spec_u64_to_le_bytes(#[verifier::truncate] (d.next as u64)) + seq![flag_byte(d.ready)]
        + spec_u64_to_le_bytes(d.items.len() as u64) + item_codes(d.items)
}

/// A record that the layout can hold: no item twice, and every length
/// within 64 bits.
pub open spec fn encodable(d: UserRecord) -> bool {
    &&& d.wf()
    &&& encode_utf8(d.username).len() <= u64::MAX
    &&& encode_utf8(d.hash).len() <= u64::MAX
    &&& d.items.len() <= u64::MAX
}

/// The unsigned 64-bit little-endian value at `pos`, if eight bytes are there.
pub open spec fn read_u64(b: Seq<u8>, pos: int) -> Option<u64> {
    if 0 <= pos && pos + 8 <= b.len() {
        Some(spec_u64_from_le_bytes(b.subrange(pos, pos + 8)))
    } else {
        None
    }
}

/// The text field at `pos` and the position after it.
pub open spec fn read_text(b: Seq<u8>, pos: int) -> Option<(Seq<char>, int)> {
    match read_u64(b, pos) {
        Some(n) => {
            let start = pos + 8;
            let end = start + n;
            if end <= b.len() && valid_utf8(b.subrange(start, end)) {
                Some((decode_utf8(b.subrange(start, end)), end))
            } else {
                None
            }
        },
        None => None,
    }
}

/// The items that code bytes stand for: every code known and none repeated.
pub open spec fn read_items(codes: Seq<u8>) -> Option<Seq<ShopItem>> {
    if forall|i: int| 0 <= i < codes.len() ==> (#[trigger] ShopItem::spec_from_code(codes[i])) is Some {
        let items = codes.map_values(|c: u8| ShopItem::spec_from_code(c).unwrap());
        if items.no_duplicates() {
            Some(items)
        } else {
            None
        }
    } else {
        None
    }
}

/// The record that a byte string holds, if it holds one and nothing more.
pub open spec fn parse(b: Seq<u8>) -> Option<UserRecord> {
    match read_text(b, 0) {
        None => None,
        Some((username, p1)) => match read_text(b, p1) {
            None => None,
            Some((hash, p2)) => {
                if p2 + 19 <= b.len() && b[p2 + 10] <= 1 {
                    let n = spec_u64_from_le_bytes(b.subrange(p2 + 11, p2 + 19));
                    if p2 + 19 + n == b.len() {
                        match read_items(b.subrange(p2 + 19, b.len() as int)) {
                            None => None,
                            Some(items) => Some(
                                UserRecord {
                                    username,
                                    hash,
                                    points: spec_u16_from_le_bytes(b.subrange(p2, p2 + 2)),
                                    next: spec_u64_from_le_bytes(b.subrange(p2 + 2, p2 + 10)) as i64,
                                    ready: b[p2 + 10] == 1,
                                    items,
                                },
                            ),
                        }
                    } else {
                        None
                    }
                } else {
                    None
                }
            },
        },
    }
}

fn append_bytes(out: &mut Vec<u8>, b: &[u8])
    ensures
        final(out)@ == old(out)@ + b@,
{
    let mut i: usize = 0;
    while i < b.len()
        invariant
            i <= b@.len(),
            out@ == old(out)@ + b@.subrange(0, i as int),
        decreases b@.len() - i,
    {
        out.push(b[i]);
        i = i + 1;
        assert(out@ =~= old(out)@ + b@.subrange(0, i as int));
    }
    assert(b@.subrange(0, b@.len() as int) =~= b@);
}

fn append_text(out: &mut Vec<u8>, s: &String)
    ensures
        final(out)@ == old(out)@ + text_field(s@),
        encode_utf8(s@).len() <= u64::MAX,
{
    let bytes = text_bytes(s.as_str());
    let len = u64_to_le_bytes(bytes.len() as u64);
    append_bytes(out, len.as_slice());
    append_bytes(out, bytes.as_slice());
    assert(final(out)@ =~= old(out)@ + text_field(s@));
}

/// The bytes under which a record is stored.
pub fn encode(d: &UserData) -> (r: Vec<u8>)
    ensures
        r@ == encoding(d@),
        d@.wf() ==> encodable(d@),
{
    let mut out: Vec<u8> = Vec::new();
    append_text(&mut out, &d.username);
    append_text(&mut out, &d.hash);
    let points = u16_to_le_bytes(d.points);
    append_bytes(&mut out, points.as_slice());
    let next = u64_to_le_bytes(d.next as u64);
    append_bytes(&mut out, next.as_slice());
    out.push(if d.ready { 1 } else { 0 });
    let count = u64_to_le_bytes(d.items.len() as u64);
    append_bytes(&mut out, count.as_slice());
    let ghost head = out@;
    let mut i: usize = 0;
    while i < d.items.len()
        invariant
            i <= d.items@.len(),
            out@ == head + item_codes(d.items@.subrange(0, i as int)),
        decreases d.items@.len() - i,
    {
        out.push(d.items[i].code());
        i = i + 1;
        assert(out@ =~= head + item_codes(d.items@.subrange(0, i as int)));
    }
    assert(d.items@.subrange(0, d.items@.len() as int) =~= d.items@);
    assert(out@ =~= encoding(d@));
    out
}

fn decode_u64(b: &[u8], pos: usize) -> (r: Option<u64>)
    ensures
        r == read_u64(b@, pos as int),
{
    if pos <= b.len() && b.len() - pos >= 8 {
        Some(u64_from_le_bytes(slice_subrange(b, pos, pos + 8)))
    } else {
        None
    }
}

fn decode_text(b: &[u8], pos: usize) -> (r: Option<(String, usize)>)
    ensures
        match r {
            Some((s, end)) => read_text(b@, pos as int) == Some((s@, end as int)),
            None => read_text(b@, pos as int) is None,
        },
{
    match decode_u64(b, pos) {
        None => None,
        Some(n) => {
            assert(pos + 8 <= b@.len());
            let len = b.len();
            assert(pos + 8 <= len);
            let start = pos + 8;
            if (b.len() - start) as u64 >= n {
                let end = start + n as usize;
                match utf8_text(slice_subrange(b, start, end)) {
                    Some(s) => Some((s, end)),
                    None => None,
                }
            } else {
                None
            }
        },
    }
}

fn decode_items(codes: &[u8]) -> (r: Option<Vec<ShopItem>>)
    ensures
        match r {
            Some(items) => read_items(codes@) == Some(items@),
            None => read_items(codes@) is None,
        },
{
    let ghost f = |c: u8| ShopItem::spec_from_code(c).unwrap();
    let mut items: Vec<ShopItem> = Vec::new();
    let mut i: usize = 0;
    while i < codes.len()
        invariant
            i <= codes@.len(),
            f == (|c: u8| ShopItem::spec_from_code(c).unwrap()),
            forall|j: int| 0 <= j < i ==> (#[trigger] ShopItem::spec_from_code(codes@[j])) is Some,
            items@ == codes@.subrange(0, i as int).map_values(f),
            items@.no_duplicates(),
        decreases codes@.len() - i,
    {
        match ShopItem::from_code(codes[i]) {
            None => {
                return None;
            },
            Some(item) => {
                let mut j: usize = 0;
                while j < items.len()
                    invariant
                        j <= items@.len(),
                        i < codes@.len(),
                        f == (|c: u8| ShopItem::spec_from_code(c).unwrap()),
                        ShopItem::spec_from_code(codes@[i as int]) == Some(item),
                        items@ == codes@.subrange(0, i as int).map_values(f),
                        forall|k: int| 0 <= k < j ==> items@[k] != item,
                    decreases items@.len() - j,
                {
                    if items[j] == item {
                        proof {
                            let all = codes@.map_values(f);
                            assert(all[j as int] == items@[j as int]);
                            assert(all[i as int] == item);
                        }
                        return None;
                    }
                    j = j + 1;
                }
                items.push(item);
                i = i + 1;
                assert(items@ =~= codes@.subrange(0, i as int).map_values(f));
            },
        }
    }
    assert(codes@.subrange(0, codes@.len() as int) =~= codes@);
    Some(items)
}

/// The record stored under a byte string, or `None` where the bytes are
/// not exactly the layout of a record.
pub fn decode(b: &[u8]) -> (r: Option<UserData>)
    ensures
        match r {
            Some(d) => parse(b@) == Some(d@) && d@.wf() && encoding(d@) == b@,
            None => parse(b@) is None,
        },
{
    proof {
        lemma_parse_exact(b@);
    }
    let (username, p1) = match decode_text(b, 0) {
        Some(x) => x,
        None => {
            return None;
        },
    };
    let (hash, p2) = match decode_text(b, p1) {
        Some(x) => x,
        None => {
            return None;
        },
    };
    if b.len() - p2 < 19 || b[p2 + 10] > 1 {
        return None;
    }
    let n = u64_from_le_bytes(slice_subrange(b, p2 + 11, p2 + 19));
    if (b.len() - (p2 + 19)) as u64 != n {
        return None;
    }
    let items = match decode_items(slice_subrange(b, p2 + 19, b.len())) {
        Some(items) => items,
        None => {
            return None;
        },
    };
    let points = u16_from_le_bytes(slice_subrange(b, p2, p2 + 2));
    let next = u64_from_le_bytes(slice_subrange(b, p2 + 2, p2 + 10)) as i64;
    Some(UserData { username, hash, points, next, ready: b[p2 + 10] == 1, items })
}

/// A parsed record owns each item at most once.
pub proof fn lemma_parse_wf(b: Seq<u8>)
    ensures
        parse(b) matches Some(d) ==> d.wf(),
{
}

/// Bytes that parse are exactly the bytes of the record they hold.
pub proof fn lemma_parse_exact(b: Seq<u8>)
    ensures
        parse(b) matches Some(d) ==> encoding(d) == b,
{
    if let Some(d) = parse(b) {
        lemma_auto_spec_u64_to_from_le_bytes();
        lemma_auto_spec_u16_to_from_le_bytes();
        let (username, p1) = read_text(b, 0).unwrap();
        let (hash, p2) = read_text(b, p1).unwrap();
        let n1 = spec_u64_from_le_bytes(b.subrange(0, 8));
        let n2 = spec_u64_from_le_bytes(b.subrange(p1, p1 + 8));
        decode_utf8_encode_utf8(b.subrange(8, p1));
        decode_utf8_encode_utf8(b.subrange(p1 + 8, p2));
        assert(encode_utf8(username) == b.subrange(8, p1));
        assert(encode_utf8(hash) == b.subrange(p1 + 8, p2));
        assert(b.subrange(0, 8) == spec_u64_to_le_bytes(n1));
        assert(b.subrange(p1, p1 + 8) == spec_u64_to_le_bytes(n2));
        assert(text_field(username) =~= b.subrange(0, p1));
        assert(text_field(hash) =~= b.subrange(p1, p2));
        let x = spec_u64_from_le_bytes(b.subrange(p2 + 2, p2 + 10));
        assert((#[verifier::truncate] ((#[verifier::truncate] (x as i64)) as u64)) == x) by (bit_vector);
        assert(b.subrange(p2 + 2, p2 + 10) == spec_u64_to_le_bytes(x));
        assert(b.subrange(p2, p2 + 2) == spec_u16_to_le_bytes(spec_u16_from_le_bytes(b.subrange(p2, p2 + 2))));
        let n = spec_u64_from_le_bytes(b.subrange(p2 + 11, p2 + 19));
        assert(b.subrange(p2 + 11, p2 + 19) == spec_u64_to_le_bytes(n));
        let codes = b.subrange(p2 + 19, b.len() as int);
        assert forall|i: int| 0 <= i < codes.len() implies #[trigger] item_codes(d.items)[i] == codes[i] by {
            assert(ShopItem::spec_from_code(codes[i]) is Some);
        }
        assert(item_codes(d.items) =~= codes);
        assert(flag_byte(d.ready) == b[p2 + 10]);
        assert(encoding(d) =~= b);
    }
}

/// Decoding the bytes of a record gives the record back.
pub proof fn lemma_round_trip(d: UserRecord)
    requires
        encodable(d),
    ensures
        parse(encoding(d)) == Some(d),
{
    lemma_auto_spec_u64_to_from_le_bytes();
    lemma_auto_spec_u16_to_from_le_bytes();
    encode_utf8_valid_utf8(d.username);
    encode_utf8_valid_utf8(d.hash);
    encode_utf8_decode_utf8(d.username);
    encode_utf8_decode_utf8(d.hash);
    let b = encoding(d);
    let u = encode_utf8(d.username);
    let h = encode_utf8(d.hash);
    let p1: int = 8 + u.len() as int;
    let p2: int = p1 + 8 + h.len() as int;
    let codes = item_codes(d.items);
    assert(b.subrange(0, 8) =~= spec_u64_to_le_bytes(u.len() as u64));
    assert(b.subrange(8, p1) =~= u);
    assert(read_text(b, 0) == Some((d.username, p1)));
    assert(b.subrange(p1, p1 + 8) =~= spec_u64_to_le_bytes(h.len() as u64));
    assert(b.subrange(p1 + 8, p2) =~= h);
    assert(read_text(b, p1) == Some((d.hash, p2)));
    assert(b.subrange(p2, p2 + 2) =~= spec_u16_to_le_bytes(d.points));
    let next = d.next;
    assert(b.subrange(p2 + 2, p2 + 10) =~= spec_u64_to_le_bytes(#[verifier::truncate] (next as u64)));
    assert((#[verifier::truncate] (next as u64)) as i64 == next) by (bit_vector);
    assert(b[p2 + 10] == flag_byte(d.ready));
    assert(b.subrange(p2 + 11, p2 + 19) =~= spec_u64_to_le_bytes(d.items.len() as u64));
    assert(b.subrange(p2 + 19, b.len() as int) =~= codes);
    let f = |c: u8| ShopItem::spec_from_code(c).unwrap();
    assert forall|i: int| 0 <= i < codes.len() implies (#[trigger] ShopItem::spec_from_code(
        codes[i],
    )) == Some(d.items[i]) by {}
    assert(codes.map_values(f) =~= d.items);
    assert(read_items(codes) == Some(d.items));
    assert(b.len() == p2 + 19 + d.items.len());
    assert(spec_u64_from_le_bytes(b.subrange(p2 + 11, p2 + 19)) == d.items.len());
    assert(b[p2 + 10] <= 1);
    assert(spec_u64_from_le_bytes(b.subrange(p2 + 2, p2 + 10)) as i64 == d.next);
    assert(spec_u16_from_le_bytes(b.subrange(p2, p2 + 2)) == d.points);
    assert((b[p2 + 10] == 1) == d.ready);
    assert(parse(b) == Some(d));
}

} // verus!
