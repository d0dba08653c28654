use crate::table::{listing_map, Record};
use vstd::bytes::{
    lemma_auto_spec_u64_to_from_le_bytes, spec_u64_from_le_bytes, spec_u64_to_le_bytes, u64_from_le_bytes,
    u64_to_le_bytes,
};
use vstd::prelude::*;
use vstd::slice::{slice_subrange, slice_to_vec};

verus! {

/// A key and its value as plain bytes.
pub type Entry = (Seq<u8>, Seq<u8>);

/// The keys and values of a listing.
pub open spec fn entries(list: Seq<Record>) -> Seq<Entry> {
    list.map_values(|record: Record| (record.key@, record.value@))
}

/// A field on file: its length as eight bytes, least significant first,
/// and then its bytes.
pub open spec fn field_image(field: Seq<u8>) -> Seq<u8> {
    spec_u64_to_le_bytes(field.len() as u64) + field
}

/// A listing on file: entry after entry, of each the key and then the
/// value.
pub open spec fn image(list: Seq<Entry>) -> Seq<u8>
    decreases list.len(),
{
    if list.len() == 0 {
        Seq::empty()
    } else {
        field_image(list[0].0) + field_image(list[0].1) + image(list.drop_first())
    }
}

/// The field at the front of `bytes` and what follows it, or nothing where
/// `bytes` is too short for the length or for the bytes that it announces.
pub open spec fn parse_field(bytes: Seq<u8>) -> Option<(Seq<u8>, Seq<u8>)> {
    if bytes.len() < 8 {
        None
    } else {
        let n = spec_u64_from_le_bytes(bytes.take(8)) as int;
        if bytes.len() - 8 < n {
            None
        } else {
            Some((bytes.subrange(8, 8 + n), bytes.skip(8 + n)))
        }
    }
}

/// The listing that `bytes` hold, or nothing where they end within an
/// entry.
pub open spec fn parse(bytes: Seq<u8>) -> Option<Seq<Entry>>
    decreases bytes.len(),
{
    if bytes.len() == 0 {
        Some(Seq::empty())
    } else {
        match parse_field(bytes) {
            None => None,
            Some((key, rest)) => match parse_field(rest) {
                None => None,
                Some((value, rest)) => match parse(rest) {
                    None => None,
                    Some(tail) => Some(seq![(key, value)] + tail),
                },
            },
        }
    }
}

/// Every field of the listing is short enough for its length to be
/// written in eight bytes.
pub open spec fn representable(list: Seq<Entry>) -> bool {
    forall|i: int| 0 <= i < list.len() ==> (#[trigger] list[i]).0.len() <= u64::MAX && list[i].1.len() <= u64::MAX
}

/// A field that was written is the field that is read back.
pub proof fn lemma_field_round_trip(field: Seq<u8>, rest: Seq<u8>)
    requires
        field.len() <= u64::MAX,
    ensures
        parse_field(field_image(field) + rest) == Some((field, rest)),
{
    lemma_auto_spec_u64_to_from_le_bytes();
    let head = spec_u64_to_le_bytes(field.len() as u64);
    let bytes = field_image(field) + rest;
    let n = field.len() as int;
    assert(bytes.take(8) =~= head);
    assert(bytes.subrange(8, 8 + n) =~= field);
    assert(bytes.skip(8 + n) =~= rest);
}

/// A listing that was written is the listing that is read back.
pub proof fn law_image_round_trip(list: Seq<Entry>)
    requires
        representable(list),
    ensures
        parse(image(list)) == Some(list),
    decreases list.len(),
{
    lemma_auto_spec_u64_to_from_le_bytes();
    if list.len() > 0 {
        let tail = list.drop_first();
        assert forall|i: int| 0 <= i < tail.len() implies (#[trigger] tail[i]).0.len() <= u64::MAX && tail[i].1.len()
            <= u64::MAX by {
            assert(tail[i] == list[i + 1]);
        }
        law_image_round_trip(tail);
        let key = list[0].0;
        let value = list[0].1;
        let after_key = field_image(value) + image(tail);
        assert(image(list) =~= field_image(key) + after_key);
        lemma_field_round_trip(key, after_key);
        lemma_field_round_trip(value, image(tail));
        assert(image(list).len() > image(tail).len());
        assert(seq![(key, value)] + tail =~= list);
    }
}

/// Bytes that hold a listing are the image of that listing, and of no
/// other.
pub proof fn law_parse_is_image(bytes: Seq<u8>)
    requires
        parse(bytes) is Some,
    ensures
        image(parse(bytes)->0) == bytes,
        representable(parse(bytes)->0),
    decreases bytes.len(),
{
    lemma_auto_spec_u64_to_from_le_bytes();
    if bytes.len() > 0 {
        let (key, rest) = parse_field(bytes)->0;
        let (value, rest2) = parse_field(rest)->0;
        law_parse_is_image(rest2);
        let tail = parse(rest2)->0;
        let list = seq![(key, value)] + tail;
        assert(list.drop_first() =~= tail);
        lemma_field_is_image(bytes);
        lemma_field_is_image(rest);
        assert(image(list) =~= bytes);
        assert forall|i: int| 0 <= i < list.len() implies (#[trigger] list[i]).0.len() <= u64::MAX && list[i].1.len()
            <= u64::MAX by {
            if i > 0 {
                assert(list[i] == tail[i - 1]);
            }
        }
    } else {
        assert(image(Seq::<Entry>::empty()) =~= bytes);
    }
}

/// Bytes with a field at the front are the image of that field and what
/// follows it.
proof fn lemma_field_is_image(bytes: Seq<u8>)
    requires
        parse_field(bytes) is Some,
    ensures
        ({
            let (field, rest) = parse_field(bytes)->Some_0;
            bytes == field_image(field) + rest && field.len() <= u64::MAX
        }),
{
    lemma_auto_spec_u64_to_from_le_bytes();
    let n = spec_u64_from_le_bytes(bytes.take(8)) as int;
    let field = bytes.subrange(8, 8 + n);
    assert(spec_u64_to_le_bytes(n as u64) == bytes.take(8));
    assert(bytes =~= bytes.take(8) + field + bytes.skip(8 + n));
}

/// The image of a listing with one more entry at its end.
proof fn lemma_image_push(list: Seq<Entry>, entry: Entry)
    ensures
        image(list.push(entry)) == image(list) + field_image(entry.0) + field_image(entry.1),
    decreases list.len(),
{
    let longer = list.push(entry);
    if list.len() == 0 {
        assert(longer.drop_first() =~= Seq::<Entry>::empty());
        assert(image(longer.drop_first()) =~= Seq::<u8>::empty());
        assert(image(longer) =~= image(list) + field_image(entry.0) + field_image(entry.1));
    } else {
        lemma_image_push(list.drop_first(), entry);
        assert(longer.drop_first() =~= list.drop_first().push(entry));
        assert(image(longer) =~= image(list) + field_image(entry.0) + field_image(entry.1));
    }
}

/// What is read from `bytes` is what is read from their front followed by
/// what is read from the rest.
proof fn lemma_parse_step(bytes: Seq<u8>)
    requires
        bytes.len() > 0,
    ensures
        parse(bytes) == match parse_field(bytes) {
            None => None::<Seq<Entry>>,
            Some((key, rest)) => match parse_field(rest) {
                None => None,
                Some((value, rest)) => match parse(rest) {
                    None => None,
                    Some(tail) => Some(seq![(key, value)] + tail),
                },
            },
        },
{
}

/// Two listings with the same keys and values amount to the same records.
pub proof fn lemma_entries_determine_records(a: Seq<Record>, b: Seq<Record>)
    requires
        entries(a) == entries(b),
    ensures
        listing_map(a) == listing_map(b),
    decreases a.len(),
{
    assert(a.len() == entries(a).len());
    assert(b.len() == entries(b).len());
    if a.len() > 0 {
        assert(entries(a.drop_last()) =~= entries(a).drop_last());
        assert(entries(b.drop_last()) =~= entries(b).drop_last());
        lemma_entries_determine_records(a.drop_last(), b.drop_last());
        assert(entries(a)[a.len() - 1] == entries(b)[a.len() - 1]);
    }
}

/// Records that were written to an image are the records that are read
/// back from it.
pub proof fn law_records_survive_image(written: Seq<Record>, read: Seq<Record>)
    requires
        parse(image(entries(written))) == Some(entries(read)),
    ensures
        listing_map(read) == listing_map(written),
{
    let all = entries(written);
    assert forall|i: int| 0 <= i < all.len() implies (#[trigger] all[i]).0.len() <= u64::MAX && all[i].1.len()
        <= u64::MAX by {
        assert(all[i].0 == written[i].key@);
        assert(all[i].1 == written[i].value@);
        assert(written[i].key.len() == written[i].key@.len());
        assert(written[i].value.len() == written[i].value@.len());
    }
    law_image_round_trip(all);
    lemma_entries_determine_records(read, written);
}

/// Appends the image of `field` to `out`.
fn append_field(out: &mut Vec<u8>, field: &Vec<u8>)
    ensures
        final(out)@ == old(out)@ + field_image(field@),
{
    let n: u64 = field.len() as u64;
    let head = u64_to_le_bytes(n);
    let ghost start = out@;
    out.extend_from_slice(head.as_slice());
    let ghost middle = out@;
    out.extend_from_slice(field.as_slice());
    assert(middle =~= start + head@);
    assert(out@ =~= start + field_image(field@));
}

/// Writes a listing as bytes.
pub fn encode(list: &Vec<Record>) -> (r: Vec<u8>)
    ensures
        r@ == image(entries(list@)),
        parse(r@) == Some(entries(list@)),
{
    let mut out: Vec<u8> = Vec::new();
    let mut i: usize = 0;
    assert(entries(list@).take(0) =~= Seq::<Entry>::empty());
    while i < list.len()
        invariant
            i <= list@.len(),
            out@ == image(entries(list@).take(i as int)),
        decreases list@.len() - i,
    {
        append_field(&mut out, &list[i].key);
        append_field(&mut out, &list[i].value);
        proof {
            let all = entries(list@);
            lemma_image_push(all.take(i as int), all[i as int]);
            assert(all.take(i + 1) =~= all.take(i as int).push(all[i as int]));
        }
        i += 1;
    }
    proof {
        let all = entries(list@);
        assert(all.take(list@.len() as int) =~= all);
        assert forall|i: int| 0 <= i < all.len() implies (#[trigger] all[i]).0.len() <= u64::MAX && all[i].1.len()
            <= u64::MAX by {
            assert(all[i].0 == list@[i].key@);
            assert(all[i].1 == list@[i].value@);
            assert(list@[i].key.len() == list@[i].key@.len());
            assert(list@[i].value.len() == list@[i].value@.len());
        }
        law_image_round_trip(all);
    }
    out
}

/// Reads the field that begins at `pos`, and says where the next begins.
fn take_field(bytes: &[u8], pos: usize) -> (r: Option<(Vec<u8>, usize)>)
    requires
        pos <= bytes@.len(),
    ensures
        match r {
            Some((field, next)) => {
                &&& pos + 8 <= next <= bytes@.len()
                &&& parse_field(bytes@.skip(pos as int)) == Some((field@, bytes@.skip(next as int)))
            },
            None => parse_field(bytes@.skip(pos as int)) is None,
        },
{
    let ghost rest = bytes@.skip(pos as int);
    if bytes.len() - pos < 8 {
        return None;
    }
    let head = slice_subrange(bytes, pos, pos + 8);
    assert(head@ =~= rest.take(8));
    let announced: u64 = u64_from_le_bytes(head);
    let left: usize = bytes.len() - pos - 8;
    if (left as u64) < announced {
        return None;
    }
    let n: usize = announced as usize;
    let field = slice_to_vec(slice_subrange(bytes, pos + 8, pos + 8 + n));
    assert(field@ =~= rest.subrange(8, 8 + n));
    assert(bytes@.skip(pos + 8 + n) =~= rest.skip(8 + n));
    Some((field, pos + 8 + n))
}

/// Reads a listing from bytes. Bytes that end within an entry hold no
/// listing.
pub fn decode(bytes: &[u8]) -> (r: Option<Vec<Record>>)
    ensures
        match r {
            Some(list) => parse(bytes@) == Some(entries(list@)),
            None => parse(bytes@) is None,
        },
{
    let mut out: Vec<Record> = Vec::new();
    let mut pos: usize = 0;
    proof {
        assert(bytes@.skip(0) =~= bytes@);
        assert(entries(out@) =~= Seq::<Entry>::empty());
        if parse(bytes@) is Some {
            assert(Seq::<Entry>::empty() + parse(bytes@)->0 =~= parse(bytes@)->0);
        }
    }
    while pos < bytes.len()
        invariant
            pos <= bytes@.len(),
            parse(bytes@) == match parse(bytes@.skip(pos as int)) {
                Some(tail) => Some(entries(out@) + tail),
                None => None::<Seq<Entry>>,
            },
        decreases bytes@.len() - pos,
    {
        let ghost here = bytes@.skip(pos as int);
        let ghost before = entries(out@);
        proof {
            lemma_parse_step(here);
        }
        let (key, after_key) = match take_field(bytes, pos) {
            Some(found) => found,
            None => {
                return None;
            },
        };
        let (value, after_value) = match take_field(bytes, after_key) {
            Some(found) => found,
            None => {
                return None;
            },
        };
        let ghost entry = (key@, value@);
        out.push(Record { key, value });
        proof {
            assert(entries(out@) =~= before.push(entry));
            let next = bytes@.skip(after_value as int);
            if parse(next) is Some {
                let tail = parse(next)->0;
                assert(before + (seq![entry] + tail) =~= before.push(entry) + tail);
            }
        }
        pos = after_value;
    }
    proof {
        assert(bytes@.skip(pos as int) =~= Seq::<u8>::empty());
        assert(entries(out@) + Seq::<Entry>::empty() =~= entries(out@));
    }
    Some(out)
}

} // verus!
