//! The binary tag format as mathematics: what a tag is, the bytes it is
//! written as, what reading a stream of bytes yields, and the laws that tie
//! the two together.
use vstd::prelude::*;
use vstd::utf8::{decode_utf8, encode_utf8, valid_utf8};
use crate::be_bytes::{
    be2, be4, be8, from_be2, from_be4, from_be8, lemma_be2_roundtrip, lemma_be4_roundtrip,
    lemma_be8_roundtrip, lemma_signed_casts,
};

verus! {

/// Why a read of a tag failed.
#[derive(Debug, Clone, Copy, PartialEq, Eq)]
pub enum NbtError {
    /// The bytes ran out before the tag was complete.
    UnexpectedEof,
    /// A tag id outside the known range was met where a value was expected.
    InvalidTagId(u8),
}

/// A tag as a mathematical value.  Floating-point payloads are held as their
/// IEEE-754 bit patterns; strings as their characters.
pub enum TagModel {
    End,
    Byte(i8),
    Short(i16),
    Int(i32),
    Long(i64),
    Float(u32),
    Double(u64),
    ByteArray(Seq<u8>),
    Str(Seq<char>),
    List(u8, Seq<TagModel>),
    Compound(Seq<(Seq<char>, TagModel)>),
    IntArray(Seq<i32>),
}

/// The id byte that announces a tag of this kind.
pub open spec fn tag_id(t: TagModel) -> u8 {
    match t {
        TagModel::End => 0,
        TagModel::Byte(_) => 1,
        TagModel::Short(_) => 2,
        TagModel::Int(_) => 3,
        TagModel::Long(_) => 4,
        TagModel::Float(_) => 5,
        TagModel::Double(_) => 6,
        TagModel::ByteArray(_) => 7,
        TagModel::Str(_) => 8,
        TagModel::List(_, _) => 9,
        TagModel::Compound(_) => 10,
        TagModel::IntArray(_) => 11,
    }
}

/// The printable name of a tag id.
pub open spec fn tag_name_of(id: u8) -> Seq<char> {
    if id == 0 {
        "TAG_End"@
    } else if id == 1 {
        "TAG_Byte"@
    } else if id == 2 {
        "TAG_Short"@
    } else if id == 3 {
        "TAG_Int"@
    } else if id == 4 {
        "TAG_Long"@
    } else if id == 5 {
        "TAG_Float"@
    } else if id == 6 {
        "TAG_Double"@
    } else if id == 7 {
        "TAG_Byte_Array"@
    } else if id == 8 {
        "TAG_String"@
    } else if id == 9 {
        "TAG_List"@
    } else if id == 10 {
        "TAG_Compound"@
    } else if id == 11 {
        "TAG_Int_Array"@
    } else {
        "UNKNOWN"@
    }
}

// ---------------------------------------------------------------------------
// Writing
// ---------------------------------------------------------------------------

/// A string as written: its UTF-8 length as 16 bits (cut to the low 16 bits
/// of the real length), then its UTF-8 bytes.
pub open spec fn utf_bytes(s: Seq<char>) -> Seq<u8> {
    be2(encode_utf8(s).len() as u16) + encode_utf8(s)
}

/// A length as written: the count cut to 32 bits, big-endian.
pub open spec fn count_bytes(n: nat) -> Seq<u8> {
    be4((n as i32) as u32)
}

/// The bytes of a sequence of 32-bit integers, each big-endian.
pub open spec fn ints_bytes(s: Seq<i32>) -> Seq<u8>
    decreases s.len(),
{
    if s.len() == 0 {
        Seq::empty()
    } else {
        be4(s[0] as u32) + ints_bytes(s.drop_first())
    }
}

/// The payload of a tag, without its id.
pub open spec fn value_bytes(t: TagModel) -> Seq<u8>
    decreases t,
{
    match t {
        TagModel::End => Seq::empty(),
        TagModel::Byte(b) => seq![b as u8],
        TagModel::Short(v) => be2(v as u16),
        TagModel::Int(v) => be4(v as u32),
        TagModel::Long(v) => be8(v as u64),
        TagModel::Float(bits) => be4(bits),
        TagModel::Double(bits) => be8(bits),
        TagModel::ByteArray(a) => count_bytes(a.len()) + a,
        TagModel::Str(s) => utf_bytes(s),
        TagModel::List(elem, items) => seq![elem] + count_bytes(items.len()) + items_bytes(items),
        TagModel::Compound(entries) => entries_bytes(entries) + seq![0u8],
        TagModel::IntArray(a) => count_bytes(a.len()) + ints_bytes(a),
    }
}

/// The payloads of list items, one after the other.
pub open spec fn items_bytes(s: Seq<TagModel>) -> Seq<u8>
    decreases s,
{
    if s.len() == 0 {
        Seq::empty()
    } else {
        value_bytes(s[0]) + items_bytes(s.drop_first())
    }
}

/// Named tags of a compound, one after the other (without the closing end
/// byte); each as `named_bytes` writes it.
pub open spec fn entries_bytes(s: Seq<(Seq<char>, TagModel)>) -> Seq<u8>
    decreases s,
{
    if s.len() == 0 {
        Seq::empty()
    } else {
        (if s[0].1 is End {
            seq![0u8]
        } else {
            seq![tag_id(s[0].1)] + utf_bytes(s[0].0) + value_bytes(s[0].1)
        }) + entries_bytes(s.drop_first())
    }
}

/// A named tag as written: the id, then, unless the tag is an end tag, the
/// name and the payload.
pub open spec fn named_bytes(name: Seq<char>, t: TagModel) -> Seq<u8> {
    if t is End {
        seq![0u8]
    } else {
        seq![tag_id(t)] + utf_bytes(name) + value_bytes(t)
    }
}

/// Appending one more item appends its payload.
pub proof fn lemma_items_bytes_push(s: Seq<TagModel>, t: TagModel)
    ensures
        items_bytes(s.push(t)) == items_bytes(s) + value_bytes(t),
    decreases s.len(),
{
    let p = s.push(t);
    if s.len() == 0 {
        assert(p.drop_first() =~= Seq::<TagModel>::empty());
        assert(items_bytes(Seq::<TagModel>::empty()) == Seq::<u8>::empty());
        assert(items_bytes(p) == value_bytes(t) + Seq::<u8>::empty());
        assert(items_bytes(p) =~= items_bytes(s) + value_bytes(t));
    } else {
        lemma_items_bytes_push(s.drop_first(), t);
        assert(p.drop_first() =~= s.drop_first().push(t));
        assert(items_bytes(p) == value_bytes(s[0]) + (items_bytes(s.drop_first()) + value_bytes(t)));
        assert(items_bytes(p) =~= items_bytes(s) + value_bytes(t));
    }
}

/// Appending one more entry appends its bytes.
pub proof fn lemma_entries_bytes_push(s: Seq<(Seq<char>, TagModel)>, e: (Seq<char>, TagModel))
    ensures
        entries_bytes(s.push(e)) == entries_bytes(s) + named_bytes(e.0, e.1),
    decreases s.len(),
{
    let p = s.push(e);
    if s.len() == 0 {
        assert(p.drop_first() =~= Seq::<(Seq<char>, TagModel)>::empty());
        assert(entries_bytes(Seq::<(Seq<char>, TagModel)>::empty()) == Seq::<u8>::empty());
        assert(entries_bytes(p) == named_bytes(e.0, e.1) + Seq::<u8>::empty());
        assert(entries_bytes(p) =~= entries_bytes(s) + named_bytes(e.0, e.1));
    } else {
        lemma_entries_bytes_push(s.drop_first(), e);
        assert(p.drop_first() =~= s.drop_first().push(e));
        assert(entries_bytes(p) == named_bytes(s[0].0, s[0].1) + (entries_bytes(s.drop_first())
            + named_bytes(e.0, e.1)));
        assert(entries_bytes(p) =~= entries_bytes(s) + named_bytes(e.0, e.1));
    }
}

/// Appending one more integer appends its four bytes.
pub proof fn lemma_ints_bytes_push(s: Seq<i32>, v: i32)
    ensures
        ints_bytes(s.push(v)) == ints_bytes(s) + be4(v as u32),
    decreases s.len(),
{
    let p = s.push(v);
    if s.len() == 0 {
        assert(p.drop_first() =~= Seq::<i32>::empty());
        assert(ints_bytes(Seq::<i32>::empty()) == Seq::<u8>::empty());
        assert(ints_bytes(p) == be4(v as u32) + Seq::<u8>::empty());
        assert(ints_bytes(p) =~= ints_bytes(s) + be4(v as u32));
    } else {
        lemma_ints_bytes_push(s.drop_first(), v);
        assert(p.drop_first() =~= s.drop_first().push(v));
        assert(ints_bytes(p) == be4(s[0] as u32) + (ints_bytes(s.drop_first()) + be4(v as u32)));
        assert(ints_bytes(p) =~= ints_bytes(s) + be4(v as u32));
    }
}

// ---------------------------------------------------------------------------
// Reading
// ---------------------------------------------------------------------------

/// The characters a read makes of string bytes: the decoding when the bytes
/// are valid UTF-8, the lossy decoding otherwise.
pub open spec fn utf8_or_lossy(b: Seq<u8>) -> Seq<char> {
    if valid_utf8(b) {
        decode_utf8(b)
    } else {
        lossy_utf8(b)
    }
}

/// What `String::from_utf8_lossy` makes of bytes that are not valid UTF-8.
pub uninterp spec fn lossy_utf8(bytes: Seq<u8>) -> Seq<char>;

/// The outcome of reading a string from `r`, and the bytes left after it.
pub open spec fn read_utf_spec(r: Seq<u8>) -> (Result<Seq<char>, NbtError>, Seq<u8>) {
    if r.len() < 2 {
        (Err(NbtError::UnexpectedEof), Seq::empty())
    } else {
        let n = from_be2(r.take(2)) as nat;
        let r1 = r.skip(2);
        if n <= r1.len() {
            (Ok(utf8_or_lossy(r1.take(n as int))), r1.skip(n as int))
        } else {
            (Err(NbtError::UnexpectedEof), Seq::empty())
        }
    }
}

/// The 32-bit integers stored big-endian in the first `4 * n` bytes of `r`.
pub open spec fn ints_of(r: Seq<u8>, n: nat) -> Seq<i32> {
    Seq::new(n, |k: int| from_be4(r.subrange(4 * k, 4 * k + 4)) as i32)
}

/// The outcome of a read of a value with a fixed-size payload of `n` bytes.
pub open spec fn read_fixed(r: Seq<u8>, n: nat, v: TagModel) -> Option<
    (Result<TagModel, NbtError>, Seq<u8>),
> {
    if r.len() >= n {
        Some((Ok(v), r.skip(n as int)))
    } else {
        Some((Err(NbtError::UnexpectedEof), Seq::empty()))
    }
}

/// A read that fails with `e`, leaving `r`.
pub open spec fn fail<T>(e: NbtError, r: Seq<u8>) -> Option<(Result<T, NbtError>, Seq<u8>)> {
    Some((Err(e), r))
}

/// The outcome of reading the payload of a tag with id `id` from `r` at
/// nesting depth `depth`, with the bytes left after it; `None` where the read
/// cannot complete without a panic (a negative length, or a nesting depth
/// that does not fit a `usize`).
pub open spec fn read_value_spec(r: Seq<u8>, id: u8, depth: nat) -> Option<
    (Result<TagModel, NbtError>, Seq<u8>),
>
    decreases r.len(), 2nat, 0nat,
{
    if id == 0 {
        Some((Ok(TagModel::End), r))
    } else if id == 1 {
        read_fixed(r, 1, TagModel::Byte(if r.len() >= 1 { r[0] as i8 } else { 0 }))
    } else if id == 2 {
        read_fixed(r, 2, TagModel::Short(from_be2(r.take(2)) as i16))
    } else if id == 3 {
        read_fixed(r, 4, TagModel::Int(from_be4(r.take(4)) as i32))
    } else if id == 4 {
        read_fixed(r, 8, TagModel::Long(from_be8(r.take(8)) as i64))
    } else if id == 5 {
        read_fixed(r, 4, TagModel::Float(from_be4(r.take(4))))
    } else if id == 6 {
        read_fixed(r, 8, TagModel::Double(from_be8(r.take(8))))
    } else if id == 7 {
        if r.len() < 4 {
            fail(NbtError::UnexpectedEof, Seq::empty())
        } else {
            let n = from_be4(r.take(4)) as i32;
            let r1 = r.skip(4);
            if n < 0 {
                None
            } else if n <= r1.len() {
                Some((Ok(TagModel::ByteArray(r1.take(n as int))), r1.skip(n as int)))
            } else {
                fail(NbtError::UnexpectedEof, Seq::empty())
            }
        }
    } else if id == 8 {
        let (res, r1) = read_utf_spec(r);
        match res {
            Ok(s) => Some((Ok(TagModel::Str(s)), r1)),
            Err(e) => fail(e, r1),
        }
    } else if id == 9 {
        if r.len() < 5 {
            fail(NbtError::UnexpectedEof, Seq::empty())
        } else {
            let elem = r[0];
            let n = from_be4(r.subrange(1, 5)) as i32;
            let r1 = r.skip(5);
            if n < 0 {
                None
            } else if n == 0 {
                Some((Ok(TagModel::List(elem, Seq::empty())), r1))
            } else if depth >= usize::MAX {
                None
            } else {
                match read_items_spec(r1, elem, depth + 1, n as nat) {
                    None => None,
                    Some((Err(e), r2)) => fail(e, r2),
                    Some((Ok(items), r2)) => Some((Ok(TagModel::List(elem, items)), r2)),
                }
            }
        }
    } else if id == 10 {
        if depth >= usize::MAX {
            None
        } else {
            match read_entries_spec(r, depth + 1) {
                None => None,
                Some((Err(e), r2)) => fail(e, r2),
                Some((Ok(es), r2)) => Some((Ok(TagModel::Compound(es)), r2)),
            }
        }
    } else if id == 11 {
        if r.len() < 4 {
            fail(NbtError::UnexpectedEof, Seq::empty())
        } else {
            let n = from_be4(r.take(4)) as i32;
            let r1 = r.skip(4);
            if n < 0 {
                None
            } else if 4 * n <= r1.len() {
                Some((Ok(TagModel::IntArray(ints_of(r1, n as nat))), r1.skip(4 * n)))
            } else {
                fail(NbtError::UnexpectedEof, Seq::empty())
            }
        }
    } else {
        fail(NbtError::InvalidTagId(id), r)
    }
}

/// The outcome of reading `n` list items of kind `elem` from `r`.
pub open spec fn read_items_spec(r: Seq<u8>, elem: u8, depth: nat, n: nat) -> Option<
    (Result<Seq<TagModel>, NbtError>, Seq<u8>),
>
    decreases r.len(), 3nat, n,
{
    if n == 0 {
        Some((Ok(Seq::empty()), r))
    } else {
        match read_value_spec(r, elem, depth) {
            None => None,
            Some((Err(e), r2)) => fail(e, r2),
            Some((Ok(v), r2)) => if r2.len() > r.len() {
                None
            } else {
                match read_items_spec(r2, elem, depth, (n - 1) as nat) {
                    None => None,
                    Some((Err(e), r3)) => fail(e, r3),
                    Some((Ok(vs), r3)) => Some((Ok(seq![v] + vs), r3)),
                }
            },
        }
    }
}

/// The outcome of reading the named tags of a compound from `r`, up to and
/// including the end tag that closes it.
pub open spec fn read_entries_spec(r: Seq<u8>, depth: nat) -> Option<
    (Result<Seq<(Seq<char>, TagModel)>, NbtError>, Seq<u8>),
>
    decreases r.len(), 1nat, 0nat,
{
    match read_named_spec(r, depth) {
        None => None,
        Some((Err(e), r2)) => fail(e, r2),
        Some((Ok((name, v)), r2)) => if v is End {
            Some((Ok(Seq::empty()), r2))
        } else if r2.len() >= r.len() {
            None
        } else {
            match read_entries_spec(r2, depth) {
                None => None,
                Some((Err(e), r3)) => fail(e, r3),
                Some((Ok(es), r3)) => Some((Ok(seq![(name, v)] + es), r3)),
            }
        },
    }
}

/// The outcome of reading one named tag from `r`.  The id bytes 0 and 255
/// both stand for an end tag, which has no name and no payload.
pub open spec fn read_named_spec(r: Seq<u8>, depth: nat) -> Option<
    (Result<(Seq<char>, TagModel), NbtError>, Seq<u8>),
>
    decreases r.len(), 0nat, 0nat,
{
    if r.len() < 1 {
        fail(NbtError::UnexpectedEof, r)
    } else {
        let t = r[0];
        let r1 = r.skip(1);
        if t == 0 || t == 255 {
            Some((Ok((Seq::empty(), TagModel::End)), r1))
        } else {
            let (name, r2) = read_utf_spec(r1);
            match name {
                Err(e) => fail(e, r2),
                Ok(name) => match read_value_spec(r2, t, depth) {
                    None => None,
                    Some((Err(e), r3)) => fail(e, r3),
                    Some((Ok(v), r3)) => Some((Ok((name, v)), r3)),
                },
            }
        }
    }
}

/// Puts `acc` in front of what a successful read of a sequence yields;
/// failures and panics pass through.
pub open spec fn prepend<T>(acc: Seq<T>, o: Option<(Result<Seq<T>, NbtError>, Seq<u8>)>) -> Option<
    (Result<Seq<T>, NbtError>, Seq<u8>),
> {
    match o {
        None => None,
        Some((Err(e), r)) => Some((Err(e), r)),
        Some((Ok(s), r)) => Some((Ok(acc + s), r)),
    }
}

/// Nothing in front changes nothing.
pub proof fn lemma_prepend_empty<T>(o: Option<(Result<Seq<T>, NbtError>, Seq<u8>)>)
    ensures
        prepend(Seq::<T>::empty(), o) == o,
{
    if let Some((Ok(s), r)) = o {
        assert(Seq::<T>::empty() + s =~= s);
    }
}

/// Moving one element from a successful read into the accumulated prefix.
pub proof fn lemma_prepend_shift<T>(acc: Seq<T>, x: T, o: Option<(Result<Seq<T>, NbtError>, Seq<u8>)>)
    ensures
        prepend(acc.push(x), o) == prepend(acc, match o {
            None => None,
            Some((Err(e), r)) => Some((Err(e), r)),
            Some((Ok(s), r)) => Some((Ok(seq![x] + s), r)),
        }),
{
    if let Some((Ok(s), r)) = o {
        assert(acc.push(x) + s =~= acc + (seq![x] + s));
    }
}

// ---------------------------------------------------------------------------
// Reading back what was written
// ---------------------------------------------------------------------------

/// A tag that reads back as itself: its strings' UTF-8 forms fit the 16-bit
/// length, its counts fit the 32-bit length, list items are of the list's
/// kind, and no entry of a compound is an end tag.
pub open spec fn wf_tag(t: TagModel) -> bool
    decreases t, 0nat,
{
    match t {
        TagModel::ByteArray(a) => a.len() <= i32::MAX,
        TagModel::Str(s) => encode_utf8(s).len() <= u16::MAX,
        TagModel::List(elem, items) => items.len() <= i32::MAX && wf_items(elem, items),
        TagModel::Compound(entries) => wf_entries(entries),
        TagModel::IntArray(a) => a.len() <= i32::MAX,
        _ => true,
    }
}

/// Every item is a well-formed tag of kind `elem`.
pub open spec fn wf_items(elem: u8, s: Seq<TagModel>) -> bool
    decreases s, 0nat,
{
    s.len() == 0 || (tag_id(s[0]) == elem && wf_tag(s[0]) && wf_items(elem, s.drop_first()))
}

/// Every entry is a well-formed tag other than an end tag, with a name whose
/// UTF-8 form fits the 16-bit length.
pub open spec fn wf_entries(s: Seq<(Seq<char>, TagModel)>) -> bool
    decreases s, 0nat,
{
    s.len() == 0 || (!(s[0].1 is End) && encode_utf8(s[0].0).len() <= u16::MAX && wf_tag(s[0].1)
        && wf_entries(s.drop_first()))
}

/// How many levels a read of `t` descends: one for a compound, one for a
/// list that has items.
pub open spec fn nesting(t: TagModel) -> nat
    decreases t, 0nat,
{
    match t {
        TagModel::List(_, items) => if items.len() == 0 {
            0
        } else {
            1 + items_nesting(items)
        },
        TagModel::Compound(entries) => 1 + entries_nesting(entries),
        _ => 0,
    }
}

/// The deepest nesting among `s`.
pub open spec fn items_nesting(s: Seq<TagModel>) -> nat
    decreases s, 0nat,
{
    if s.len() == 0 {
        0
    } else {
        let a = nesting(s[0]);
        let b = items_nesting(s.drop_first());
        if a >= b {
            a
        } else {
            b
        }
    }
}

/// The deepest nesting among the values of `s`.
pub open spec fn entries_nesting(s: Seq<(Seq<char>, TagModel)>) -> nat
    decreases s, 0nat,
{
    if s.len() == 0 {
        0
    } else {
        let a = nesting(s[0].1);
        let b = entries_nesting(s.drop_first());
        if a >= b {
            a
        } else {
            b
        }
    }
}

/// A string written with `utf_bytes` reads back as itself.
proof fn lemma_utf_roundtrip(s: Seq<char>, tail: Seq<u8>)
    requires
        encode_utf8(s).len() <= u16::MAX,
    ensures
        read_utf_spec(utf_bytes(s) + tail) == (Ok::<Seq<char>, NbtError>(s), tail),
{
    broadcast use vstd::utf8::encode_utf8_valid_utf8, vstd::utf8::encode_utf8_decode_utf8;

    let e = encode_utf8(s);
    let r = utf_bytes(s) + tail;
    lemma_be2_roundtrip(e.len() as u16);
    assert(r.take(2) =~= be2(e.len() as u16));
    assert(r.skip(2) =~= e + tail);
    assert((e + tail).take(e.len() as int) =~= e);
    assert((e + tail).skip(e.len() as int) =~= tail);
}

/// A count written with `count_bytes` reads back as itself.
proof fn lemma_count_roundtrip(n: nat)
    requires
        n <= i32::MAX,
    ensures
        from_be4(count_bytes(n)) as i32 == n,
        count_bytes(n).len() == 4,
{
    lemma_be4_roundtrip((n as i32) as u32);
    lemma_signed_casts(0, 0, n as i32, 0);
}

/// The four bytes of each integer in `ints_bytes`.
proof fn lemma_ints_bytes_at(a: Seq<i32>)
    ensures
        ints_bytes(a).len() == 4 * a.len(),
        forall|k: int|
            0 <= k < a.len() ==> #[trigger] ints_bytes(a).subrange(4 * k, 4 * k + 4) == be4(
                a[k] as u32,
            ),
    decreases a.len(),
{
    if a.len() > 0 {
        let rest = a.drop_first();
        lemma_ints_bytes_at(rest);
        lemma_be4_roundtrip(a[0] as u32);
        assert forall|k: int| 0 <= k < a.len() implies #[trigger] ints_bytes(a).subrange(
            4 * k,
            4 * k + 4,
        ) == be4(a[k] as u32) by {
            if k == 0 {
                assert(ints_bytes(a).subrange(0, 4) =~= be4(a[0] as u32));
            } else {
                assert(ints_bytes(rest).subrange(4 * (k - 1), 4 * (k - 1) + 4) == be4(
                    rest[k - 1] as u32,
                ));
                assert(ints_bytes(a).subrange(4 * k, 4 * k + 4) =~= ints_bytes(rest).subrange(
                    4 * (k - 1),
                    4 * (k - 1) + 4,
                ));
            }
        }
    }
}

/// Integers written with `ints_bytes` read back as themselves.
proof fn lemma_ints_roundtrip(a: Seq<i32>, tail: Seq<u8>)
    ensures
        4 * a.len() <= (ints_bytes(a) + tail).len(),
        ints_of(ints_bytes(a) + tail, a.len()) == a,
        (ints_bytes(a) + tail).skip(4 * a.len() as int) == tail,
{
    lemma_ints_bytes_at(a);
    let r = ints_bytes(a) + tail;
    assert forall|k: int| 0 <= k < a.len() implies #[trigger] ints_of(r, a.len())[k] == a[k] by {
        assert(r.subrange(4 * k, 4 * k + 4) =~= ints_bytes(a).subrange(4 * k, 4 * k + 4));
        lemma_be4_roundtrip(a[k] as u32);
        lemma_signed_casts(0, 0, a[k], 0);
    }
    assert(ints_of(r, a.len()) =~= a);
    assert(r.skip(4 * a.len() as int) =~= tail);
}

/// A well-formed tag written with `value_bytes` reads back as itself, and the
/// read stops exactly where its bytes end.
pub proof fn lemma_value_roundtrip(t: TagModel, tail: Seq<u8>, depth: nat)
    requires
        wf_tag(t),
        depth + nesting(t) <= usize::MAX,
    ensures
        read_value_spec(value_bytes(t) + tail, tag_id(t), depth) == Some(
            (Ok::<TagModel, NbtError>(t), tail),
        ),
    decreases t, 1nat,
{
    let r = value_bytes(t) + tail;
    match t {
        TagModel::End => {
            assert(r =~= tail);
        },
        TagModel::Byte(b) => {
            lemma_signed_casts(b, 0, 0, 0);
            assert(r.skip(1) =~= tail);
        },
        TagModel::Short(v) => {
            lemma_be2_roundtrip(v as u16);
            lemma_signed_casts(0, v, 0, 0);
            assert(r.take(2) =~= be2(v as u16));
            assert(r.skip(2) =~= tail);
        },
        TagModel::Int(v) => {
            lemma_be4_roundtrip(v as u32);
            lemma_signed_casts(0, 0, v, 0);
            assert(r.take(4) =~= be4(v as u32));
            assert(r.skip(4) =~= tail);
        },
        TagModel::Long(v) => {
            lemma_be8_roundtrip(v as u64);
            lemma_signed_casts(0, 0, 0, v);
            assert(r.take(8) =~= be8(v as u64));
            assert(r.skip(8) =~= tail);
        },
        TagModel::Float(bits) => {
            lemma_be4_roundtrip(bits);
            assert(r.take(4) =~= be4(bits));
            assert(r.skip(4) =~= tail);
        },
        TagModel::Double(bits) => {
            lemma_be8_roundtrip(bits);
            assert(r.take(8) =~= be8(bits));
            assert(r.skip(8) =~= tail);
        },
        TagModel::ByteArray(a) => {
            lemma_count_roundtrip(a.len());
            assert(r.take(4) =~= count_bytes(a.len()));
            let r1 = r.skip(4);
            assert(r1 =~= a + tail);
            assert(r1.take(a.len() as int) =~= a);
            assert(r1.skip(a.len() as int) =~= tail);
        },
        TagModel::Str(s) => {
            lemma_utf_roundtrip(s, tail);
        },
        TagModel::List(elem, items) => {
            lemma_count_roundtrip(items.len());
            assert(r[0] == elem);
            assert(r.subrange(1, 5) =~= count_bytes(items.len()));
            let r1 = r.skip(5);
            assert(r1 =~= items_bytes(items) + tail);
            if items.len() == 0 {
                assert(items_bytes(items) + tail =~= tail);
                assert(items =~= Seq::<TagModel>::empty());
            } else {
                lemma_items_roundtrip(elem, items, tail, depth + 1);
            }
        },
        TagModel::Compound(entries) => {
            assert(r =~= entries_bytes(entries) + seq![0u8] + tail);
            lemma_entries_roundtrip(entries, tail, depth + 1);
        },
        TagModel::IntArray(a) => {
            lemma_count_roundtrip(a.len());
            assert(r.take(4) =~= count_bytes(a.len()));
            let r1 = r.skip(4);
            assert(r1 =~= ints_bytes(a) + tail);
            lemma_ints_roundtrip(a, tail);
        },
    }
}

/// Well-formed items of kind `elem` written one after the other read back
/// as themselves.
proof fn lemma_items_roundtrip(elem: u8, items: Seq<TagModel>, tail: Seq<u8>, depth: nat)
    requires
        wf_items(elem, items),
        depth + items_nesting(items) <= usize::MAX,
    ensures
        read_items_spec(items_bytes(items) + tail, elem, depth, items.len()) == Some(
            (Ok::<Seq<TagModel>, NbtError>(items), tail),
        ),
    decreases items, 1nat,
{
    if items.len() == 0 {
        assert(items_bytes(items) + tail =~= tail);
        assert(items =~= Seq::<TagModel>::empty());
    } else {
        let first = items[0];
        let rest = items.drop_first();
        let r = items_bytes(items) + tail;
        let after = items_bytes(rest) + tail;
        assert(r =~= value_bytes(first) + after);
        lemma_value_roundtrip(first, after, depth);
        lemma_items_roundtrip(elem, rest, tail, depth);
        assert(seq![first] + rest =~= items);
    }
}

/// Well-formed entries written one after the other, followed by an end
/// byte, read back as themselves.
proof fn lemma_entries_roundtrip(entries: Seq<(Seq<char>, TagModel)>, tail: Seq<u8>, depth: nat)
    requires
        wf_entries(entries),
        depth + entries_nesting(entries) <= usize::MAX,
    ensures
        read_entries_spec(entries_bytes(entries) + seq![0u8] + tail, depth) == Some(
            (Ok::<Seq<(Seq<char>, TagModel)>, NbtError>(entries), tail),
        ),
    decreases entries, 1nat,
{
    let r = entries_bytes(entries) + seq![0u8] + tail;
    if entries.len() == 0 {
        assert(r =~= seq![0u8] + tail);
        assert(r.skip(1) =~= tail);
        assert(entries =~= Seq::<(Seq<char>, TagModel)>::empty());
    } else {
        let (name, v) = entries[0];
        let rest = entries.drop_first();
        let after = entries_bytes(rest) + seq![0u8] + tail;
        assert(r =~= named_bytes(name, v) + after);
        assert(decreases_to!(entries => entries[0]));
        lemma_named_roundtrip(name, v, after, depth);
        assert(read_named_spec(r, depth) == Some(
            (Ok::<(Seq<char>, TagModel), NbtError>((name, v)), after),
        ));
        lemma_entries_roundtrip(rest, tail, depth);
        assert(seq![(name, v)] + rest =~= entries);
    }
}

/// A named tag written with `named_bytes` reads back as itself: an end tag
/// (which is written without its name) when its name is empty, any other
/// well-formed tag when its name's UTF-8 form fits the 16-bit length.
pub proof fn lemma_named_roundtrip(name: Seq<char>, t: TagModel, tail: Seq<u8>, depth: nat)
    requires
        t is End ==> name.len() == 0,
        !(t is End) ==> encode_utf8(name).len() <= u16::MAX && wf_tag(t),
        depth + nesting(t) <= usize::MAX,
    ensures
        read_named_spec(named_bytes(name, t) + tail, depth) == Some(
            (Ok::<(Seq<char>, TagModel), NbtError>((name, t)), tail),
        ),
    decreases t, 2nat,
{
    let r = named_bytes(name, t) + tail;
    if t is End {
        assert(r.skip(1) =~= tail);
        assert(name =~= Seq::<char>::empty());
    } else {
        assert(r.skip(1) =~= utf_bytes(name) + (value_bytes(t) + tail));
        lemma_utf_roundtrip(name, value_bytes(t) + tail);
        lemma_value_roundtrip(t, tail, depth);
    }
}

} // verus!
