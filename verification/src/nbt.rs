//! Named binary tags: the values, and reading and writing them.
use vstd::prelude::*;
use vstd::string::StringExecFns;
use vstd::utf8::{decode_utf8, valid_utf8};
use crate::be_bytes::{
    from_be2, from_be4, from_be8, lemma_from_be2_roundtrip, lemma_from_be4_roundtrip,
    lemma_from_be8_roundtrip, push_all,
    push_be2, push_be4, push_be8,
};
use crate::nbt_format::{
    count_bytes, entries_bytes, ints_bytes, ints_of, items_bytes, lemma_entries_bytes_push,
    lemma_ints_bytes_push, lemma_items_bytes_push, lemma_prepend_empty, lemma_prepend_shift,
    lossy_utf8, named_bytes, prepend, read_entries_spec, read_items_spec, read_named_spec,
    read_utf_spec, read_value_spec, tag_id, tag_name_of, utf_bytes, value_bytes, NbtError,
    TagModel,
};
use crate::java::streams::ByteArrayInputStream;

verus! {

pub const TAG_END: u8 = 0;
pub const TAG_BYTE: u8 = 1;
pub const TAG_SHORT: u8 = 2;
pub const TAG_INT: u8 = 3;
pub const TAG_LONG: u8 = 4;
pub const TAG_FLOAT: u8 = 5;
pub const TAG_DOUBLE: u8 = 6;
pub const TAG_BYTE_ARRAY: u8 = 7;
pub const TAG_STRING: u8 = 8;
pub const TAG_LIST: u8 = 9;
pub const TAG_COMPOUND: u8 = 10;
pub const TAG_INT_ARRAY: u8 = 11;

/// A tag value.  `Float` and `Double` hold the IEEE-754 bit patterns of their
/// numbers, which is all the format stores of them.
#[derive(Debug, PartialEq)]
pub enum TagValue {
    End,
    Byte(i8),
    Short(i16),
    Int(i32),
    Long(i64),
    Float(u32),
    Double(u64),
    ByteArray(Vec<u8>),
    String(String),
    List { element_type: u8, items: Vec<TagValue> },
    Compound(Vec<NamedTag>),
    IntArray(Vec<i32>),
}

/// A tag value with a name, as found in a compound or at the top of a file.
#[derive(Debug, PartialEq)]
pub struct NamedTag {
    pub name: String,
    pub value: TagValue,
}

/// The mathematical value of a tag.
pub open spec fn model(t: TagValue) -> TagModel
    decreases t, 0nat,
{
    match t {
        TagValue::End => TagModel::End,
        TagValue::Byte(b) => TagModel::Byte(b),
        TagValue::Short(v) => TagModel::Short(v),
        TagValue::Int(v) => TagModel::Int(v),
        TagValue::Long(v) => TagModel::Long(v),
        TagValue::Float(bits) => TagModel::Float(bits),
        TagValue::Double(bits) => TagModel::Double(bits),
        TagValue::ByteArray(a) => TagModel::ByteArray(a@),
        TagValue::String(s) => TagModel::Str(s@),
        TagValue::List { element_type, items } => TagModel::List(element_type, models(items@)),
        TagValue::Compound(entries) => TagModel::Compound(entry_models(entries@)),
        TagValue::IntArray(a) => TagModel::IntArray(a@),
    }
}

/// The mathematical values of a sequence of tags.
pub open spec fn models(s: Seq<TagValue>) -> Seq<TagModel>
    decreases s, 0nat,
{
    if s.len() == 0 {
        Seq::empty()
    } else {
        seq![model(s[0])] + models(s.drop_first())
    }
}

/// The mathematical values of a sequence of named tags.
pub open spec fn entry_models(s: Seq<NamedTag>) -> Seq<(Seq<char>, TagModel)>
    decreases s, 0nat,
{
    if s.len() == 0 {
        Seq::empty()
    } else {
        seq![(s[0].name@, model(s[0].value))] + entry_models(s.drop_first())
    }
}

/// `models` maps each tag on its own.
pub proof fn lemma_models(s: Seq<TagValue>)
    ensures
        models(s).len() == s.len(),
        forall|i: int| 0 <= i < s.len() ==> #[trigger] models(s)[i] == model(s[i]),
    decreases s.len(),
{
    if s.len() > 0 {
        lemma_models(s.drop_first());
        assert forall|i: int| 0 <= i < s.len() implies #[trigger] models(s)[i] == model(s[i]) by {
            if i > 0 {
                assert(models(s)[i] == models(s.drop_first())[i - 1]);
            }
        }
    }
}

/// `entry_models` maps each named tag on its own.
pub proof fn lemma_entry_models(s: Seq<NamedTag>)
    ensures
        entry_models(s).len() == s.len(),
        forall|i: int|
            0 <= i < s.len() ==> #[trigger] entry_models(s)[i] == (s[i].name@, model(s[i].value)),
    decreases s.len(),
{
    if s.len() > 0 {
        lemma_entry_models(s.drop_first());
        assert forall|i: int| 0 <= i < s.len() implies #[trigger] entry_models(s)[i] == (
        s[i].name@,
        model(s[i].value),
        ) by {
            if i > 0 {
                assert(entry_models(s)[i] == entry_models(s.drop_first())[i - 1]);
            }
        }
    }
}

/// Decodes bytes as UTF-8, replacing invalid sequences; calls
/// `String::from_utf8_lossy`.  Valid UTF-8 decodes to the characters it
/// encodes; what other bytes decode to is left to the name `lossy_utf8`.
#[verifier::external_body]
fn utf8_lossy(bytes: &[u8]) -> (s: String)
    ensures
        valid_utf8(bytes@) ==> s@ == decode_utf8(bytes@),
        !valid_utf8(bytes@) ==> s@ == lossy_utf8(bytes@),
{
    String::from_utf8_lossy(bytes).into_owned()
}

impl TagValue {
    /// The id byte of this kind of tag.
    pub fn id(&self) -> (r: u8)
        ensures
            r == tag_id(model(*self)),
    {
        match self {
            TagValue::End => TAG_END,
            TagValue::Byte(_) => TAG_BYTE,
            TagValue::Short(_) => TAG_SHORT,
            TagValue::Int(_) => TAG_INT,
            TagValue::Long(_) => TAG_LONG,
            TagValue::Float(_) => TAG_FLOAT,
            TagValue::Double(_) => TAG_DOUBLE,
            TagValue::ByteArray(_) => TAG_BYTE_ARRAY,
            TagValue::String(_) => TAG_STRING,
            TagValue::List { .. } => TAG_LIST,
            TagValue::Compound(_) => TAG_COMPOUND,
            TagValue::IntArray(_) => TAG_INT_ARRAY,
        }
    }

    /// The printable name of a tag id; "UNKNOWN" for ids outside the format.
    pub fn tag_name(id: u8) -> (r: &'static str)
        ensures
            r@ == tag_name_of(id),
    {
        proof {
            reveal_strlit("TAG_End");
            reveal_strlit("TAG_Byte");
            reveal_strlit("TAG_Short");
            reveal_strlit("TAG_Int");
            reveal_strlit("TAG_Long");
            reveal_strlit("TAG_Float");
            reveal_strlit("TAG_Double");
            reveal_strlit("TAG_Byte_Array");
            reveal_strlit("TAG_String");
            reveal_strlit("TAG_List");
            reveal_strlit("TAG_Compound");
            reveal_strlit("TAG_Int_Array");
            reveal_strlit("UNKNOWN");
        }
        if id == TAG_END {
            "TAG_End"
        } else if id == TAG_BYTE {
            "TAG_Byte"
        } else if id == TAG_SHORT {
            "TAG_Short"
        } else if id == TAG_INT {
            "TAG_Int"
        } else if id == TAG_LONG {
            "TAG_Long"
        } else if id == TAG_FLOAT {
            "TAG_Float"
        } else if id == TAG_DOUBLE {
            "TAG_Double"
        } else if id == TAG_BYTE_ARRAY {
            "TAG_Byte_Array"
        } else if id == TAG_STRING {
            "TAG_String"
        } else if id == TAG_LIST {
            "TAG_List"
        } else if id == TAG_COMPOUND {
            "TAG_Compound"
        } else if id == TAG_INT_ARRAY {
            "TAG_Int_Array"
        } else {
            "UNKNOWN"
        }
    }
}

/// Each kind of tag is announced by the format's constant for that kind,
/// and the printable name of its id names that kind.
pub proof fn lemma_tag_ids(t: TagModel)
    ensures
        (t is End) <==> tag_id(t) == TAG_END,
        (t is Byte) <==> tag_id(t) == TAG_BYTE,
        (t is Short) <==> tag_id(t) == TAG_SHORT,
        (t is Int) <==> tag_id(t) == TAG_INT,
        (t is Long) <==> tag_id(t) == TAG_LONG,
        (t is Float) <==> tag_id(t) == TAG_FLOAT,
        (t is Double) <==> tag_id(t) == TAG_DOUBLE,
        (t is ByteArray) <==> tag_id(t) == TAG_BYTE_ARRAY,
        (t is Str) <==> tag_id(t) == TAG_STRING,
        (t is List) <==> tag_id(t) == TAG_LIST,
        (t is Compound) <==> tag_id(t) == TAG_COMPOUND,
        (t is IntArray) <==> tag_id(t) == TAG_INT_ARRAY,
        tag_name_of(tag_id(t)) == (match t {
            TagModel::End => "TAG_End"@,
            TagModel::Byte(_) => "TAG_Byte"@,
            TagModel::Short(_) => "TAG_Short"@,
            TagModel::Int(_) => "TAG_Int"@,
            TagModel::Long(_) => "TAG_Long"@,
            TagModel::Float(_) => "TAG_Float"@,
            TagModel::Double(_) => "TAG_Double"@,
            TagModel::ByteArray(_) => "TAG_Byte_Array"@,
            TagModel::Str(_) => "TAG_String"@,
            TagModel::List(_, _) => "TAG_List"@,
            TagModel::Compound(_) => "TAG_Compound"@,
            TagModel::IntArray(_) => "TAG_Int_Array"@,
        }),
{
}

/// Whether reading a payload under `id` from `r` takes exactly `n` bytes
/// and gives a tag of the kind that `id` announces whose payload, as
/// written, is those bytes; or, with fewer than `n` bytes there, fails with
/// `UnexpectedEof`.
pub open spec fn reads_exactly(r: Seq<u8>, id: u8, depth: nat, n: nat) -> bool {
    if r.len() >= n {
        read_value_spec(r, id, depth) matches Some((Ok(t), rest)) && tag_id(t) == id
            && value_bytes(t) == r.take(n as int) && rest == r.skip(n as int)
    } else {
        read_value_spec(r, id, depth) == Some(
            (Err::<TagModel, NbtError>(NbtError::UnexpectedEof), Seq::<u8>::empty()),
        )
    }
}

/// Casting an unsigned value to the signed type of its width and back gives
/// it back.
proof fn lemma_unsigned_casts(a: u8, b: u16, c: u32, d: u64)
    ensures
        (a as i8) as u8 == a,
        (b as i16) as u16 == b,
        (c as i32) as u32 == c,
        (d as i64) as u64 == d,
{
    assert((a as i8) as u8 == a && (b as i16) as u16 == b && (c as i32) as u32 == c && (d as i64)
        as u64 == d) by (bit_vector);
}

/// The payloads of fixed size: one byte under `TAG_BYTE`, two under
/// `TAG_SHORT`, four under `TAG_INT` and `TAG_FLOAT`, eight under `TAG_LONG`
/// and `TAG_DOUBLE`.
pub proof fn lemma_fixed_payload_sizes(r: Seq<u8>, depth: nat)
    ensures
        reads_exactly(r, TAG_BYTE, depth, 1),
        reads_exactly(r, TAG_SHORT, depth, 2),
        reads_exactly(r, TAG_INT, depth, 4),
        reads_exactly(r, TAG_LONG, depth, 8),
        reads_exactly(r, TAG_FLOAT, depth, 4),
        reads_exactly(r, TAG_DOUBLE, depth, 8),
{
    if r.len() >= 1 {
        lemma_unsigned_casts(r[0], 0, 0, 0);
        assert(seq![(r[0] as i8) as u8] =~= r.take(1));
    }
    if r.len() >= 2 {
        lemma_from_be2_roundtrip(r.take(2));
        lemma_unsigned_casts(0, from_be2(r.take(2)), 0, 0);
    }
    if r.len() >= 4 {
        lemma_from_be4_roundtrip(r.take(4));
        lemma_unsigned_casts(0, 0, from_be4(r.take(4)), 0);
    }
    if r.len() >= 8 {
        lemma_from_be8_roundtrip(r.take(8));
        lemma_unsigned_casts(0, 0, 0, from_be8(r.take(8)));
    }
}

impl NamedTag {
    /// A tag named `name`.
    pub fn new(name: &str, value: TagValue) -> (t: Self)
        ensures
            t.name@ == name@,
            t.value == value,
    {
        NamedTag { name: String::from_str(name), value }
    }
}

/// Writes a string as its UTF-8 length (cut to 16 bits) followed by its
/// UTF-8 bytes.
pub fn write_utf(writer: &mut Vec<u8>, s: &str) -> (r: Result<(), NbtError>)
    ensures
        r is Ok,
        final(writer)@ == old(writer)@ + utf_bytes(s@),
{
    let bytes = s.as_bytes();
    let len = bytes.len() as u16;
    push_be2(writer, len);
    push_all(writer, bytes);
    assert(final(writer)@ =~= old(writer)@ + utf_bytes(s@));
    Ok(())
}

/// Writes a count cut to 32 bits, big-endian.
fn write_count(writer: &mut Vec<u8>, n: usize)
    ensures
        final(writer)@ == old(writer)@ + count_bytes(n as nat),
{
    push_be4(writer, (n as i32) as u32);
}

/// Writes the payload of a tag (without its id).
pub fn write_tag_value(writer: &mut Vec<u8>, value: &TagValue) -> (r: Result<(), NbtError>)
    ensures
        r is Ok,
        final(writer)@ == old(writer)@ + value_bytes(model(*value)),
    decreases *value, 1nat,
{
    match value {
        TagValue::End => {
            assert(final(writer)@ =~= old(writer)@ + value_bytes(model(*value)));
        },
        TagValue::Byte(b) => {
            writer.push(*b as u8);
            assert(final(writer)@ =~= old(writer)@ + value_bytes(model(*value)));
        },
        TagValue::Short(s) => {
            push_be2(writer, *s as u16);
        },
        TagValue::Int(i) => {
            push_be4(writer, *i as u32);
        },
        TagValue::Long(l) => {
            push_be8(writer, *l as u64);
        },
        TagValue::Float(bits) => {
            push_be4(writer, *bits);
        },
        TagValue::Double(bits) => {
            push_be8(writer, *bits);
        },
        TagValue::ByteArray(arr) => {
            write_count(writer, arr.len());
            push_all(writer, arr.as_slice());
            assert(final(writer)@ =~= old(writer)@ + value_bytes(model(*value)));
        },
        TagValue::String(s) => {
            write_utf(writer, s.as_str());
        },
        TagValue::List { element_type, items } => {
            writer.push(*element_type);
            write_count(writer, items.len());
            let ghost start = writer@;
            proof {
                broadcast use vstd::std_specs::vec::axiom_vec_index_decreases;

                assert forall|k: int| 0 <= k < items.len() implies decreases_to!(*value => items[k]) by {
                    assert(decreases_to!(*items => items[k]));
                }
            }
            let mut i: usize = 0;
            while i < items.len()
                invariant
                    i <= items@.len(),
                    forall|k: int| 0 <= k < items.len() ==> decreases_to!(*value => items[k]),
                    writer@ == start + items_bytes(models(items@.take(i as int))),
                decreases items@.len() - i,
            {
                write_tag_value(writer, &items[i]);
                proof {
                    lemma_models_push(items@.take(i as int), items@[i as int]);
                    lemma_items_bytes_push(models(items@.take(i as int)), model(items@[i as int]));
                    assert(items@.take(i as int).push(items@[i as int]) =~= items@.take(i + 1));
                }
                i = i + 1;
            }
            assert(items@.take(i as int) =~= items@);
            proof {
                lemma_models(items@);
            }
            assert(final(writer)@ =~= old(writer)@ + value_bytes(model(*value)));
        },
        TagValue::Compound(entries) => {
            let ghost start = writer@;
            proof {
                broadcast use vstd::std_specs::vec::axiom_vec_index_decreases;

                assert forall|k: int| 0 <= k < entries.len() implies decreases_to!(*value => entries[k].value) by {
                    assert(decreases_to!(*entries => entries[k]));
                    assert(decreases_to!(entries[k] => entries[k].value));
                }
            }
            let mut i: usize = 0;
            while i < entries.len()
                invariant
                    i <= entries@.len(),
                    forall|k: int| 0 <= k < entries.len() ==> decreases_to!(*value => entries[k].value),
                    writer@ == start + entries_bytes(entry_models(entries@.take(i as int))),
                decreases entries@.len() - i,
            {
                write_named_tag(writer, &entries[i]);
                proof {
                    lemma_entry_models_push(entries@.take(i as int), entries@[i as int]);
                    lemma_entries_bytes_push(
                        entry_models(entries@.take(i as int)),
                        (entries@[i as int].name@, model(entries@[i as int].value)),
                    );
                    assert(entries@.take(i as int).push(entries@[i as int]) =~= entries@.take(i + 1));
                }
                i = i + 1;
            }
            assert(entries@.take(i as int) =~= entries@);
            writer.push(TAG_END);
            assert(final(writer)@ =~= old(writer)@ + value_bytes(model(*value)));
        },
        TagValue::IntArray(arr) => {
            write_count(writer, arr.len());
            let ghost start = writer@;
            let mut i: usize = 0;
            while i < arr.len()
                invariant
                    i <= arr@.len(),
                    writer@ == start + ints_bytes(arr@.take(i as int)),
                decreases arr@.len() - i,
            {
                push_be4(writer, arr[i] as u32);
                proof {
                    lemma_ints_bytes_push(arr@.take(i as int), arr@[i as int]);
                    assert(arr@.take(i as int).push(arr@[i as int]) =~= arr@.take(i + 1));
                }
                i = i + 1;
            }
            assert(arr@.take(i as int) =~= arr@);
            assert(final(writer)@ =~= old(writer)@ + value_bytes(model(*value)));
        },
    }
    Ok(())
}

/// Writes a named tag: its id, then, unless it is an end tag, its name and
/// payload.
pub fn write_named_tag(writer: &mut Vec<u8>, tag: &NamedTag) -> (r: Result<(), NbtError>)
    ensures
        r is Ok,
        final(writer)@ == old(writer)@ + named_bytes(tag.name@, model(tag.value)),
    decreases tag.value, 2nat,
{
    writer.push(tag.value.id());
    if let TagValue::End = tag.value {
        assert(final(writer)@ =~= old(writer)@ + named_bytes(tag.name@, model(tag.value)));
        return Ok(());
    }
    write_utf(writer, tag.name.as_str());
    write_tag_value(writer, &tag.value);
    assert(final(writer)@ =~= old(writer)@ + named_bytes(tag.name@, model(tag.value)));
    Ok(())
}

/// Whether a read's result is the one the format prescribes.
pub open spec fn same_outcome<T, M>(r: Result<T, NbtError>, s: Result<M, NbtError>, m: spec_fn(T) -> M) -> bool {
    match r {
        Ok(v) => s == Ok::<M, NbtError>(m(v)),
        Err(e) => s == Err::<M, NbtError>(e),
    }
}

/// Reads a string written by `write_utf`.  Bytes that are not valid UTF-8 are
/// decoded lossily.
pub fn read_utf(reader: &mut ByteArrayInputStream) -> (r: Result<String, NbtError>)
    ensures
        final(reader).data() == old(reader).data(),
        final(reader).rest() == read_utf_spec(old(reader).rest()).1,
        same_outcome(r, read_utf_spec(old(reader).rest()).0, |s: String| s@),
{
    let len = match reader.read_u16_be() {
        Ok(n) => n,
        Err(_) => return Err(NbtError::UnexpectedEof),
    };
    let bytes = match reader.read_bytes(len as usize) {
        Ok(b) => b,
        Err(_) => return Err(NbtError::UnexpectedEof),
    };
    Ok(utf8_lossy(bytes.as_slice()))
}

/// Reads the payload of a tag with id `id` at nesting depth `depth`.
pub fn read_tag_value(reader: &mut ByteArrayInputStream, id: u8, depth: usize) -> (r: Result<
    TagValue,
    NbtError,
>)
    requires
        read_value_spec(old(reader).rest(), id, depth as nat) is Some,
    ensures
        final(reader).data() == old(reader).data(),
        read_value_spec(old(reader).rest(), id, depth as nat) matches Some((res, rest))
            && final(reader).rest() == rest && same_outcome(r, res, |v: TagValue| model(v)),
    decreases old(reader).rest().len(), 2nat,
{
    let ghost r0 = reader.rest();
    if id == TAG_END {
        return Ok(TagValue::End);
    } else if id == TAG_BYTE {
        match reader.read_u8() {
            Ok(b) => {
                return Ok(TagValue::Byte(b as i8));
            },
            Err(_) => {
                assert(r0 =~= Seq::<u8>::empty());
                return Err(NbtError::UnexpectedEof);
            },
        }
    } else if id == TAG_SHORT {
        match reader.read_u16_be() {
            Ok(v) => {
                return Ok(TagValue::Short(v as i16));
            },
            Err(_) => {
                return Err(NbtError::UnexpectedEof);
            },
        }
    } else if id == TAG_INT {
        match reader.read_u32_be() {
            Ok(v) => {
                return Ok(TagValue::Int(v as i32));
            },
            Err(_) => {
                return Err(NbtError::UnexpectedEof);
            },
        }
    } else if id == TAG_LONG {
        match reader.read_u64_be() {
            Ok(v) => {
                return Ok(TagValue::Long(v as i64));
            },
            Err(_) => {
                return Err(NbtError::UnexpectedEof);
            },
        }
    } else if id == TAG_FLOAT {
        match reader.read_u32_be() {
            Ok(v) => {
                return Ok(TagValue::Float(v));
            },
            Err(_) => {
                return Err(NbtError::UnexpectedEof);
            },
        }
    } else if id == TAG_DOUBLE {
        match reader.read_u64_be() {
            Ok(v) => {
                return Ok(TagValue::Double(v));
            },
            Err(_) => {
                return Err(NbtError::UnexpectedEof);
            },
        }
    } else if id == TAG_BYTE_ARRAY {
        let n = match reader.read_u32_be() {
            Ok(v) => v as i32,
            Err(_) => return Err(NbtError::UnexpectedEof),
        };
        let len = n as usize;
        match reader.read_bytes(len) {
            Ok(buf) => {
                return Ok(TagValue::ByteArray(buf));
            },
            Err(_) => {
                return Err(NbtError::UnexpectedEof);
            },
        }
    } else if id == TAG_STRING {
        match read_utf(reader) {
            Ok(s) => {
                return Ok(TagValue::String(s));
            },
            Err(e) => {
                return Err(e);
            },
        }
    } else if id == TAG_LIST {
        let elem = match reader.read_u8() {
            Ok(b) => b,
            Err(_) => {
                assert(r0 =~= Seq::<u8>::empty());
                return Err(NbtError::UnexpectedEof);
            },
        };
        let n = match reader.read_u32_be() {
            Ok(v) => v as i32,
            Err(_) => return Err(NbtError::UnexpectedEof),
        };
        assert(r0.skip(1).take(4) =~= r0.subrange(1, 5));
        assert(r0.skip(1).skip(4) =~= r0.skip(5));
        let count = n as usize;
        let mut items: Vec<TagValue> = Vec::new();
        if count == 0 {
            assert(models(items@) =~= Seq::<TagModel>::empty());
            return Ok(TagValue::List { element_type: elem, items });
        }
        let d1 = depth + 1;
        let ghost r1 = reader.rest();
        let ghost whole = match read_items_spec(r1, elem, d1 as nat, count as nat) {
            None => None,
            Some((Err(e), r2)) => Some((Err(e), r2)),
            Some((Ok(vs), r2)) => Some((Ok(TagModel::List(elem, vs)), r2)),
        };
        assert(read_value_spec(r0, id, depth as nat) == whole);
        proof {
            lemma_prepend_empty(read_items_spec(r1, elem, d1 as nat, count as nat));
        }
        let mut i: usize = 0;
        while i < count
            invariant
                i <= count,
                r0 == old(reader).rest(),
                read_value_spec(r0, id, depth as nat) == whole,
                whole == match read_items_spec(r1, elem, d1 as nat, count as nat) {
                    None => None,
                    Some((Err(e), r2)) => Some((Err(e), r2)),
                    Some((Ok(vs), r2)) => Some((Ok(TagModel::List(elem, vs)), r2)),
                },
                reader.data() == old(reader).data(),
                r1.len() < r0.len(),
                reader.rest().len() <= r1.len(),
                read_items_spec(r1, elem, d1 as nat, count as nat) is Some,
                read_items_spec(r1, elem, d1 as nat, count as nat) == prepend(
                    models(items@),
                    read_items_spec(reader.rest(), elem, d1 as nat, (count - i) as nat),
                ),
            decreases count - i,
        {
            let ghost cur = reader.rest();
            let ghost k = (count - i) as nat;
            assert(read_items_spec(cur, elem, d1 as nat, k) is Some);
            let v = match read_tag_value(reader, elem, d1) {
                Ok(v) => v,
                Err(e) => {
                    return Err(e);
                },
            };
            proof {
                lemma_models_push(items@, v);
                lemma_prepend_shift(
                    models(items@),
                    model(v),
                    read_items_spec(reader.rest(), elem, d1 as nat, (k - 1) as nat),
                );
            }
            items.push(v);
            i = i + 1;
        }
        assert(models(items@) + Seq::<TagModel>::empty() =~= models(items@));
        assert(r1 == r0.skip(5));
        return Ok(TagValue::List { element_type: elem, items });
    } else if id == TAG_COMPOUND {
        let d1 = depth + 1;
        let mut entries: Vec<NamedTag> = Vec::new();
        let ghost whole = match read_entries_spec(r0, d1 as nat) {
            None => None,
            Some((Err(e), r2)) => Some((Err(e), r2)),
            Some((Ok(es), r2)) => Some((Ok(TagModel::Compound(es)), r2)),
        };
        assert(read_value_spec(r0, id, depth as nat) == whole);
        proof {
            lemma_prepend_empty(read_entries_spec(r0, d1 as nat));
            assert(entry_models(entries@) =~= Seq::<(Seq<char>, TagModel)>::empty());
        }
        loop
            invariant
                r0 == old(reader).rest(),
                read_value_spec(r0, id, depth as nat) == whole,
                whole == match read_entries_spec(r0, d1 as nat) {
                    None => None,
                    Some((Err(e), r2)) => Some((Err(e), r2)),
                    Some((Ok(es), r2)) => Some((Ok(TagModel::Compound(es)), r2)),
                },
                reader.data() == old(reader).data(),
                reader.rest().len() <= r0.len(),
                read_entries_spec(r0, d1 as nat) is Some,
                read_entries_spec(r0, d1 as nat) == prepend(
                    entry_models(entries@),
                    read_entries_spec(reader.rest(), d1 as nat),
                ),
            decreases reader.rest().len(),
        {
            let ghost cur = reader.rest();
            let named = match read_named_tag(reader, d1) {
                Ok(t) => t,
                Err(e) => {
                    return Err(e);
                },
            };
            if let TagValue::End = named.value {
                assert(entry_models(entries@) + Seq::<(Seq<char>, TagModel)>::empty()
                    =~= entry_models(entries@));
                return Ok(TagValue::Compound(entries));
            }
            proof {
                lemma_entry_models_push(entries@, named);
                lemma_prepend_shift(
                    entry_models(entries@),
                    (named.name@, model(named.value)),
                    read_entries_spec(reader.rest(), d1 as nat),
                );
            }
            entries.push(named);
        }
    } else if id == TAG_INT_ARRAY {
        let n = match reader.read_u32_be() {
            Ok(v) => v as i32,
            Err(_) => return Err(NbtError::UnexpectedEof),
        };
        let ghost r1 = reader.rest();
        let count = n as usize;
        assert(read_value_spec(r0, id, depth as nat) == if 4 * n <= r1.len() {
            Some((Ok(TagModel::IntArray(ints_of(r1, n as nat))), r1.skip(4 * n)))
        } else {
            Some((Err::<TagModel, NbtError>(NbtError::UnexpectedEof), Seq::<u8>::empty()))
        });
        let mut items: Vec<i32> = Vec::new();
        let mut i: usize = 0;
        while i < count
            invariant
                i <= count,
                count == n,
                r0 == old(reader).rest(),
                read_value_spec(r0, id, depth as nat) == if 4 * n <= r1.len() {
                    Some((Ok(TagModel::IntArray(ints_of(r1, n as nat))), r1.skip(4 * n)))
                } else {
                    Some((Err::<TagModel, NbtError>(NbtError::UnexpectedEof), Seq::<u8>::empty()))
                },
                reader.data() == old(reader).data(),
                4 * i <= r1.len(),
                reader.rest() == r1.skip(4 * i),
                items@ == ints_of(r1, i as nat),
            decreases count - i,
        {
            let v = match reader.read_u32_be() {
                Ok(v) => v,
                Err(_) => {
                    return Err(NbtError::UnexpectedEof);
                },
            };
            assert(r1.skip(4 * i).take(4) =~= r1.subrange(4 * i, 4 * i + 4));
            assert(r1.skip(4 * i).skip(4) =~= r1.skip(4 * (i + 1)));
            items.push(v as i32);
            i = i + 1;
            assert(items@ =~= ints_of(r1, i as nat));
        }
        assert(items@ =~= ints_of(r1, n as nat));
        return Ok(TagValue::IntArray(items));
    } else {
        return Err(NbtError::InvalidTagId(id));
    }
}

/// Reads one named tag: its id, then, unless the id is 0 or 255 (an end tag,
/// which has neither), its name and payload.
pub fn read_named_tag(reader: &mut ByteArrayInputStream, depth: usize) -> (r: Result<
    NamedTag,
    NbtError,
>)
    requires
        read_named_spec(old(reader).rest(), depth as nat) is Some,
    ensures
        final(reader).data() == old(reader).data(),
        read_named_spec(old(reader).rest(), depth as nat) matches Some((res, rest))
            && final(reader).rest() == rest
            && same_outcome(r, res, |t: NamedTag| (t.name@, model(t.value))),
    decreases old(reader).rest().len(), 0nat,
{
    let ghost r0 = reader.rest();
    let t = match reader.read_u8() {
        Ok(b) => b,
        Err(_) => return Err(NbtError::UnexpectedEof),
    };
    if t == TAG_END || t == 255 {
        proof {
            reveal_strlit("");
            assert(""@ =~= Seq::<char>::empty());
        }
        return Ok(NamedTag::new("", TagValue::End));
    }
    let name = match read_utf(reader) {
        Ok(s) => s,
        Err(e) => return Err(e),
    };
    let value = match read_tag_value(reader, t, depth) {
        Ok(v) => v,
        Err(e) => return Err(e),
    };
    Ok(NamedTag { name, value })
}

/// `models` of a sequence with one more tag.
proof fn lemma_models_push(s: Seq<TagValue>, t: TagValue)
    ensures
        models(s.push(t)) == models(s).push(model(t)),
{
    lemma_models(s);
    lemma_models(s.push(t));
    assert(models(s.push(t)) =~= models(s).push(model(t)));
}

/// `entry_models` of a sequence with one more named tag.
proof fn lemma_entry_models_push(s: Seq<NamedTag>, t: NamedTag)
    ensures
        entry_models(s.push(t)) == entry_models(s).push((t.name@, model(t.value))),
{
    lemma_entry_models(s);
    lemma_entry_models(s.push(t));
    assert(entry_models(s.push(t)) =~= entry_models(s).push((t.name@, model(t.value))));
}

} // verus!
