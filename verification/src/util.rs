//! String helpers.
use vstd::prelude::*;
use vstd::utf8::encode_utf8;

verus! {

/// What `str::to_lowercase` makes of a string (Unicode lowercase mapping).
pub uninterp spec fn unicode_lowercase(s: Seq<char>) -> Seq<char>;

/// Whether `c` has the Unicode `White_Space` property.
pub open spec fn is_unicode_whitespace(c: char) -> bool {
    let u = c as u32;
    (0x09 <= u <= 0x0D) || u == 0x20 || u == 0x85 || u == 0xA0 || u == 0x1680 || (0x2000 <= u
        <= 0x200A) || u == 0x2028 || u == 0x2029 || u == 0x202F || u == 0x205F || u == 0x3000
}

/// `s` without its leading whitespace.
pub open spec fn trim_start(s: Seq<char>) -> Seq<char>
    decreases s.len(),
{
    if s.len() > 0 && is_unicode_whitespace(s[0]) {
        trim_start(s.drop_first())
    } else {
        s
    }
}

/// `s` without its trailing whitespace.
pub open spec fn trim_end(s: Seq<char>) -> Seq<char>
    decreases s.len(),
{
    if s.len() > 0 && is_unicode_whitespace(s.last()) {
        trim_end(s.drop_last())
    } else {
        s
    }
}

/// `s` without leading and trailing whitespace.
pub open spec fn trimmed(s: Seq<char>) -> Seq<char> {
    trim_end(trim_start(s))
}

/// `s` with every match of `pat` replaced by `with`, matches taken from the
/// left without overlap.  An empty pattern matches before every character
/// and at the end.
pub open spec fn replaced(s: Seq<char>, pat: Seq<char>, with: Seq<char>) -> Seq<char>
    decreases s.len(), if pat.len() == 0 {
        1nat
    } else {
        0nat
    },
{
    if pat.len() == 0 {
        if s.len() == 0 {
            with
        } else {
            with + seq![s[0]] + replaced(s.drop_first(), pat, with)
        }
    } else if s.len() < pat.len() {
        s
    } else if s.take(pat.len() as int) == pat {
        with + replaced(s.skip(pat.len() as int), pat, with)
    } else {
        seq![s[0]] + replaced(s.drop_first(), pat, with)
    }
}

/// The ASCII lowercase of a byte: `A`..`Z` become `a`..`z`, other bytes stay.
pub open spec fn ascii_lower(b: u8) -> u8 {
    if 65 <= b <= 90 {
        (b + 32) as u8
    } else {
        b
    }
}

/// Whether two byte strings are equal once ASCII letters are lowered.
pub open spec fn eq_ignore_ascii_case_bytes(a: Seq<u8>, b: Seq<u8>) -> bool {
    a.len() == b.len() && forall|i: int| 0 <= i < a.len() ==> ascii_lower(#[trigger] a[i]) == ascii_lower(b[i])
}

/// Comparing without regard to ASCII case is an equivalence: every string
/// matches itself, matching is symmetric, and transitive.
pub proof fn lemma_ignore_case_equivalence(a: Seq<u8>, b: Seq<u8>, c: Seq<u8>)
    ensures
        eq_ignore_ascii_case_bytes(a, a),
        eq_ignore_ascii_case_bytes(a, b) ==> eq_ignore_ascii_case_bytes(b, a),
        eq_ignore_ascii_case_bytes(a, b) && eq_ignore_ascii_case_bytes(b, c)
            ==> eq_ignore_ascii_case_bytes(a, c),
{
    if eq_ignore_ascii_case_bytes(a, b) && eq_ignore_ascii_case_bytes(b, c) {
        assert forall|i: int| 0 <= i < a.len() implies ascii_lower(#[trigger] a[i]) == ascii_lower(
            c[i],
        ) by {
            assert(ascii_lower(a[i]) == ascii_lower(b[i]));
            assert(ascii_lower(b[i]) == ascii_lower(c[i]));
        }
    }
}

/// The ASCII uppercase of a byte: `a`..`z` become `A`..`Z`, other bytes stay.
pub open spec fn ascii_upper(b: u8) -> u8 {
    if 97 <= b <= 122 {
        (b - 32) as u8
    } else {
        b
    }
}

/// Lowering maps each of the 26 uppercase letters `A` (65) .. `Z` (90) to
/// its lowercase letter, 32 further on, and leaves every other byte alone;
/// no uppercase letter is left after it, and lowering an uppercased byte is
/// lowering the byte.
pub proof fn lemma_ascii_lower_letters(b: u8)
    ensures
        65 <= b <= 90 ==> ascii_lower(b) == b + 32 && 97 <= ascii_lower(b) <= 122,
        !(65 <= b <= 90) ==> ascii_lower(b) == b,
        (ascii_lower(b) != b) <==> (65 <= b <= 90),
        !(65 <= ascii_lower(b) <= 90),
        ascii_lower(ascii_upper(b)) == ascii_lower(b),
        ascii_lower(ascii_lower(b)) == ascii_lower(b),
{
}

/// A string matches its own ASCII uppercase, and its own ASCII lowercase,
/// without regard to case.
pub proof fn lemma_matches_own_case_changes(a: Seq<u8>)
    ensures
        eq_ignore_ascii_case_bytes(a, a.map_values(|b: u8| ascii_upper(b))),
        eq_ignore_ascii_case_bytes(a, a.map_values(|b: u8| ascii_lower(b))),
{
    let up = a.map_values(|b: u8| ascii_upper(b));
    let low = a.map_values(|b: u8| ascii_lower(b));
    assert forall|i: int| 0 <= i < a.len() implies ascii_lower(#[trigger] a[i]) == ascii_lower(
        up[i],
    ) && ascii_lower(a[i]) == ascii_lower(low[i]) by {
        lemma_ascii_lower_letters(a[i]);
    }
}

/// The UTF-16 code units of one character.
pub open spec fn utf16_units(c: char) -> Seq<u16> {
    let u = c as u32;
    if u < 0x10000 {
        seq![u as u16]
    } else {
        let v = (u - 0x10000) as u32;
        seq![(0xD800 + (v >> 10u32)) as u16, (0xDC00 + (v & 0x3FFu32)) as u16]
    }
}

/// The UTF-16 encoding of a string.
pub open spec fn utf16_encode(s: Seq<char>) -> Seq<u16>
    decreases s.len(),
{
    if s.len() == 0 {
        Seq::empty()
    } else {
        utf16_encode(s.drop_last()) + utf16_units(s.last())
    }
}

/// Calls `str::to_lowercase`; what it returns is left to the name
/// `unicode_lowercase`.
#[verifier::external_body]
fn std_to_lowercase(s: &str) -> (r: String)
    ensures
        r@ == unicode_lowercase(s@),
{
    s.to_lowercase()
}

/// Calls `str::trim`, which removes leading and trailing characters with the
/// Unicode `White_Space` property.
#[verifier::external_body]
fn std_trim(s: &str) -> (r: &str)
    ensures
        r@ == trimmed(s@),
{
    s.trim()
}

/// Calls `str::replace`, which replaces the matches of `pat` found from the
/// left without overlap (an empty pattern matching at every character
/// boundary).
#[verifier::external_body]
fn std_replace(s: &str, pat: &str, with: &str) -> (r: String)
    ensures
        r@ == replaced(s@, pat@, with@),
{
    s.replace(pat, with)
}

/// The Unicode lowercase of `s`.
pub fn to_lower(s: &str) -> (r: String)
    ensures
        r@ == unicode_lowercase(s@),
{
    std_to_lowercase(s)
}

/// `s` without leading and trailing whitespace.
pub fn trim_string(s: &str) -> (r: String)
    ensures
        r@ == trimmed(s@),
{
    std_trim(s).to_owned()
}

/// `s` with every match of `replace` replaced by `with`.
pub fn replace_all(s: &str, replace: &str, with: &str) -> (r: String)
    ensures
        r@ == replaced(s@, replace@, with@),
{
    std_replace(s, replace, with)
}

/// The ASCII lowercase of a byte.
fn ascii_lower_byte(b: u8) -> (r: u8)
    ensures
        r == ascii_lower(b),
{
    if 65 <= b && b <= 90 {
        b + 32
    } else {
        b
    }
}

/// Whether `a` and `b` are equal once ASCII letters are lowered: same UTF-8
/// length, and equal bytes after `ascii_lower`.
pub fn equals_ignore_case(a: &str, b: &str) -> (r: bool)
    ensures
        r == eq_ignore_ascii_case_bytes(encode_utf8(a@), encode_utf8(b@)),
{
    let x = a.as_bytes();
    let y = b.as_bytes();
    if x.len() != y.len() {
        return false;
    }
    let mut i: usize = 0;
    while i < x.len()
        invariant
            x@ == encode_utf8(a@),
            y@ == encode_utf8(b@),
            x@.len() == y@.len(),
            i <= x@.len(),
            forall|k: int| 0 <= k < i ==> ascii_lower(#[trigger] x@[k]) == ascii_lower(y@[k]),
        decreases x@.len() - i,
    {
        if ascii_lower_byte(x[i]) != ascii_lower_byte(y[i]) {
            return false;
        }
        i = i + 1;
    }
    true
}

/// The UTF-16 encoding of `s`.
pub fn conv_string_to_wstring(s: &str) -> (r: Vec<u16>)
    ensures
        r@ == utf16_encode(s@),
{
    let mut out: Vec<u16> = Vec::new();
    for c in it: s.chars()
        invariant
            it.seq() == s@,
            out@ == utf16_encode(s@.take(it.index() as int)),
    {
        let ghost i = it.index();
        let u = c as u32;
        proof {
            vstd::utf8::char_is_scalar(c);
        }
        assert(u <= 0x10FFFF);
        if u < 0x10000 {
            out.push(u as u16);
        } else {
            let v = u - 0x10000;
            assert(v >> 10u32 <= 0x3FF) by (bit_vector)
                requires
                    v <= 0xFFFFF,
            ;
            assert(v & 0x3FFu32 <= 0x3FF) by (bit_vector);
            out.push((0xD800 + (v >> 10)) as u16);
            out.push((0xDC00 + (v & 0x3FF)) as u16);
        }
        assert(s@.take(i + 1).drop_last() =~= s@.take(i as int));
        assert(out@ =~= utf16_encode(s@.take(i + 1)));
    }
    assert(s@.take(s@.len() as int) =~= s@);
    out
}

} // verus!
