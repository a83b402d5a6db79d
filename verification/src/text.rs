use vstd::prelude::*;
use vstd::utf8::*;

verus! {

/// `String::from_utf8`: a string exactly when the bytes are valid UTF-8, holding the
/// characters they encode.
#[verifier::external_body]
pub(crate) fn string_from_utf8(bytes: Vec<u8>) -> (r: Option<String>)
    ensures
        r is Some <==> valid_utf8(bytes@),
        r matches Some(s) ==> s@ == decode_utf8(bytes@),
{
    match String::from_utf8(bytes) {
        Ok(text) => Some(text),
        Err(_) => None,
    }
}


broadcast use {encode_utf8_decode_utf8, encode_utf8_valid_utf8};

/// Bytes of a text as UTF-8.
pub open spec fn utf8(text: Seq<char>) -> Seq<u8> {
    encode_utf8(text)
}

/// `needle` occurs in `haystack` as a run of consecutive bytes.
pub open spec fn contains_bytes(haystack: Seq<u8>, needle: Seq<u8>) -> bool {
    exists|i: int|
        0 <= i && i + needle.len() <= haystack.len() && #[trigger] haystack.subrange(
            i,
            i + needle.len(),
        ) == needle
}

pub open spec fn ascii_lower(byte: u8) -> u8 {
    if 65 <= byte <= 90 {
        (byte + 32) as u8
    } else {
        byte
    }
}

/// The bytes with ASCII capitals lowered.
pub open spec fn lower_bytes(bytes: Seq<u8>) -> Seq<u8> {
    bytes.map_values(|b: u8| ascii_lower(b))
}

pub fn bytes_equal(a: &[u8], b: &[u8]) -> (r: bool)
    ensures
        r == (a@ == b@),
{
    if a.len() != b.len() {
        return false;
    }
    let mut i: usize = 0;
    while i < a.len()
        invariant
            a@.len() == b@.len(),
            0 <= i <= a@.len(),
            forall|j: int| 0 <= j < i ==> a@[j] == b@[j],
        decreases a.len() - i,
    {
        if a[i] != b[i] {
            return false;
        }
        i += 1;
    }
    assert(a@ =~= b@);
    true
}

/// The two texts are the same.
pub fn str_eq(a: &str, b: &str) -> (r: bool)
    ensures
        r == (a@ == b@),
{
    let r = bytes_equal(a.as_bytes(), b.as_bytes());
    proof {
        if r {
            assert(decode_utf8(encode_utf8(a@)) == a@);
            assert(decode_utf8(encode_utf8(b@)) == b@);
        }
    }
    r
}

/// The bytes of `text` begin with those of `prefix`.
pub fn starts_with(text: &str, prefix: &str) -> (r: bool)
    ensures
        r == utf8(prefix@).is_prefix_of(utf8(text@)),
{
    let t = text.as_bytes();
    let p = prefix.as_bytes();
    if p.len() > t.len() {
        return false;
    }
    let mut i: usize = 0;
    while i < p.len()
        invariant
            p@.len() <= t@.len(),
            t@ == utf8(text@),
            p@ == utf8(prefix@),
            0 <= i <= p@.len(),
            forall|j: int| 0 <= j < i ==> p@[j] == t@[j],
        decreases p.len() - i,
    {
        if p[i] != t[i] {
            return false;
        }
        i += 1;
    }
    true
}

/// The bytes of `needle` occur in those of `text`.
pub fn contains_str(text: &str, needle: &str) -> (r: bool)
    ensures
        r == contains_bytes(utf8(text@), utf8(needle@)),
{
    let t = text.as_bytes();
    let n = needle.as_bytes();
    if n.len() > t.len() {
        return false;
    }
    let tl = t.len();
    let limit = tl - n.len();
    let mut start: usize = 0;
    loop
        invariant
            n@.len() <= t@.len(),
            t@ == utf8(text@),
            n@ == utf8(needle@),
            limit == t@.len() - n@.len(),
            tl == t@.len(),
            start <= limit,
            forall|i: int| 0 <= i < start ==> #[trigger] t@.subrange(i, i + n@.len()) != n@,
        decreases limit - start,
    {
        let mut j: usize = 0;
        let mut same = true;
        while j < n.len()
            invariant
                start <= limit,
                limit == t@.len() - n@.len(),
                0 <= j <= n@.len(),
                same == (forall|k: int| 0 <= k < j ==> t@[start + k] == n@[k]),
                n@.len() <= t@.len(),
                start + n@.len() <= t@.len(),
                tl == t@.len(),
            decreases n.len() - j,
        {
            if t[start + j] != n[j] {
                same = false;
            }
            j += 1;
        }
        if same {
            assert(t@.subrange(start as int, start + n@.len()) =~= n@);
            return true;
        }
        assert(t@.subrange(start as int, start + n@.len()) != n@) by {
            let k = choose|k: int| 0 <= k < n@.len() && t@[start + k] != n@[k];
            assert(t@.subrange(start as int, start + n@.len())[k] == t@[start + k]);
        }
        if start == limit {
            assert forall|i: int|
                0 <= i && i + n@.len() <= t@.len() implies #[trigger] t@.subrange(i, i + n@.len())
                != n@ by {
                if i < start {
                } else {
                    assert(i == start);
                }
            }
            return false;
        }
        start += 1;
    }
}

/// The bytes of `text`, with ASCII capitals lowered, are those of `lower`.
pub fn eq_ascii_lowercase(text: &str, lower: &str) -> (r: bool)
    ensures
        r == (lower_bytes(utf8(text@)) == utf8(lower@)),
{
    let t = text.as_bytes();
    let l = lower.as_bytes();
    let ghost mapped = lower_bytes(t@);
    if t.len() != l.len() {
        return false;
    }
    let mut i: usize = 0;
    while i < t.len()
        invariant
            t@.len() == l@.len(),
            t@ == utf8(text@),
            l@ == utf8(lower@),
            mapped == lower_bytes(t@),
            0 <= i <= t@.len(),
            forall|j: int| 0 <= j < i ==> mapped[j] == l@[j],
        decreases t.len() - i,
    {
        let b = t[i];
        let lowered = if 65 <= b && b <= 90 {
            b + 32
        } else {
            b
        };
        if lowered != l[i] {
            assert(mapped[i as int] == lowered);
            assert(mapped != l@);
            assert(t@ == utf8(text@));
            assert(l@ == utf8(lower@));
            return false;
        }
        i += 1;
    }
    assert(mapped =~= l@);
    true
}

/// The decimal digits of a number, in ASCII.
pub open spec fn decimal(n: nat) -> Seq<u8>
    decreases n,
{
    if n < 10 {
        seq![(48 + n) as u8]
    } else {
        decimal(n / 10).push((48 + n % 10) as u8)
    }
}

/// The decimal digits of a number, as text.
pub open spec fn decimal_text(n: nat) -> Seq<char>
    decreases n,
{
    if n < 10 {
        seq![((48 + n) as u8) as char]
    } else {
        decimal_text(n / 10).push(((48 + n % 10) as u8) as char)
    }
}

pub fn push_decimal(out: &mut Vec<u8>, n: u64)
    ensures
        final(out)@ == old(out)@ + decimal(n as nat),
    decreases n,
{
    if n >= 10 {
        push_decimal(out, n / 10);
    }
    out.push((48 + n % 10) as u8);
    proof {
        if n >= 10 {
            assert(final(out)@ =~= old(out)@ + decimal(n as nat));
        } else {
            assert(final(out)@ =~= old(out)@ + decimal(n as nat));
        }
    }
}

pub fn push_decimal_text(out: &mut String, n: u64)
    ensures
        final(out)@ == old(out)@ + decimal_text(n as nat),
    decreases n,
{
    if n >= 10 {
        push_decimal_text(out, n / 10);
    }
    let digit = (48 + n % 10) as u8;
    out.push(digit as char);
    proof {
        assert(final(out)@ =~= old(out)@ + decimal_text(n as nat));
    }
}

} // verus!
