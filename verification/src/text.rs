//! Text helpers: decimal numerals for identifiers, string comparison and
//! namespaced byte keys.

use vstd::prelude::*;
use vstd::utf8::{
    decode_utf8, encode_utf8, encode_utf8_decode_utf8, encode_utf8_valid_utf8, is_ascii_chars,
    is_ascii_chars_encode_utf8,
};

verus! {

broadcast use vstd::slice::group_slice_axioms;

/// The character of one decimal digit.
pub open spec fn decimal_digit(d: int) -> char
    recommends
        0 <= d < 10,
{
    ((48 + d) as u8) as char
}

/// The decimal numeral of `n`, most significant digit first, without sign
/// or leading zeros; the numeral of zero is a single zero digit.
pub open spec fn decimal_chars(n: nat) -> Seq<char>
    decreases n,
{
    if n < 10 {
        seq![decimal_digit(n as int)]
    } else {
        decimal_chars(n / 10) + seq![decimal_digit((n % 10) as int)]
    }
}

/// The characters spelled by bytes below 128, one character per byte.
pub open spec fn ascii_chars_of(bytes: Seq<u8>) -> Seq<char> {
    Seq::new(bytes.len(), |i: int| bytes[i] as char)
}

/// Builds the string whose characters the given bytes spell, one character
/// per byte.
pub fn ascii_bytes_to_string(bytes: Vec<u8>) -> (r: String)
    requires
        forall|i: int| 0 <= i < bytes@.len() ==> bytes@[i] < 128,
    ensures
        r@ == ascii_chars_of(bytes@),
{
    proof {
        let chars = ascii_chars_of(bytes@);
        assert(is_ascii_chars(chars));
        is_ascii_chars_encode_utf8(chars);
        assert(encode_utf8(chars) =~= bytes@);
        encode_utf8_valid_utf8(chars);
        encode_utf8_decode_utf8(chars);
    }
    match crate::codec::string_from_utf8(bytes) {
        Some(s) => s,
        None => {
            proof {
                assert(false);
            }
            String::new()
        },
    }
}

/// Renders `n` as its decimal numeral.
pub fn u64_to_decimal(n: u64) -> (r: String)
    ensures
        r@ == decimal_chars(n as nat),
{
    let mut digits: Vec<u8> = Vec::new();
    let mut m: u64 = n;
    while m >= 10
        invariant
            decimal_chars(n as nat) == decimal_chars(m as nat) + ascii_chars_of(digits@),
            forall|i: int| 0 <= i < digits@.len() ==> digits@[i] < 128,
        decreases m,
    {
        let ghost digits0 = digits@;
        let ghost m0 = m;
        let d: u8 = (m % 10) as u8 + 48;
        digits.insert(0, d);
        m = m / 10;
        proof {
            assert(ascii_chars_of(digits@) =~= seq![decimal_digit((m0 % 10) as int)]
                + ascii_chars_of(digits0));
            assert(decimal_chars(m0 as nat) == decimal_chars(m as nat) + seq![
                decimal_digit((m0 % 10) as int),
            ]);
            assert(decimal_chars(m as nat) + ascii_chars_of(digits@) =~= decimal_chars(
                m0 as nat,
            ) + ascii_chars_of(digits0));
        }
    }
    let ghost digits1 = digits@;
    let d: u8 = m as u8 + 48;
    digits.insert(0, d);
    proof {
        assert(ascii_chars_of(digits@) =~= seq![decimal_digit(m as int)] + ascii_chars_of(
            digits1,
        ));
        assert(decimal_chars(m as nat) =~= seq![decimal_digit(m as int)]);
        assert(ascii_chars_of(digits@) =~= decimal_chars(n as nat));
    }
    ascii_bytes_to_string(digits)
}

/// Compares two strings by their characters.
pub fn str_eq(a: &str, b: &str) -> (r: bool)
    ensures
        r == (a@ == b@),
{
    proof {
        broadcast use encode_utf8_decode_utf8;

    }
    let ab = a.as_bytes();
    let bb = b.as_bytes();
    if ab.len() != bb.len() {
        return false;
    }
    let n = ab.len();
    let mut k: usize = 0;
    while k < n
        invariant
            n == ab@.len() == bb@.len(),
            ab@ == encode_utf8(a@),
            bb@ == encode_utf8(b@),
            forall|i: int| 0 <= i < k ==> ab@[i] == bb@[i],
        decreases n - k,
    {
        if ab[k] != bb[k] {
            return false;
        }
        k += 1;
    }
    proof {
        assert(ab@ =~= bb@);
        assert(decode_utf8(encode_utf8(a@)) == decode_utf8(encode_utf8(b@)));
    }
    true
}

/// The set of the character sequences of a vector of strings.
pub open spec fn string_set(v: Seq<String>) -> Set<Seq<char>> {
    Set::new(|s: Seq<char>| exists|i: int| 0 <= i < v.len() && v[i]@ == s)
}

pub(crate) proof fn lemma_string_set_push(v: Seq<String>, x: String)
    ensures
        string_set(v.push(x)) =~= string_set(v).insert(x@),
{
    let w = v.push(x);
    assert forall|s: Seq<char>| string_set(w).contains(s) implies string_set(v).insert(
        x@,
    ).contains(s) by {
        let i = choose|i: int| 0 <= i < w.len() && w[i]@ == s;
        if i < v.len() {
            assert(v[i]@ == s);
        }
    }
    assert forall|s: Seq<char>| string_set(v).insert(x@).contains(s) implies string_set(
        w,
    ).contains(s) by {
        if s == x@ {
            assert(w[v.len() as int]@ == s);
        } else {
            let i = choose|i: int| 0 <= i < v.len() && v[i]@ == s;
            assert(w[i]@ == s);
        }
    }
}

/// A byte key made of a textual namespace followed by a textual name: the
/// UTF-8 bytes of the one, then of the other.
pub open spec fn namespaced_key(namespace: Seq<char>, name: Seq<char>) -> Seq<u8> {
    encode_utf8(namespace) + encode_utf8(name)
}

/// Builds the byte key of a namespaced name.
pub fn make_key(namespace: &str, name: &str) -> (r: Vec<u8>)
    ensures
        r@ == namespaced_key(namespace@, name@),
{
    let mut out: Vec<u8> = Vec::new();
    out.extend_from_slice(namespace.as_bytes());
    out.extend_from_slice(name.as_bytes());
    proof {
        assert(out@ =~= namespaced_key(namespace@, name@));
    }
    out
}

} // verus!
