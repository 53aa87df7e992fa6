//! Labels: 64-bit FNV-1a hashes of schema names.
use vstd::prelude::*;
use vstd::string::StringSliceAdditionalSpecFns;
use vstd::utf8::encode_utf8;
use vstd::std_specs::iter::IteratorSpec;

verus! {

broadcast use vstd::string::group_string_axioms;

pub const FNV_PRIME: u64 = 1099511628211;

pub const FNV_BASIS: u64 = 14695981039346656037;

/// FNV-1a over `bytes`: from the basis, each byte multiplies the hash by the
/// prime (wrapping) and then is xor-ed into it.
pub open spec fn fnv64(bytes: Seq<u8>) -> u64
    decreases bytes.len(),
{
    if bytes.len() == 0 {
        FNV_BASIS
    } else {
        fnv64(bytes.drop_last()).wrapping_mul(FNV_PRIME) ^ (bytes.last() as u64)
    }
}

/// Hashes the UTF-8 bytes of `s`.
pub fn fnv64_hash(s: &str) -> (r: u64)
    ensures
        r == fnv64(encode_utf8(s@)),
{
    let bytes = s.as_bytes();
    let mut res: u64 = FNV_BASIS;
    let mut i: usize = 0;
    while i < bytes.len()
        invariant
            i <= bytes@.len(),
            bytes@ == s.spec_bytes(),
            res == fnv64(bytes@.subrange(0, i as int)),
        decreases bytes@.len() - i,
    {
        assert(bytes@.subrange(0, i + 1).drop_last() =~= bytes@.subrange(0, i as int));
        res = res.wrapping_mul(FNV_PRIME) ^ (bytes[i] as u64);
        i += 1;
    }
    assert(bytes@.subrange(0, bytes@.len() as int) =~= bytes@);
    res
}

/// The name that labels field `field` of struct `name`: `name.field`.
pub fn field_label_name(name: &str, field: &str) -> (r: String)
    ensures
        r@ == name@ + seq!['.'] + field@,
{
    let r = name.to_owned().concat(".").concat(field);
    proof {
        reveal_strlit(".");
    }
    r
}

/// The label of struct `name`.
pub fn struct_label(name: &str) -> (r: u64)
    ensures
        r == fnv64(encode_utf8(name@)),
{
    fnv64_hash(name)
}

/// The label of field `field` of struct `name`: the hash of `name.field`.
pub fn field_label(name: &str, field: &str) -> (r: u64)
    ensures
        r == fnv64(encode_utf8(name@ + seq!['.'] + field@)),
{
    let s = field_label_name(name, field);
    fnv64_hash(s.as_str())
}

pub open spec fn is_upper(c: char) -> bool {
    'A' <= c && c <= 'Z'
}

pub open spec fn lower(c: char) -> char {
    ((c as u32) + 32) as char
}

/// The snake-case form of `s`, where the character before it was upper case
/// or not: each upper-case ASCII letter is lowered, and preceded by `_` where
/// it follows another one.
pub open spec fn snake_from(s: Seq<char>, upper_before: bool) -> Seq<char>
    decreases s.len(),
{
    if s.len() == 0 {
        Seq::empty()
    } else if is_upper(s[0]) {
        (if upper_before {
            seq!['_', lower(s[0])]
        } else {
            seq![lower(s[0])]
        }) + snake_from(s.drop_first(), true)
    } else {
        seq![s[0]] + snake_from(s.drop_first(), false)
    }
}

/// Relies on `FromIterator<char>` for `String`: the string of the given
/// characters, in order.
#[verifier::external_body]
fn string_of(v: Vec<char>) -> (r: String)
    ensures
        r@ == v@,
{
    String::from_iter(v)
}

/// Converts camel case to snake case.
pub fn camel_to_snake(s: &str) -> (r: String)
    ensures
        r@ == snake_from(s@, false),
{
    let mut res: Vec<char> = Vec::new();
    let mut last_char_was_upper = false;
    let mut it = s.chars();
    let ghost mut k: int = 0;
    assert(s@.subrange(0, s@.len() as int) =~= s@);
    assert(res@ + snake_from(s@, false) =~= snake_from(s@, false));
    loop
        invariant
            0 <= k <= s@.len(),
            it.obeys_prophetic_iter_laws(),
            it.remaining() == s@.subrange(k, s@.len() as int),
            res@ + snake_from(s@.subrange(k, s@.len() as int), last_char_was_upper) == snake_from(s@, false),
        decreases s@.len() - k,
    {
        let ghost rest = s@.subrange(k, s@.len() as int);
        match it.next() {
            Some(c) => {
                assert(rest[0] == c);
                assert(rest.drop_first() =~= s@.subrange(k + 1, s@.len() as int));
                if 'A' <= c && c <= 'Z' {
                    if last_char_was_upper {
                        res.push('_');
                    }
                    last_char_was_upper = true;
                    res.push(((c as u8) + 32) as char);
                } else {
                    last_char_was_upper = false;
                    res.push(c);
                }
                proof {
                    k = k + 1;
                }
                assert(res@ + snake_from(s@.subrange(k, s@.len() as int), last_char_was_upper) =~= snake_from(s@, false));
            },
            None => {
                assert(rest.len() == 0);
                assert(res@ =~= snake_from(s@, false));
                return string_of(res);
            },
        }
    }
}

} // verus!
