//! The base-36 code encoder.
//!
//! A short code is the positional base-36 numeral of a mapping identifier,
//! written with the digits `0-9a-z` in shortest form: no code but `"0"`
//! begins with `0`. `encode` and `decode` are pure and total, and decoding
//! an encoded identifier gives the identifier back.

use vstd::prelude::*;

use crate::errors::DecodeError;

verus! {

/// The byte that writes digit value `d`: `0-9` for values below ten,
/// `a-z` for the rest.
pub open spec fn digit_byte(d: nat) -> u8 {
    if d < 10 {
        (d + 48) as u8
    } else {
        (d + 87) as u8
    }
}

/// The character that writes digit value `d`.
pub open spec fn digit_char(d: nat) -> char {
    digit_byte(d) as char
}

/// Whether `c` is a base-36 digit character.
pub open spec fn is_code_char(c: char) -> bool {
    ('0' <= c && c <= '9') || ('a' <= c && c <= 'z')
}

/// The digit value a base-36 digit character stands for.
pub open spec fn char_val(c: char) -> nat {
    if '0' <= c && c <= '9' {
        (c as int - 48) as nat
    } else {
        (c as int - 87) as nat
    }
}

/// Whether every character of `s` is a base-36 digit.
pub open spec fn all_code_chars(s: Seq<char>) -> bool {
    forall|i: int| 0 <= i < s.len() ==> is_code_char(#[trigger] s[i])
}

/// The numeric value of a digit string, most significant digit first.
pub open spec fn code_value(s: Seq<char>) -> nat
    decreases s.len(),
{
    if s.len() == 0 {
        0
    } else {
        code_value(s.drop_last()) * 36 + char_val(s.last())
    }
}

/// A string `decode` accepts: non-empty, base-36 digits only, and a value
/// that fits in 64 bits.
pub open spec fn valid_code(s: Seq<char>) -> bool {
    &&& s.len() > 0
    &&& all_code_chars(s)
    &&& code_value(s) <= u64::MAX
}

/// The code of identifier `n`: its base-36 numeral in shortest form.
pub open spec fn encode_spec(n: nat) -> Seq<char>
    decreases n,
{
    if n < 36 {
        seq![digit_char(n)]
    } else {
        encode_spec(n / 36).push(digit_char(n % 36))
    }
}

/// A digit character written for a value below 36 reads back as that value.
proof fn lemma_digit_char_val(d: nat)
    requires
        d < 36,
    ensures
        is_code_char(digit_char(d)),
        char_val(digit_char(d)) == d,
{
}

/// Extending a digit string can only grow its value.
proof fn lemma_code_value_prefix_le(s: Seq<char>, i: int, j: int)
    requires
        0 <= i <= j <= s.len(),
    ensures
        code_value(s.subrange(0, i)) <= code_value(s.subrange(0, j)),
    decreases j - i,
{
    if i < j {
        lemma_code_value_prefix_le(s, i, j - 1);
        assert(s.subrange(0, j).drop_last() =~= s.subrange(0, j - 1));
        assert(code_value(s.subrange(0, j - 1)) * 36 >= code_value(s.subrange(0, j - 1)));
    }
}

/// The numeral of `n` is a non-empty digit string whose value is `n`.
proof fn lemma_code_value_encode(n: nat)
    ensures
        encode_spec(n).len() >= 1,
        all_code_chars(encode_spec(n)),
        code_value(encode_spec(n)) == n,
    decreases n,
{
    if n < 36 {
        lemma_digit_char_val(n);
        let w = seq![digit_char(n)];
        assert(w.drop_last() =~= Seq::<char>::empty());
        assert(code_value(w.drop_last()) == 0);
        assert(w.last() == digit_char(n));
        assert(code_value(w) == 0 * 36 + char_val(digit_char(n)));
    } else {
        lemma_code_value_encode(n / 36);
        lemma_digit_char_val(n % 36);
        let s = encode_spec(n / 36);
        let w = s.push(digit_char((n % 36) as nat));
        assert(w.drop_last() =~= s);
        assert(code_value(w) == code_value(s) * 36 + char_val(digit_char(n % 36)));
        assert(n / 36 * 36 + n % 36 == n);
        assert forall|i: int| 0 <= i < w.len() implies is_code_char(#[trigger] w[i]) by {
            if i < s.len() {
                assert(is_code_char(s[i]));
            }
        }
    }
}

/// Round trip: the code of any 64-bit identifier is a valid code, and its
/// value is the identifier, so `decode(encode(x))` returns `Ok(x)`.
pub proof fn lemma_decode_encode(x: u64)
    ensures
        valid_code(encode_spec(x as nat)),
        code_value(encode_spec(x as nat)) == x as nat,
{
    lemma_code_value_encode(x as nat);
}

/// The characters written for a run of digit values, least significant value
/// first, read in the order the numeral shows them.
spec fn rev_val_chars(ds: Seq<u8>) -> Seq<char>
    decreases ds.len(),
{
    if ds.len() == 0 {
        Seq::empty()
    } else {
        seq![digit_char(ds.last() as nat)] + rev_val_chars(ds.drop_last())
    }
}

/// Peeling the first (least significant) digit value off the run moves its
/// character to the end of the numeral.
proof fn lemma_rev_val_chars_first(ds: Seq<u8>)
    requires
        ds.len() > 0,
    ensures
        rev_val_chars(ds) =~= rev_val_chars(ds.drop_first()) + seq![
            digit_char(ds.first() as nat),
        ],
    decreases ds.len(),
{
    if ds.len() == 1 {
        assert(ds.drop_last() =~= Seq::<u8>::empty());
        assert(ds.drop_first() =~= Seq::<u8>::empty());
    } else {
        lemma_rev_val_chars_first(ds.drop_last());
        assert(ds.drop_last().drop_first() =~= ds.drop_first().drop_last());
        assert(ds.drop_first().last() == ds.last());
        assert(ds.drop_last().first() == ds.first());
    }
}

/// Relies on String::from_utf8: bytes below 128 are single-byte UTF-8 code
/// points, so the string reads back exactly those bytes as its characters.
#[verifier::external_body]
fn ascii_bytes_to_string(bytes: Vec<u8>) -> (r: String)
    requires
        forall|i: int| 0 <= i < bytes@.len() ==> bytes@[i] < 128,
    ensures
        r@ == bytes@.map_values(|b: u8| b as char),
{
    match String::from_utf8(bytes) {
        Ok(s) => s,
        Err(_) => String::new(),
    }
}

/// Encodes identifier `id` as its base-36 short code.
pub fn encode(id: u64) -> (r: String)
    ensures
        r@ == encode_spec(id as nat),
{
    // Digit values of `id`, least significant first.
    let mut rem: Vec<u8> = Vec::new();
    let mut n: u64 = id;
    while n >= 36
        invariant
            encode_spec(id as nat) =~= encode_spec(n as nat) + rev_val_chars(rem@),
            forall|i: int| 0 <= i < rem@.len() ==> rem@[i] < 36,
        decreases n,
    {
        let ghost n0 = n as nat;
        let ghost rem0 = rem@;
        rem.push((n % 36) as u8);
        n = n / 36;
        proof {
            assert(rem@.drop_last() =~= rem0);
            assert(rem@.last() == (n0 % 36) as u8);
            assert(rev_val_chars(rem@) =~= seq![digit_char(n0 % 36)] + rev_val_chars(rem0));
            assert(encode_spec(n0) =~= encode_spec(n0 / 36).push(digit_char(n0 % 36)));
            assert(encode_spec(id as nat) =~= encode_spec(n as nat) + rev_val_chars(rem@));
        }
    }
    let ghost rem0 = rem@;
    rem.push(n as u8);
    proof {
        assert(rem@.drop_last() =~= rem0);
        assert(encode_spec(n as nat) =~= seq![digit_char(n as nat)]);
        assert(encode_spec(id as nat) =~= rev_val_chars(rem@));
    }
    // Digit bytes, most significant first.
    let mut out: Vec<u8> = Vec::new();
    let mut i: usize = rem.len();
    while i > 0
        invariant
            i <= rem@.len(),
            forall|j: int| 0 <= j < rem@.len() ==> rem@[j] < 36,
            forall|j: int| 0 <= j < out@.len() ==> out@[j] < 128,
            out@.map_values(|b: u8| b as char) =~= rev_val_chars(
                rem@.subrange(i as int, rem@.len() as int),
            ),
        decreases i,
    {
        i = i - 1;
        let d = rem[i];
        let b: u8 = if d < 10 {
            d + 48
        } else {
            d + 87
        };
        let ghost out0 = out@;
        out.push(b);
        proof {
            let tail = rem@.subrange(i + 1, rem@.len() as int);
            let whole = rem@.subrange(i as int, rem@.len() as int);
            assert(whole.first() == rem@[i as int]);
            assert(whole.drop_first() =~= tail);
            lemma_rev_val_chars_first(whole);
            assert(b == digit_byte(rem@[i as int] as nat));
            assert(out@.map_values(|x: u8| x as char) =~= out0.map_values(|x: u8| x as char)
                + seq![b as char]);
        }
    }
    proof {
        assert(rem@.subrange(0, rem@.len() as int) =~= rem@);
    }
    ascii_bytes_to_string(out)
}

/// Decodes a short code back to its identifier. Fails with `InvalidCode`
/// exactly when the string is empty, holds a character outside `0-9a-z`, or
/// names a value above `u64::MAX`.
pub fn decode(code: &str) -> (r: Result<u64, DecodeError>)
    ensures
        match r {
            Ok(v) => valid_code(code@) && v as nat == code_value(code@),
            Err(e) => e == DecodeError::InvalidCode && !valid_code(code@),
        },
{
    let len = code.unicode_len();
    if len == 0 {
        return Err(DecodeError::InvalidCode);
    }
    let mut val: u64 = 0;
    let mut i: usize = 0;
    while i < len
        invariant
            i <= len,
            len == code@.len(),
            all_code_chars(code@.subrange(0, i as int)),
            val as nat == code_value(code@.subrange(0, i as int)),
        decreases len - i,
    {
        let c = code.get_char(i);
        let u = c as u32;
        let d: u32 = if 48 <= u && u <= 57 {
            u - 48
        } else if 97 <= u && u <= 122 {
            u - 87
        } else {
            proof {
                assert(!is_code_char(code@[i as int]));
            }
            return Err(DecodeError::InvalidCode);
        };
        let ghost prefix = code@.subrange(0, i as int);
        let ghost prefix1 = code@.subrange(0, i + 1);
        proof {
            assert(prefix1.drop_last() =~= prefix);
            assert(prefix1.last() == code@[i as int]);
            assert(is_code_char(code@[i as int]));
            assert(char_val(code@[i as int]) == d as nat);
        }
        let bound = (u64::MAX - d as u64) / 36;
        if val > bound {
            proof {
                let rest = (u64::MAX - d) as int;
                assert(val as int * 36 + d > u64::MAX) by {
                    if val as int * 36 + d <= u64::MAX {
                        vstd::arithmetic::div_mod::lemma_div_multiples_vanish(val as int, 36);
                        vstd::arithmetic::div_mod::lemma_div_is_ordered(
                            36 * (val as int),
                            rest,
                            36,
                        );
                        assert(false);
                    }
                }
                lemma_code_value_prefix_le(code@, i + 1, len as int);
                assert(code@.subrange(0, len as int) =~= code@);
            }
            return Err(DecodeError::InvalidCode);
        }
        proof {
            let rest = (u64::MAX - d) as int;
            vstd::arithmetic::div_mod::lemma_fundamental_div_mod(rest, 36);
            vstd::arithmetic::div_mod::lemma_mod_pos_bound(rest, 36);
            assert(val as int * 36 + d <= u64::MAX);
        }
        val = val * 36 + d as u64;
        i = i + 1;
    }
    proof {
        assert(code@.subrange(0, len as int) =~= code@);
    }
    Ok(val)
}

/// Distinct identifiers get distinct codes.
pub proof fn lemma_encode_injective(x: u64, y: u64)
    requires
        encode_spec(x as nat) == encode_spec(y as nat),
    ensures
        x == y,
{
    lemma_code_value_encode(x as nat);
    lemma_code_value_encode(y as nat);
}

} // verus!
