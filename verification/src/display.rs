use vstd::prelude::*;

verus! {

/// The ASCII byte of a single decimal digit.
pub open spec fn spec_digit(d: int) -> u8
    recommends
        0 <= d <= 9,
{
    (0x30 + d) as u8
}

/// The ASCII decimal representation of a number, most significant digit first.
pub open spec fn spec_u64_decimal(n: int) -> Seq<u8>
    recommends
        n >= 0,
    decreases n,
{
    if n < 10 {
        seq![spec_digit(n)]
    } else {
        spec_u64_decimal(n / 10).push(spec_digit(n % 10))
    }
}

/// Every byte of a decimal representation is an ASCII digit.
pub proof fn lemma_decimal_is_ascii(n: int)
    requires
        n >= 0,
    ensures
        forall|i: int|
            0 <= i < spec_u64_decimal(n).len() ==> 0x30 <= #[trigger] spec_u64_decimal(n)[i]
                <= 0x39,
    decreases n,
{
    if n >= 10 {
        lemma_decimal_is_ascii(n / 10);
        let dec = spec_u64_decimal(n);
        let pre = spec_u64_decimal(n / 10);
        assert forall|i: int| 0 <= i < dec.len() implies 0x30 <= #[trigger] dec[i] <= 0x39 by {
            if i < pre.len() {
                assert(dec[i] == pre[i]);
            } else {
                assert(dec[i] == spec_digit(n % 10));
            }
        }
    }
}

/// A byte sequence of ASCII bytes is valid UTF-8 and decodes to the
/// characters with the same codes.
pub proof fn lemma_ascii_decode(bytes: Seq<u8>)
    requires
        forall|i: int| 0 <= i < bytes.len() ==> bytes[i] < 0x80,
    ensures
        vstd::utf8::valid_utf8(bytes),
        vstd::utf8::decode_utf8(bytes) =~= Seq::new(bytes.len(), |i: int| bytes[i] as char),
    decreases bytes.len(),
{
    if bytes.len() > 0 {
        let b = bytes[0];
        assert(b & 0x7f == b) by (bit_vector)
            requires
                b < 0x80,
        ;
        assert(vstd::utf8::pop_first_scalar(bytes) =~= bytes.drop_first());
        lemma_ascii_decode(bytes.drop_first());
        assert(vstd::utf8::decode_first_scalar(bytes) == b as u32);
        vstd::utf8::char_u32_cast(b as char, b as u32);
    }
}

/// Writes the decimal digits of `n` after the bytes already in `out`.
pub fn push_u64_decimal(out: &mut Vec<u8>, n: u64)
    ensures
        final(out)@ == old(out)@ + spec_u64_decimal(n as int),
{
    let mut digits: Vec<u8> = Vec::new();
    let mut m: u64 = n;
    proof {
        assert(spec_u64_decimal(n as int) =~= spec_u64_decimal(m as int) + digits@.reverse());
    }
    while m >= 10
        invariant
            spec_u64_decimal(n as int) == spec_u64_decimal(m as int) + digits@.reverse(),
        decreases m,
    {
        let d: u8 = (m % 10) as u8;
        let next: u64 = m / 10;
        proof {
            assert(spec_u64_decimal(m as int) == spec_u64_decimal(next as int).push(
                spec_digit(m as int % 10),
            ));
            assert(spec_u64_decimal(next as int) + digits@.push((0x30 + d) as u8).reverse()
                =~= spec_u64_decimal(next as int) + (seq![(0x30 + d) as u8] + digits@.reverse()));
            assert(spec_u64_decimal(next as int) + (seq![(0x30 + d) as u8] + digits@.reverse())
                =~= (spec_u64_decimal(next as int).push((0x30 + d) as u8)) + digits@.reverse());
        }
        digits.push(0x30 + d);
        m = next;
    }
    let d: u8 = (m % 10) as u8;
    proof {
        assert(spec_u64_decimal(m as int) =~= seq![(0x30 + d) as u8]);
        assert(digits@.push((0x30 + d) as u8).reverse() =~= seq![(0x30 + d) as u8] + digits@.reverse());
    }
    digits.push(0x30 + d);
    let mut i: usize = digits.len();
    proof {
        assert(spec_u64_decimal(n as int).take(0) =~= Seq::<u8>::empty());
        assert(out@ + Seq::<u8>::empty() =~= out@);
    }
    while i > 0
        invariant
            i <= digits@.len(),
            out@ == old(out)@ + spec_u64_decimal(n as int).take(
                spec_u64_decimal(n as int).len() - i,
            ),
            spec_u64_decimal(n as int) == digits@.reverse(),
        decreases i,
    {
        i = i - 1;
        let b = digits[i];
        out.push(b);
        proof {
            let dec = spec_u64_decimal(n as int);
            assert(dec.take(dec.len() - i) =~= dec.take(dec.len() - (i + 1)).push(
                dec[dec.len() - i - 1],
            ));
            assert(dec[dec.len() - i - 1] == digits@[i as int]);
        }
    }
    proof {
        assert(spec_u64_decimal(n as int).take(spec_u64_decimal(n as int).len() as int)
            =~= spec_u64_decimal(n as int));
    }
}

} // verus!

verus! {

/// The decimal representation of a number as characters.
pub open spec fn spec_decimal_chars(n: int) -> Seq<char> {
    spec_u64_decimal(n).map_values(|b: u8| b as char)
}

/// Builds a string from bytes that are all ASCII.
pub fn ascii_to_string(v: Vec<u8>) -> (r: String)
    requires
        forall|i: int| 0 <= i < v@.len() ==> v@[i] < 0x80,
    ensures
        r@ == v@.map_values(|b: u8| b as char),
{
    proof {
        lemma_ascii_decode(v@);
        assert(vstd::utf8::decode_utf8(v@) =~= v@.map_values(|b: u8| b as char));
    }
    let ghost bytes = v@;
    match crate::field::string_from_utf8(v) {
        Some(s) => s,
        Option::None => {
            proof {
                assert(false);
            }
            String::new()
        },
    }
}

} // verus!
