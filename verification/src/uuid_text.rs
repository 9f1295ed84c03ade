//! UUIDs held as their 128-bit value, and their text forms.

use vstd::prelude::*;

use crate::text::char_from_ascii_code;

verus! {

/// The lowercase hexadecimal digit of `n` in `0..16`.
pub open spec fn hex_digit_of(n: int) -> char {
    if n < 10 {
        (n + 48) as char
    } else {
        (n + 87) as char
    }
}

/// The last `n` hexadecimal digits of `u`, most significant first.
pub open spec fn hex_digits(u: int, n: nat) -> Seq<char>
    decreases n,
{
    if n == 0 {
        Seq::empty()
    } else {
        hex_digits(u / 16, (n - 1) as nat).push(hex_digit_of(u % 16))
    }
}

/// The hyphenated lowercase text of the UUID `u` (its `Display`):
/// 8-4-4-4-12 hexadecimal digits.
pub open spec fn uuid_text(u: u128) -> Seq<char> {
    let h = hex_digits(u as int, 32);
    h.subrange(0, 8) + seq!['-'] + h.subrange(8, 12) + seq!['-'] + h.subrange(12, 16) + seq!['-']
        + h.subrange(16, 20) + seq!['-'] + h.subrange(20, 32)
}

/// The name `uuid::Uuid::parse_str` gives to the text `s`: the UUID's value,
/// or `None` when it is not one of the accepted forms.
pub uninterp spec fn uuid_parse(s: Seq<char>) -> Option<u128>;

/// Trusted: `uuid::Uuid::parse_str`, as a 128-bit value. Its documentation
/// promises that every format the crate writes parses, so the hyphenated
/// text of a value gives that value back.
#[verifier::external_body]
pub(crate) fn parse_uuid(s: &str) -> (r: Option<u128>)
    ensures
        r == uuid_parse(s@),
        forall|u: u128| #[trigger] uuid_text(u) == s@ ==> r == Some(u),
{
    uuid::Uuid::parse_str(s).ok().map(|u| u.as_u128())
}

proof fn lemma_hex_digits_len(u: int, n: nat)
    ensures
        hex_digits(u, n).len() == n,
    decreases n,
{
    if n > 0 {
        lemma_hex_digits_len(u / 16, (n - 1) as nat);
    }
}

/// `hex_digits(u, n)` has `n` digits.
pub proof fn lemma_hex_digits_len_pub(u: int, n: nat)
    ensures
        hex_digits(u, n).len() == n,
{
    lemma_hex_digits_len(u, n);
}

/// The hyphenated lowercase text of `u`.
pub fn uuid_string(u: u128) -> (s: String)
    ensures
        s@ == uuid_text(u),
{
    let mut digits: Vec<char> = Vec::new();
    let mut rest: u128 = u;
    let mut n: usize = 0;
    proof {
        assert(hex_digits(u as int, 32) =~= hex_digits(rest as int, 32) + Seq::new(0, |k: int| digits@[0 - 1 - k]));
    }
    while n < 32
        invariant
            n <= 32,
            digits@.len() == n,
            hex_digits(u as int, 32) == hex_digits(rest as int, (32 - n) as nat) + Seq::new(
                n as nat,
                |k: int| digits@[n - 1 - k],
            ),
        decreases 32 - n,
    {
        let d = (rest % 16) as u32;
        let c = if d < 10 { char_from_ascii_code(d + 48) } else { char_from_ascii_code(d + 87) };
        let ghost old_digits = digits@;
        let ghost m = (32 - n) as nat;
        proof {
            assert(hex_digits(rest as int, m) == hex_digits(rest as int / 16, (m - 1) as nat).push(
                hex_digit_of(rest as int % 16),
            ));
            assert(c == hex_digit_of(rest as int % 16));
        }
        digits.push(c);
        proof {
            let old_rev = Seq::new(n as nat, |k: int| old_digits[n - 1 - k]);
            let new_rev = Seq::new((n + 1) as nat, |k: int| digits@[n - k]);
            assert(new_rev =~= seq![c] + old_rev);
            assert(hex_digits(u as int, 32) =~= hex_digits(rest as int / 16, (m - 1) as nat) + new_rev);
        }
        rest = rest / 16;
        n = n + 1;
    }
    proof {
        lemma_hex_digits_len(u as int, 32);
        assert(hex_digits(rest as int, 0) =~= Seq::<char>::empty());
    }
    let ghost h = hex_digits(u as int, 32);
    let mut out: Vec<char> = Vec::new();
    let mut k: usize = 0;
    while k < 32
        invariant
            k <= 32,
            digits@.len() == 32,
            h.len() == 32,
            h == Seq::new(32, |k: int| digits@[31 - k]),
            out@ == (if k <= 8 {
                h.subrange(0, k as int)
            } else if k <= 12 {
                h.subrange(0, 8) + seq!['-'] + h.subrange(8, k as int)
            } else if k <= 16 {
                h.subrange(0, 8) + seq!['-'] + h.subrange(8, 12) + seq!['-'] + h.subrange(12, k as int)
            } else if k <= 20 {
                h.subrange(0, 8) + seq!['-'] + h.subrange(8, 12) + seq!['-'] + h.subrange(12, 16)
                    + seq!['-'] + h.subrange(16, k as int)
            } else {
                h.subrange(0, 8) + seq!['-'] + h.subrange(8, 12) + seq!['-'] + h.subrange(12, 16)
                    + seq!['-'] + h.subrange(16, 20) + seq!['-'] + h.subrange(20, k as int)
            }),
        decreases 32 - k,
    {
        if k == 8 || k == 12 || k == 16 || k == 20 {
            out.push('-');
        }
        out.push(digits[31 - k]);
        proof {
            assert(h[k as int] == digits@[31 - k as int]);
        }
        k = k + 1;
        proof {
            if k <= 8 {
                assert(out@ =~= h.subrange(0, k as int));
            } else if k <= 12 {
                assert(out@ =~= h.subrange(0, 8) + seq!['-'] + h.subrange(8, k as int));
            } else if k <= 16 {
                assert(out@ =~= h.subrange(0, 8) + seq!['-'] + h.subrange(8, 12) + seq!['-'] + h.subrange(
                    12,
                    k as int,
                ));
            } else if k <= 20 {
                assert(out@ =~= h.subrange(0, 8) + seq!['-'] + h.subrange(8, 12) + seq!['-'] + h.subrange(
                    12,
                    16,
                ) + seq!['-'] + h.subrange(16, k as int));
            } else {
                assert(out@ =~= h.subrange(0, 8) + seq!['-'] + h.subrange(8, 12) + seq!['-'] + h.subrange(
                    12,
                    16,
                ) + seq!['-'] + h.subrange(16, 20) + seq!['-'] + h.subrange(20, k as int));
            }
        }
    }
    crate::text::string_from_chars(out.as_slice())
}

} // verus!
