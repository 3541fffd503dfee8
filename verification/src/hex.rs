//! Lower-case hexadecimal encoding of byte strings.

use vstd::prelude::*;

verus! {

/// The lower-case hexadecimal digit for a value below 16.
pub open spec fn hex_digit(n: u8) -> char {
    if n < 10 {
        (n + 48) as char
    } else {
        (n + 87) as char
    }
}

/// Lower-case hexadecimal text of `bytes`: two digits per byte, high nibble first.
pub open spec fn hex_lower(bytes: Seq<u8>) -> Seq<char> {
    Seq::new(
        2 * bytes.len(),
        |i: int|
            if i % 2 == 0 {
                hex_digit(bytes[i / 2] / 16)
            } else {
                hex_digit(bytes[i / 2] % 16)
            },
    )
}

fn digit_char(n: u8) -> (c: char)
    requires
        n < 16,
    ensures
        c == hex_digit(n),
{
    if n < 10 {
        (n + 48) as char
    } else {
        (n + 87) as char
    }
}

/// Encodes `bytes` as lower-case hexadecimal text.
pub fn hex_lower_chars(bytes: &[u8]) -> (out: Vec<char>)
    ensures
        out@ == hex_lower(bytes@),
{
    let mut out: Vec<char> = Vec::new();
    let n = bytes.len();
    let mut i: usize = 0;
    while i < n
        invariant
            n == bytes@.len(),
            i <= n,
            out@.len() == 2 * i,
            forall|k: int|
                0 <= k < i ==> #[trigger] out@[2 * k] == hex_digit(bytes@[k] / 16) && out@[2 * k
                    + 1] == hex_digit(bytes@[k] % 16),
        decreases n - i,
    {
        let b = bytes[i];
        let ghost before = out@;
        out.push(digit_char(b / 16));
        out.push(digit_char(b % 16));
        proof {
            assert(out@ == before.push(hex_digit(b / 16)).push(hex_digit(b % 16)));
            assert forall|k: int| 0 <= k < i + 1 implies #[trigger] out@[2 * k] == hex_digit(
                bytes@[k] / 16,
            ) && out@[2 * k + 1] == hex_digit(bytes@[k] % 16) by {
                if k < i {
                    assert(out@[2 * k] == before[2 * k]);
                    assert(out@[2 * k + 1] == before[2 * k + 1]);
                } else {
                    assert(2 * k == 2 * i);
                }
            }
        }
        i = i + 1;
    }
    proof {
        assert forall|j: int| 0 <= j < out@.len() implies out@[j] == hex_lower(bytes@)[j] by {
            let k = j / 2;
            assert(j == 2 * k || j == 2 * k + 1);
            assert(0 <= k < n);
            assert(out@[2 * k] == hex_digit(bytes@[k] / 16));
        }
        assert(out@ =~= hex_lower(bytes@));
    }
    out
}

} // verus!

verus! {

/// Hexadecimal text has two characters per byte, each a digit or a
/// lower-case letter from `a` to `f`.
pub proof fn lemma_hex_lower_alphabet(bytes: Seq<u8>)
    ensures
        hex_lower(bytes).len() == 2 * bytes.len(),
        forall|i: int|
            0 <= i < hex_lower(bytes).len() ==> ('0' <= #[trigger] hex_lower(bytes)[i] <= '9') || (
            'a' <= hex_lower(bytes)[i] <= 'f'),
{
    assert forall|i: int| 0 <= i < hex_lower(bytes).len() implies ('0' <= #[trigger] hex_lower(
        bytes,
    )[i] <= '9') || ('a' <= hex_lower(bytes)[i] <= 'f') by {
        let b = bytes[i / 2];
        let n: u8 = if i % 2 == 0 {
            b / 16
        } else {
            b % 16
        };
        assert(n < 16);
        assert(hex_lower(bytes)[i] == hex_digit(n));
    }
}

} // verus!
