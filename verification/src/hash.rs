//! Short content digests, used as cache file names: the 64-bit default hash
//! of a string rendered as dash-separated hex groups of eight, four and four
//! digits.

use crate::text::chars_to_string;
use vstd::prelude::*;

verus! {

/// The 64-bit value std's default hasher assigns to a string. A fixed
/// function of the text: `DefaultHasher::new` is documented to create
/// identical hashers every time.
pub uninterp spec fn hash64_of(s: Seq<char>) -> u64;

/// Relies on std's `DefaultHasher` (`new`, `Hash::hash`, `Hasher::finish`):
/// the 64-bit digest of a string, depending on its text alone.
#[verifier::external_body]
fn hash64(input: &str) -> (r: u64)
    ensures
        r == hash64_of(input@),
{
    let mut hasher = std::collections::hash_map::DefaultHasher::new();
    std::hash::Hash::hash(input, &mut hasher);
    std::hash::Hasher::finish(&hasher)
}

/// The lowercase hex digit of one nibble value.
pub open spec fn hex_digit(n: int) -> char {
    if n == 0 {
        '0'
    } else if n == 1 {
        '1'
    } else if n == 2 {
        '2'
    } else if n == 3 {
        '3'
    } else if n == 4 {
        '4'
    } else if n == 5 {
        '5'
    } else if n == 6 {
        '6'
    } else if n == 7 {
        '7'
    } else if n == 8 {
        '8'
    } else if n == 9 {
        '9'
    } else if n == 10 {
        'a'
    } else if n == 11 {
        'b'
    } else if n == 12 {
        'c'
    } else if n == 13 {
        'd'
    } else if n == 14 {
        'e'
    } else {
        'f'
    }
}

/// Nibble `k` of a 64-bit value, counting from the least significant.
pub open spec fn nibble(h: u64, k: int) -> int {
    ((h >> ((4 * k) as u64)) & 0xf) as int
}

/// The short-hash rendering: nibbles 15 down to 8, a dash, nibbles 7 down to
/// 4, a dash, nibbles 3 down to 0, each as a lowercase hex digit.
pub open spec fn short_hash_spec(h: u64) -> Seq<char> {
    Seq::new(
        18,
        |i: int|
            if i < 8 {
                hex_digit(nibble(h, 15 - i))
            } else if i == 8 {
                '-'
            } else if i < 13 {
                hex_digit(nibble(h, 16 - i))
            } else if i == 13 {
                '-'
            } else {
                hex_digit(nibble(h, 17 - i))
            },
    )
}

/// The hex digit character of nibble `k` of `h`.
fn hex_digit_of(h: u64, k: usize) -> (c: char)
    requires
        k < 16,
    ensures
        c == hex_digit(nibble(h, k as int)),
{
    let n: u64 = (h >> ((4 * k) as u64)) & 0xf;
    proof {
        assert(n <= 15) by (bit_vector)
            requires
                n == (h >> ((4 * (k as int)) as u64)) & 0xf,
        ;
    }
    if n == 0 {
        '0'
    } else if n == 1 {
        '1'
    } else if n == 2 {
        '2'
    } else if n == 3 {
        '3'
    } else if n == 4 {
        '4'
    } else if n == 5 {
        '5'
    } else if n == 6 {
        '6'
    } else if n == 7 {
        '7'
    } else if n == 8 {
        '8'
    } else if n == 9 {
        '9'
    } else if n == 10 {
        'a'
    } else if n == 11 {
        'b'
    } else if n == 12 {
        'c'
    } else if n == 13 {
        'd'
    } else if n == 14 {
        'e'
    } else {
        'f'
    }
}

/// Render a 64-bit value in the short dash-separated hex form, most
/// significant digit first.
pub fn format_short_hash(h: u64) -> (r: String)
    ensures
        r@ == short_hash_spec(h),
{
    let mut cs: Vec<char> = Vec::new();
    let mut d: usize = 0;
    while d < 8
        invariant
            d <= 8,
            cs@.len() == d,
            forall|k: int| 0 <= k < d ==> #[trigger] cs@[k] == hex_digit(nibble(h, 15 - k)),
        decreases 8 - d,
    {
        cs.push(hex_digit_of(h, 15 - d));
        d = d + 1;
    }
    cs.push('-');
    let mut d: usize = 0;
    while d < 4
        invariant
            d <= 4,
            cs@.len() == 9 + d,
            forall|k: int| 0 <= k < 8 ==> #[trigger] cs@[k] == hex_digit(nibble(h, 15 - k)),
            cs@[8] == '-',
            forall|k: int| 9 <= k < 9 + d ==> #[trigger] cs@[k] == hex_digit(nibble(h, 16 - k)),
        decreases 4 - d,
    {
        cs.push(hex_digit_of(h, 7 - d));
        d = d + 1;
    }
    cs.push('-');
    let mut d: usize = 0;
    while d < 4
        invariant
            d <= 4,
            cs@.len() == 14 + d,
            forall|k: int| 0 <= k < 8 ==> #[trigger] cs@[k] == hex_digit(nibble(h, 15 - k)),
            cs@[8] == '-',
            forall|k: int| 9 <= k < 13 ==> #[trigger] cs@[k] == hex_digit(nibble(h, 16 - k)),
            cs@[13] == '-',
            forall|k: int| 14 <= k < 14 + d ==> #[trigger] cs@[k] == hex_digit(nibble(h, 17 - k)),
        decreases 4 - d,
    {
        cs.push(hex_digit_of(h, 3 - d));
        d = d + 1;
    }
    proof {
        assert(cs@ =~= short_hash_spec(h));
    }
    chars_to_string(cs)
}

/// The short digest of a string: hash, then render.
pub fn short_hash(input: &str) -> (r: String)
    ensures
        r@ == short_hash_spec(hash64_of(input@)),
{
    let h = hash64(input);
    format_short_hash(h)
}

} // verus!
