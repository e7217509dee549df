//! Byte-level helpers shared by the codec: decimal lengths and searches.

use vstd::prelude::*;

verus! {

/// ASCII code of the decimal digit `d`.
pub open spec fn digit(d: nat) -> u8
    recommends
        d < 10,
{
    (48 + d) as u8
}

/// Decimal ASCII representation of `n`, most significant digit first,
/// without leading zeros (`0` is written as a single `'0'`).
pub open spec fn decimal(n: nat) -> Seq<u8>
    decreases n,
{
    if n < 10 {
        seq![digit(n)]
    } else {
        decimal(n / 10).push(digit(n % 10))
    }
}

/// Writes `n` in decimal ASCII.
pub fn decimal_digits(n: usize) -> (out: Vec<u8>)
    ensures
        out@ == decimal(n as nat),
{
    let mut out: Vec<u8> = Vec::new();
    out.push(48u8 + (n % 10) as u8);
    let mut m: usize = n / 10;
    while m > 0
        invariant
            out@.len() > 0,
            decimal(n as nat) == if m == 0 {
                out@
            } else {
                decimal(m as nat) + out@
            },
        decreases m,
    {
        out.insert(0, 48u8 + (m % 10) as u8);
        m = m / 10;
    }
    out
}

/// Index of the first `needle` at or after `from`.
pub fn find_byte(bytes: &[u8], from: usize, needle: u8) -> (found: Option<usize>)
    requires
        from <= bytes.len(),
    ensures
        match found {
            Some(i) => from <= i < bytes.len() && bytes@.skip(from as int).index_of_first(needle)
                == Some(i - from),
            None => bytes@.skip(from as int).index_of_first(needle) is None,
        },
{
    let ghost tail = bytes@.skip(from as int);
    proof {
        tail.index_of_first_ensures(needle);
    }
    let mut i: usize = from;
    while i < bytes.len()
        invariant
            from <= i <= bytes.len(),
            tail == bytes@.skip(from as int),
            forall|j: int| 0 <= j < i - from ==> tail[j] != needle,
        decreases bytes.len() - i,
    {
        if bytes[i] == needle {
            proof {
                assert(tail[i - from] == needle);
                tail.index_of_first_ensures(needle);
            }
            return Some(i);
        }
        i = i + 1;
    }
    None
}

} // verus!
