//! Human-readable byte counts and path segments.
use vstd::prelude::*;

verus! {

/// The decimal digits of `n`, most significant first, with no leading zeros.
pub open spec fn decimal(n: nat) -> Seq<char>
    decreases n,
{
    if n < 10 {
        seq![digit_char(n)]
    } else {
        decimal(n / 10).push(digit_char(n % 10))
    }
}

/// The character of a decimal digit.
pub open spec fn digit_char(d: nat) -> char {
    if d == 0 { '0' }
    else if d == 1 { '1' }
    else if d == 2 { '2' }
    else if d == 3 { '3' }
    else if d == 4 { '4' }
    else if d == 5 { '5' }
    else if d == 6 { '6' }
    else if d == 7 { '7' }
    else if d == 8 { '8' }
    else { '9' }
}

/// The rendering of a byte count: a truncated quotient and a unit suffix.
/// The terabyte range keeps the gigabyte divisor, and counts of a
/// quadrillion bytes or more are shown as the bare number.
pub open spec fn pp_bytes_spec(bytes: nat) -> Seq<char> {
    if bytes <= 999 {
        decimal(bytes) + seq![' ', 'B']
    } else if bytes <= 999_999 {
        decimal(bytes / 1000) + seq![' ', 'K', 'B']
    } else if bytes <= 999_999_999 {
        decimal(bytes / 1_000_000) + seq![' ', 'M', 'B']
    } else if bytes <= 999_999_999_999 {
        decimal(bytes / 1_000_000_000) + seq![' ', 'G', 'B']
    } else if bytes <= 999_999_999_999_999 {
        decimal(bytes / 1_000_000_000) + seq![' ', 'T', 'B']
    } else {
        decimal(bytes)
    }
}

/// Relies on `u64::to_string` (std's `Display` for integers): the decimal
/// digits of the value, without sign or padding.
#[verifier::external_body]
fn u64_to_decimal(n: u64) -> (r: String)
    ensures
        r@ == decimal(n as nat),
{
    n.to_string()
}

/// Formats a byte count for display.
pub fn pp_bytes(bytes: u64) -> (r: String)
    ensures
        r@ == pp_bytes_spec(bytes as nat),
{
    if bytes <= 999 {
        proof {
            reveal_strlit(" B");
        }
        u64_to_decimal(bytes).concat(" B")
    } else if bytes <= 999_999 {
        proof {
            reveal_strlit(" KB");
        }
        u64_to_decimal(bytes / 1000).concat(" KB")
    } else if bytes <= 999_999_999 {
        proof {
            reveal_strlit(" MB");
        }
        u64_to_decimal(bytes / 1_000_000).concat(" MB")
    } else if bytes <= 999_999_999_999 {
        proof {
            reveal_strlit(" GB");
        }
        u64_to_decimal(bytes / 1_000_000_000).concat(" GB")
    } else if bytes <= 999_999_999_999_999 {
        proof {
            reveal_strlit(" TB");
        }
        u64_to_decimal(bytes / 1_000_000_000).concat(" TB")
    } else {
        u64_to_decimal(bytes)
    }
}

/// The final component of a `/`-separated path: everything after the last
/// separator, the whole path when it holds none, and empty when the path
/// ends in a separator.
pub open spec fn last_segment_spec(p: Seq<char>) -> Seq<char>
    decreases p.len(),
{
    if p.len() == 0 {
        p
    } else if p.last() == '/' {
        Seq::empty()
    } else {
        last_segment_spec(p.drop_last()).push(p.last())
    }
}

proof fn lemma_last_segment_from(p: Seq<char>, j: int)
    requires
        0 <= j <= p.len(),
        j == 0 || p[j - 1] == '/',
        forall|k: int| j <= k < p.len() ==> p[k] != '/',
    ensures
        last_segment_spec(p) == p.subrange(j, p.len() as int),
    decreases p.len(),
{
    if p.len() == j {
        if p.len() > 0 {
            assert(p.last() == '/');
        }
    } else {
        lemma_last_segment_from(p.drop_last(), j);
        assert(p.subrange(j, p.len() as int) =~= p.drop_last().subrange(j, p.len() - 1).push(p.last()));
    }
}

/// The last component of a path, as the report shows it.
pub fn last_segment(path: &str) -> (r: String)
    ensures
        r@ == last_segment_spec(path@),
{
    let n = path.unicode_len();
    let mut j: usize = n;
    while j > 0 && path.get_char(j - 1) != '/'
        invariant
            j <= n,
            n == path@.len(),
            forall|k: int| j <= k < n ==> path@[k] != '/',
        decreases j,
    {
        j = j - 1;
    }
    proof {
        lemma_last_segment_from(path@, j as int);
    }
    String::from_str(path.substring_char(j, n))
}

} // verus!
