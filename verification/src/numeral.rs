//! How a number token is named in messages: as Rust's `{:?}` writes the
//! `f64` that its decimal text stands for.
use vstd::prelude::*;

use crate::text::{chars_of, decimal, decimal_chars, split_once, split_once_chars, sub_chars};

verus! {

/// The digits of a decimal text without its point, and how many of them
/// stand before the point.
pub open spec fn number_digits(t: Seq<char>) -> (Seq<char>, int) {
    match split_once(t, '.') {
        Some((a, b)) => (a + b, a.len() as int),
        None => (t, t.len() as int),
    }
}

/// The index of the first digit of `d` at or after `i` that is not `0`, or
/// the length of `d` when there is none.
pub open spec fn first_nonzero(d: Seq<char>, i: int) -> int
    decreases d.len() - i,
{
    if i < 0 || i >= d.len() {
        d.len() as int
    } else if d[i] != '0' {
        i
    } else {
        first_nonzero(d, i + 1)
    }
}

/// The end of `d.take(j)` once its trailing `0` digits are left out.
pub open spec fn nonzero_end(d: Seq<char>, j: int) -> int
    decreases j,
{
    if j <= 0 {
        0
    } else if d[j - 1] != '0' {
        j
    } else {
        nonzero_end(d, j - 1)
    }
}

/// `n` zero digits.
pub open spec fn zeros(n: nat) -> Seq<char> {
    Seq::new(n, |i: int| '0')
}

/// The exponent of a scientific form, as `{}` writes an integer.
pub open spec fn exponent_text(e: int) -> Seq<char> {
    if e < 0 {
        "-"@ + decimal((-e) as nat)
    } else {
        decimal(e as nat)
    }
}

/// The scientific form `d.ddde<e>` of the significant digits `sig`.
pub open spec fn scientific(sig: Seq<char>, e: int) -> Seq<char> {
    seq![sig[0]] + (if sig.len() > 1 {
        "."@ + sig.skip(1)
    } else {
        Seq::empty()
    }) + "e"@ + exponent_text(e)
}

/// The texts whose `{:?}` form is written from their own significant
/// digits: zero, or at most 15 significant digits with a decimal exponent
/// from -307 to 307, so that the value lies in the normal range of `f64`
/// and no two such texts of different value share an `f64`.
pub open spec fn debug_digits_exact(t: Seq<char>) -> bool {
    let (d, p) = number_digits(t);
    let lead = first_nonzero(d, 0);
    lead >= d.len() || (nonzero_end(d, d.len() as int) - lead <= 15 && -307 <= p - lead - 1 <= 307)
}

/// The `{:?}` form of the decimal text `t` (digits with at most one point),
/// written from its significant digits: `0.0` for zero; the scientific form
/// below `1e-4` and from `1e16` on; else the plain form with at least one
/// digit after the point.
///
/// Where [`debug_digits_exact`] holds of `t`, this is the text `{:?}` writes
/// for the `f64` that `t` stands for. Elsewhere it is not: this library holds
/// no floating-point value, so it keeps every significant digit of `t`
/// where an `f64` rounds to at most 17 (`0.12345678901234567891` stays as
/// it is, where `{:?}` writes `0.12345678901234568`), and it writes the
/// exponent of a value too large or too small for `f64` (`1e400`) where
/// `{:?}` writes `inf`, `0.0` or a subnormal's digits.
pub open spec fn float_debug_text(t: Seq<char>) -> Seq<char> {
    let (d, p) = number_digits(t);
    let lead = first_nonzero(d, 0);
    if lead >= d.len() {
        "0.0"@
    } else {
        let sig = d.subrange(lead, nonzero_end(d, d.len() as int));
        let e = p - lead - 1;
        if e < -4 || e >= 16 {
            scientific(sig, e)
        } else if e >= 0 {
            if sig.len() > e + 1 {
                sig.take(e + 1) + "."@ + sig.skip(e + 1)
            } else {
                sig + zeros((e + 1 - sig.len()) as nat) + ".0"@
            }
        } else {
            "0."@ + zeros((-e - 1) as nat) + sig
        }
    }
}

/// `n` zero digits.
fn zero_chars(n: usize) -> (r: Vec<char>)
    ensures
        r@ == zeros(n as nat),
{
    let mut r: Vec<char> = Vec::new();
    let mut i: usize = 0;
    while i < n
        invariant
            i <= n,
            r@ == zeros(i as nat),
        decreases n - i,
    {
        r.push('0');
        i = i + 1;
        assert(r@ =~= zeros(i as nat));
    }
    r
}

/// The characters of `a` followed by those of `b`.
fn joined(a: &[char], b: &[char]) -> (r: Vec<char>)
    ensures
        r@ == a@ + b@,
{
    let mut r: Vec<char> = Vec::new();
    let mut i: usize = 0;
    while i < a.len()
        invariant
            i <= a@.len(),
            r@ == a@.take(i as int),
        decreases a@.len() - i,
    {
        r.push(a[i]);
        i = i + 1;
        assert(r@ =~= a@.take(i as int));
    }
    let mut j: usize = 0;
    while j < b.len()
        invariant
            j <= b@.len(),
            r@ == a@ + b@.take(j as int),
        decreases b@.len() - j,
    {
        r.push(b[j]);
        j = j + 1;
        assert(r@ =~= a@ + b@.take(j as int));
    }
    assert(a@.take(a@.len() as int) =~= a@);
    assert(b@.take(b@.len() as int) =~= b@);
    r
}

/// Executable [`float_debug_text`].
pub fn float_debug_chars(t: &[char]) -> (r: Vec<char>)
    ensures
        r@ == float_debug_text(t@),
{
    let (d, p): (Vec<char>, usize) = match split_once_chars(t, '.') {
        Some((a, b)) => {
            let n = a.len();
            (joined(&a, &b), n)
        },
        None => (sub_chars(t, 0, t.len()), t.len()),
    };
    proof {
        assert(t@.subrange(0, t@.len() as int) =~= t@);
    }
    let ghost ds = d@;
    assert(number_digits(t@) == (ds, p as int));
    let mut lead: usize = 0;
    while lead < d.len() && d[lead] == '0'
        invariant
            d@ == ds,
            lead <= ds.len(),
            first_nonzero(ds, 0) == first_nonzero(ds, lead as int),
        decreases ds.len() - lead,
    {
        lead = lead + 1;
    }
    if lead >= d.len() {
        return chars_of("0.0");
    }
    let mut end: usize = d.len();
    while end > lead + 1 && d[end - 1] == '0'
        invariant
            d@ == ds,
            lead < end <= ds.len(),
            ds[lead as int] != '0',
            nonzero_end(ds, ds.len() as int) == nonzero_end(ds, end as int),
        decreases end,
    {
        end = end - 1;
    }
    assert(nonzero_end(ds, end as int) == end as int);
    let sig = sub_chars(&d, lead, end);
    let ghost sv = sig@;
    let n = sig.len();
    let negative = p < lead + 1;
    let magnitude: usize = if negative { lead + 1 - p } else { p - lead - 1 };
    let ghost e: int = p - lead - 1;
    assert(e == if negative { -(magnitude as int) } else { magnitude as int });
    if (negative && magnitude > 4) || (!negative && magnitude >= 16) {
        let mut r: Vec<char> = Vec::new();
        r.push(sig[0]);
        if n > 1 {
            let rest = sub_chars(&sig, 1, n);
            let point = chars_of(".");
            r = joined(&r, &point);
            r = joined(&r, &rest);
            assert(rest@ =~= sv.skip(1));
        }
        let letter = chars_of("e");
        r = joined(&r, &letter);
        if negative {
            let minus = chars_of("-");
            r = joined(&r, &minus);
        }
        let digits = decimal_chars(magnitude as u64);
        r = joined(&r, &digits);
        proof {
            assert(exponent_text(e) =~= if negative {
                "-"@ + decimal(magnitude as nat)
            } else {
                decimal(magnitude as nat)
            });
            if n > 1 {
                assert(r@ =~= seq![sv[0]] + ("."@ + sv.skip(1)) + "e"@ + exponent_text(e));
            } else {
                assert(r@ =~= seq![sv[0]] + Seq::<char>::empty() + "e"@ + exponent_text(e));
            }
        }
        r
    } else if !negative {
        if n > magnitude + 1 {
            let head = sub_chars(&sig, 0, magnitude + 1);
            let tail = sub_chars(&sig, magnitude + 1, n);
            let point = chars_of(".");
            let r = joined(&head, &point);
            let r = joined(&r, &tail);
            assert(head@ =~= sv.take(e + 1));
            assert(tail@ =~= sv.skip(e + 1));
            assert(r@ =~= sv.take(e + 1) + "."@ + sv.skip(e + 1));
            r
        } else {
            let z = zero_chars(magnitude + 1 - n);
            let r = joined(&sig, &z);
            let tail = chars_of(".0");
            let r = joined(&r, &tail);
            assert(r@ =~= sv + zeros((e + 1 - sv.len()) as nat) + ".0"@);
            r
        }
    } else {
        let z = zero_chars(magnitude - 1);
        let head = chars_of("0.");
        let r = joined(&head, &z);
        let r = joined(&r, &sig);
        assert(r@ =~= "0."@ + zeros((-e - 1) as nat) + sv);
        r
    }
}

} // verus!
