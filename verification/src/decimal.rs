//! Decimal rendering of unsigned integers, used by the size formatter and
//! the badge builders.

use vstd::prelude::*;

verus! {

use vstd::string::StringExecFns;

/// The character for a single decimal digit.
pub open spec fn digit_char(d: int) -> char {
    if d == 0 {
        '0'
    } else if d == 1 {
        '1'
    } else if d == 2 {
        '2'
    } else if d == 3 {
        '3'
    } else if d == 4 {
        '4'
    } else if d == 5 {
        '5'
    } else if d == 6 {
        '6'
    } else if d == 7 {
        '7'
    } else if d == 8 {
        '8'
    } else {
        '9'
    }
}

/// The decimal digits of `n`, most significant first, with no leading zeros
/// (a single `'0'` for zero).
pub open spec fn dec_digits(n: nat) -> Seq<char>
    decreases n,
{
    if n < 10 {
        seq![digit_char(n as int)]
    } else {
        dec_digits(n / 10) + seq![digit_char((n % 10) as int)]
    }
}

/// The characters for a sequence of digits stored least significant first,
/// read back most significant first.
spec fn rev_digit_chars(ds: Seq<u64>) -> Seq<char>
    decreases ds.len(),
{
    if ds.len() == 0 {
        Seq::empty()
    } else {
        seq![digit_char(ds.last() as int)] + rev_digit_chars(ds.drop_last())
    }
}

/// The one-character string for a single decimal digit.
pub(crate) fn digit_str(d: u64) -> (s: &'static str)
    requires
        d < 10,
    ensures
        s@ == seq![digit_char(d as int)],
{
    let s: &'static str = if d == 0 {
        "0"
    } else if d == 1 {
        "1"
    } else if d == 2 {
        "2"
    } else if d == 3 {
        "3"
    } else if d == 4 {
        "4"
    } else if d == 5 {
        "5"
    } else if d == 6 {
        "6"
    } else if d == 7 {
        "7"
    } else if d == 8 {
        "8"
    } else {
        "9"
    };
    proof {
        reveal_strlit("0");
        reveal_strlit("1");
        reveal_strlit("2");
        reveal_strlit("3");
        reveal_strlit("4");
        reveal_strlit("5");
        reveal_strlit("6");
        reveal_strlit("7");
        reveal_strlit("8");
        reveal_strlit("9");
        assert(s@ =~= seq![digit_char(d as int)]);
    }
    s
}

/// Render `n` in decimal.
pub(crate) fn decimal_string(n: u64) -> (r: String)
    ensures
        r@ == dec_digits(n as nat),
{
    let mut ds: Vec<u64> = Vec::new();
    let mut m: u64 = n;
    while m >= 10
        invariant
            dec_digits(n as nat) == dec_digits(m as nat) + rev_digit_chars(ds@),
            forall|k: int| 0 <= k < ds@.len() ==> ds@[k] < 10,
        decreases m,
    {
        let ghost ds0 = ds@;
        let ghost m0 = m;
        let d = m % 10;
        ds.push(d);
        m = m / 10;
        proof {
            assert(ds@.drop_last() =~= ds0);
            assert(rev_digit_chars(ds@) == seq![digit_char(d as int)] + rev_digit_chars(ds0));
            assert(dec_digits(m0 as nat) == dec_digits(m as nat) + seq![digit_char(d as int)]);
            assert(dec_digits(m as nat) + rev_digit_chars(ds@) =~= dec_digits(n as nat));
        }
    }
    let ghost ds1 = ds@;
    ds.push(m);
    proof {
        assert(ds@.drop_last() =~= ds1);
        assert(rev_digit_chars(ds@) == seq![digit_char(m as int)] + rev_digit_chars(ds1));
        assert(dec_digits(m as nat) == seq![digit_char(m as int)]);
        assert(rev_digit_chars(ds@) =~= dec_digits(n as nat));
    }
    let mut r = String::new();
    let mut i: usize = ds.len();
    proof {
        assert(ds@.subrange(0, ds@.len() as int) =~= ds@);
        assert(r@ + rev_digit_chars(ds@.subrange(0, i as int)) =~= dec_digits(n as nat));
    }
    while i > 0
        invariant
            i <= ds@.len(),
            forall|k: int| 0 <= k < ds@.len() ==> ds@[k] < 10,
            r@ + rev_digit_chars(ds@.subrange(0, i as int)) == dec_digits(n as nat),
        decreases i,
    {
        let ghost r0 = r@;
        let ghost i1 = i as int;
        i -= 1;
        let d = ds[i];
        r.append(digit_str(d));
        proof {
            assert(ds@.subrange(0, i1).last() == d);
            assert(ds@.subrange(0, i1).drop_last() =~= ds@.subrange(0, i as int));
            assert(rev_digit_chars(ds@.subrange(0, i1)) == seq![digit_char(d as int)]
                + rev_digit_chars(ds@.subrange(0, i as int)));
            assert(r@ + rev_digit_chars(ds@.subrange(0, i as int)) =~= dec_digits(n as nat));
        }
    }
    proof {
        assert(ds@.subrange(0, 0) =~= Seq::<u64>::empty());
        assert(r@ + rev_digit_chars(ds@.subrange(0, 0)) =~= r@);
    }
    r
}

} // verus!
