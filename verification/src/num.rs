use vstd::prelude::*;

verus! {

/// The character for one decimal digit.
pub open spec fn dec_digit(d: int) -> char {
    if d == 0 {
        '0'
    } else if d == 1 {
        '1'
    } else if d == 2 {
        '2'
    } else if d == 3 {
        '3'
    } else if d == 4 {
        '4'
    } else if d == 5 {
        '5'
    } else if d == 6 {
        '6'
    } else if d == 7 {
        '7'
    } else if d == 8 {
        '8'
    } else {
        '9'
    }
}

/// The decimal representation of a natural number, without leading zeros
/// (a single zero for 0).
pub open spec fn dec_rep(n: nat) -> Seq<char>
    decreases n,
{
    if n < 10 {
        seq![dec_digit(n as int)]
    } else {
        dec_rep(n / 10).push(dec_digit((n % 10) as int))
    }
}

/// The decimal representation of an integer: a minus sign for negative
/// values, then the digits of the magnitude.
pub open spec fn int_str(i: int) -> Seq<char> {
    if i < 0 {
        seq!['-'] + dec_rep((-i) as nat)
    } else {
        dec_rep(i as nat)
    }
}

fn push_digit(s: &mut String, d: u64)
    requires
        d < 10,
    ensures
        final(s)@ == old(s)@.push(dec_digit(d as int)),
{
    if d == 0 {
        proof {
            reveal_strlit("0");
        }
        s.append("0");
    } else if d == 1 {
        proof {
            reveal_strlit("1");
        }
        s.append("1");
    } else if d == 2 {
        proof {
            reveal_strlit("2");
        }
        s.append("2");
    } else if d == 3 {
        proof {
            reveal_strlit("3");
        }
        s.append("3");
    } else if d == 4 {
        proof {
            reveal_strlit("4");
        }
        s.append("4");
    } else if d == 5 {
        proof {
            reveal_strlit("5");
        }
        s.append("5");
    } else if d == 6 {
        proof {
            reveal_strlit("6");
        }
        s.append("6");
    } else if d == 7 {
        proof {
            reveal_strlit("7");
        }
        s.append("7");
    } else if d == 8 {
        proof {
            reveal_strlit("8");
        }
        s.append("8");
    } else {
        proof {
            reveal_strlit("9");
        }
        s.append("9");
    }
    proof {
        assert(s@ =~= old(s)@.push(dec_digit(d as int)));
    }
}

/// The characters of collected digits, read back most-significant first
/// (digits are collected least-significant first).
spec fn chars_rev(ds: Seq<u64>) -> Seq<char> {
    Seq::new(ds.len(), |j: int| dec_digit(ds[ds.len() - 1 - j] as int))
}

/// Renders an unsigned number in decimal.
pub fn u64_to_string(n: u64) -> (s: String)
    ensures
        s@ == dec_rep(n as nat),
{
    let mut digits: Vec<u64> = Vec::new();
    let mut m: u64 = n;
    loop
        invariant_except_break
            dec_rep(n as nat) =~= dec_rep(m as nat) + chars_rev(digits@),
        invariant
            forall|j: int| 0 <= j < digits@.len() ==> #[trigger] digits@[j] < 10,
        ensures
            dec_rep(n as nat) =~= chars_rev(digits@),
        decreases m,
    {
        let d: u64 = m % 10;
        let ghost ds0 = digits@;
        let ghost m0 = m;
        digits.push(d);
        m = m / 10;
        proof {
            if m0 >= 10 {
                assert(dec_rep(m0 as nat) == dec_rep((m0 / 10) as nat).push(
                    dec_digit((m0 % 10) as int),
                ));
            }
            assert(chars_rev(digits@) =~= seq![dec_digit(d as int)] + chars_rev(ds0));
            if m == 0 {
                assert(m0 < 10);
                assert(dec_rep(m0 as nat) =~= seq![dec_digit(d as int)]);
                assert(dec_rep(n as nat) =~= chars_rev(digits@));
            } else {
                assert(dec_rep(m0 as nat) =~= dec_rep(m as nat).push(dec_digit(d as int)));
                assert(dec_rep(m as nat).push(dec_digit(d as int)) + chars_rev(ds0) =~= dec_rep(
                    m as nat,
                ) + chars_rev(digits@));
            }
        }
        if m == 0 {
            break ;
        }
    }
    let k: usize = digits.len();
    let mut s: String = String::new();
    let mut i: usize = k;
    while i > 0
        invariant
            k == digits@.len(),
            i <= k,
            forall|j: int| 0 <= j < digits@.len() ==> #[trigger] digits@[j] < 10,
            s@ =~= chars_rev(digits@).take(k - i),
        decreases i,
    {
        i = i - 1;
        push_digit(&mut s, digits[i]);
        proof {
            assert(s@ =~= chars_rev(digits@).take(k - i));
        }
    }
    proof {
        assert(s@ =~= chars_rev(digits@));
    }
    s
}

/// Renders a signed number in decimal, as its `Display` form would.
pub fn i64_to_string(v: i64) -> (s: String)
    ensures
        s@ == int_str(v as int),
{
    if v >= 0 {
        u64_to_string(v as u64)
    } else {
        let mag: u64 = if v == i64::MIN {
            9223372036854775808u64
        } else {
            (-v) as u64
        };
        proof {
            reveal_strlit("-");
        }
        let mut s: String = "-".to_owned();
        let rest: String = u64_to_string(mag);
        s.append(rest.as_str());
        proof {
            assert(s@ =~= seq!['-'] + dec_rep((-(v as int)) as nat));
        }
        s
    }
}

} // verus!
