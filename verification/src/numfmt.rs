use vstd::prelude::*;

verus! {

pub open spec fn digit_char(d: int) -> char {
    if d == 0 {
        '0'
    } else if d == 1 {
        '1'
    } else if d == 2 {
        '2'
    } else if d == 3 {
        '3'
    } else if d == 4 {
        '4'
    } else if d == 5 {
        '5'
    } else if d == 6 {
        '6'
    } else if d == 7 {
        '7'
    } else if d == 8 {
        '8'
    } else {
        '9'
    }
}

/// The decimal digits of a nonnegative number, most significant first.
pub open spec fn dec_of(n: int) -> Seq<char>
    decreases n,
{
    if n < 10 {
        seq![digit_char(n)]
    } else {
        dec_of(n / 10) + seq![digit_char(n % 10)]
    }
}

/// The decimal form of a possibly negative number.
pub open spec fn sdec_of(n: int) -> Seq<char> {
    if n < 0 {
        seq!['-'] + dec_of(-n)
    } else {
        dec_of(n)
    }
}

/// A decimal string left-padded with zeros to ten characters.
pub open spec fn dec10_of(n: int) -> Seq<char> {
    let d = dec_of(n);
    if d.len() >= 10 {
        d
    } else {
        Seq::new((10 - d.len()) as nat, |j: int| '0') + d
    }
}

/// A millipoint measure printed as points with two decimal places,
/// rounding the dropped digit half up.
pub open spec fn pts_of(mp: int) -> Seq<char> {
    let cp = (mp + 5) / 10;
    dec_of(cp / 100) + seq!['.', digit_char((cp / 10) % 10), digit_char(cp % 10)]
}

fn digit_str(d: u128) -> (r: &'static str)
    requires
        d < 10,
    ensures
        r@ == seq![digit_char(d as int)],
        r@.len() == 1,
{
    let r: &'static str = match d {
        0 => "0",
        1 => "1",
        2 => "2",
        3 => "3",
        4 => "4",
        5 => "5",
        6 => "6",
        7 => "7",
        8 => "8",
        _ => "9",
    };
    proof {
        reveal_strlit("0");
        reveal_strlit("1");
        reveal_strlit("2");
        reveal_strlit("3");
        reveal_strlit("4");
        reveal_strlit("5");
        reveal_strlit("6");
        reveal_strlit("7");
        reveal_strlit("8");
        reveal_strlit("9");
        assert(r@ =~= seq![digit_char(d as int)]);
    }
    r
}

/// The decimal form of `n`.
pub fn u128_to_dec(n: u128) -> (r: String)
    ensures
        r@ == dec_of(n as int),
    decreases n,
{
    if n < 10 {
        let d = digit_str(n);
        let r = d.to_owned();
        r
    } else {
        let mut s = u128_to_dec(n / 10);
        s.append(digit_str(n % 10));
        proof {
            assert(s@ =~= dec_of((n / 10) as int) + seq![digit_char((n % 10) as int)]);
        }
        s
    }
}

/// The decimal form of `n`.
pub fn u64_to_dec(n: u64) -> (r: String)
    ensures
        r@ == dec_of(n as int),
{
    u128_to_dec(n as u128)
}

/// The decimal form of `n`.
pub fn usize_to_dec(n: usize) -> (r: String)
    ensures
        r@ == dec_of(n as int),
{
    u128_to_dec(n as u128)
}

/// The decimal form of `n`, with a leading minus sign when negative.
pub fn i64_to_dec(n: i64) -> (r: String)
    ensures
        r@ == sdec_of(n as int),
{
    if n < 0 {
        let mut s = String::new();
        s.append("-");
        let mag: u128 = (-(n as i128)) as u128;
        let d = u128_to_dec(mag);
        s.append(d.as_str());
        proof {
            reveal_strlit("-");
            assert("-"@ =~= seq!['-']);
            assert(s@ =~= sdec_of(n as int));
        }
        s
    } else {
        u128_to_dec(n as u128)
    }
}

pub proof fn lemma_dec_of_len(n: int)
    requires
        n >= 0,
    ensures
        1 <= dec_of(n).len(),
    decreases n,
{
    if n >= 10 {
        lemma_dec_of_len(n / 10);
    }
}

/// The decimal form of `n` left-padded with zeros to ten characters,
/// as in a cross-reference table entry.
pub fn usize_to_dec10(n: usize) -> (r: String)
    ensures
        r@ == dec10_of(n as int),
{
    let d = u128_to_dec(n as u128);
    let dl = d.as_str().unicode_len();
    if dl >= 10 {
        proof {
            assert(d@ =~= dec10_of(n as int));
        }
        d
    } else {
        let mut s = String::new();
        let mut j: usize = 0;
        let pad = 10 - dl;
        while j < pad
            invariant
                0 <= j <= pad,
                pad == 10 - dl,
                dl == dec_of(n as int).len(),
                s@ =~= Seq::new(j as nat, |k: int| '0'),
            decreases pad - j,
        {
            s.append("0");
            proof {
                reveal_strlit("0");
                assert(s@ =~= Seq::new((j + 1) as nat, |k: int| '0'));
            }
            j = j + 1;
        }
        s.append(d.as_str());
        proof {
            assert(s@ =~= dec10_of(n as int));
        }
        s
    }
}

/// A millipoint measure printed as points with two decimal places.
pub fn pts_to_string(mp: u128) -> (r: String)
    requires
        mp < 0x1000000000000000000000000,
    ensures
        r@ == pts_of(mp as int),
{
    let cp = (mp + 5) / 10;
    let mut s = u128_to_dec(cp / 100);
    s.append(".");
    proof {
        reveal_strlit(".");
        assert("."@ =~= seq!['.']);
    }
    s.append(digit_str((cp / 10) % 10));
    s.append(digit_str(cp % 10));
    proof {
        assert(s@ =~= pts_of(mp as int));
    }
    s
}

} // verus!
