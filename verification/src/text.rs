use vstd::prelude::*;

verus! {

/// The character of the decimal digit `d`.
pub open spec fn digit_char(d: nat) -> char {
    (48 + d) as char
}

/// The decimal digits of `n`, most significant first, without leading
/// zeros.
pub open spec fn decimal(n: nat) -> Seq<char>
    decreases n,
{
    if n < 10 {
        seq![digit_char(n)]
    } else {
        decimal(n / 10).push(digit_char(n % 10))
    }
}

/// `n` in decimal, padded with zeros on the left to at least two
/// characters, as the format `{:0>2}` writes it.
pub open spec fn padded2(n: nat) -> Seq<char> {
    if n < 10 {
        seq!['0'] + decimal(n)
    } else {
        decimal(n)
    }
}

/// The one-character text of the decimal digit `d`.
fn digit_text(d: u8) -> (t: &'static str)
    requires
        d < 10,
    ensures
        t@ == seq![digit_char(d as nat)],
{
    proof {
        reveal_strlit("0");
        reveal_strlit("1");
        reveal_strlit("2");
        reveal_strlit("3");
        reveal_strlit("4");
        reveal_strlit("5");
        reveal_strlit("6");
        reveal_strlit("7");
        reveal_strlit("8");
        reveal_strlit("9");
    }
    let t = match d {
        0 => "0",
        1 => "1",
        2 => "2",
        3 => "3",
        4 => "4",
        5 => "5",
        6 => "6",
        7 => "7",
        8 => "8",
        _ => "9",
    };
    assert(t@ =~= seq![digit_char(d as nat)]);
    t
}

/// Appends `n` in decimal, padded with zeros to at least two characters.
pub(crate) fn push_padded2(out: &mut String, n: u8)
    ensures
        final(out)@ == old(out)@ + padded2(n as nat),
{
    let hundreds: u8 = n / 100;
    let tens: u8 = (n / 10) % 10;
    let ones: u8 = n % 10;
    let ghost start = out@;
    if n >= 100 {
        out.append(digit_text(hundreds));
    } else if n < 10 {
        proof {
            reveal_strlit("0");
        }
        out.append("0");
    }
    if n >= 10 {
        out.append(digit_text(tens));
    }
    out.append(digit_text(ones));
    proof {
        let nn: nat = n as nat;
        if nn >= 100 {
            assert(decimal(nn / 100) == seq![digit_char(hundreds as nat)]);
            assert(decimal(nn / 10) == decimal(nn / 100).push(digit_char(tens as nat)));
            assert(decimal(nn) == decimal(nn / 10).push(digit_char(ones as nat)));
        } else if nn >= 10 {
            assert(decimal(nn / 10) == seq![digit_char(tens as nat)]);
            assert(decimal(nn) == decimal(nn / 10).push(digit_char(ones as nat)));
        } else {
            assert(decimal(nn) == seq![digit_char(ones as nat)]);
        }
        assert(out@ =~= start + padded2(nn));
    }
}

/// `c` is one of the ASCII digits `0` to `9`.
pub open spec fn is_ascii_digit(c: char) -> bool {
    48 <= (c as u32) <= 57
}

/// The number that the digit text `cs` reads as in base 10, each character
/// standing for its ASCII code less that of `0`.
pub open spec fn read_decimal(cs: Seq<char>) -> int
    decreases cs.len(),
{
    if cs.len() == 0 {
        0
    } else {
        read_decimal(cs.drop_last()) * 10 + ((cs.last() as u32) - 48)
    }
}

proof fn lemma_digit_char_is_ascii(d: nat)
    requires
        d < 10,
    ensures
        is_ascii_digit(digit_char(d)),
        (digit_char(d) as u32) - 48 == d,
{
    let u: u32 = (48 + d) as u32;
    assert(u == 48 + d);
    lemma_scalar_char_u32(u);
}

proof fn lemma_scalar_char_u32(u: u32)
    requires
        48 <= u <= 57,
    ensures
        ((u as char) as u32) == u,
{
    let c: char = u as char;
    assert((c as u32) == u);
}

/// The decimal text of `n` is made of ASCII digits only and reads back as
/// `n`: each digit stands for itself, so distinct numbers print distinctly.
pub proof fn lemma_decimal_reads_back(n: nat)
    ensures
        forall|i: int| 0 <= i < decimal(n).len() ==> is_ascii_digit(#[trigger] decimal(n)[i]),
        read_decimal(decimal(n)) == n,
        decimal(n).len() >= 1,
    decreases n,
{
    if n < 10 {
        lemma_digit_char_is_ascii(n);
        assert(decimal(n).drop_last() =~= Seq::<char>::empty());
        assert(read_decimal(Seq::<char>::empty()) == 0);
        assert(read_decimal(decimal(n)) == read_decimal(decimal(n).drop_last()) * 10 + ((
        decimal(n).last() as u32) - 48));
    } else {
        lemma_decimal_reads_back(n / 10);
        lemma_digit_char_is_ascii(n % 10);
        let p = decimal(n / 10);
        assert(decimal(n) == p.push(digit_char(n % 10)));
        assert(decimal(n).drop_last() =~= p);
        assert(decimal(n).last() == digit_char(n % 10));
        assert(read_decimal(decimal(n)) == read_decimal(p) * 10 + ((digit_char(n % 10) as u32)
            - 48));
        assert(n == (n / 10) * 10 + n % 10);
        assert forall|i: int| 0 <= i < decimal(n).len() implies is_ascii_digit(
            #[trigger] decimal(n)[i],
        ) by {
            if i < p.len() {
                assert(decimal(n)[i] == p[i]);
            }
        }
    }
}

/// The zero-padded text of `n` is made of at least two ASCII digits and
/// reads back as `n`.
pub proof fn lemma_padded2_reads_back(n: nat)
    ensures
        forall|i: int| 0 <= i < padded2(n).len() ==> is_ascii_digit(#[trigger] padded2(n)[i]),
        read_decimal(padded2(n)) == n,
        padded2(n).len() >= 2,
{
    lemma_decimal_reads_back(n);
    if n < 10 {
        let t = seq!['0'] + decimal(n);
        assert(decimal(n).len() == 1);
        assert(t.drop_last() =~= seq!['0']);
        assert(seq!['0'].drop_last() =~= Seq::<char>::empty());
        assert(('0' as u32) == 48);
        assert(read_decimal(Seq::<char>::empty()) == 0);
        assert(seq!['0'].last() == '0');
        assert(read_decimal(seq!['0']) == 0);
        assert forall|i: int| 0 <= i < t.len() implies is_ascii_digit(#[trigger] t[i]) by {
            if i > 0 {
                assert(t[i] == decimal(n)[i - 1]);
            }
        }
    } else {
        if n < 100 {
            assert(decimal(n) == decimal(n / 10).push(digit_char(n % 10)));
        } else {
            assert(decimal(n) == decimal(n / 10).push(digit_char(n % 10)));
            lemma_decimal_reads_back(n / 10);
        }
    }
}

} // verus!
