//! Decimal text for unsigned integers.
use vstd::prelude::*;

verus! {

/// The character of a decimal digit.
pub open spec fn digit_char(d: nat) -> char {
    if d == 0 {
        '0'
    } else if d == 1 {
        '1'
    } else if d == 2 {
        '2'
    } else if d == 3 {
        '3'
    } else if d == 4 {
        '4'
    } else if d == 5 {
        '5'
    } else if d == 6 {
        '6'
    } else if d == 7 {
        '7'
    } else if d == 8 {
        '8'
    } else {
        '9'
    }
}

/// The decimal representation of `n`, most significant digit first, without
/// leading zeros (zero is `"0"`).
pub open spec fn decimal(n: nat) -> Seq<char>
    decreases n,
{
    if n < 10 {
        seq![digit_char(n)]
    } else {
        decimal(n / 10).push(digit_char(n % 10))
    }
}

/// A representation with two or more digits belongs to a number of at least ten.
pub proof fn lemma_decimal_len(n: nat)
    ensures
        decimal(n).len() >= 1,
        n < 10 <==> decimal(n).len() == 1,
    decreases n,
{
    if n >= 10 {
        lemma_decimal_len(n / 10);
    }
}

/// Distinct numbers have distinct decimal representations.
pub proof fn lemma_decimal_injective(a: nat, b: nat)
    requires
        decimal(a) == decimal(b),
    ensures
        a == b,
    decreases a,
{
    lemma_decimal_len(a);
    lemma_decimal_len(b);
    if a >= 10 && b >= 10 {
        let da = decimal(a);
        let db = decimal(b);
        assert(da.drop_last() == decimal(a / 10));
        assert(db.drop_last() == decimal(b / 10));
        lemma_decimal_injective(a / 10, b / 10);
        assert(da.last() == db.last());
        assert(a % 10 == b % 10);
        assert(a == 10 * (a / 10) + a % 10);
        assert(b == 10 * (b / 10) + b % 10);
    } else if a < 10 && b < 10 {
        assert(decimal(a)[0] == digit_char(a));
        assert(decimal(b)[0] == digit_char(b));
        assert(digit_char(a) == digit_char(b));
    }
}

/// The text of one decimal digit.
fn digit_str(d: u128) -> (r: &'static str)
    requires
        d < 10,
    ensures
        r@ == seq![digit_char(d as nat)],
{
    proof {
        reveal_strlit("0");
        reveal_strlit("1");
        reveal_strlit("2");
        reveal_strlit("3");
        reveal_strlit("4");
        reveal_strlit("5");
        reveal_strlit("6");
        reveal_strlit("7");
        reveal_strlit("8");
        reveal_strlit("9");
    }
    if d == 0 {
        "0"
    } else if d == 1 {
        "1"
    } else if d == 2 {
        "2"
    } else if d == 3 {
        "3"
    } else if d == 4 {
        "4"
    } else if d == 5 {
        "5"
    } else if d == 6 {
        "6"
    } else if d == 7 {
        "7"
    } else if d == 8 {
        "8"
    } else {
        "9"
    }
}

/// Appends the decimal representation of `n` to `s`.
pub fn push_decimal(s: &mut String, n: u128)
    ensures
        final(s)@ == old(s)@ + decimal(n as nat),
    decreases n,
{
    if n < 10 {
        s.append(digit_str(n));
    } else {
        push_decimal(s, n / 10);
        s.append(digit_str(n % 10));
        assert(final(s)@ =~= old(s)@ + decimal(n as nat));
    }
}

/// The decimal representation of `n` as a new string.
pub fn to_decimal(n: u64) -> (r: String)
    ensures
        r@ == decimal(n as nat),
{
    let mut s = String::new();
    push_decimal(&mut s, n as u128);
    assert(s@ =~= decimal(n as nat));
    s
}

/// The text `"<label> = <n>"` that a solution reports.
pub open spec fn labeled(label: Seq<char>, n: nat) -> Seq<char> {
    label + " = "@ + decimal(n)
}

/// Writes the answer `n` of the solution called `label`.
pub fn answer(label: &str, n: u64) -> (r: String)
    ensures
        r@ == labeled(label@, n as nat),
{
    let mut s = String::from_str(label);
    s.append(" = ");
    push_decimal(&mut s, n as u128);
    assert(s@ =~= labeled(label@, n as nat));
    s
}

/// Writes the answer `n` of the solution called `label`.
pub fn answer_wide(label: &str, n: u128) -> (r: String)
    ensures
        r@ == labeled(label@, n as nat),
{
    let mut s = String::from_str(label);
    s.append(" = ");
    push_decimal(&mut s, n);
    assert(s@ =~= labeled(label@, n as nat));
    s
}

/// `c` repeated `n` times.
pub open spec fn repeat_char(c: char, n: nat) -> Seq<char> {
    Seq::new(n, |i: int| c)
}

/// `s` with `c` put in front until it is `w` characters long.
pub open spec fn pad_left(s: Seq<char>, w: nat, c: char) -> Seq<char> {
    if s.len() >= w {
        s
    } else {
        repeat_char(c, (w - s.len()) as nat) + s
    }
}

/// `s` with `c` put after it until it is `w` characters long.
pub open spec fn pad_right(s: Seq<char>, w: nat, c: char) -> Seq<char> {
    if s.len() >= w {
        s
    } else {
        s + repeat_char(c, (w - s.len()) as nat)
    }
}

/// Appends `piece` to `s` `n` times.
pub fn push_repeated(s: &mut String, piece: &str, n: usize)
    requires
        piece@.len() == 1,
    ensures
        final(s)@ == old(s)@ + repeat_char(piece@[0], n as nat),
{
    let mut i: usize = 0;
    while i < n
        invariant
            i <= n,
            piece@.len() == 1,
            s@ == old(s)@ + repeat_char(piece@[0], i as nat),
        decreases n - i,
    {
        s.append(piece);
        i = i + 1;
        assert(s@ =~= old(s)@ + repeat_char(piece@[0], i as nat));
    }
}

/// Appends the decimal representation of `n`, with zeros in front to make up
/// `w` digits.
pub fn push_zero_padded(s: &mut String, n: u128, w: usize)
    ensures
        final(s)@ == old(s)@ + pad_left(decimal(n as nat), w as nat, '0'),
{
    let mut d = String::new();
    push_decimal(&mut d, n);
    let len = d.as_str().unicode_len();
    if len < w {
        proof {
            reveal_strlit("0");
        }
        push_repeated(s, "0", w - len);
    }
    s.append(d.as_str());
    assert(final(s)@ =~= old(s)@ + pad_left(decimal(n as nat), w as nat, '0'));
}

/// Appends `text`, with spaces after it to make up `w` characters.
pub fn push_padded_right(s: &mut String, text: &str, w: usize)
    ensures
        final(s)@ == old(s)@ + pad_right(text@, w as nat, ' '),
{
    s.append(text);
    let len = text.unicode_len();
    if len < w {
        proof {
            reveal_strlit(" ");
        }
        push_repeated(s, " ", w - len);
    }
    assert(final(s)@ =~= old(s)@ + pad_right(text@, w as nat, ' '));
}

} // verus!
