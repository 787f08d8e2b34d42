//! Zero-padded decimal formatting of integers, as `{:0w$}` renders them.

use vstd::prelude::*;

verus! {

/// The decimal digit character for `d < 10`.
pub open spec fn digit_char(d: nat) -> char {
    if d == 0 { '0' }
    else if d == 1 { '1' }
    else if d == 2 { '2' }
    else if d == 3 { '3' }
    else if d == 4 { '4' }
    else if d == 5 { '5' }
    else if d == 6 { '6' }
    else if d == 7 { '7' }
    else if d == 8 { '8' }
    else { '9' }
}

/// The numeric value of a digit character (0 for anything else).
pub open spec fn digit_value(c: char) -> nat {
    if c == '1' { 1 }
    else if c == '2' { 2 }
    else if c == '3' { 3 }
    else if c == '4' { 4 }
    else if c == '5' { 5 }
    else if c == '6' { 6 }
    else if c == '7' { 7 }
    else if c == '8' { 8 }
    else if c == '9' { 9 }
    else { 0 }
}

/// The shortest decimal rendering of `n`.
pub open spec fn digits(n: nat) -> Seq<char>
    decreases n,
{
    if n < 10 {
        seq![digit_char(n)]
    } else {
        digits(n / 10) + seq![digit_char(n % 10)]
    }
}

/// The number that a string of digit characters denotes.
pub open spec fn value_of(s: Seq<char>) -> nat
    decreases s.len(),
{
    if s.len() == 0 {
        0
    } else {
        value_of(s.drop_last()) * 10 + digit_value(s.last())
    }
}

/// `d`, preceded by as many `'0'` as it takes to reach `width` characters.
pub open spec fn zero_pad(d: Seq<char>, width: nat) -> Seq<char> {
    if d.len() >= width {
        d
    } else {
        Seq::new((width - d.len()) as nat, |k: int| '0') + d
    }
}

/// `v` in decimal, zero-padded to `width` characters after a leading `'-'`
/// for negative values (the sign counts toward the width).
pub open spec fn formatted(v: int, width: nat) -> Seq<char> {
    if v >= 0 {
        zero_pad(digits(v as nat), width)
    } else {
        seq!['-'] + zero_pad(digits((-v) as nat), if width > 0 { (width - 1) as nat } else { 0 })
    }
}

proof fn lemma_digit_round_trip(d: nat)
    requires
        d < 10,
    ensures
        digit_value(digit_char(d)) == d,
{
}

/// Reading back the digits of `n` gives `n`.
pub proof fn lemma_value_of_digits(n: nat)
    ensures
        value_of(digits(n)) == n,
    decreases n,
{
    if n < 10 {
        lemma_digit_round_trip(n);
        assert(seq![digit_char(n)].drop_last() =~= Seq::<char>::empty());
        assert(value_of(seq![digit_char(n)]) == value_of(Seq::<char>::empty()) * 10 + digit_value(digit_char(n)));
    } else {
        lemma_value_of_digits(n / 10);
        lemma_digit_round_trip(n % 10);
        let s = digits(n / 10) + seq![digit_char(n % 10)];
        assert(s.drop_last() =~= digits(n / 10));
        assert(s.last() == digit_char(n % 10));
        assert(value_of(s) == value_of(digits(n / 10)) * 10 + digit_value(digit_char(n % 10)));
        assert((n / 10) * 10 + n % 10 == n) by (nonlinear_arith);
    }
}

/// Leading zeros do not change the value.
pub proof fn lemma_value_of_zeros(k: nat, s: Seq<char>)
    ensures
        value_of(Seq::new(k, |i: int| '0') + s) == value_of(s),
    decreases s.len(),
{
    let z = Seq::new(k, |i: int| '0');
    if s.len() == 0 {
        assert(z + s =~= z);
        lemma_value_of_all_zeros(k);
    } else {
        lemma_value_of_zeros(k, s.drop_last());
        assert((z + s).drop_last() =~= z + s.drop_last());
    }
}

proof fn lemma_value_of_all_zeros(k: nat)
    ensures
        value_of(Seq::new(k, |i: int| '0')) == 0,
    decreases k,
{
    if k > 0 {
        lemma_value_of_all_zeros((k - 1) as nat);
        assert(Seq::new(k, |i: int| '0').drop_last() =~= Seq::new((k - 1) as nat, |i: int| '0'));
    }
}

/// A zero-padded rendering of a non-negative value reads back as that value.
pub proof fn lemma_value_of_padded(n: nat, width: nat)
    ensures
        value_of(zero_pad(digits(n), width)) == n,
{
    lemma_value_of_digits(n);
    if digits(n).len() < width {
        lemma_value_of_zeros((width - digits(n).len()) as nat, digits(n));
    }
}

/// Distinct non-negative values render differently at any width.
pub proof fn lemma_formatted_injective(a: int, b: int, width: nat)
    requires
        a >= 0,
        b >= 0,
        a != b,
    ensures
        formatted(a, width) != formatted(b, width),
{
    lemma_value_of_padded(a as nat, width);
    lemma_value_of_padded(b as nat, width);
}

fn digit_of(d: u128) -> (c: char)
    requires
        d < 10,
    ensures
        c == digit_char(d as nat),
{
    if d == 0 { '0' }
    else if d == 1 { '1' }
    else if d == 2 { '2' }
    else if d == 3 { '3' }
    else if d == 4 { '4' }
    else if d == 5 { '5' }
    else if d == 6 { '6' }
    else if d == 7 { '7' }
    else if d == 8 { '8' }
    else { '9' }
}

/// The decimal digits of `n`.
pub fn decimal_digits(n: u128) -> (r: Vec<char>)
    ensures
        r@ == digits(n as nat),
    decreases n,
{
    if n < 10 {
        vec![digit_of(n)]
    } else {
        let mut r = decimal_digits(n / 10);
        r.push(digit_of(n % 10));
        r
    }
}

/// `d` left-padded with `'0'` to `width` characters.
pub fn pad_zeros(d: Vec<char>, width: usize) -> (r: Vec<char>)
    ensures
        r@ == zero_pad(d@, width as nat),
{
    if d.len() >= width {
        return d;
    }
    let mut r: Vec<char> = Vec::new();
    let fill = width - d.len();
    let mut i: usize = 0;
    while i < fill
        invariant
            i <= fill,
            fill == width - d.len(),
            r@ == Seq::new(i as nat, |k: int| '0'),
        decreases fill - i,
    {
        r.push('0');
        i = i + 1;
        assert(r@ =~= Seq::new(i as nat, |k: int| '0'));
    }
    let mut j: usize = 0;
    while j < d.len()
        invariant
            j <= d.len(),
            fill == width - d.len(),
            r@ == Seq::new(fill as nat, |k: int| '0') + d@.take(j as int),
        decreases d.len() - j,
    {
        r.push(d[j]);
        j = j + 1;
        assert(r@ =~= Seq::new(fill as nat, |k: int| '0') + d@.take(j as int));
    }
    assert(d@.take(d.len() as int) =~= d@);
    r
}

/// `v` rendered as `format!("{:0w$}", v)` renders it.
pub fn format_padded(v: i128, width: usize) -> (r: Vec<char>)
    ensures
        r@ == formatted(v as int, width as nat),
{
    if v >= 0 {
        pad_zeros(decimal_digits(v as u128), width)
    } else {
        let magnitude: u128 = ((-(v + 1)) as u128) + 1;
        let inner_width: usize = if width > 0 { width - 1 } else { 0 };
        let body = pad_zeros(decimal_digits(magnitude), inner_width);
        let mut r: Vec<char> = vec!['-'];
        let mut j: usize = 0;
        while j < body.len()
            invariant
                j <= body.len(),
                r@ == seq!['-'] + body@.take(j as int),
            decreases body.len() - j,
        {
            r.push(body[j]);
            j = j + 1;
            assert(r@ =~= seq!['-'] + body@.take(j as int));
        }
        assert(body@.take(body.len() as int) =~= body@);
        r
    }
}

} // verus!
