//! Small facts and helpers about strings as sequences of characters.

use vstd::prelude::*;

verus! {

/// The text of a string.
pub open spec fn text_of() -> spec_fn(String) -> Seq<char> {
    |s: String| s@
}

/// The texts of a vector of strings, element by element.
pub open spec fn texts(v: Seq<String>) -> Seq<Seq<char>> {
    v.map_values(text_of())
}

/// Whether a text begins with the given character.
pub open spec fn begins_with(t: Seq<char>, c: char) -> bool {
    t.len() > 0 && t[0] == c
}

/// Tests whether a string begins with the given character.
pub fn starts_with_char(s: &str, c: char) -> (r: bool)
    ensures
        r == begins_with(s@, c),
{
    if s.is_empty() {
        false
    } else {
        s.get_char(0) == c
    }
}

/// Tests whether a character occurs anywhere in a string.
pub fn contains_char(s: &str, c: char) -> (r: bool)
    ensures
        r == s@.contains(c),
{
    let n: usize = s.unicode_len();
    let mut i: usize = 0;
    while i < n
        invariant
            n == s@.len(),
            i <= n,
            forall|j: int| 0 <= j < i ==> s@[j] != c,
        decreases n - i,
    {
        if s.get_char(i) == c {
            return true;
        }
        i += 1;
    }
    false
}

/// A run of `n` blanks; empty when `n` is not positive.
pub open spec fn spaces(n: int) -> Seq<char> {
    Seq::new(if n > 0 { n as nat } else { 0 }, |i: int| ' ')
}

/// The line break.
pub open spec fn newline() -> Seq<char> {
    seq!['\n']
}

/// The room a text takes in a column: the number of bytes of its UTF-8 form.
pub open spec fn width_of(t: Seq<char>) -> nat {
    vstd::utf8::encode_utf8(t).len()
}

/// Appends `n` blanks.
pub fn push_spaces(out: &mut String, n: usize)
    ensures
        final(out)@ == old(out)@ + spaces(n as int),
{
    let mut i: usize = 0;
    while i < n
        invariant
            i <= n,
            out@ == old(out)@ + spaces(i as int),
        decreases n - i,
    {
        proof {
            reveal_strlit(" ");
            assert(" "@ =~= seq![' ']);
            assert(spaces(i + 1) =~= spaces(i as int) + seq![' ']);
        }
        out.append(" ");
        i += 1;
    }
}

/// Appends a line break.
pub fn push_newline(out: &mut String)
    ensures
        final(out)@ == old(out)@ + newline(),
{
    proof {
        reveal_strlit("\n");
        assert("\n"@ =~= newline());
    }
    out.append("\n");
}

/// The character that writes one decimal digit.
pub open spec fn digit_char(d: int) -> char {
    if d == 0 {
        '0'
    } else if d == 1 {
        '1'
    } else if d == 2 {
        '2'
    } else if d == 3 {
        '3'
    } else if d == 4 {
        '4'
    } else if d == 5 {
        '5'
    } else if d == 6 {
        '6'
    } else if d == 7 {
        '7'
    } else if d == 8 {
        '8'
    } else {
        '9'
    }
}

/// The decimal writing of a natural number, without leading zeros.
pub open spec fn decimal(n: nat) -> Seq<char>
    decreases n,
{
    if n < 10 {
        seq![digit_char(n as int)]
    } else {
        decimal(n / 10).push(digit_char((n % 10) as int))
    }
}

fn digit_text(d: u8) -> (s: &'static str)
    requires
        d < 10,
    ensures
        s@ == seq![digit_char(d as int)],
{
    proof {
        reveal_strlit("0");
        reveal_strlit("1");
        reveal_strlit("2");
        reveal_strlit("3");
        reveal_strlit("4");
        reveal_strlit("5");
        reveal_strlit("6");
        reveal_strlit("7");
        reveal_strlit("8");
        reveal_strlit("9");
    }
    let s = if d == 0 {
        "0"
    } else if d == 1 {
        "1"
    } else if d == 2 {
        "2"
    } else if d == 3 {
        "3"
    } else if d == 4 {
        "4"
    } else if d == 5 {
        "5"
    } else if d == 6 {
        "6"
    } else if d == 7 {
        "7"
    } else if d == 8 {
        "8"
    } else {
        "9"
    };
    assert(s@ =~= seq![digit_char(d as int)]);
    s
}

/// Appends the decimal writing of `n`.
pub fn push_decimal(out: &mut String, n: u128)
    ensures
        final(out)@ == old(out)@ + decimal(n as nat),
    decreases n,
{
    if n >= 10 {
        push_decimal(out, n / 10);
    }
    let d: u8 = (n % 10) as u8;
    out.append(digit_text(d));
    proof {
        assert(out@ =~= old(out)@ + decimal(n as nat));
    }
}

/// The number of digits in the decimal writing of `n`.
pub fn decimal_width(n: u64) -> (w: usize)
    ensures
        w == decimal(n as nat).len(),
        1 <= w <= 20,
{
    let mut w: usize = 1;
    let mut rest: u64 = n;
    while rest >= 10
        invariant
            1 <= w <= 20,
            decimal(n as nat).len() == decimal(rest as nat).len() + w - 1,
            rest as int * pow10((w - 1) as nat) <= n,
        decreases rest,
    {
        proof {
            lemma_pow10_step(rest as int, (w - 1) as nat, n as int);
        }
        rest = rest / 10;
        w += 1;
    }
    w
}

/// Ten to the `e`.
pub open spec fn pow10(e: nat) -> int
    decreases e,
{
    if e == 0 {
        1
    } else {
        10 * pow10((e - 1) as nat)
    }
}

proof fn lemma_pow10_step(rest: int, e: nat, n: int)
    requires
        rest >= 10,
        rest * pow10(e) <= n,
        n <= u64::MAX,
    ensures
        (rest / 10) * pow10(e + 1) <= n,
        e + 1 <= 19,
{
    assert((rest / 10) * pow10(e + 1) == (rest / 10) * 10 * pow10(e)) by (nonlinear_arith)
        requires
            pow10(e + 1) == 10 * pow10(e),
    ;
    assert((rest / 10) * 10 <= rest);
    lemma_pow10_positive(e);
    assert((rest / 10) * 10 * pow10(e) <= rest * pow10(e)) by (nonlinear_arith)
        requires
            (rest / 10) * 10 <= rest,
            pow10(e) > 0,
    ;
    if e + 1 > 19 {
        lemma_pow10_grows(19, e);
        assert(pow10(19) == 10_000_000_000_000_000_000int) by {
            reveal_with_fuel(pow10, 20);
        }
        assert(rest * pow10(e) >= 10 * pow10(19)) by (nonlinear_arith)
            requires
                rest >= 10,
                pow10(e) >= pow10(19),
                pow10(19) > 0,
        ;
    }
}

proof fn lemma_pow10_positive(e: nat)
    ensures
        pow10(e) > 0,
    decreases e,
{
    if e > 0 {
        lemma_pow10_positive((e - 1) as nat);
    }
}

proof fn lemma_pow10_grows(a: nat, b: nat)
    requires
        a <= b,
    ensures
        pow10(a) <= pow10(b),
    decreases b,
{
    if a < b {
        lemma_pow10_grows(a, (b - 1) as nat);
        lemma_pow10_positive((b - 1) as nat);
    }
}

/// Texts with the same bytes are the same text.
pub proof fn lemma_same_bytes_same_text(a: Seq<char>, b: Seq<char>)
    requires
        vstd::utf8::encode_utf8(a) == vstd::utf8::encode_utf8(b),
    ensures
        a == b,
{
    vstd::utf8::encode_utf8_decode_utf8(a);
    vstd::utf8::encode_utf8_decode_utf8(b);
}

/// Tests whether two strings hold the same text.
pub fn same_text(a: &str, b: &str) -> (r: bool)
    ensures
        r == (a@ == b@),
{
    let x = a.as_bytes();
    let y = b.as_bytes();
    if x.len() != y.len() {
        return false;
    }
    let mut i: usize = 0;
    while i < x.len()
        invariant
            i <= x.len(),
            x.len() == y.len(),
            x@ == vstd::utf8::encode_utf8(a@),
            y@ == vstd::utf8::encode_utf8(b@),
            forall|j: int| 0 <= j < i ==> x@[j] == y@[j],
        decreases x.len() - i,
    {
        if x[i] != y[i] {
            return false;
        }
        i += 1;
    }
    proof {
        assert(x@ =~= y@);
        lemma_same_bytes_same_text(a@, b@);
    }
    true
}

} // verus!
