//! Number and column formatting.

use vstd::prelude::*;

verus! {

/// The character of one decimal digit.
pub open spec fn digit(d: int) -> char {
    (48 + d) as char
}

/// `n` in decimal, without leading zeros.
pub open spec fn decimal(n: nat) -> Seq<char>
    decreases n,
{
    if n < 10 {
        seq![digit(n as int)]
    } else {
        decimal(n / 10).push(digit((n % 10) as int))
    }
}

/// A number in decimal is made of digits only.
pub proof fn lemma_decimal_digits(n: nat)
    ensures
        forall|i: int| 0 <= i < decimal(n).len() ==> '0' <= #[trigger] decimal(n)[i] <= '9',
    decreases n,
{
    if n >= 10 {
        let front = decimal(n / 10);
        lemma_decimal_digits(n / 10);
        assert forall|i: int| 0 <= i < decimal(n).len() implies '0' <= #[trigger] decimal(n)[i]
            <= '9' by {
            if i < front.len() {
                assert(decimal(n)[i] == front[i]);
            }
        }
    }
}

/// `count` copies of `fill`.
pub open spec fn repeated(fill: char, count: int) -> Seq<char> {
    Seq::new(if count > 0 { count as nat } else { 0 }, |i: int| fill)
}

/// `s` filled up on the left to `width` characters; longer text is left alone.
pub open spec fn pad_left(s: Seq<char>, fill: char, width: int) -> Seq<char> {
    repeated(fill, width - s.len()) + s
}

/// `s` filled up on the right to `width` characters; longer text is left alone.
pub open spec fn pad_right(s: Seq<char>, fill: char, width: int) -> Seq<char> {
    s + repeated(fill, width - s.len())
}

/// `a` comes before `b` in the order of strings, or is the same.
pub open spec fn text_le(a: Seq<char>, b: Seq<char>) -> bool
    decreases a.len(),
{
    a.len() == 0 || (b.len() > 0 && (a[0] < b[0] || (a[0] == b[0] && text_le(
        a.skip(1),
        b.skip(1),
    ))))
}

/// Text that starts alike is ordered by how it goes on; text that starts differently, over the
/// same length, by how it starts.
pub proof fn lemma_text_le_add(a: Seq<char>, x: Seq<char>, b: Seq<char>, y: Seq<char>)
    requires
        a.len() == b.len(),
        text_le(a, b),
        a == b ==> text_le(x, y),
    ensures
        text_le(a + x, b + y),
        a != b || x != y ==> a + x != b + y,
    decreases a.len(),
{
    if a.len() == 0 {
        assert(a =~= b);
        assert(a + x =~= x);
        assert(b + y =~= y);
    } else {
        assert((a + x).skip(1) =~= a.skip(1) + x);
        assert((b + y).skip(1) =~= b.skip(1) + y);
        if a[0] == b[0] {
            if a.skip(1) == b.skip(1) {
                assert(a =~= seq![a[0]] + a.skip(1));
                assert(b =~= seq![b[0]] + b.skip(1));
            }
            lemma_text_le_add(a.skip(1), x, b.skip(1), y);
        }
        if a + x == b + y {
            assert((a + x)[0] == (b + y)[0]);
        }
    }
}

/// The last `width` digits of `n`.
spec fn last_digits(n: nat, width: nat) -> Seq<char>
    decreases width,
{
    if width == 0 {
        Seq::empty()
    } else {
        last_digits(n / 10, (width - 1) as nat).push(digit((n % 10) as int))
    }
}

/// Ten to the power of `width`.
pub open spec fn ten_to(width: nat) -> nat
    decreases width,
{
    if width == 0 {
        1
    } else {
        10 * ten_to((width - 1) as nat)
    }
}

/// Zeros all the way.
proof fn lemma_last_digits_of_zero(width: nat)
    ensures
        last_digits(0, width) == repeated('0', width as int),
    decreases width,
{
    if width > 0 {
        lemma_last_digits_of_zero((width - 1) as nat);
    }
    assert(last_digits(0, width) =~= repeated('0', width as int));
}

/// A number that fits is written with exactly its digits.
proof fn lemma_padded(n: nat, width: nat)
    requires
        width > 0,
        n < ten_to(width),
    ensures
        pad_left(decimal(n), '0', width as int) == last_digits(n, width),
        last_digits(n, width).len() == width,
    decreases width,
{
    let last = seq![digit((n % 10) as int)];
    let short = (width - 1) as nat;
    if n < 10 {
        lemma_last_digits_of_zero(short);
        assert(pad_left(decimal(n), '0', width as int) =~= last_digits(n, width));
    } else {
        assert(width >= 2) by {
            reveal_with_fuel(ten_to, 2);
        }
        lemma_padded(n / 10, short);
        assert(pad_left(decimal(n), '0', width as int) =~= pad_left(
            decimal(n / 10),
            '0',
            short as int,
        ) + last);
        assert(last_digits(n, width) =~= last_digits(n / 10, short) + last);
    }
}

proof fn lemma_last_digits_in_order(m: nat, n: nat, width: nat)
    requires
        m <= n < ten_to(width),
    ensures
        last_digits(m, width).len() == width,
        last_digits(n, width).len() == width,
        text_le(last_digits(m, width), last_digits(n, width)),
        m != n ==> last_digits(m, width) != last_digits(n, width),
    decreases width,
{
    if width > 0 {
        let short = (width - 1) as nat;
        lemma_last_digits_in_order(m / 10, n / 10, short);
        let a = last_digits(m / 10, short);
        let b = last_digits(n / 10, short);
        let x = seq![digit((m % 10) as int)];
        let y = seq![digit((n % 10) as int)];
        assert(last_digits(m, width) =~= a + x);
        assert(last_digits(n, width) =~= b + y);
        assert(x.skip(1) =~= Seq::empty());
        assert(m != n && x == y ==> a != b) by {
            assert(x[0] == digit((m % 10) as int) && y[0] == digit((n % 10) as int));
        }
        assert(x[0] <= y[0] ==> text_le(x, y)) by {
            reveal_with_fuel(text_le, 2);
        }
        lemma_text_le_add(a, x, b, y);
    }
}

/// Numbers that are padded to the same width are ordered as their text is.
pub proof fn lemma_padded_in_order(m: nat, n: nat, width: nat)
    requires
        width > 0,
        m <= n < ten_to(width),
    ensures
        pad_left(decimal(m), '0', width as int).len() == width,
        pad_left(decimal(n), '0', width as int).len() == width,
        text_le(pad_left(decimal(m), '0', width as int), pad_left(decimal(n), '0', width as int)),
        m != n ==> pad_left(decimal(m), '0', width as int) != pad_left(
            decimal(n),
            '0',
            width as int,
        ),
{
    lemma_padded(m, width);
    lemma_padded(n, width);
    lemma_last_digits_in_order(m, n, width);
}

/// The digit `d` as text.
fn digit_text(d: u64) -> (r: &'static str)
    requires
        d < 10,
    ensures
        r@ == seq![digit(d as int)],
{
    proof {
        reveal_strlit("0");
        reveal_strlit("1");
        reveal_strlit("2");
        reveal_strlit("3");
        reveal_strlit("4");
        reveal_strlit("5");
        reveal_strlit("6");
        reveal_strlit("7");
        reveal_strlit("8");
        reveal_strlit("9");
    }
    match d {
        0 => "0",
        1 => "1",
        2 => "2",
        3 => "3",
        4 => "4",
        5 => "5",
        6 => "6",
        7 => "7",
        8 => "8",
        _ => "9",
    }
}

/// Writes `n` in decimal.
pub fn decimal_text(n: u64) -> (r: String)
    ensures
        r@ == decimal(n as nat),
    decreases n,
{
    if n < 10 {
        String::from_str(digit_text(n))
    } else {
        let mut s = decimal_text(n / 10);
        s.append(digit_text(n % 10));
        s
    }
}

/// `count` copies of a one-character text.
fn repeat_text(fill: &str, count: usize) -> (r: String)
    requires
        fill@.len() == 1,
    ensures
        r@ == repeated(fill@[0], count as int),
{
    let mut out = String::new();
    let mut i: usize = 0;
    while i < count
        invariant
            i <= count,
            fill@.len() == 1,
            out@ == repeated(fill@[0], i as int),
        decreases count - i,
    {
        out.append(fill);
        i = i + 1;
        assert(out@ =~= repeated(fill@[0], i as int));
    }
    out
}

/// Right-aligns `s` in `width` columns.
pub fn align_right(s: &str, width: usize) -> (r: String)
    ensures
        r@ == pad_left(s@, ' ', width as int),
{
    proof {
        reveal_strlit(" ");
    }
    let len: usize = s.unicode_len();
    let mut out = repeat_text(" ", if len < width { width - len } else { 0 });
    out.append(s);
    out
}

/// Left-aligns `s` in `width` columns.
pub fn align_left(s: &str, width: usize) -> (r: String)
    ensures
        r@ == pad_right(s@, ' ', width as int),
{
    proof {
        reveal_strlit(" ");
    }
    let len: usize = s.unicode_len();
    let mut out = String::from_str(s);
    let fill = repeat_text(" ", if len < width { width - len } else { 0 });
    out.append(fill.as_str());
    out
}

/// Writes `n` in decimal with leading zeros up to `width` digits.
pub fn zero_padded(n: u64, width: usize) -> (r: String)
    ensures
        r@ == pad_left(decimal(n as nat), '0', width as int),
{
    proof {
        reveal_strlit("0");
    }
    let digits = decimal_text(n);
    let len: usize = digits.as_str().unicode_len();
    let mut out = repeat_text("0", if len < width { width - len } else { 0 });
    out.append(digits.as_str());
    out
}

/// The number that some digits spell.
pub open spec fn spelled(digits: Seq<char>) -> int
    decreases digits.len(),
{
    if digits.len() == 0 {
        0
    } else {
        10 * spelled(digits.drop_last()) + (digits.last() as int - '0' as int)
    }
}

/// A number in decimal spells that number, in digits only, and starts with a zero only if it is
/// zero.
pub proof fn law_decimal_reads_back(n: nat)
    ensures
        decimal(n).len() > 0,
        spelled(decimal(n)) == n,
        forall|i: int| 0 <= i < decimal(n).len() ==> '0' <= #[trigger] decimal(n)[i] <= '9',
        decimal(n)[0] == '0' ==> n == 0 && decimal(n).len() == 1,
    decreases n,
{
    lemma_decimal_digits(n);
    if n >= 10 {
        law_decimal_reads_back(n / 10);
        assert(decimal(n).drop_last() =~= decimal(n / 10));
        assert(decimal(n)[0] == decimal(n / 10)[0]);
    } else {
        reveal_with_fuel(spelled, 2);
        assert(decimal(n).drop_last() =~= Seq::empty());
    }
}

/// Padding fills text up to its width and no further, on its side only, and leaves the text whole.
pub proof fn law_padding_leaves_the_text_whole(s: Seq<char>, fill: char, width: int)
    ensures
        pad_left(s, fill, width).len() == if s.len() < width {
            width
        } else {
            s.len() as int
        },
        pad_right(s, fill, width).len() == pad_left(s, fill, width).len(),
        pad_left(s, fill, width).skip(pad_left(s, fill, width).len() - s.len()) == s,
        pad_right(s, fill, width).take(s.len() as int) == s,
        forall|i: int|
            0 <= i < pad_left(s, fill, width).len() - s.len() ==> #[trigger] pad_left(
                s,
                fill,
                width,
            )[i] == fill,
        forall|i: int|
            s.len() <= i < pad_right(s, fill, width).len() ==> #[trigger] pad_right(
                s,
                fill,
                width,
            )[i] == fill,
{
    assert(pad_left(s, fill, width).skip(pad_left(s, fill, width).len() - s.len()) =~= s);
    assert(pad_right(s, fill, width).take(s.len() as int) =~= s);
}

/// Padding a number with zeros does not change what it spells.
pub proof fn law_padded_numbers_read_back(n: nat, width: int)
    ensures
        spelled(pad_left(decimal(n), '0', width)) == n,
{
    law_decimal_reads_back(n);
    lemma_zeros_in_front(width - decimal(n).len(), decimal(n));
}

proof fn lemma_zeros_in_front(count: int, digits: Seq<char>)
    ensures
        spelled(repeated('0', count) + digits) == spelled(digits),
    decreases digits.len(), count,
{
    let all = repeated('0', count) + digits;
    if digits.len() > 0 {
        assert(all.drop_last() =~= repeated('0', count) + digits.drop_last());
        lemma_zeros_in_front(count, digits.drop_last());
    } else if count > 0 {
        assert(all.drop_last() =~= repeated('0', count - 1) + digits);
        lemma_zeros_in_front(count - 1, digits);
    } else {
        assert(all =~= digits);
    }
}

} // verus!
