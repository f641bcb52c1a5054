//! Numbers in decimal.

use vstd::prelude::*;

verus! {

/// The decimal digit `d`.
pub open spec fn digit(d: int) -> char {
    if d == 0 {
        '0'
    } else if d == 1 {
        '1'
    } else if d == 2 {
        '2'
    } else if d == 3 {
        '3'
    } else if d == 4 {
        '4'
    } else if d == 5 {
        '5'
    } else if d == 6 {
        '6'
    } else if d == 7 {
        '7'
    } else if d == 8 {
        '8'
    } else {
        '9'
    }
}

/// `n` in decimal, without leading zeros.
pub open spec fn decimal(n: nat) -> Seq<char>
    decreases n,
{
    if n < 10 {
        seq![digit(n as int)]
    } else {
        decimal(n / 10).push(digit((n % 10) as int))
    }
}

/// The last `width` decimal digits of `n`, zeros in front.
pub open spec fn padded(n: nat, width: nat) -> Seq<char>
    decreases width,
{
    if width == 0 {
        Seq::empty()
    } else {
        padded(n / 10, (width - 1) as nat).push(digit((n % 10) as int))
    }
}

/// `n` in decimal, at least `width` digits wide, zeros in front.
pub open spec fn zero_padded(n: nat, width: nat) -> Seq<char> {
    if decimal(n).len() >= width {
        decimal(n)
    } else {
        padded(n, width)
    }
}

fn digit_of(d: u64) -> (r: char)
    requires
        d < 10,
    ensures
        r == digit(d as int),
{
    if d == 0 {
        '0'
    } else if d == 1 {
        '1'
    } else if d == 2 {
        '2'
    } else if d == 3 {
        '3'
    } else if d == 4 {
        '4'
    } else if d == 5 {
        '5'
    } else if d == 6 {
        '6'
    } else if d == 7 {
        '7'
    } else if d == 8 {
        '8'
    } else {
        '9'
    }
}

/// Appends `n` in decimal.
pub fn push_decimal(out: &mut String, n: u64)
    ensures
        final(out)@ == old(out)@ + decimal(n as nat),
    decreases n,
{
    if n >= 10 {
        push_decimal(out, n / 10);
    }
    let ghost before = out@;
    out.push(digit_of(n % 10));
    proof {
        if n >= 10 {
            assert(out@ =~= old(out)@ + decimal((n / 10) as nat).push(digit((n % 10) as int)));
        } else {
            assert(out@ =~= old(out)@ + decimal(n as nat));
        }
    }
}

/// Appends `n` in decimal with zeros in front up to `width` digits.
pub fn push_zero_padded(out: &mut String, n: u64, width: usize)
    ensures
        final(out)@ == old(out)@ + zero_padded(n as nat, width as nat),
{
    let mut digits = String::new();
    push_decimal(&mut digits, n);
    assert(digits@ =~= decimal(n as nat));
    let have = digits.as_str().unicode_len();
    if have >= width {
        out.append(digits.as_str());
    } else {
        let ghost before = out@;
        let mut i: usize = have;
        while i < width
            invariant
                have <= i <= width,
                out@ == before + Seq::new((i - have) as nat, |k: int| '0'),
            decreases width - i,
        {
            out.push('0');
            i += 1;
            assert(out@ =~= before + Seq::new((i - have) as nat, |k: int| '0'));
        }
        out.append(digits.as_str());
        proof {
            lemma_padded(n as nat, width as nat);
            assert(out@ =~= before + (Seq::new((width - have) as nat, |k: int| '0') + decimal(
                n as nat,
            )));
        }
    }
}

/// Padding is the decimal form behind zeros.
proof fn lemma_padded(n: nat, width: nat)
    requires
        decimal(n).len() <= width,
    ensures
        padded(n, width) == Seq::new((width - decimal(n).len()) as nat, |k: int| '0') + decimal(n),
    decreases width,
{
    let less = (width - 1) as nat;
    if n < 10 {
        if width == 1 {
            assert(padded(n / 10, 0) =~= Seq::<char>::empty());
        } else {
            lemma_padded(0, less);
            assert(n / 10 == 0 && n % 10 == n);
            assert(decimal(0) == seq!['0']);
        }
        assert(padded(n, width) =~= Seq::new((width - decimal(n).len()) as nat, |k: int| '0')
            + decimal(n));
    } else {
        lemma_padded(n / 10, less);
        assert(padded(n, width) =~= Seq::new((width - decimal(n).len()) as nat, |k: int| '0')
            + decimal(n));
    }
}

/// The number that a text of decimal digits stands for.
pub open spec fn value_of(text: Seq<char>) -> int
    decreases text.len(),
{
    if text.len() == 0 {
        0
    } else {
        10 * value_of(text.drop_last()) + (text.last() as int - '0' as int)
    }
}

/// All characters are decimal digits.
pub open spec fn are_digits(text: Seq<char>) -> bool {
    forall|i: int| 0 <= i < text.len() ==> '0' <= #[trigger] text[i] <= '9'
}

/// A number in decimal reads back as the number, and has no zero in front.
pub proof fn law_decimals_read_back(n: nat)
    ensures
        are_digits(decimal(n)),
        value_of(decimal(n)) == n,
        decimal(n).len() >= 1,
        n >= 1 ==> decimal(n)[0] != '0',
        n < 10 ==> decimal(n).len() == 1,
        n >= 10 ==> decimal(n).len() >= 2,
    decreases n,
{
    if n < 10 {
        assert(decimal(n).drop_last() =~= Seq::<char>::empty());
        assert(value_of(decimal(n).drop_last()) == 0);
    } else {
        law_decimals_read_back(n / 10);
        let front = decimal(n / 10);
        assert(decimal(n).drop_last() =~= front);
        assert forall|i: int| 0 <= i < decimal(n).len() implies '0' <= #[trigger] decimal(n)[i]
            <= '9' by {
            if i < front.len() {
                assert(decimal(n)[i] == front[i]);
            }
        }
        assert(decimal(n)[0] == front[0]);
    }
}

/// A number with zeros in front reads back as the number, and is as wide as it
/// was asked to be, or as wide as the number is if that is more.
pub proof fn law_padded_numbers_read_back(n: nat, width: nat)
    ensures
        are_digits(zero_padded(n, width)),
        value_of(zero_padded(n, width)) == n,
        zero_padded(n, width).len() == (if decimal(n).len() < width {
            width
        } else {
            decimal(n).len()
        }),
{
    law_decimals_read_back(n);
    if decimal(n).len() < width {
        lemma_padded(n, width);
        let zeros = (width - decimal(n).len()) as nat;
        lemma_zeros_in_front(zeros, decimal(n));
        let text = zero_padded(n, width);
        let front = Seq::new(zeros, |k: int| '0');
        assert forall|i: int| 0 <= i < text.len() implies '0' <= #[trigger] text[i] <= '9' by {
            if i < zeros {
                assert(text[i] == front[i]);
            } else {
                assert(text[i] == decimal(n)[i - zeros]);
            }
        }
    }
}

proof fn lemma_zeros_in_front(zeros: nat, text: Seq<char>)
    ensures
        value_of(Seq::new(zeros, |k: int| '0') + text) == value_of(text),
    decreases zeros + text.len(),
{
    let front = Seq::new(zeros, |k: int| '0');
    if text.len() > 0 {
        lemma_zeros_in_front(zeros, text.drop_last());
        assert((front + text).drop_last() =~= front + text.drop_last());
    } else if zeros > 0 {
        let less = (zeros - 1) as nat;
        lemma_zeros_in_front(less, text);
        assert(front + text =~= front);
        assert(front.drop_last() =~= Seq::new(less, |k: int| '0') + text);
    } else {
        assert(front + text =~= text);
    }
}

/// Numbers below a power of ten have at most as many digits as its zeros.
pub proof fn law_small_numbers_are_short(n: nat)
    ensures
        n < 10 ==> decimal(n).len() == 1,
        10 <= n < 100 ==> decimal(n).len() == 2,
        100 <= n < 1_000 ==> decimal(n).len() == 3,
        1_000 <= n < 10_000 ==> decimal(n).len() == 4,
{
    reveal_with_fuel(decimal, 5);
}

} // verus!
