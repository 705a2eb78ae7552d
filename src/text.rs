//! The display text of a game: decimal numbers and the grid rows.

use vstd::prelude::*;
use vstd::string::*;

verus! {

/// The decimal digit character for `d` in `0..10`.
pub open spec fn digit_char(d: int) -> char {
    if d == 0 {
        '0'
    } else if d == 1 {
        '1'
    } else if d == 2 {
        '2'
    } else if d == 3 {
        '3'
    } else if d == 4 {
        '4'
    } else if d == 5 {
        '5'
    } else if d == 6 {
        '6'
    } else if d == 7 {
        '7'
    } else if d == 8 {
        '8'
    } else {
        '9'
    }
}

/// The decimal notation of `n`, without leading zeros.
pub open spec fn decimal(n: nat) -> Seq<char>
    decreases n,
{
    if n < 10 {
        seq![digit_char(n as int)]
    } else {
        decimal(n / 10) + seq![digit_char((n % 10) as int)]
    }
}

/// A cell as the grid display shows it: right-aligned in two columns,
/// followed by a space.
pub open spec fn cell_text(v: int) -> Seq<char> {
    let d = if v < 0 {
        seq!['-'] + decimal((-v) as nat)
    } else {
        decimal(v as nat)
    };
    (if d.len() < 2 {
        seq![' ']
    } else {
        Seq::<char>::empty()
    }) + d + seq![' ']
}

/// The first `x` cells of row `y` as the grid display shows them.
pub open spec fn row_prefix_text(g: Seq<int>, y: int, x: int) -> Seq<char>
    decreases x,
{
    if x <= 0 {
        Seq::<char>::empty()
    } else {
        row_prefix_text(g, y, x - 1) + cell_text(g[4 * y + x - 1])
    }
}

/// The first `n` rows of the grid display, one line each.
pub open spec fn rows_text(g: Seq<int>, n: int) -> Seq<char>
    decreases n,
{
    if n <= 0 {
        Seq::<char>::empty()
    } else {
        rows_text(g, n - 1) + row_prefix_text(g, n - 1, 4) + seq!['\n']
    }
}

proof fn lemma_decimal_len(n: nat)
    ensures
        decimal(n).len() >= 1,
        decimal(n).len() == 1 <==> n < 10,
    decreases n,
{
    if n >= 10 {
        lemma_decimal_len(n / 10);
    }
}

/// The digit string for `d`.
fn digit_str(d: u64) -> (r: &'static str)
    requires
        d < 10,
    ensures
        r@ == seq![digit_char(d as int)],
{
    proof {
        reveal_strlit("0");
        reveal_strlit("1");
        reveal_strlit("2");
        reveal_strlit("3");
        reveal_strlit("4");
        reveal_strlit("5");
        reveal_strlit("6");
        reveal_strlit("7");
        reveal_strlit("8");
        reveal_strlit("9");
    }
    if d == 0 {
        "0"
    } else if d == 1 {
        "1"
    } else if d == 2 {
        "2"
    } else if d == 3 {
        "3"
    } else if d == 4 {
        "4"
    } else if d == 5 {
        "5"
    } else if d == 6 {
        "6"
    } else if d == 7 {
        "7"
    } else if d == 8 {
        "8"
    } else {
        "9"
    }
}

/// Appends the decimal notation of `n`.
pub(crate) fn push_decimal(s: &mut String, n: u64)
    ensures
        final(s)@ == old(s)@ + decimal(n as nat),
{
    let mut digits: Vec<u64> = Vec::new();
    let mut m: u64 = n;
    let ghost tail: Seq<char> = Seq::empty();
    while m >= 10
        invariant
            decimal(n as nat) == decimal(m as nat) + tail,
            tail.len() == digits@.len(),
            forall|k: int| 0 <= k < digits@.len() ==> #[trigger] digits@[k] < 10,
            forall|k: int|
                0 <= k < digits@.len() ==> tail[digits@.len() - 1 - k] == digit_char(
                    #[trigger] digits@[k] as int,
                ),
        decreases m,
    {
        proof {
            assert(decimal(m as nat) == decimal((m / 10) as nat) + seq![digit_char((m % 10) as int)]);
            assert(decimal((m / 10) as nat) + seq![digit_char((m % 10) as int)] + tail
                =~= decimal((m / 10) as nat) + (seq![digit_char((m % 10) as int)] + tail));
        }
        let ghost old_digits = digits@;
        let ghost old_tail = tail;
        digits.push(m % 10);
        proof {
            tail = seq![digit_char((m % 10) as int)] + tail;
            assert forall|k: int| 0 <= k < digits@.len() implies tail[digits@.len() - 1 - k]
                == digit_char(#[trigger] digits@[k] as int) by {
                if k < old_digits.len() {
                    assert(digits@[k] == old_digits[k]);
                    assert(tail[digits@.len() - 1 - k] == old_tail[old_digits.len() - 1 - k]);
                }
            }
        }
        m = m / 10;
    }
    s.append(digit_str(m));
    let ghost start = s@;
    let mut i: usize = digits.len();
    while i > 0
        invariant
            i <= digits@.len(),
            tail.len() == digits@.len(),
            forall|k: int| 0 <= k < digits@.len() ==> #[trigger] digits@[k] < 10,
            forall|k: int|
                0 <= k < digits@.len() ==> tail[digits@.len() - 1 - k] == digit_char(
                    #[trigger] digits@[k] as int,
                ),
            s@ == start + tail.take(digits@.len() - i),
        decreases i,
    {
        i -= 1;
        s.append(digit_str(digits[i]));
        proof {
            assert(tail.take(digits@.len() - i) =~= tail.take(digits@.len() - i - 1) + seq![
                digit_char(digits@[i as int] as int),
            ]);
        }
    }
    proof {
        assert(tail.take(tail.len() as int) =~= tail);
    }
}

/// Appends one cell as the grid display shows it.
pub(crate) fn push_cell(s: &mut String, v: i32)
    ensures
        final(s)@ == old(s)@ + cell_text(v as int),
{
    let ghost start = s@;
    let magnitude: u64 = if v < 0 {
        (-(v as i64)) as u64
    } else {
        v as u64
    };
    proof {
        lemma_decimal_len(magnitude as nat);
        reveal_strlit(" ");
        reveal_strlit("-");
    }
    if v >= 0 && v < 10 {
        s.append(" ");
    }
    if v < 0 {
        s.append("-");
    }
    push_decimal(s, magnitude);
    s.append(" ");
    proof {
        let d = if v < 0 {
            seq!['-'] + decimal((-v) as nat)
        } else {
            decimal(v as nat)
        };
        if v < 0 {
            assert(s@ =~= start + (Seq::<char>::empty() + d + seq![' ']));
        } else if v < 10 {
            assert(s@ =~= start + (seq![' '] + d + seq![' ']));
        } else {
            assert(s@ =~= start + (Seq::<char>::empty() + d + seq![' ']));
        }
    }
}

} // verus!
