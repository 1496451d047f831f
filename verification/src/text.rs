//! Lines of a text, and decimal rendering of counters, plain and with
//! thousands separators.

use vstd::prelude::*;

verus! {

/// Equality of string slices, `str::eq` of std: it holds exactly when the two
/// slices hold the same characters.
pub assume_specification[ <str as PartialEq>::eq ](a: &str, b: &str) -> (same: bool)
    ensures
        same == (a@ == b@),
;

/// The byte that ends a line.
pub const LINE_FEED: u8 = 10;

/// How many line feeds a text holds.
pub open spec fn line_feeds(content: Seq<u8>) -> nat
    decreases content.len(),
{
    if content.len() == 0 {
        0
    } else if content.last() == LINE_FEED {
        line_feeds(content.drop_last()) + 1
    } else {
        line_feeds(content.drop_last())
    }
}

/// How many lines a text has: one for each line feed, and one more for what
/// follows the last line feed, if anything does.
pub open spec fn line_count(content: Seq<u8>) -> nat {
    if content.len() > 0 && content.last() != LINE_FEED {
        line_feeds(content) + 1
    } else {
        line_feeds(content)
    }
}

/// A text has no more line feeds than bytes.
pub proof fn lemma_line_feeds_bound(content: Seq<u8>)
    ensures
        line_feeds(content) <= content.len(),
    decreases content.len(),
{
    if content.len() > 0 {
        lemma_line_feeds_bound(content.drop_last());
    }
}

/// Counts the lines of a text.
pub fn count_lines(content: &[u8]) -> (lines: usize)
    ensures
        lines == line_count(content@),
{
    let mut lines: usize = 0;
    let mut i: usize = 0;
    while i < content.len()
        invariant
            i <= content.len(),
            lines == line_feeds(content@.take(i as int)),
        decreases content.len() - i,
    {
        proof {
            assert(content@.take(i + 1).drop_last() =~= content@.take(i as int));
            lemma_line_feeds_bound(content@.take(i + 1));
        }
        if content[i] == LINE_FEED {
            lines = lines + 1;
        }
        i = i + 1;
    }
    assert(content@.take(i as int) =~= content@);
    if content.len() > 0 && content[content.len() - 1] != LINE_FEED {
        proof {
            lemma_line_feeds_bound(content@.drop_last());
        }
        lines = lines + 1;
    }
    lines
}

/// The character that writes the digit `d`.
pub open spec fn digit(d: nat) -> char {
    if d == 0 {
        '0'
    } else if d == 1 {
        '1'
    } else if d == 2 {
        '2'
    } else if d == 3 {
        '3'
    } else if d == 4 {
        '4'
    } else if d == 5 {
        '5'
    } else if d == 6 {
        '6'
    } else if d == 7 {
        '7'
    } else if d == 8 {
        '8'
    } else {
        '9'
    }
}

/// The decimal numeral of `n`: no sign, no leading zero, `"0"` for zero.
pub open spec fn decimal(n: nat) -> Seq<char>
    decreases n,
{
    if n < 10 {
        seq![digit(n)]
    } else {
        decimal(n / 10).push(digit(n % 10))
    }
}

/// The three digits of `n % 1000`, leading zeros kept.
pub open spec fn triple(n: nat) -> Seq<char> {
    seq![digit(n / 100 % 10), digit(n / 10 % 10), digit(n % 10)]
}

/// The decimal numeral of `n` with a comma between groups of three digits,
/// counted from the least significant digit.
pub open spec fn grouped(n: nat) -> Seq<char>
    decreases n,
{
    if n < 1000 {
        decimal(n)
    } else {
        grouped(n / 1000) + seq![','] + triple(n % 1000)
    }
}

/// The text without its commas.
pub open spec fn without_commas(text: Seq<char>) -> Seq<char>
    decreases text.len(),
{
    if text.len() == 0 {
        text
    } else if text.last() == ',' {
        without_commas(text.drop_last())
    } else {
        without_commas(text.drop_last()).push(text.last())
    }
}

/// Taking the commas out of two texts in a row is taking them out of each.
pub proof fn lemma_without_commas_add(first: Seq<char>, second: Seq<char>)
    ensures
        without_commas(first + second) == without_commas(first) + without_commas(second),
    decreases second.len(),
{
    if second.len() > 0 {
        lemma_without_commas_add(first, second.drop_last());
        assert((first + second).drop_last() =~= first + second.drop_last());
    }
}

/// A plain numeral holds digits only, at most three below a thousand.
pub proof fn lemma_decimal_is_plain(n: nat)
    ensures
        without_commas(decimal(n)) == decimal(n),
        decimal(n).len() >= 1,
        n < 10 ==> decimal(n).len() == 1,
        n < 100 ==> decimal(n).len() <= 2,
        n < 1000 ==> decimal(n).len() <= 3,
        forall|i: int| 0 <= i < decimal(n).len() ==> decimal(n)[i] != ',',
    decreases n,
{
    if n < 10 {
        reveal_with_fuel(without_commas, 2);
    } else {
        lemma_decimal_is_plain(n / 10);
        assert(decimal(n).drop_last() =~= decimal(n / 10));
    }
}

/// From a thousand on, the plain numeral ends in the three digits of the
/// remainder.
pub proof fn lemma_decimal_split(n: nat)
    requires
        n >= 1000,
    ensures
        decimal(n) == decimal(n / 1000) + triple(n % 1000),
{
    assert(n / 10 / 10 == n / 100 && n / 100 / 10 == n / 1000);
    assert(decimal(n / 10) == decimal(n / 100).push(digit(n / 10 % 10)));
    assert(decimal(n / 100) == decimal(n / 1000).push(digit(n / 100 % 10)));
}

/// The grouped numeral is the plain one with commas put in: without them
/// it is the plain numeral.
pub proof fn lemma_grouped_digits(n: nat)
    ensures
        without_commas(grouped(n)) == decimal(n),
    decreases n,
{
    if n < 1000 {
        lemma_decimal_is_plain(n);
    } else {
        lemma_grouped_digits(n / 1000);
        lemma_decimal_split(n);
        let tail = seq![','] + triple(n % 1000);
        assert(grouped(n) =~= grouped(n / 1000) + tail);
        lemma_without_commas_add(grouped(n / 1000), tail);
        assert(without_commas(tail) =~= triple(n % 1000)) by {
            reveal_with_fuel(without_commas, 5);
            assert(tail.drop_last().drop_last() =~= seq![','] + triple(
                n % 1000,
            ).drop_last().drop_last());
        }
    }
}

/// The commas of the grouped numeral stand before every run of three
/// characters counted from the end, and nowhere else; none stands first.
pub proof fn lemma_grouped_commas(n: nat)
    ensures
        grouped(n).len() % 4 != 0,
        forall|i: int|
            0 <= i < grouped(n).len() ==> (grouped(n)[i] == ',' <==> (grouped(n).len() - i) % 4
                == 0),
    decreases n,
{
    if n < 1000 {
        lemma_decimal_is_plain(n);
    } else {
        lemma_grouped_commas(n / 1000);
        let head = grouped(n / 1000);
        assert forall|i: int| 0 <= i < grouped(n).len() implies (grouped(n)[i] == ',' <==> (
        grouped(n).len() - i) % 4 == 0) by {
            if i < head.len() {
                assert(grouped(n)[i] == head[i]);
            }
        }
    }
}

/// The one-character string of a digit.
fn digit_str(d: usize) -> (s: &'static str)
    requires
        d < 10,
    ensures
        s@ == seq![digit(d as nat)],
{
    proof {
        reveal_strlit("0");
        reveal_strlit("1");
        reveal_strlit("2");
        reveal_strlit("3");
        reveal_strlit("4");
        reveal_strlit("5");
        reveal_strlit("6");
        reveal_strlit("7");
        reveal_strlit("8");
        reveal_strlit("9");
    }
    let s = if d == 0 {
        "0"
    } else if d == 1 {
        "1"
    } else if d == 2 {
        "2"
    } else if d == 3 {
        "3"
    } else if d == 4 {
        "4"
    } else if d == 5 {
        "5"
    } else if d == 6 {
        "6"
    } else if d == 7 {
        "7"
    } else if d == 8 {
        "8"
    } else {
        "9"
    };
    s
}

/// Writes `n` in decimal.
pub fn decimal_string(n: usize) -> (s: String)
    ensures
        s@ == decimal(n as nat),
    decreases n,
{
    if n < 10 {
        digit_str(n).to_owned()
    } else {
        let mut s = decimal_string(n / 10);
        s.append(digit_str(n % 10));
        s
    }
}

/// Writes `n` in decimal with thousands separators: `1234567` gives
/// `"1,234,567"`, `42` gives `"42"`.
pub fn format_integer(n: usize) -> (s: String)
    ensures
        s@ == grouped(n as nat),
    decreases n,
{
    if n < 1000 {
        decimal_string(n)
    } else {
        let low = n % 1000;
        let mut s = format_integer(n / 1000);
        proof {
            reveal_strlit(",");
        }
        s.append(",");
        s.append(digit_str(low / 100 % 10));
        s.append(digit_str(low / 10 % 10));
        s.append(digit_str(low % 10));
        s
    }
}

} // verus!
