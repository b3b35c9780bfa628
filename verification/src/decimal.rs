//! Indices as decimal text: reading the digits between the braces of a
//! placeholder, and writing an index back.

use vstd::prelude::*;
use vstd::string::*;

verus! {

/// `c` is one of the ten ASCII digits.
pub open spec fn is_digit(c: char) -> bool {
    '0' <= c <= '9'
}

/// The value of an ASCII digit; 0 for any other character.
pub open spec fn digit_value(c: char) -> nat {
    if is_digit(c) {
        (c as nat - '0' as nat) as nat
    } else {
        0
    }
}

/// The number that a sequence of digits denotes in base 10.
pub open spec fn decimal_value(s: Seq<char>) -> nat
    decreases s.len(),
{
    if s.len() == 0 {
        0
    } else {
        decimal_value(s.drop_last()) * 10 + digit_value(s.last())
    }
}

/// `s` is a run of ASCII digits that does not start with `0`.
pub open spec fn is_index_text(s: Seq<char>) -> bool {
    &&& s.len() > 0
    &&& s[0] != '0'
    &&& forall|i: int| 0 <= i < s.len() ==> is_digit(#[trigger] s[i])
}

/// The index that the text between the braces of a placeholder denotes, if
/// it is an index that a `usize` can hold.
pub open spec fn index_of_text(s: Seq<char>) -> Option<usize> {
    if is_index_text(s) && decimal_value(s) <= usize::MAX {
        Some(decimal_value(s) as usize)
    } else {
        None
    }
}

/// A longer run of digits denotes no smaller a number than any of its prefixes.
pub proof fn lemma_decimal_value_prefix(s: Seq<char>, k: int)
    requires
        0 <= k <= s.len(),
    ensures
        decimal_value(s.take(k)) <= decimal_value(s),
    decreases s.len(),
{
    if k == s.len() {
        assert(s.take(k) =~= s);
    } else {
        assert(s.drop_last().take(k) =~= s.take(k));
        lemma_decimal_value_prefix(s.drop_last(), k);
    }
}

/// Reads the text between the braces of a placeholder as an index.
pub fn parse_index(digits: &str) -> (res: Option<usize>)
    ensures
        res == index_of_text(digits@),
{
    let n: usize = digits.unicode_len();
    if n == 0 {
        return None;
    }
    if digits.get_char(0) == '0' {
        return None;
    }
    let mut acc: usize = 0;
    let mut i: usize = 0;
    while i < n
        invariant
            n == digits@.len(),
            0 <= i <= n,
            acc == decimal_value(digits@.take(i as int)),
            forall|j: int| 0 <= j < i ==> is_digit(#[trigger] digits@[j]),
        decreases n - i,
    {
        let c: char = digits.get_char(i);
        if !(c >= '0' && c <= '9') {
            return None;
        }
        let d: usize = (c as u32 - '0' as u32) as usize;
        proof {
            assert(digits@.take(i + 1).drop_last() =~= digits@.take(i as int));
            assert(digits@.take(i + 1).last() == c);
            assert(d == digit_value(c));
            lemma_decimal_value_prefix(digits@, i + 1);
        }
        if acc > (usize::MAX - d) / 10 {
            return None;
        }
        acc = acc * 10 + d;
        i = i + 1;
    }
    proof {
        assert(digits@.take(n as int) =~= digits@);
    }
    Some(acc)
}

/// The character that writes the digit `d`.
pub open spec fn digit_char(d: nat) -> char {
    if d == 0 {
        '0'
    } else if d == 1 {
        '1'
    } else if d == 2 {
        '2'
    } else if d == 3 {
        '3'
    } else if d == 4 {
        '4'
    } else if d == 5 {
        '5'
    } else if d == 6 {
        '6'
    } else if d == 7 {
        '7'
    } else if d == 8 {
        '8'
    } else {
        '9'
    }
}

/// `n` written in base 10, without leading zeros.
pub open spec fn decimal_text(n: nat) -> Seq<char>
    decreases n,
{
    if n < 10 {
        seq![digit_char(n)]
    } else {
        decimal_text(n / 10).push(digit_char(n % 10))
    }
}

/// The one-character string that writes the digit `d`.
fn digit_str(d: usize) -> (res: &'static str)
    requires
        d < 10,
    ensures
        res@ == seq![digit_char(d as nat)],
{
    proof {
        reveal_strlit("0");
        reveal_strlit("1");
        reveal_strlit("2");
        reveal_strlit("3");
        reveal_strlit("4");
        reveal_strlit("5");
        reveal_strlit("6");
        reveal_strlit("7");
        reveal_strlit("8");
        reveal_strlit("9");
    }
    let res = if d == 0 {
        "0"
    } else if d == 1 {
        "1"
    } else if d == 2 {
        "2"
    } else if d == 3 {
        "3"
    } else if d == 4 {
        "4"
    } else if d == 5 {
        "5"
    } else if d == 6 {
        "6"
    } else if d == 7 {
        "7"
    } else if d == 8 {
        "8"
    } else {
        "9"
    };
    assert(res@ =~= seq![digit_char(d as nat)]);
    res
}

/// Writes `n` in base 10.
pub fn decimal_string(n: usize) -> (res: String)
    ensures
        res@ == decimal_text(n as nat),
    decreases n,
{
    if n < 10 {
        String::from_str(digit_str(n))
    } else {
        let mut s = decimal_string(n / 10);
        s.append(digit_str(n % 10));
        assert(s@ =~= decimal_text(n as nat));
        s
    }
}

/// What is written for `n` in base 10 is a run of digits that denotes `n`
/// and, for `n` above 0, does not start with `0`.
pub proof fn lemma_decimal_text_value(n: nat)
    ensures
        decimal_value(decimal_text(n)) == n,
        decimal_text(n).len() > 0,
        forall|i: int| 0 <= i < decimal_text(n).len() ==> is_digit(#[trigger] decimal_text(n)[i]),
        n > 0 ==> decimal_text(n)[0] != '0',
    decreases n,
{
    let t = decimal_text(n);
    if n < 10 {
        assert(t.drop_last() =~= Seq::empty());
        assert(decimal_value(t.drop_last()) == 0);
        assert(t.last() == digit_char(n));
        assert(digit_value(digit_char(n)) == n);
    } else {
        lemma_decimal_text_value(n / 10);
        assert(t.drop_last() =~= decimal_text(n / 10));
        assert(t.last() == digit_char(n % 10));
        assert(digit_value(digit_char(n % 10)) == n % 10);
        assert(t[0] == decimal_text(n / 10)[0]);
        assert forall|i: int| 0 <= i < t.len() implies is_digit(#[trigger] t[i]) by {
            if i < t.len() - 1 {
                assert(t[i] == decimal_text(n / 10)[i]);
            }
        }
    }
}

/// Reading what was written gives the index back: the pattern of the pass
/// for an index holds the very text that the index was read from.
pub proof fn lemma_index_text_round_trip(n: usize)
    requires
        n >= 1,
    ensures
        index_of_text(decimal_text(n as nat)) == Some(n),
{
    lemma_decimal_text_value(n as nat);
}

/// A run of digits that does not start with `0` denotes at least 1.
pub proof fn lemma_index_text_positive(s: Seq<char>)
    requires
        is_index_text(s),
    ensures
        decimal_value(s) >= 1,
    decreases s.len(),
{
    let front = s.drop_last();
    if front.len() == 0 {
        assert(decimal_value(front) == 0);
        assert(s.last() == s[0]);
    } else {
        assert(front[0] == s[0]);
        assert forall|i: int| 0 <= i < front.len() implies is_digit(#[trigger] front[i]) by {
            assert(front[i] == s[i]);
        }
        lemma_index_text_positive(front);
    }
}

/// There is one way to write an index: a run of digits that does not start
/// with `0` is what its value is written as in base 10.
pub proof fn lemma_index_text_unique(s: Seq<char>)
    requires
        is_index_text(s),
    ensures
        decimal_text(decimal_value(s)) == s,
    decreases s.len(),
{
    let front = s.drop_last();
    let c = s.last();
    assert(c == s[s.len() - 1]);
    assert(is_digit(c));
    assert(digit_char(digit_value(c)) == c);
    if front.len() == 0 {
        assert(decimal_value(front) == 0);
        assert(decimal_text(decimal_value(s)) =~= s);
    } else {
        assert(front[0] == s[0]);
        assert forall|i: int| 0 <= i < front.len() implies is_digit(#[trigger] front[i]) by {
            assert(front[i] == s[i]);
        }
        lemma_index_text_positive(front);
        lemma_index_text_unique(front);
        let v = decimal_value(front);
        let n = decimal_value(s);
        assert(n == v * 10 + digit_value(c));
        assert(n / 10 == v);
        assert(n % 10 == digit_value(c));
        assert(decimal_text(n) =~= s);
    }
}

} // verus!
