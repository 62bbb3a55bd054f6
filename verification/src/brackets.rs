//! Bracket-balance validation.
//!
//! A text is balanced when every closing bracket matches the most recently
//! opened bracket of the same kind and no opener stays unclosed. Matching
//! goes by position parity: an opener and a closer belong together exactly
//! when they sit at the same index in their respective alphabets `({[` and
//! `)}]`. Characters that are not brackets are ignored.

use vstd::prelude::*;
use crate::stack::Stack;

verus! {

/// True for `(`, `[` and `{`.
pub open spec fn is_opening(c: char) -> bool {
    c == '(' || c == '[' || c == '{'
}

/// True for `)`, `]` and `}`.
pub open spec fn is_closing(c: char) -> bool {
    c == ')' || c == ']' || c == '}'
}

/// Index of an opener in the alphabet `({[`, if any.
pub open spec fn open_index(c: char) -> Option<int> {
    if c == '(' {
        Some(0int)
    } else if c == '{' {
        Some(1int)
    } else if c == '[' {
        Some(2int)
    } else {
        None
    }
}

/// Index of a closer in the alphabet `)}]`, if any.
pub open spec fn close_index(c: char) -> Option<int> {
    if c == ')' {
        Some(0int)
    } else if c == '}' {
        Some(1int)
    } else if c == ']' {
        Some(2int)
    } else {
        None
    }
}

/// Position-parity match: the opener's index equals the closer's index.
pub open spec fn bracket_matches(open: char, close: char) -> bool {
    open_index(open) == close_index(close)
}

/// The opener that belongs to a closer.
pub open spec fn opener_of(c: char) -> char {
    if c == ')' {
        '('
    } else if c == ']' {
        '['
    } else {
        '{'
    }
}

/// Balance of `s` given the already open brackets in `pending`, most recent
/// last: an opener is pushed, a closer must match the most recent opener,
/// other characters pass through, and at the end nothing may stay open.
pub open spec fn bal_from(s: Seq<char>, pending: Seq<char>) -> bool
    decreases s.len(),
{
    if s.len() == 0 {
        pending.len() == 0
    } else {
        let c = s[0];
        if is_opening(c) {
            bal_from(s.drop_first(), pending.push(c))
        } else if is_closing(c) {
            pending.len() > 0 && bracket_matches(pending.last(), c) && bal_from(
                s.drop_first(),
                pending.drop_last(),
            )
        } else {
            bal_from(s.drop_first(), pending)
        }
    }
}

/// A text is balanced when it balances starting from no open bracket.
pub open spec fn is_balanced_text(s: Seq<char>) -> bool {
    bal_from(s, Seq::empty())
}

/// Whether `open` and `close` sit at the same index of their alphabets.
/// Characters outside both alphabets share the absent index, as the
/// position-parity rule has it.
pub fn par_match(open: char, close: char) -> (r: bool)
    ensures
        r == bracket_matches(open, close),
{
    let a: i32 = match open {
        '(' => 0,
        '{' => 1,
        '[' => 2,
        _ => -1,
    };
    let b: i32 = match close {
        ')' => 0,
        '}' => 1,
        ']' => 2,
        _ => -1,
    };
    a == b
}

/// Scans the text left to right with a stack of open brackets and reports
/// whether it is balanced. Stops scanning once a failure is certain.
pub fn par_checker(par: &str) -> (r: bool)
    ensures
        r == is_balanced_text(par@),
{
    let n = par.unicode_len();
    let mut balance = true;
    let mut stack: Stack<char> = Stack::new();
    let mut index: usize = 0;
    proof {
        assert(par@.skip(0) =~= par@);
    }
    while index < n && balance
        invariant
            n == par@.len(),
            index <= n,
            balance ==> (is_balanced_text(par@) <==> bal_from(par@.skip(index as int), stack@)),
            !balance ==> !is_balanced_text(par@),
        decreases n - index,
    {
        let c = par.get_char(index);
        proof {
            assert(par@.skip(index as int)[0] == c);
            assert(par@.skip(index as int).drop_first() =~= par@.skip(index as int + 1));
        }
        if '(' == c || '[' == c || '{' == c {
            stack.push(c);
        }
        if ')' == c || ']' == c || '}' == c {
            if stack.is_empty() {
                balance = false;
            } else {
                let top = stack.pop().unwrap();
                if !par_match(top, c) {
                    balance = false;
                }
            }
        }
        index += 1;
    }
    proof {
        if balance && index == n {
            assert(par@.skip(n as int) =~= Seq::<char>::empty());
        }
    }
    balance && stack.is_empty()
}

/// Reports whether every closing bracket in `text` has a correctly nested,
/// correctly typed opener and no opener stays unclosed.
pub fn is_balanced(text: &str) -> (r: bool)
    ensures
        r == is_balanced_text(text@),
{
    par_checker(text)
}

/// Number of occurrences of `c` in `s`.
pub open spec fn char_count(s: Seq<char>, c: char) -> int
    decreases s.len(),
{
    if s.len() == 0 {
        0
    } else {
        (if s[0] == c {
            1int
        } else {
            0int
        }) + char_count(s.drop_first(), c)
    }
}

pub(crate) proof fn lemma_char_count_push(s: Seq<char>, x: char, c: char)
    ensures
        char_count(s.push(x), c) == char_count(s, c) + (if x == c {
            1int
        } else {
            0int
        }),
    decreases s.len(),
{
    assert(s.push(x).len() == s.len() + 1);
    if s.len() == 0 {
        assert(s.push(x)[0] == x);
        assert(s.push(x).drop_first() =~= Seq::<char>::empty());
        assert(char_count(Seq::<char>::empty(), c) == 0);
    } else {
        assert(s.push(x)[0] == s[0]);
        assert(s.push(x).drop_first() =~= s.drop_first().push(x));
        lemma_char_count_push(s.drop_first(), x, c);
    }
}

proof fn lemma_char_count_insert(s: Seq<char>, i: int, x: char, c: char)
    requires
        0 <= i <= s.len(),
    ensures
        char_count(s.insert(i, x), c) == char_count(s, c) + (if x == c {
            1int
        } else {
            0int
        }),
    decreases s.len(),
{
    if i == 0 {
        assert(s.insert(0, x)[0] == x);
        assert(s.insert(0, x).drop_first() =~= s);
    } else {
        assert(s.insert(i, x)[0] == s[0]);
        assert(s.insert(i, x).drop_first() =~= s.drop_first().insert(i - 1, x));
        lemma_char_count_insert(s.drop_first(), i - 1, x, c);
    }
}

/// In a text that balances from `pending`, closers of one kind are exactly
/// as frequent as openers of that kind, counting the openers still pending.
proof fn lemma_bal_counts(s: Seq<char>, pending: Seq<char>, o: char, c: char)
    requires
        bal_from(s, pending),
        is_opening(o),
        is_closing(c),
        bracket_matches(o, c),
    ensures
        char_count(s, c) == char_count(s, o) + char_count(pending, o),
    decreases s.len(),
{
    if s.len() > 0 {
        let h = s[0];
        if is_opening(h) {
            lemma_bal_counts(s.drop_first(), pending.push(h), o, c);
            lemma_char_count_push(pending, h, o);
        } else if is_closing(h) {
            lemma_bal_counts(s.drop_first(), pending.drop_last(), o, c);
            assert(pending =~= pending.drop_last().push(pending.last()));
            lemma_char_count_push(pending.drop_last(), pending.last(), o);
        } else {
            lemma_bal_counts(s.drop_first(), pending, o, c);
        }
    }
}

pub(crate) proof fn lemma_char_count_nonneg(s: Seq<char>, c: char)
    ensures
        char_count(s, c) >= 0,
    decreases s.len(),
{
    if s.len() > 0 {
        lemma_char_count_nonneg(s.drop_first(), c);
    }
}

/// Prefix balance of the round brackets alone: scanning left to right with
/// `k` round brackets currently open, no `)` may arrive while none is open.
pub open spec fn round_prefix_balanced(s: Seq<char>, k: int) -> bool
    decreases s.len(),
{
    if s.len() == 0 {
        true
    } else if s[0] == '(' {
        round_prefix_balanced(s.drop_first(), k + 1)
    } else if s[0] == ')' {
        k > 0 && round_prefix_balanced(s.drop_first(), k - 1)
    } else {
        round_prefix_balanced(s.drop_first(), k)
    }
}

/// A text that balances from `pending` keeps its round brackets
/// prefix-balanced, starting from the `(` count still pending.
pub(crate) proof fn lemma_balance_gives_round_prefix(s: Seq<char>, pending: Seq<char>)
    requires
        bal_from(s, pending),
    ensures
        round_prefix_balanced(s, char_count(pending, '(')),
    decreases s.len(),
{
    if s.len() > 0 {
        let c = s[0];
        if is_opening(c) {
            lemma_balance_gives_round_prefix(s.drop_first(), pending.push(c));
            lemma_char_count_push(pending, c, '(');
        } else if is_closing(c) {
            lemma_balance_gives_round_prefix(s.drop_first(), pending.drop_last());
            assert(pending =~= pending.drop_last().push(pending.last()));
            lemma_char_count_push(pending.drop_last(), pending.last(), '(');
            lemma_char_count_nonneg(pending.drop_last(), '(');
        } else {
            lemma_balance_gives_round_prefix(s.drop_first(), pending);
        }
    }
}

/// Inserting a single closing bracket anywhere into a balanced text makes it
/// unbalanced: the new closer can have no matching opener.
pub proof fn lemma_unmatched_closer(s: Seq<char>, i: int, c: char)
    requires
        is_balanced_text(s),
        is_closing(c),
        0 <= i <= s.len(),
    ensures
        !is_balanced_text(s.insert(i, c)),
{
    let o = opener_of(c);
    if is_balanced_text(s.insert(i, c)) {
        lemma_bal_counts(s, Seq::empty(), o, c);
        lemma_bal_counts(s.insert(i, c), Seq::empty(), o, c);
        lemma_char_count_insert(s, i, c, c);
        lemma_char_count_insert(s, i, c, o);
    }
}

} // verus!
