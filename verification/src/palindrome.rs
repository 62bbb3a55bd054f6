//! Palindrome check.
//!
//! A text is a palindrome when the characters at the same distance from
//! both ends are equal. The check loads the characters into a deque and
//! compares the two ends pairwise, working inwards.

use vstd::prelude::*;
use crate::deque::Deque;

verus! {

/// Whether `s` reads the same forwards and backwards.
pub open spec fn is_palindrome(s: Seq<char>) -> bool {
    forall|i: int| 0 <= i < s.len() ==> #[trigger] s[i] == s[s.len() - 1 - i]
}

/// Reports whether the text is a palindrome.
#[verifier::loop_isolation(false)]
pub fn palindrome_checker(pal: &str) -> (r: bool)
    ensures
        r == is_palindrome(pal@),
{
    let ghost s = pal@;
    let n = pal.unicode_len();
    let mut d: Deque<char> = Deque::new(n);
    for i in 0..n
        invariant
            d@ == s.take(i as int),
            d.cap() == n,
    {
        let _ = d.add_rear(pal.get_char(i));
        proof {
            assert(d@ =~= s.take(i as int + 1));
        }
    }
    proof {
        assert(s.take(n as int) =~= s);
    }
    let mut is_pal = true;
    let ghost mut pairs: int = 0;
    while d.len() > 1 && is_pal
        invariant
            is_pal ==> 0 <= pairs,
            is_pal ==> 2 * pairs + d@.len() == n,
            is_pal ==> d@ == s.subrange(pairs, n - pairs),
            is_pal ==> forall|j: int| 0 <= j < pairs ==> #[trigger] s[j] == s[n - 1 - j],
            !is_pal ==> !is_palindrome(s),
        decreases d@.len(),
    {
        let ghost within = d@;
        let head = match d.remove_front() {
            Some(c) => c,
            None => {
                proof {
                    assert(false);
                }
                ' '
            },
        };
        let tail = match d.remove_rear() {
            Some(c) => c,
            None => {
                proof {
                    assert(false);
                }
                ' '
            },
        };
        proof {
            assert(head == s[pairs]);
            assert(tail == within.drop_first().last());
            assert(tail == s[n - 1 - pairs]);
        }
        if head != tail {
            is_pal = false;
            proof {
                assert(!is_palindrome(s)) by {
                    if is_palindrome(s) {
                        assert(s[pairs] == s[n - 1 - pairs]);
                    }
                }
            }
        } else {
            proof {
                pairs = pairs + 1;
                assert(d@ =~= s.subrange(pairs, n - pairs));
            }
        }
    }
    proof {
        if is_pal {
            assert forall|j: int| 0 <= j < n implies #[trigger] s[j] == s[n - 1 - j] by {
                if j < pairs {
                } else if n - 1 - j < pairs {
                    assert(s[n - 1 - j] == s[n - 1 - (n - 1 - j)]);
                } else {
                    assert(pairs <= j && pairs <= n - 1 - j);
                    assert(n - 2 * pairs <= 1);
                    assert(j == n - 1 - j);
                }
            }
        }
    }
    is_pal
}

} // verus!
