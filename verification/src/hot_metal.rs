//! Circular-elimination game.
//!
//! A group of players stands in a circle and passes a hot piece of metal.
//! After `num` passes the player holding it is eliminated; the rounds repeat
//! until one player remains, the winner. The circle is modelled by a queue:
//! a pass moves the front player to the rear, an elimination removes the
//! front player.

use vstd::prelude::*;
use vstd::arithmetic::div_mod::lemma_mod_multiples_vanish;
use vstd::arithmetic::div_mod::lemma_small_mod;
use crate::queue::Queue;

verus! {

/// The circle after `n` passes: everything shifts left by `n` positions,
/// wrapping around.
pub open spec fn rotate_n<T>(s: Seq<T>, n: int) -> Seq<T> {
    if s.len() == 0 {
        s
    } else {
        Seq::new(s.len(), |i: int| s[(i + n) % (s.len() as int)])
    }
}

/// The player left after repeatedly passing `num` times and eliminating the
/// front player, until only one remains.
pub open spec fn survivor<T>(s: Seq<T>, num: int) -> T
    recommends
        s.len() >= 1,
    decreases s.len(),
{
    if s.len() <= 1 {
        s[0]
    } else {
        survivor(rotate_n(s, num).drop_first(), num)
    }
}

proof fn lemma_rotate_step<T>(s: Seq<T>, k: int)
    requires
        s.len() >= 1,
        k >= 0,
    ensures
        rotate_n(s, k + 1) == rotate_n(s, k).drop_first().push(rotate_n(s, k).first()),
{
    let n = s.len() as int;
    lemma_mod_multiples_vanish(1, k, n);
    assert(rotate_n(s, k + 1) =~= rotate_n(s, k).drop_first().push(rotate_n(s, k).first()));
}

/// Plays the game on the given players, the first name starting with the
/// metal, and returns the winner: the survivor of the elimination circle.
#[verifier::loop_isolation(false)]
pub fn hot_metal<'a>(names: Vec<&'a str>, num: usize) -> (winner: &'a str)
    requires
        names@.len() >= 1,
    ensures
        winner == survivor(names@, num as int),
{
    let n = names.len();
    let mut q: Queue<&str> = Queue::new(n);
    for i in 0..n
        invariant
            q@ == names@.take(i as int),
            q.cap() == n,
    {
        let _ = q.enqueue(names[i]);
        proof {
            assert(q@ =~= names@.take(i as int + 1));
        }
    }
    proof {
        assert(names@.take(n as int) =~= names@);
    }
    while q.len() > 1
        invariant
            1 <= q@.len() <= q.cap(),
            q.cap() == n,
            survivor(q@, num as int) == survivor(names@, num as int),
        decreases q@.len(),
    {
        let ghost round0 = q@;
        let mut k: usize = 0;
        proof {
            let len = round0.len() as int;
            assert forall|i: int| 0 <= i < len implies #[trigger] ((i + 0) % len) == i by {
                lemma_small_mod(i as nat, round0.len());
            }
            assert(q@ =~= rotate_n(round0, 0));
        }
        while k < num
            invariant
                k <= num,
                q.cap() == n,
                2 <= round0.len() <= n,
                q@ == rotate_n(round0, k as int),
            decreases num - k,
        {
            let name = match q.dequeue() {
                Some(v) => v,
                None => {
                    proof {
                        assert(false);
                    }
                    ""
                },
            };
            let _ = q.enqueue(name);
            k += 1;
            proof {
                lemma_rotate_step(round0, k as int - 1);
            }
        }
        let _ = q.dequeue();
    }
    match q.dequeue() {
        Some(v) => v,
        None => {
            proof {
                assert(false);
            }
            ""
        },
    }
}

} // verus!
