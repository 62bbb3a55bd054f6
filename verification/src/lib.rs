//! Stack-based containers and a small arithmetic expression pipeline.
//!
//! The crate offers three generic containers — a LIFO [`stack::Stack`], a
//! bounded FIFO [`queue::Queue`] and a bounded double-ended [`deque::Deque`] —
//! together with the algorithms built on them: a bracket-balance validator,
//! an infix-to-postfix converter with operator precedence, a postfix
//! evaluator, a palindrome check and a circular-elimination game.

pub mod brackets;
pub mod calc;
pub mod deque;
pub mod hot_metal;
pub mod palindrome;
pub mod queue;
pub mod stack;
