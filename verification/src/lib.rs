//! Small, independent algorithms with machine-checked contracts: a stack made of two queues,
//! the largest prime factor of a number, and a handful of calculations on numbers, texts and
//! dates.

pub mod bignat;
pub mod calc_time;
pub mod calendar;
pub mod conjecture;
pub mod converter;
pub mod count_distinct;
pub mod fibonacci;
pub mod number_theory;
pub mod prime_factor;
pub mod queue_stack;
pub mod rec_mc;
pub mod retirement;
pub mod text;
