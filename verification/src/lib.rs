//! Dining philosophers: the rules of one dinner, stated and proved.
//!
//! A number of philosophers sit around a table with one fork between each
//! pair of neighbours. Each of them thinks, takes the two forks beside them,
//! eats, sleeps and thinks again, and starves when too long a time passes
//! between two meals. The first to starve raises a signal that sends all the
//! others home.
//!
//! The library holds what a philosopher decides: which fork to take first,
//! what to do next, when a meal is over and when all is lost. Waiting for a
//! fork, sleeping and writing lines out are left to the caller, who performs
//! each [`philosopher::Action`] that a philosopher asks for.
//!
//! [`dinner::Dinner`] puts a whole table together and lets the philosophers
//! take turns in any order. It is there that the laws of the table are
//! proved: no fork is ever in two hands, someone can always move, and once
//! the signal is raised everyone goes home.

pub mod clock;
pub mod dinner;
pub mod forks;
pub mod observation;
pub mod philosopher;
pub mod table;
pub mod timing;
