//! Time-zone rules, and which offset from UTC they give.
//!
//! A zone's rules come as a table of recorded transitions, as a recurring
//! yearly rule, or as both: the rule then takes over where the table ends.
//! From either, this crate answers two questions. Which offset holds at an
//! instant? And which offsets may a wall-clock time stand for: none, where
//! the clock was put forward past it (a gap); two, where the clock was set
//! back over it (a fold); and one everywhere else.
//!
//! - [`shared`] holds the rules as plain records, generic over how text and
//!   tables are stored.
//! - [`tz`] holds the resolver: the classification of transitions, the
//!   evaluation of recurring rules, and the search.
//! - [`civil`] holds the calendar arithmetic that both rest on.
//! - [`access`] holds the two capabilities that stand between the algorithms
//!   and the storage: text to read, and a table to read by index.
//! - [`util`] holds a fixed-capacity string and the order of text.
//!
//! Nothing here allocates when a question is answered, and nothing is ever
//! changed once it is built.
pub mod access;
pub mod civil;
pub mod shared;
pub mod tz;
pub mod util;
