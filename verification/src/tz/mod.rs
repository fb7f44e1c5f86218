//! The resolver: which offset from UTC applies at an instant, and which
//! offsets a wall-clock time may stand for.
pub mod offset;
pub mod posix;
pub mod round_trip;
pub mod search;
pub mod tzif;
pub mod wall;
