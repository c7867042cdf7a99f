//! Frame-oriented analysis of span timing traces.
//!
//! A trace is a flat stream of timing records. Records whose span is named
//! `frame` open a frame; the records that follow belong to it until the next
//! frame opens. A small command language narrows and inspects the frames.

pub mod command;
pub mod duration;
pub mod frames;
pub mod inspect;
pub mod record;
pub mod session;
pub mod trace;
