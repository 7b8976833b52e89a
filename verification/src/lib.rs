//! The measuring and selecting core of a network time client.
//!
//! Time values are fixed-point numbers in units of 2^-32 seconds
//! ([`time_types`]). A response of a server is shaped into a measurement and
//! passed through the clock filter, which condenses the last measurements of
//! one source into a single statistic ([`filter`]). The selector keeps the
//! sources whose uncertainty intervals agree on a common point ([`select`]).
//! The tasks that poll a server ([`source`]) or listen to a local reference
//! clock ([`sock`]) leave the waiting to their caller and decide here what
//! to do with what came.

pub mod decimal;
pub mod filter;
pub mod order;
pub mod packet;
pub mod peer;
pub mod roots;
pub mod seconds;
pub mod select;
pub mod sock;
pub mod sorting;
pub mod source;
pub mod system;
pub mod time_types;
