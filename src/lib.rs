//! A minimal HTTP request router and dispatcher.
//!
//! Route templates such as `/users/{id}` are parsed into patterns
//! ([`pattern`]), registered with a method and a handler reference in an
//! insertion-ordered table ([`router`]), and matched against requests: the
//! first registered route that fits wins, and its parameters are bound to the
//! path segments at their positions. The dispatcher ([`dispatch`]) calls the
//! bound handler and turns its outcome, or a miss, into a response.
pub mod dispatch;
pub mod pattern;
pub mod router;
