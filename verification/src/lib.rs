//! Verified engine of a keyboard-layout sidecar service.
//!
//! The library discovers installed input layouts from three unreliable
//! sources, reconciles them into one deduplicated catalog, and routes
//! switch requests to the right underlying mechanism by the shape of the
//! layout identifier.  All OS, COM and subprocess work stays outside; the
//! library works on plain values handed in from that boundary.

pub mod catalog;
pub mod errors;
pub mod guid;
pub mod hexnum;
pub mod ident;
pub mod legacy;
pub mod namer;
pub mod proto;
pub mod text;
pub mod tool;
pub mod tsf;
