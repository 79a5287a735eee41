//! Core of a continuous media-streaming pipeline: fixed-size byte buffers are
//! recycled through a pool, filled with audio samples or pixel data, framed
//! into header-prefixed datagrams, and released for sending subject to a
//! credit budget that the receiver reports back in feedback datagrams.

pub mod audio;
pub mod button;
pub mod flow;
pub mod hub75;
pub mod packet;
pub mod pinmap;
pub mod pool;
pub mod video;

pub use flow::CreditState;
pub use flow::FlowController;
pub use flow::SendDecision;
