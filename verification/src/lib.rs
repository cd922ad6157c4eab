pub mod association;
pub mod bytes;
pub mod chunk;
pub mod dtls;
pub mod engine;
pub mod net;
pub mod peer;
pub mod primitives;
pub mod resequencer;
pub mod rtp;
pub mod sctp;
pub mod srtp;
pub mod stun;
pub mod track;
