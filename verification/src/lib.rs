//! Conformance oracles for the Stratum V2 mining protocol.
//!
//! An oracle takes an implementation through some steps and says whether what it did is
//! what the protocol asks for. Each has three parts. A plain value, the run, holds what was
//! seen. An ordered list of rules says what must hold of a run; a function `judge_*` names
//! the first rule that a run breaks. A function `observe_*` makes the calls into the
//! implementation, and `check_*` puts the two together.
//!
//! - On the wire: [`frames`], [`messages`], [`roundtrip`], [`stream`], [`structure`] and
//!   [`codes`].
//! - Connections: [`setup`], [`noise`] and [`transport`].
//! - Extranonces: [`slots`] and [`allocator`].
//! - Mining: [`merkle`], [`jobs`], [`shares`], [`trials`], [`tips`], [`targets`],
//!   [`channel`] and [`lifecycle`].
//! - Underneath: [`bytes`], [`rules`], and [`json`], which makes values of bytes.

pub mod allocator;
pub mod bytes;
pub mod channel;
pub mod codes;
pub mod frames;
pub mod jobs;
pub mod json;
pub mod lifecycle;
pub mod merkle;
pub mod messages;
pub mod noise;
pub mod roundtrip;
pub mod rules;
pub mod setup;
pub mod shares;
pub mod slots;
pub mod stream;
pub mod structure;
pub mod targets;
pub mod tips;
pub mod transport;
pub mod trials;
