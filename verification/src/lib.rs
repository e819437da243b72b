//! GTP: a real-time game transport protocol — its verified core.
//!
//! The modules below hold the protocol's decision logic: anti-amplification
//! accounting, path validation, replay protection, RTT / one-way-delay
//! estimation, acknowledgement tracking and loss detection, fragment
//! reassembly and delivery de-duplication, the CUBIC window, pacing and
//! backpressure, route health, reports, the decision log and switching, the
//! hello rate limit, and the key schedule around the AEAD packet protector.
use vstd::prelude::*;

pub mod types;
pub mod anti_amplification;
pub mod state_machine;
pub mod text;
pub mod statm;
pub mod hex;
pub mod route;
pub mod report;
pub mod select;
pub mod decision_log;
pub mod decision_line;
pub mod switch;
pub mod replay;
pub mod rtt;
pub mod owd;
pub mod ack_tracker;
pub mod sent_packet;
pub mod loss_detector;
pub mod fragment;
pub mod primitives;
pub mod aead;
pub mod kdf;
pub mod handshake;
pub mod path_validator;
pub mod path_manager;
pub mod stateless_token;
pub mod io;
pub mod backpressure;
pub mod pacing;
pub mod events;
pub mod delivered;
pub mod hello_limit;
pub mod cubic;

verus! {

} // verus!

