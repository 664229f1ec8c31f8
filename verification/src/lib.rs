//! A sans-I/O ICE agent: candidate bookkeeping, pair formation, the STUN
//! connectivity-check protocol, pacing, nomination and connection state.
//!
//! The agent performs no socket I/O. The host feeds it datagrams and clock
//! ticks and drains the transmit and event queues.

pub mod time;
pub mod addr;
pub mod bytes;
pub mod crypto;
pub mod crc;
pub mod candidate;
pub mod stun;
pub mod pair;
pub mod wire;
pub mod roundtrip;
pub mod seqs;
pub mod checklist;
pub mod model;
pub mod entropy;
pub mod tables;
pub mod laws;
pub mod unique;
pub mod twice;
pub mod keeping;
pub mod behaviour;
pub mod agent;
pub mod stats;

pub use addr::{IpAddr, SocketAddr};
pub use agent::{Datagram, IceAgent, IceAgentEvent, Receive, Transmit};
pub use candidate::{Candidate, CandidateKind, IceError};
pub use crypto::{sha1_hmac, CryptoProvider};
pub use entropy::IceCreds;
pub use model::IceConnectionState;
pub use pair::{CandidatePair, CheckState};
pub use stats::{BitsCount, MediaBytes, Stats, StatsDelta, StatsSnapshot};
pub use stun::{StunClass, StunError, StunMessage, TransId};
pub use time::{smallest, Duration, Instant};
