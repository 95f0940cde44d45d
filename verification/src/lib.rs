//! JAS: the decision logic of a self-hosted iOS sideloading server.
//!
//! The library holds what the server decides: certificate expiry arithmetic
//! and the labels shown for it, the rules of the device/app/job registry,
//! the refresh scheduler's choices, IPA metadata extraction and the
//! validation of requests coming from the web portal, and the sealing of
//! the secrets it keeps.

pub mod text;
pub mod duration;
pub mod records;
pub mod clock;
pub mod expiry;
pub mod labels;
pub mod order;
pub mod seqs;
pub mod registry;
pub mod ipa;
pub mod upload;
pub mod sideload;
pub mod requests;
pub mod scheduler;
pub mod portal;
pub mod login;
pub mod vault;
