//! Claim-authorization pipeline of a reward relayer.
//!
//! A claim request is turned into a canonical, signable text; the signer of
//! that text is recovered and compared with the claiming user; the loosely
//! typed request is decoded into the binary arguments of the settlement call.
//! Every function here is verified; the few calls into `alloy` and
//! `serde_json` stand behind wrappers whose contracts are stated, not proved.

pub mod authority;
mod bindings;
pub mod canonical;
pub mod codec;
pub mod decode;
pub mod json;
pub mod order;
pub mod pipeline;
pub mod request;
pub mod sorting;
pub mod text;
pub mod token_map;
