//! A NEAR light client for an IBC-style host: header verification with
//! stake-weighted signature aggregation, misbehaviour detection, and
//! Merkle-Patricia trie proof verification against chunk state roots.

use vstd::prelude::*;

pub mod client_state;
pub mod codec;
pub mod consensus_state;
pub mod error;
pub mod hash;
pub mod header;
pub mod height;
pub mod laws;
pub mod membership;
pub mod merkle;
pub mod misbehaviour;
pub mod signature;
pub mod store;
pub mod trie;
pub mod update_client;
pub mod validator;

verus! {

/// Identifier of this client kind inside an IBC host.
pub fn client_type() -> (r: String)
    ensures
        r@ == "12-near"@,
{
    let s: String = "12-near".to_string();
    s
}

} // verus!
