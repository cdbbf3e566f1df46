//! The logic of the PezkuwiChain pallets, each modelled as a state machine over its storage.
//!
//! Every pallet is a struct holding its storage items as plain values; every dispatchable and
//! hook is a method with a contract. Calls into other pallets (currencies, NFTs, trust scores,
//! message transport) stay with the caller: what they answer is passed in, and what they are
//! asked to do is handed back.
pub mod arith;
pub mod pez_treasury;
pub mod scale;
pub mod presale;
pub mod identity_kyc;
pub mod referral;
pub mod pez_rewards;
pub mod perwerde;
pub mod messaging;
pub mod ping;
pub mod collective_content;
