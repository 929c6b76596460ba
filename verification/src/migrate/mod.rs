//! Moving stored series between layouts and ids.
//!
//! * [`shards`]: what both id migrations share: which shards move, how a move is
//!   verified, how it is journaled.
//! * [`quote_basis`]: from a stablecoin quote to the storage quote.
//! * [`phantom`]: from fallback ids to resolved ids.
//! * [`sharded`]: from flat files to daily shards.

pub mod phantom;
pub mod quote_basis;
pub mod sharded;
pub mod shards;
