//! A verified model of two invoice-and-budget ledgers: `KitaLedger`, which
//! splits each paid invoice over a worker's allocation buckets, and `Kwagee`,
//! which first sets aside everything above a fixed budget as savings.

pub mod order;
pub mod registry;
pub mod error;
pub mod buckets;
pub mod invoice;
pub mod id_lists;
pub mod tables;
pub mod kita_ledger;
pub mod kwagee;
