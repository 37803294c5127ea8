//! A streaming payments engine: client accounts, deposits, withdrawals and the
//! dispute lifecycle, with every balance rule stated and proved.

pub mod amount;
pub mod model;
pub mod engine;
pub mod io;
pub mod ledger;
