//! The UTXO engine: the live collection with its MuHash commitment,
//! incremental diffs, immutable views, and read-only inquiry.

pub mod utxo_collection;
pub mod utxo_diff;
pub mod utxo_error;
pub mod utxo_inquirer;
pub mod utxo_view;

pub use utxo_collection::{OutPoint, Utxo, UtxoCollection};
pub use utxo_diff::UtxoDiff;
pub use utxo_error::UtxoError;
pub use utxo_inquirer::{UtxoInquirer, UtxoInquirerError};
pub use utxo_view::UtxoView;
