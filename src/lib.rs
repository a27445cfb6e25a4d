//! Conversion between text and its tryte encoding: every supported character
//! becomes two symbols of the 27-symbol tryte alphabet.
pub mod alphabet;
pub mod symbol_table;
pub mod trytes_converter;

pub use trytes_converter::{to_string, to_trytes, TryteConverterError};
