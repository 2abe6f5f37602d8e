pub mod error;

pub use error::StoreAndForwardError;
