pub mod asset_processor;
pub mod mempool_laws;
pub mod mempool_model;
pub mod mempool_service;
pub mod payload_processor;
pub mod payload_provider;

pub use asset_processor::AssetProcessor;
pub use mempool_service::{ConcreteMempoolService, MempoolService};
pub use payload_processor::{PayloadProcessor, TariDanPayloadProcessor};
pub use payload_provider::{PayloadProvider, TariDanPayloadProvider};
