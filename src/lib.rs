//! Lifecycle and pipeline coordination for log emission: a builder that
//! assembles an ordered list of log processors with a shared resource, a
//! clonable provider handle over shared pipeline state, and coordinated
//! shutdown that reaches every processor at most once.
pub mod error;
pub mod resource;
pub mod processor;
pub mod lifecycle;
pub mod provider;

pub use error::{SdkError, SdkResult};
pub use processor::{LogExporter, LogProcessor, LogRecord, SimpleLogProcessor};
pub use lifecycle::ProcessorCall;
pub use provider::{noop_logger_provider, LoggerProviderBuilder, SdkLogger, SdkLoggerProvider};
pub use resource::{KeyValue, Resource, Value};
