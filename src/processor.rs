use vstd::prelude::*;
use crate::error::SdkResult;
use crate::resource::{Resource, Value};
use opentelemetry::InstrumentationScope;
use std::time::Duration;

verus! {

#[verifier::external_type_specification]
#[verifier::external_body]
pub struct ExInstrumentationScope(InstrumentationScope);

/// The scope that `InstrumentationScope::builder(name).build()` makes.
pub uninterp spec fn scope_of_name(name: Seq<char>) -> InstrumentationScope;

/// Relies on `InstrumentationScope::builder(name).build()`: a scope that
/// carries `name` and nothing else, depending on `name` alone.
#[verifier::external_body]
pub(crate) fn scope_named(name: String) -> (r: InstrumentationScope)
    ensures
        r == scope_of_name(name@),
{
    InstrumentationScope::builder(name).build()
}

/// A record on its way through the pipeline.
#[derive(Debug)]
pub struct LogRecord {
    pub body: Option<Value>,
}

impl LogRecord {
    /// A record with no body.
    pub fn new() -> (r: LogRecord)
        ensures
            r.body is None,
    {
        LogRecord { body: None }
    }
}

/// A stage of the pipeline. Implementations must tolerate calls from any
/// thread, and should honour the timeout they are given.
pub trait LogProcessor: Send + Sync {
    /// Receives each record emitted through a logger of the pipeline.
    fn emit(&self, record: &mut LogRecord, scope: &InstrumentationScope);

    /// Pushes out whatever the stage holds.
    fn force_flush(&self) -> SdkResult;

    /// Releases the stage's resources; called at most once by the pipeline.
    fn shutdown_with_timeout(&self, timeout: Duration) -> SdkResult {
        Ok(())
    }

    /// Hands the stage the pipeline's resource; called once, before any record.
    fn set_resource(&mut self, resource: &Resource) {
    }
}

/// The end of a pipeline that sends records somewhere.
pub trait LogExporter: Send + Sync {
    /// Sends one record.
    fn export(&self, record: &LogRecord, scope: &InstrumentationScope) -> SdkResult;

    /// Releases the exporter's resources.
    fn shutdown_with_timeout(&self, timeout: Duration) -> SdkResult {
        Ok(())
    }

    /// Hands the exporter the pipeline's resource.
    fn set_resource(&mut self, resource: &Resource) {
    }
}

/// A stage that hands each record to its exporter at once.
pub struct SimpleLogProcessor<E: LogExporter> {
    exporter: E,
}

impl<E: LogExporter> SimpleLogProcessor<E> {
    /// The exporter that records are handed to.
    pub closed spec fn exporter_spec(&self) -> E {
        self.exporter
    }

    pub fn new(exporter: E) -> (r: Self)
        ensures
            r.exporter_spec() == exporter,
    {
        SimpleLogProcessor { exporter }
    }
}

impl<E: LogExporter> LogProcessor for SimpleLogProcessor<E> {
    fn emit(&self, record: &mut LogRecord, scope: &InstrumentationScope) {
        let _ = self.exporter.export(record, scope);
    }

    fn force_flush(&self) -> SdkResult {
        Ok(())
    }

    fn shutdown_with_timeout(&self, timeout: Duration) -> SdkResult {
        self.exporter.shutdown_with_timeout(timeout)
    }

    fn set_resource(&mut self, resource: &Resource) {
        self.exporter.set_resource(resource);
    }
}

} // verus!
