use opentelemetry::InstrumentationScope;
use otel_logs_core::provider::noop_logger_provider;
use otel_logs_core::{
    KeyValue, LogExporter, LogProcessor, LogRecord, Resource, SdkError, SdkLoggerProvider, SdkResult,
    Value,
};
use std::sync::atomic::{AtomicU64, Ordering};
use std::sync::{Arc, Mutex};
use std::time::Duration;

struct ShutdownTestLogProcessor {
    is_shutdown: Arc<Mutex<bool>>,
    counter: Arc<AtomicU64>,
}

impl ShutdownTestLogProcessor {
    fn new(counter: Arc<AtomicU64>) -> Self {
        ShutdownTestLogProcessor { is_shutdown: Arc::new(Mutex::new(false)), counter }
    }
}

impl LogProcessor for ShutdownTestLogProcessor {
    fn emit(&self, _data: &mut LogRecord, _scope: &InstrumentationScope) {
        let is_shutdown = self.is_shutdown.lock().expect("lock poisoned");
        if !*is_shutdown {
            self.counter.fetch_add(1, Ordering::SeqCst);
        }
    }

    fn force_flush(&self) -> SdkResult {
        Ok(())
    }

    fn shutdown_with_timeout(&self, _timeout: Duration) -> SdkResult {
        *self.is_shutdown.lock().expect("lock poisoned") = true;
        Ok(())
    }
}

struct LazyLogProcessor {
    shutdown_called: Arc<Mutex<bool>>,
    flush_called: Arc<Mutex<bool>>,
}

impl LogProcessor for LazyLogProcessor {
    fn emit(&self, _data: &mut LogRecord, _scope: &InstrumentationScope) {}

    fn force_flush(&self) -> SdkResult {
        *self.flush_called.lock().unwrap() = true;
        Ok(())
    }

    fn shutdown_with_timeout(&self, _timeout: Duration) -> SdkResult {
        *self.shutdown_called.lock().unwrap() = true;
        Ok(())
    }
}

struct CountingShutdownProcessor {
    shutdown_count: Arc<Mutex<i32>>,
    flush_called: Arc<Mutex<bool>>,
}

impl LogProcessor for CountingShutdownProcessor {
    fn emit(&self, _data: &mut LogRecord, _scope: &InstrumentationScope) {}

    fn force_flush(&self) -> SdkResult {
        *self.flush_called.lock().unwrap() = true;
        Ok(())
    }

    fn shutdown_with_timeout(&self, _timeout: Duration) -> SdkResult {
        *self.shutdown_count.lock().unwrap() += 1;
        Ok(())
    }
}

/// Writes every call it receives, tagged with its name, into a shared journal.
struct JournalProcessor {
    name: &'static str,
    fail: bool,
    journal: Arc<Mutex<Vec<String>>>,
}

impl JournalProcessor {
    fn new(name: &'static str, fail: bool, journal: &Arc<Mutex<Vec<String>>>) -> Self {
        JournalProcessor { name, fail, journal: journal.clone() }
    }

    fn outcome(&self) -> SdkResult {
        if self.fail {
            Err(SdkError::InternalFailure(format!("{} failed", self.name)))
        } else {
            Ok(())
        }
    }
}

impl LogProcessor for JournalProcessor {
    fn emit(&self, _data: &mut LogRecord, _scope: &InstrumentationScope) {
        self.journal.lock().unwrap().push(format!("emit {}", self.name));
    }

    fn force_flush(&self) -> SdkResult {
        self.journal.lock().unwrap().push(format!("flush {}", self.name));
        self.outcome()
    }

    fn shutdown_with_timeout(&self, timeout: Duration) -> SdkResult {
        self.journal.lock().unwrap().push(format!("shutdown {} {}", self.name, timeout.as_secs()));
        self.outcome()
    }

    fn set_resource(&mut self, resource: &Resource) {
        self.journal.lock().unwrap().push(format!("resource {} {}", self.name, resource.len()));
    }
}

#[derive(Clone, Default)]
struct InMemoryExporter {
    emitted: Arc<Mutex<Vec<(Option<Value>, String)>>>,
    shutdowns: Arc<Mutex<u32>>,
}

impl LogExporter for InMemoryExporter {
    fn export(&self, record: &LogRecord, scope: &InstrumentationScope) -> SdkResult {
        self.emitted.lock().unwrap().push((record.body.clone(), scope.name().to_string()));
        Ok(())
    }

    fn shutdown_with_timeout(&self, _timeout: Duration) -> SdkResult {
        *self.shutdowns.lock().unwrap() += 1;
        Ok(())
    }
}

fn record_with(body: &str) -> LogRecord {
    let mut r = LogRecord::new();
    r.body = Some(Value::Str(body.to_string()));
    r
}

fn kv(k: &str, v: &str) -> KeyValue {
    KeyValue::new(k.to_string(), Value::Str(v.to_string()))
}

fn journal_of(j: &Arc<Mutex<Vec<String>>>) -> Vec<String> {
    j.lock().unwrap().clone()
}

#[test]
fn shutdown_test() {
    let counter = Arc::new(AtomicU64::new(0));
    let logger_provider = SdkLoggerProvider::builder()
        .with_log_processor(ShutdownTestLogProcessor::new(counter.clone()))
        .build();

    let logger1 = logger_provider.logger("test-logger1".to_string());
    let logger2 = logger_provider.logger("test-logger2".to_string());
    logger1.emit(LogRecord::new());
    logger2.emit(LogRecord::new());

    let logger3 = logger_provider.logger("test-logger3".to_string());
    logger3.emit(LogRecord::new());

    let _ = logger_provider.shutdown();
    logger1.emit(LogRecord::new());

    assert_eq!(counter.load(Ordering::SeqCst), 3);
}

#[test]
fn shutdown_idempotent_test() {
    let counter = Arc::new(AtomicU64::new(0));
    let logger_provider = SdkLoggerProvider::builder()
        .with_log_processor(ShutdownTestLogProcessor::new(counter.clone()))
        .build();

    let shutdown_res = logger_provider.shutdown();
    assert!(shutdown_res.is_ok());

    let shutdown_res = logger_provider.shutdown();
    assert!(shutdown_res.is_err());

    let shutdown_res = logger_provider.shutdown();
    assert!(shutdown_res.is_err());
}

#[test]
fn global_shutdown_test() {
    let shutdown_called = Arc::new(Mutex::new(false));
    let flush_called = Arc::new(Mutex::new(false));
    let logger_provider = SdkLoggerProvider::builder()
        .with_log_processor(LazyLogProcessor {
            shutdown_called: shutdown_called.clone(),
            flush_called: flush_called.clone(),
        })
        .build();
    let logger1 = logger_provider.logger("test-logger1".to_string());
    let logger2 = logger_provider.logger("test-logger2".to_string());

    logger1.emit(LogRecord::new());
    logger2.emit(LogRecord::new());

    let _ = logger_provider.shutdown();

    assert!(*shutdown_called.lock().unwrap());
    assert!(!*flush_called.lock().unwrap());
}

#[test]
fn drop_test_with_multiple_providers() {
    let shutdown_called = Arc::new(Mutex::new(false));
    let flush_called = Arc::new(Mutex::new(false));
    {
        let shared = SdkLoggerProvider::builder()
            .with_log_processor(LazyLogProcessor {
                shutdown_called: shutdown_called.clone(),
                flush_called: flush_called.clone(),
            })
            .build();
        {
            let logger_provider1 = shared.clone();
            let logger_provider2 = shared.clone();

            let logger1 = logger_provider1.logger("test-logger1".to_string());
            let logger2 = logger_provider2.logger("test-logger2".to_string());

            logger1.emit(LogRecord::new());
            logger2.emit(LogRecord::new());

            assert!(!logger_provider1.release().0);
            assert!(!logger_provider2.release().0);
            assert!(!*shutdown_called.lock().unwrap());
        }
        // The loggers issued above are gone, so `shared` is the last handle.
        assert!(shared.release().0);
    }
    assert!(*shutdown_called.lock().unwrap());
    assert!(!*flush_called.lock().unwrap());
}

#[test]
fn drop_after_shutdown_test_with_multiple_providers() {
    let shutdown_called = Arc::new(Mutex::new(0));
    let flush_called = Arc::new(Mutex::new(false));

    let shared = SdkLoggerProvider::builder()
        .with_log_processor(CountingShutdownProcessor {
            shutdown_count: shutdown_called.clone(),
            flush_called: flush_called.clone(),
        })
        .build();

    {
        let logger_provider1 = shared.clone();
        let logger_provider2 = shared.clone();

        let shutdown_result = logger_provider1.shutdown();
        println!("---->Result: {shutdown_result:?}");
        assert!(shutdown_result.is_ok());

        assert_eq!(*shutdown_called.lock().unwrap(), 1);

        let shutdown_result2 = logger_provider2.shutdown();
        assert!(shutdown_result2.is_err());

        let _ = logger_provider1.release();
        let _ = logger_provider2.release();
    }
    let _ = shared.release();

    assert_eq!(*shutdown_called.lock().unwrap(), 1);
}

#[test]
fn test_empty_logger_name() {
    let exporter = InMemoryExporter::default();
    let logger_provider = SdkLoggerProvider::builder()
        .with_simple_exporter(exporter.clone())
        .build();
    let logger = logger_provider.logger(String::new());
    logger.emit(record_with("Testing empty logger name"));

    let scope = InstrumentationScope::builder("").build();
    let scoped_logger = logger_provider.logger_with_scope(scope);
    scoped_logger.emit(record_with("Testing empty logger scope name"));

    let mut emitted_logs = exporter.emitted.lock().unwrap().clone();
    assert_eq!(emitted_logs.len(), 2);
    let log1 = emitted_logs.remove(0);
    assert_eq!(log1.0, Some(Value::Str("Testing empty logger name".to_string())));
    assert_eq!(log1.1, "");

    let log2 = emitted_logs.remove(0);
    assert_eq!(log2.0, Some(Value::Str("Testing empty logger scope name".to_string())));
    assert_eq!(log2.1, "");
}

#[test]
fn with_resource_multiple_calls_ensure_additive() {
    let builder = SdkLoggerProvider::builder()
        .with_resource(Resource::new(vec![kv("key1", "value1")]))
        .with_resource(Resource::new(vec![kv("key2", "value2")]))
        .with_resource(Resource::from_schema_url(vec![], Some("http://example.com".to_string())))
        .with_resource(Resource::new(vec![kv("key3", "value3")]));

    let resource = builder.resource().unwrap();

    assert_eq!(resource.get(&"key1".to_string()), Some(Value::Str("value1".to_string())));
    assert_eq!(resource.get(&"key2".to_string()), Some(Value::Str("value2".to_string())));
    assert_eq!(resource.get(&"key3".to_string()), Some(Value::Str("value3".to_string())));
    assert_eq!(resource.schema_url(), Some("http://example.com".to_string()));
}

#[test]
fn shutdown_reaches_every_processor_once_in_order_despite_failure() {
    let journal = Arc::new(Mutex::new(Vec::new()));
    let provider = SdkLoggerProvider::builder()
        .with_log_processor(JournalProcessor::new("a", false, &journal))
        .with_log_processor(JournalProcessor::new("b", true, &journal))
        .with_log_processor(JournalProcessor::new("c", false, &journal))
        .build();
    journal.lock().unwrap().clear();

    let r = provider.shutdown();
    assert!(matches!(r, Err(SdkError::InternalFailure(_))));
    assert_eq!(journal_of(&journal), vec!["shutdown a 5", "shutdown b 5", "shutdown c 5"]);
}

#[test]
fn shutdown_with_no_processors_succeeds_once() {
    let provider = SdkLoggerProvider::builder().build();
    assert!(provider.shutdown().is_ok());
    assert!(matches!(provider.shutdown(), Err(SdkError::AlreadyShutdown)));
}

#[test]
fn second_shutdown_calls_no_processor() {
    let journal = Arc::new(Mutex::new(Vec::new()));
    let provider = SdkLoggerProvider::builder()
        .with_log_processor(JournalProcessor::new("a", true, &journal))
        .build();
    journal.lock().unwrap().clear();

    assert!(provider.shutdown_with_timeout(Duration::from_secs(2)).is_err());
    assert_eq!(journal_of(&journal), vec!["shutdown a 2"]);
    let again = provider.shutdown_with_timeout(Duration::from_secs(2));
    assert!(matches!(again, Err(SdkError::AlreadyShutdown)));
    assert_eq!(journal_of(&journal).len(), 1);
}

#[test]
fn release_of_last_handle_runs_one_sweep() {
    let journal = Arc::new(Mutex::new(Vec::new()));
    let provider = SdkLoggerProvider::builder()
        .with_log_processor(JournalProcessor::new("a", true, &journal))
        .with_log_processor(JournalProcessor::new("b", false, &journal))
        .build();
    journal.lock().unwrap().clear();
    let other = provider.clone();
    assert!(!other.release().0);
    assert!(journal_of(&journal).is_empty());
    assert!(provider.release().0);
    assert_eq!(journal_of(&journal), vec!["shutdown a 5", "shutdown b 5"]);
}

#[test]
fn release_after_shutdown_calls_nothing() {
    let journal = Arc::new(Mutex::new(Vec::new()));
    let provider = SdkLoggerProvider::builder()
        .with_log_processor(JournalProcessor::new("a", false, &journal))
        .build();
    assert!(provider.shutdown().is_ok());
    journal.lock().unwrap().clear();
    assert!(!provider.release().0);
    assert!(journal_of(&journal).is_empty());
}

#[test]
fn logger_after_shutdown_reaches_no_processor() {
    let counter = Arc::new(AtomicU64::new(0));
    let provider = SdkLoggerProvider::builder()
        .with_log_processor(ShutdownTestLogProcessor::new(counter.clone()))
        .build();
    provider.logger("before".to_string()).emit(LogRecord::new());
    assert_eq!(counter.load(Ordering::SeqCst), 1);
    assert!(provider.shutdown().is_ok());

    let journal = Arc::new(Mutex::new(Vec::new()));
    let watched = SdkLoggerProvider::builder()
        .with_log_processor(JournalProcessor::new("a", false, &journal))
        .build();
    assert!(watched.shutdown().is_ok());
    journal.lock().unwrap().clear();
    let late = watched.logger("late".to_string());
    late.emit(LogRecord::new());
    late.emit(LogRecord::new());
    assert!(journal_of(&journal).is_empty());
    assert_eq!(counter.load(Ordering::SeqCst), 1);
}

#[test]
fn logger_issued_before_shutdown_still_emits() {
    let journal = Arc::new(Mutex::new(Vec::new()));
    let provider = SdkLoggerProvider::builder()
        .with_log_processor(JournalProcessor::new("a", false, &journal))
        .build();
    let first = provider.logger("one".to_string());
    let second = provider.logger("two".to_string());
    first.emit(LogRecord::new());
    second.emit(LogRecord::new());
    assert_eq!(journal_of(&journal), vec!["resource a 0", "emit a", "emit a"]);

    assert!(provider.shutdown().is_ok());
    assert_eq!(journal_of(&journal).iter().filter(|l| l.starts_with("shutdown")).count(), 1);

    first.emit(LogRecord::new());
    assert_eq!(journal_of(&journal).last().unwrap(), "emit a");
    assert_eq!(journal_of(&journal).iter().filter(|l| *l == "emit a").count(), 3);
}

#[test]
fn force_flush_before_and_after_shutdown() {
    let journal = Arc::new(Mutex::new(Vec::new()));
    let provider = SdkLoggerProvider::builder()
        .with_log_processor(JournalProcessor::new("a", false, &journal))
        .with_log_processor(JournalProcessor::new("b", false, &journal))
        .build();
    journal.lock().unwrap().clear();
    assert!(provider.force_flush().is_ok());
    assert!(provider.force_flush().is_ok());
    // Flushing left the flag clear: the first shutdown still runs.
    assert!(provider.shutdown().is_ok());
    assert!(provider.force_flush().is_ok());
    assert!(matches!(provider.shutdown(), Err(SdkError::AlreadyShutdown)));
    assert_eq!(
        journal_of(&journal),
        vec![
            "flush a", "flush b", "flush a", "flush b", "shutdown a 5", "shutdown b 5", "flush a",
            "flush b"
        ]
    );
}

#[test]
fn force_flush_aggregates_failures() {
    let journal = Arc::new(Mutex::new(Vec::new()));
    let provider = SdkLoggerProvider::builder()
        .with_log_processor(JournalProcessor::new("a", true, &journal))
        .with_log_processor(JournalProcessor::new("b", true, &journal))
        .build();
    match provider.force_flush() {
        Err(SdkError::InternalFailure(text)) => {
            assert!(text.contains("a failed"));
            assert!(text.contains("b failed"));
        }
        other => panic!("unexpected {other:?}"),
    }
}

#[test]
fn build_hands_resource_to_each_processor_in_order() {
    let journal = Arc::new(Mutex::new(Vec::new()));
    let _provider = SdkLoggerProvider::builder()
        .with_resource(Resource::new(vec![kv("k1", "v1"), kv("k2", "v2")]))
        .with_log_processor(JournalProcessor::new("a", false, &journal))
        .with_log_processor(JournalProcessor::new("b", false, &journal))
        .build();
    assert_eq!(journal_of(&journal), vec!["resource a 2", "resource b 2"]);
}

#[test]
fn clone_shares_state() {
    let journal = Arc::new(Mutex::new(Vec::new()));
    let provider = SdkLoggerProvider::builder()
        .with_log_processor(JournalProcessor::new("a", false, &journal))
        .build();
    let copy = provider.clone();
    assert_eq!(copy.log_processors().len(), 1);
    assert!(copy.shutdown().is_ok());
    assert!(matches!(provider.shutdown(), Err(SdkError::AlreadyShutdown)));
}

#[test]
fn simple_exporter_receives_shutdown() {
    let exporter = InMemoryExporter::default();
    let provider = SdkLoggerProvider::builder()
        .with_simple_exporter(exporter.clone())
        .build();
    provider.logger("x".to_string()).emit(record_with("hello"));
    assert!(provider.shutdown().is_ok());
    assert_eq!(*exporter.shutdowns.lock().unwrap(), 1);
    assert_eq!(exporter.emitted.lock().unwrap()[0].1, "x");
}

#[test]
fn conclude_shutdown_without_the_flag_calls_nothing() {
    let journal = Arc::new(Mutex::new(Vec::new()));
    let provider = SdkLoggerProvider::builder()
        .with_log_processor(JournalProcessor::new("a", false, &journal))
        .build();
    journal.lock().unwrap().clear();
    let (r, _) = provider.conclude_shutdown(false, Duration::from_secs(1));
    assert!(matches!(r, Err(SdkError::AlreadyShutdown)));
    assert!(journal_of(&journal).is_empty());
    let (r, _) = provider.conclude_shutdown(true, Duration::from_secs(3));
    assert!(r.is_ok());
    assert_eq!(journal_of(&journal), vec!["shutdown a 3"]);
}

#[test]
fn issue_on_a_shut_down_flag_gives_an_inert_logger() {
    let journal = Arc::new(Mutex::new(Vec::new()));
    let provider = SdkLoggerProvider::builder()
        .with_log_processor(JournalProcessor::new("a", false, &journal))
        .build();
    journal.lock().unwrap().clear();
    let inert = provider.issue(true, InstrumentationScope::builder("x").build());
    inert.emit(LogRecord::new());
    assert!(journal_of(&journal).is_empty());
    let live = provider.issue(false, InstrumentationScope::builder("y").build());
    live.emit(LogRecord::new());
    assert_eq!(journal_of(&journal), vec!["emit a"]);
}

#[test]
fn noop_provider_is_already_shut_down() {
    let noop = noop_logger_provider();
    assert_eq!(noop.log_processors().len(), 0);
    assert!(noop.force_flush().is_ok());
    assert!(matches!(noop.shutdown(), Err(SdkError::AlreadyShutdown)));
}

#[test]
fn logger_release_is_the_last_handle() {
    let journal = Arc::new(Mutex::new(Vec::new()));
    let provider = SdkLoggerProvider::builder()
        .with_log_processor(JournalProcessor::new("a", false, &journal))
        .build();
    let logger = provider.logger("l".to_string());
    assert!(!provider.release().0);
    journal.lock().unwrap().clear();
    assert!(logger.release().0);
    assert_eq!(journal_of(&journal), vec!["shutdown a 5"]);
}

#[test]
fn flush_all_reports_each_failure() {
    let journal = Arc::new(Mutex::new(Vec::new()));
    let provider = SdkLoggerProvider::builder()
        .with_log_processor(JournalProcessor::new("a", false, &journal))
        .with_log_processor(JournalProcessor::new("b", true, &journal))
        .build();
    journal.lock().unwrap().clear();
    let (r, _) = provider.flush_all();
    assert!(matches!(r, Err(SdkError::InternalFailure(_))));
    assert_eq!(journal_of(&journal), vec!["flush a", "flush b"]);
}


#[derive(Clone)]
struct TestExporterForResource {
    resource: Arc<Mutex<Resource>>,
}

impl TestExporterForResource {
    fn new() -> Self {
        TestExporterForResource { resource: Arc::new(Mutex::new(Resource::empty())) }
    }

    fn resource(&self) -> Resource {
        self.resource.lock().unwrap().clone()
    }
}

impl LogExporter for TestExporterForResource {
    fn export(&self, _record: &LogRecord, _scope: &InstrumentationScope) -> SdkResult {
        Ok(())
    }

    fn set_resource(&mut self, resource: &Resource) {
        *self.resource.lock().unwrap() = resource.clone();
    }
}

#[derive(Clone)]
struct TestProcessorForResource {
    resource: Arc<Mutex<Resource>>,
    exporter: TestExporterForResource,
}

impl TestProcessorForResource {
    fn new(exporter: TestExporterForResource) -> Self {
        TestProcessorForResource { resource: Arc::new(Mutex::new(Resource::empty())), exporter }
    }

    fn resource(&self) -> Resource {
        self.resource.lock().unwrap().clone()
    }
}

impl LogProcessor for TestProcessorForResource {
    fn emit(&self, _data: &mut LogRecord, _scope: &InstrumentationScope) {}

    fn force_flush(&self) -> SdkResult {
        Ok(())
    }

    fn set_resource(&mut self, resource: &Resource) {
        *self.resource.lock().unwrap() = resource.clone();
        self.exporter.set_resource(resource);
    }
}

#[test]
fn test_resource_handling_provider_processor_exporter() {
    let service = "service.name".to_string();

    // Without a resource from the user the pipeline gets an empty one.
    let exporter_with_resource = TestExporterForResource::new();
    let processor_with_resource = TestProcessorForResource::new(exporter_with_resource.clone());
    let _ = SdkLoggerProvider::builder()
        .with_log_processor(processor_with_resource.clone())
        .build();
    assert_eq!(processor_with_resource.resource().len(), 0);
    assert_eq!(exporter_with_resource.resource().len(), 0);

    // If user provided a resource, use that.
    let exporter_with_resource = TestExporterForResource::new();
    let processor_with_resource = TestProcessorForResource::new(exporter_with_resource.clone());
    let _ = SdkLoggerProvider::builder()
        .with_resource(Resource::new(vec![kv("service.name", "test_service")]))
        .with_log_processor(processor_with_resource.clone())
        .build();
    assert_eq!(
        processor_with_resource.resource().get(&service),
        Some(Value::Str("test_service".to_string()))
    );
    assert_eq!(
        exporter_with_resource.resource().get(&service),
        Some(Value::Str("test_service".to_string()))
    );
    assert_eq!(processor_with_resource.resource().len(), 1);

    // An empty resource from the user stays empty.
    let exporter_with_resource = TestExporterForResource::new();
    let processor_with_resource = TestProcessorForResource::new(exporter_with_resource);
    let _ = SdkLoggerProvider::builder()
        .with_resource(Resource::empty())
        .with_log_processor(processor_with_resource.clone())
        .build();
    assert_eq!(processor_with_resource.resource().len(), 0);
}

#[test]
fn conclude_release_sweeps_only_for_the_last_unshut_handle() {
    let journal = Arc::new(Mutex::new(Vec::new()));
    let provider = SdkLoggerProvider::builder()
        .with_log_processor(JournalProcessor::new("a", true, &journal))
        .with_log_processor(JournalProcessor::new("b", false, &journal))
        .build();
    journal.lock().unwrap().clear();
    assert!(!provider.conclude_release(false, true).0);
    assert!(!provider.conclude_release(true, false).0);
    assert!(journal_of(&journal).is_empty());
    assert!(provider.conclude_release(true, true).0);
    assert_eq!(journal_of(&journal), vec!["shutdown a 5", "shutdown b 5"]);
}
