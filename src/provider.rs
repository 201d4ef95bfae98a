use vstd::prelude::*;
use crate::error::{aggregate, aggregate_spec, SdkError, SdkResult};
use crate::lifecycle::{
    default_timeout, duration_from_secs, emit_sweep, flush_sweep, refused, resource_sweep, shutdown_sweep, step,
    Event, PipelineModel, ProcessorCall, DEFAULT_SHUTDOWN_TIMEOUT_SECS,
};
use crate::processor::{scope_named, scope_of_name, LogExporter, LogProcessor, LogRecord, SimpleLogProcessor};
use crate::resource::{accumulated, Resource, Value};
use opentelemetry::InstrumentationScope;
use std::sync::atomic::{AtomicBool, Ordering};
use std::sync::Arc;
use std::time::Duration;

verus! {

/// Relies on `Duration::from_secs`: a span of `secs` whole seconds.
#[verifier::external_body]
fn seconds(secs: u64) -> (r: Duration)
    ensures
        r == duration_from_secs(secs),
{
    Duration::from_secs(secs)
}

/// Relies on `Arc::clone`: a new handle to the same allocation.
#[verifier::external_body]
fn share<T>(a: &Arc<T>) -> (r: Arc<T>)
    ensures
        *r == **a,
{
    Arc::clone(a)
}

/// Relies on `Arc::into_inner`: the value, when `a` was its last handle.
#[verifier::external_body]
fn last_share<T>(a: Arc<T>) -> (r: Option<T>)
    ensures
        r matches Some(t) ==> t == *a,
{
    Arc::into_inner(a)
}

/// One processor as the pipeline holds it, with the position at which it
/// was registered.
pub struct RegisteredProcessor {
    stage: Box<dyn LogProcessor>,
    slot: Ghost<nat>,
}

impl RegisteredProcessor {
    /// The position at which this processor was registered.
    pub closed spec fn slot(&self) -> nat {
        self.slot@
    }

    /// The processor itself.
    pub fn processor(&self) -> &Box<dyn LogProcessor> {
        &self.stage
    }
}

/// Appending to the processor list, spelled out: the solver does not find
/// these facts on its own for a sequence whose elements hold trait objects.
proof fn lemma_push_registered(s: Seq<RegisteredProcessor>, p: RegisteredProcessor)
    ensures
        s.push(p).len() == s.len() + 1,
        s.push(p).drop_last() == s,
        s.push(p).last() == p,
        forall|i: int| 0 <= i < s.len() ==> #[trigger] s.push(p)[i] == s[i],
{
    assert(s.push(p).drop_last() =~= s);
}

/// The state that every handle of one provider shares: the processors in
/// registration order and the shutdown flag, with a record of how the
/// state was set up.
struct LoggerProviderInner {
    processors: Vec<RegisteredProcessor>,
    is_shutdown: AtomicBool,
    /// The value the flag was created with.
    born_shut_down: Ghost<bool>,
    /// The processor calls made while the state was set up.
    setup: Ghost<Seq<ProcessorCall>>,
    /// The resource handed to the processors while the state was set up.
    handed: Ghost<Option<Resource>>,
}

impl LoggerProviderInner {
    /// Calls `shutdown_with_timeout(timeout)` on every processor in
    /// registration order, whatever each returns, and hands back every result.
    fn shutdown_with_timeout(&self, timeout: Duration) -> (r: (Vec<SdkResult>, Ghost<Seq<ProcessorCall>>))
        ensures
            r.0@.len() == self.processors@.len(),
            r.1@ == shutdown_sweep(self.processors@.len(), timeout),
    {
        let mut results: Vec<SdkResult> = Vec::new();
        let ghost mut calls: Seq<ProcessorCall> = Seq::empty();
        let mut i: usize = 0;
        while i < self.processors.len()
            invariant
                i <= self.processors@.len(),
                results@.len() == i,
                calls == shutdown_sweep(i as nat, timeout),
            decreases self.processors@.len() - i,
        {
            let res = self.processors[i].stage.shutdown_with_timeout(timeout);
            proof {
                calls = calls.push(ProcessorCall::Shutdown(i as nat, timeout));
                assert(calls =~= shutdown_sweep(i as nat + 1, timeout));
            }
            results.push(res);
            i = i + 1;
        }
        (results, Ghost(calls))
    }

    /// Calls `force_flush` on every processor in registration order.
    fn force_flush(&self) -> (r: (Vec<SdkResult>, Ghost<Seq<ProcessorCall>>))
        ensures
            r.0@.len() == self.processors@.len(),
            r.1@ == flush_sweep(self.processors@.len()),
    {
        let mut results: Vec<SdkResult> = Vec::new();
        let ghost mut calls: Seq<ProcessorCall> = Seq::empty();
        let mut i: usize = 0;
        while i < self.processors.len()
            invariant
                i <= self.processors@.len(),
                results@.len() == i,
                calls == flush_sweep(i as nat),
            decreases self.processors@.len() - i,
        {
            let res = self.processors[i].stage.force_flush();
            proof {
                calls = calls.push(ProcessorCall::Flush(i as nat));
                assert(calls =~= flush_sweep(i as nat + 1));
            }
            results.push(res);
            i = i + 1;
        }
        (results, Ghost(calls))
    }

    /// Hands `record` to every processor in registration order.
    fn emit(&self, record: &mut LogRecord, scope: &InstrumentationScope) -> (calls: Ghost<Seq<ProcessorCall>>)
        ensures
            calls@ == emit_sweep(self.processors@.len()),
    {
        let ghost mut calls: Seq<ProcessorCall> = Seq::empty();
        let mut i: usize = 0;
        while i < self.processors.len()
            invariant
                i <= self.processors@.len(),
                calls == emit_sweep(i as nat),
            decreases self.processors@.len() - i,
        {
            self.processors[i].stage.emit(record, scope);
            proof {
                calls = calls.push(ProcessorCall::Emit(i as nat));
                assert(calls =~= emit_sweep(i as nat + 1));
            }
            i = i + 1;
        }
        Ghost(calls)
    }

    /// Sets the flag if it was clear; true when this call set it.
    fn begin_shutdown(&self) -> bool {
        self.is_shutdown.compare_exchange(false, true, Ordering::SeqCst, Ordering::SeqCst).is_ok()
    }
}

/// The reply to an explicit shutdown request on a pipeline of `n`
/// processors: `AlreadyShutdown`, or the aggregate of one result per processor.
pub open spec fn shutdown_reply(n: nat, r: SdkResult) -> bool {
    (r is Err && r->Err_0 is AlreadyShutdown)
    || exists|rs: Seq<SdkResult>| rs.len() == n && #[trigger] aggregate_spec(rs, r)
}

/// The reply to a flush of a pipeline of `n` processors: the aggregate of
/// one result per processor.
pub open spec fn flush_reply(n: nat, r: SdkResult) -> bool {
    exists|rs: Seq<SdkResult>| rs.len() == n && #[trigger] aggregate_spec(rs, r)
}

/// The calls that releasing the last handle made: one shutdown sweep with
/// the default timeout when it set the flag, none otherwise.
pub open spec fn release_record(n: nat, ran: bool, calls: Seq<ProcessorCall>) -> bool {
    &&& ran ==> calls == shutdown_sweep(n, default_timeout())
    &&& !ran ==> calls == Seq::<ProcessorCall>::empty()
    &&& forall|m: PipelineModel| m.processors == n && m.shut_down == !ran ==>
        (#[trigger] step(m, Event::Release)).calls == m.calls + calls
}

/// A clonable handle to a provider's shared pipeline state; it issues loggers.
///
/// Dropping a handle does not shut the pipeline down: give each handle up
/// with `release()`, so that the last one runs the shutdown sweep when no
/// explicit shutdown did.
pub struct SdkLoggerProvider {
    inner: Arc<LoggerProviderInner>,
}

/// A provider with no processors that has already shut down: the target of
/// loggers issued after shutdown.
pub fn noop_logger_provider() -> (r: SdkLoggerProvider)
    ensures
        r.processor_count() == 0,
        r.started_shut_down(),
        r.setup_calls() == Seq::<ProcessorCall>::empty(),
{
    SdkLoggerProvider {
        inner: Arc::new(
            LoggerProviderInner {
                processors: Vec::new(),
                is_shutdown: AtomicBool::new(true),
                born_shut_down: Ghost(true),
                setup: Ghost(Seq::empty()),
                handed: Ghost(None),
            },
        ),
    }
}

impl Clone for SdkLoggerProvider {
    /// Another handle to the same state; no processor is called.
    fn clone(&self) -> (r: Self)
        ensures
            r.same_state(self),
    {
        SdkLoggerProvider { inner: share(&self.inner) }
    }
}

impl SdkLoggerProvider {
    /// How many processors the pipeline holds.
    pub closed spec fn processor_count(&self) -> nat {
        self.inner.processors@.len()
    }

    /// The processors, in the order the pipeline calls them.
    pub closed spec fn registered(&self) -> Seq<RegisteredProcessor> {
        self.inner.processors@
    }

    /// Whether the shared state was created already shut down.
    pub closed spec fn started_shut_down(&self) -> bool {
        self.inner.born_shut_down@
    }

    /// The processor calls made while the shared state was set up.
    pub closed spec fn setup_calls(&self) -> Seq<ProcessorCall> {
        self.inner.setup@
    }

    /// The resource handed to every processor while the state was set up.
    pub closed spec fn handed_resource(&self) -> Option<Resource> {
        self.inner.handed@
    }

    /// Both handles hold equal shared state: the same processors, flag and
    /// set-up record, compared as values.
    pub closed spec fn same_state(&self, other: &SdkLoggerProvider) -> bool {
        *self.inner == *other.inner
    }

    /// A builder with no processors and no resource.
    pub fn builder() -> (r: LoggerProviderBuilder)
        ensures
            r.processors().len() == 0,
            r.resource_spec() is None,
            r.resources_given().len() == 0,
            r.wf(),
    {
        LoggerProviderBuilder::default()
    }

    /// The processors, in registration order.
    pub fn log_processors(&self) -> (r: &Vec<RegisteredProcessor>)
        ensures
            r@.len() == self.processor_count(),
    {
        &self.inner.processors
    }

    /// Flushes every processor once, in registration order and whatever the
    /// shutdown state, without touching the flag; hands back the aggregate
    /// of their results and the calls made.
    pub fn flush_all(&self) -> (r: (SdkResult, Ghost<Seq<ProcessorCall>>))
        ensures
            r.1@ == flush_sweep(self.processor_count()),
            flush_reply(self.processor_count(), r.0),
            forall|m: PipelineModel| m.processors == self.processor_count() ==>
                (#[trigger] step(m, Event::Flush)).calls == m.calls + r.1@
                && step(m, Event::Flush).shut_down == m.shut_down,
    {
        let (results, calls) = self.inner.force_flush();
        let r = aggregate(&results);
        assert(aggregate_spec(results@, r));
        (r, calls)
    }

    /// Flushes every processor, in registration order and whatever the
    /// shutdown state; reports `Ok` when all succeeded and otherwise one
    /// error that describes every failure. See `flush_all`.
    pub fn force_flush(&self) -> (r: SdkResult)
        ensures
            flush_reply(self.processor_count(), r),
            self.processor_count() == 0 ==> r is Ok,
    {
        let (r, _calls) = self.flush_all();
        r
    }

    /// An explicit shutdown request, once the flag has been tried: `won`
    /// tells whether this request is the one that set it. The winner calls
    /// every processor's shutdown once with `timeout`, in registration
    /// order, and aggregates the results; any other request calls no
    /// processor and is answered `AlreadyShutdown`. `won` must be the outcome
    /// of this pipeline's compare-and-set: passing `true` otherwise would
    /// sweep the processors a second time.
    pub fn conclude_shutdown(&self, won: bool, timeout: Duration) -> (r: (SdkResult, Ghost<Seq<ProcessorCall>>))
        ensures
            !won ==> r.0 is Err && r.0->Err_0 is AlreadyShutdown && r.1@ == Seq::<ProcessorCall>::empty(),
            won ==> r.1@ == shutdown_sweep(self.processor_count(), timeout)
                && exists|rs: Seq<SdkResult>| rs.len() == self.processor_count() && #[trigger] aggregate_spec(rs, r.0),
            won && self.processor_count() == 0 ==> r.0 is Ok,
            forall|m: PipelineModel| m.processors == self.processor_count() && m.shut_down == !won ==>
                (#[trigger] step(m, Event::Shutdown(timeout))).calls == m.calls + r.1@
                && step(m, Event::Shutdown(timeout)).shut_down
                && (refused(m) <==> (r.0 is Err && r.0->Err_0 is AlreadyShutdown)),
    {
        assert forall|m: PipelineModel| m.shut_down implies m.calls + Seq::<ProcessorCall>::empty() == m.calls by {
            assert(m.calls + Seq::<ProcessorCall>::empty() =~= m.calls);
        }
        if won {
            let (results, calls) = self.inner.shutdown_with_timeout(timeout);
            let r = aggregate(&results);
            assert(aggregate_spec(results@, r));
            (r, calls)
        } else {
            (Err(SdkError::AlreadyShutdown), Ghost(Seq::empty()))
        }
    }

    /// Shuts the pipeline down: the request that sets the flag calls every
    /// processor's shutdown once, in registration order; any later one
    /// returns `AlreadyShutdown` and calls no processor. See `conclude_shutdown`.
    pub fn shutdown_with_timeout(&self, timeout: Duration) -> (r: SdkResult)
        ensures
            shutdown_reply(self.processor_count(), r),
            self.processor_count() == 0 ==> r is Ok || (r is Err && r->Err_0 is AlreadyShutdown),
    {
        let won = self.inner.begin_shutdown();
        let (r, _calls) = self.conclude_shutdown(won, timeout);
        r
    }

    /// Shuts down with the default timeout of five seconds: the same as
    /// `conclude_shutdown(won, default_timeout())` for the flag's outcome.
    pub fn shutdown(&self) -> (r: SdkResult)
        ensures
            shutdown_reply(self.processor_count(), r),
            self.processor_count() == 0 ==> r is Ok || (r is Err && r->Err_0 is AlreadyShutdown),
    {
        let won = self.inner.begin_shutdown();
        let (r, _calls) = self.conclude_shutdown(won, seconds(DEFAULT_SHUTDOWN_TIMEOUT_SECS));
        r
    }

    /// A logger for `scope`: bound to this pipeline while it is running,
    /// and to an empty pipeline that has shut down once it has. See `issue`.
    pub fn logger_with_scope(&self, scope: InstrumentationScope) -> (r: SdkLogger)
        ensures
            r.scope_spec() == scope,
            (r.provider_spec().same_state(self) && r.provider_spec().processor_count() == self.processor_count())
                || (r.provider_spec().processor_count() == 0 && r.provider_spec().started_shut_down()),
    {
        let shut_down = self.inner.is_shutdown.load(Ordering::Relaxed);
        self.issue(shut_down, scope)
    }

    /// A logger named `name`; see `logger_with_scope`.
    pub fn logger(&self, name: String) -> (r: SdkLogger)
        ensures
            r.scope_spec() == scope_of_name(name@),
            (r.provider_spec().same_state(self) && r.provider_spec().processor_count() == self.processor_count())
                || (r.provider_spec().processor_count() == 0 && r.provider_spec().started_shut_down()),
    {
        let shut_down = self.inner.is_shutdown.load(Ordering::Relaxed);
        self.issue(shut_down, scope_named(name))
    }

    /// The logger that is issued for `scope` when the flag reads
    /// `shut_down`: one on an empty pipeline that has shut down, or one on
    /// this pipeline. `shut_down` must be what this pipeline's flag read;
    /// passing `false` after shutdown would issue a live logger.
    pub fn issue(&self, shut_down: bool, scope: InstrumentationScope) -> (r: SdkLogger)
        ensures
            r.scope_spec() == scope,
            shut_down ==> r.provider_spec().processor_count() == 0 && r.provider_spec().started_shut_down(),
            !shut_down ==> r.provider_spec().same_state(self)
                && r.provider_spec().processor_count() == self.processor_count(),
    {
        if shut_down {
            SdkLogger { scope, provider: noop_logger_provider() }
        } else {
            SdkLogger { scope, provider: self.clone() }
        }
    }

    /// What giving up a handle does, once it is known whether the handle
    /// was the last one (`is_last`) and, if so, whether this call set the
    /// flag (`won`); both must be those outcomes for this pipeline. Only the
    /// last handle of a pipeline that had not shut down runs the sweep: it
    /// calls every processor's shutdown once, in registration order, with
    /// the default timeout, and discards the results.
    pub fn conclude_release(&self, is_last: bool, won: bool) -> (r: (bool, Ghost<Seq<ProcessorCall>>))
        ensures
            r.0 == (is_last && won),
            release_record(self.processor_count(), r.0, r.1@),
    {
        assert forall|m: PipelineModel| m.shut_down implies m.calls + Seq::<ProcessorCall>::empty() == m.calls by {
            assert(m.calls + Seq::<ProcessorCall>::empty() =~= m.calls);
        }
        if is_last && won {
            let (_results, calls) = self.inner.shutdown_with_timeout(seconds(DEFAULT_SHUTDOWN_TIMEOUT_SECS));
            (true, calls)
        } else {
            (false, Ghost(Seq::empty()))
        }
    }

    /// Gives up this handle. When it was the last one and the pipeline had
    /// not shut down, sets the flag and calls every processor's shutdown
    /// with the default timeout, discarding the results. Returns whether
    /// that sweep ran, and the calls made. See `conclude_release`.
    pub fn release(self) -> (r: (bool, Ghost<Seq<ProcessorCall>>))
        ensures
            release_record(self.processor_count(), r.0, r.1@),
    {
        assert forall|m: PipelineModel| m.shut_down implies m.calls + Seq::<ProcessorCall>::empty() == m.calls by {
            assert(m.calls + Seq::<ProcessorCall>::empty() =~= m.calls);
        }
        match last_share(self.inner) {
            Some(inner) => {
                let won = inner.begin_shutdown();
                let last = SdkLoggerProvider { inner: Arc::new(inner) };
                last.conclude_release(true, won)
            },
            None => (false, Ghost(Seq::empty())),
        }
    }
}

/// Handles that hold equal state have the same processors, in the same
/// order, and the same set-up record.
pub proof fn same_state_same_pipeline(a: &SdkLoggerProvider, b: &SdkLoggerProvider)
    requires
        a.same_state(b),
    ensures
        a.processor_count() == b.processor_count(),
        a.registered() == b.registered(),
        a.started_shut_down() == b.started_shut_down(),
        a.setup_calls() == b.setup_calls(),
        a.handed_resource() == b.handed_resource(),
{
}

/// Emits records into the pipeline it was issued from. It holds a handle
/// on that pipeline; give it up with `release()`, as dropping it does not
/// take part in the shutdown of the last handle.
pub struct SdkLogger {
    scope: InstrumentationScope,
    provider: SdkLoggerProvider,
}

impl SdkLogger {
    /// The handle this logger emits through.
    pub closed spec fn provider_spec(&self) -> SdkLoggerProvider {
        self.provider
    }

    /// The scope this logger stamps on its records.
    pub closed spec fn scope_spec(&self) -> InstrumentationScope {
        self.scope
    }

    /// Hands `record` to every processor of the pipeline once, in
    /// registration order, and hands back the calls made. Whether the
    /// pipeline has shut down since this logger was issued is not looked at.
    pub fn emit(&self, record: LogRecord) -> (calls: Ghost<Seq<ProcessorCall>>)
        ensures
            calls@ == emit_sweep(self.provider_spec().processor_count()),
    {
        let mut record = record;
        self.provider.inner.emit(&mut record, &self.scope)
    }

    /// Gives up this logger's handle on its pipeline; see
    /// `SdkLoggerProvider::release`.
    pub fn release(self) -> (r: (bool, Ghost<Seq<ProcessorCall>>))
        ensures
            release_record(self.provider_spec().processor_count(), r.0, r.1@),
    {
        self.provider.release()
    }
}

/// Assembles processors and a resource into a provider.
pub struct LoggerProviderBuilder {
    processors: Vec<RegisteredProcessor>,
    resource: Option<Resource>,
    given: Ghost<Seq<Map<Seq<char>, Value>>>,
}

impl Default for LoggerProviderBuilder {
    fn default() -> (r: Self)
        ensures
            r.processors().len() == 0,
            r.resource_spec() is None,
            r.resources_given().len() == 0,
            r.wf(),
    {
        LoggerProviderBuilder { processors: Vec::new(), resource: None, given: Ghost(Seq::empty()) }
    }
}

impl LoggerProviderBuilder {
    /// The processors added so far, in order.
    pub closed spec fn processors(&self) -> Seq<RegisteredProcessor> {
        self.processors@
    }

    /// The resource accumulated so far.
    pub closed spec fn resource_spec(&self) -> Option<Resource> {
        self.resource
    }

    /// The attribute sets of the resources given so far, in order.
    pub closed spec fn resources_given(&self) -> Seq<Map<Seq<char>, Value>> {
        self.given@
    }

    /// The accumulated resource is there exactly when one was given; it is
    /// well formed and holds what merging the given ones in turn yields.
    pub closed spec fn wf(&self) -> bool {
        &&& (self.resource is None <==> self.given@.len() == 0)
        &&& (self.resource matches Some(r) ==> r.wf() && r.attributes() == accumulated(self.given@))
        &&& forall|i: int| 0 <= i < self.processors@.len() ==> (#[trigger] self.processors@[i]).slot() == i
    }

    /// Appends a processor; processors are invoked in the order they are added.
    pub fn with_log_processor<T: LogProcessor + 'static>(self, processor: T) -> (r: Self)
        ensures
            r.processors().len() == self.processors().len() + 1,
            r.processors().drop_last() == self.processors(),
            r.processors().last().slot() == self.processors().len(),
            r.resource_spec() == self.resource_spec(),
            r.resources_given() == self.resources_given(),
            self.wf() ==> r.wf(),
    {
        self.append(Box::new(processor))
    }

    fn append(self, stage: Box<dyn LogProcessor>) -> (r: Self)
        ensures
            r.processors().len() == self.processors().len() + 1,
            r.processors().drop_last() == self.processors(),
            r.processors().last().slot() == self.processors().len(),
            r.resource_spec() == self.resource_spec(),
            r.resources_given() == self.resources_given(),
            self.wf() ==> r.wf(),
    {
        let LoggerProviderBuilder { processors, resource, given } = self;
        let mut processors = processors;
        let p = RegisteredProcessor { stage, slot: Ghost(processors@.len()) };
        proof {
            lemma_push_registered(processors@, p);
        }
        processors.push(p);
        LoggerProviderBuilder { processors, resource, given }
    }

    /// Appends a processor that hands each record to `exporter` at once.
    pub fn with_simple_exporter<T: LogExporter + 'static>(self, exporter: T) -> (r: Self)
        ensures
            r.processors().len() == self.processors().len() + 1,
            r.processors().drop_last() == self.processors(),
            r.processors().last().slot() == self.processors().len(),
            r.resource_spec() == self.resource_spec(),
            r.resources_given() == self.resources_given(),
            self.wf() ==> r.wf(),
    {
        self.with_log_processor(SimpleLogProcessor::new(exporter))
    }

    /// Merges `resource` into the one accumulated so far; on a key given
    /// by both, the earlier value is kept.
    pub fn with_resource(self, resource: Resource) -> (r: Self)
        requires
            self.wf(),
            resource.wf(),
        ensures
            r.wf(),
            r.processors() == self.processors(),
            r.resources_given() == self.resources_given().push(resource.attributes()),
            r.resource_spec() matches Some(m) && m.attributes() == accumulated(r.resources_given()),
            r.resource_spec() matches Some(m) && match self.resource_spec() {
                Some(e) => m.attributes() == resource.attributes().union_prefer_right(e.attributes())
                    && m.schema() == (if e.schema() is Some { e.schema() } else { resource.schema() }),
                None => m == resource,
            },
    {
        let ghost added = resource.attributes();
        let LoggerProviderBuilder { processors, resource: existing, given } = self;
        let ghost now = given@.push(added);
        proof {
            assert(now.drop_last() =~= given@);
            assert(now.last() == added);
            assert(accumulated(now) == added.union_prefer_right(accumulated(given@)));
            if given@.len() == 0 {
                assert(added.union_prefer_right(Map::<Seq<char>, Value>::empty()) =~= added);
            }
        }
        let merged = match existing {
            Some(e) => e.merge(resource),
            None => resource,
        };
        LoggerProviderBuilder { processors, resource: Some(merged), given: Ghost(now) }
    }

    /// The resource accumulated so far.
    pub fn resource(&self) -> (r: Option<&Resource>)
        ensures
            r matches Some(x) ==> self.resource_spec() == Some(*x),
            r is None ==> self.resource_spec() is None,
            self.wf() ==> (r matches Some(x) ==> x.wf()),
            self.wf() ==> (r is None <==> self.resources_given().len() == 0),
    {
        self.resource.as_ref()
    }

    /// Hands the resource (an empty one when none was given) to every
    /// processor once, in registration order, then wraps the processors in
    /// fresh pipeline state that has not shut down.
    pub fn build(self) -> (r: SdkLoggerProvider)
        requires
            self.wf(),
        ensures
            r.processor_count() == self.processors().len(),
            r.registered().len() == r.processor_count(),
            forall|i: int| 0 <= i < self.processors().len()
                ==> (#[trigger] r.registered()[i]).slot() == self.processors()[i].slot() && r.registered()[i].slot() == i,
            !r.started_shut_down(),
            r.setup_calls() == resource_sweep(self.processors().len()),
            r.handed_resource() matches Some(h) && match self.resource_spec() {
                Some(x) => h == x,
                None => h.wf() && h.attributes() == Map::<Seq<char>, Value>::empty() && h.schema() is None,
            },
    {
        let LoggerProviderBuilder { processors, resource, given: _ } = self;
        let resource = match resource {
            Some(res) => res,
            None => Resource::empty(),
        };
        let mut rest = processors;
        let mut ready: Vec<RegisteredProcessor> = Vec::new();
        let ghost orig = rest@;
        let ghost total = rest@.len();
        let ghost mut calls: Seq<ProcessorCall> = Seq::empty();
        while rest.len() > 0
            invariant
                ready@.len() + rest@.len() == total,
                total == orig.len(),
                rest@ == orig.subrange(ready@.len() as int, total as int),
                forall|j: int| 0 <= j < ready@.len() ==> (#[trigger] ready@[j]).slot() == orig[j].slot(),
                calls == resource_sweep(ready@.len()),
            decreases rest@.len(),
        {
            let ghost k = ready@.len();
            let mut p = rest.remove(0);
            assert(p == orig[k as int]);
            p.stage.set_resource(&resource);
            proof {
                calls = calls.push(ProcessorCall::SetResource(ready@.len()));
                assert(calls =~= resource_sweep(ready@.len() + 1));
                lemma_push_registered(ready@, p);
            }
            ready.push(p);
            assert(rest@ =~= orig.subrange(ready@.len() as int, total as int));
        }
        SdkLoggerProvider {
            inner: Arc::new(
                LoggerProviderInner {
                    processors: ready,
                    is_shutdown: AtomicBool::new(false),
                    born_shut_down: Ghost(false),
                    setup: Ghost(calls),
                    handed: Ghost(Some(resource)),
                },
            ),
        }
    }
}

/// After any sequence of builder calls, the builder's resource is there
/// exactly when at least one was given, and its attributes are those of
/// all the given resources merged in turn, the earlier value winning.
pub proof fn builder_resource_is_accumulated(b: LoggerProviderBuilder)
    requires
        b.wf(),
    ensures
        b.resource_spec() is None <==> b.resources_given().len() == 0,
        b.resource_spec() matches Some(m) ==> m.wf() && m.attributes() == accumulated(b.resources_given()),
{
}

} // verus!
