use vstd::prelude::*;
use std::time::Duration;

verus! {

/// Seconds that a shutdown is given when the caller names no timeout.
pub const DEFAULT_SHUTDOWN_TIMEOUT_SECS: u64 = 5;

/// The span that `Duration::from_secs` makes of `secs` whole seconds.
pub uninterp spec fn duration_from_secs(secs: u64) -> Duration;

/// The timeout of a shutdown for which the caller named none.
pub open spec fn default_timeout() -> Duration {
    duration_from_secs(DEFAULT_SHUTDOWN_TIMEOUT_SECS)
}

/// One call of the pipeline into a processor, naming the processor by its
/// position in registration order.
pub enum ProcessorCall {
    SetResource(nat),
    Emit(nat),
    Flush(nat),
    Shutdown(nat, Duration),
}

/// `set_resource` on each of `n` processors, in registration order.
pub open spec fn resource_sweep(n: nat) -> Seq<ProcessorCall> {
    Seq::new(n, |i: int| ProcessorCall::SetResource(i as nat))
}

/// `emit` on each of `n` processors, in registration order.
pub open spec fn emit_sweep(n: nat) -> Seq<ProcessorCall> {
    Seq::new(n, |i: int| ProcessorCall::Emit(i as nat))
}

/// `force_flush` on each of `n` processors, in registration order.
pub open spec fn flush_sweep(n: nat) -> Seq<ProcessorCall> {
    Seq::new(n, |i: int| ProcessorCall::Flush(i as nat))
}

/// `shutdown_with_timeout(t)` on each of `n` processors, in registration order.
pub open spec fn shutdown_sweep(n: nat, t: Duration) -> Seq<ProcessorCall> {
    Seq::new(n, |i: int| ProcessorCall::Shutdown(i as nat, t))
}

/// How many of `calls` are a shutdown of processor `i`, whatever the timeout.
pub open spec fn shutdowns_of(calls: Seq<ProcessorCall>, i: nat) -> nat
    decreases calls.len(),
{
    if calls.len() == 0 {
        0
    } else {
        shutdowns_of(calls.drop_last(), i) + match calls.last() {
            ProcessorCall::Shutdown(j, _) => if j == i { 1nat } else { 0nat },
            _ => 0nat,
        }
    }
}

/// What happens to a pipeline's shared state over its lifetime.
pub enum Event {
    /// `force_flush` on any handle.
    Flush,
    /// An explicit shutdown with the given timeout on any handle.
    Shutdown(Duration),
    /// The last handle is released.
    Release,
}

/// A pipeline's shared state as its processors see it: the shutdown flag,
/// the number of processors, and every flush and shutdown call made so far.
pub struct PipelineModel {
    pub shut_down: bool,
    pub processors: nat,
    pub calls: Seq<ProcessorCall>,
}

/// A freshly built pipeline of `n` processors.
pub open spec fn fresh(n: nat) -> PipelineModel {
    PipelineModel { shut_down: false, processors: n, calls: Seq::empty() }
}

/// The state after `e`. A flush calls every processor's `force_flush` and
/// leaves the flag alone. A shutdown, or a release with the default
/// timeout, sets the flag and calls every processor's shutdown when the
/// flag was clear, and does nothing when it was set.
pub open spec fn step(m: PipelineModel, e: Event) -> PipelineModel {
    match e {
        Event::Flush => PipelineModel { calls: m.calls + flush_sweep(m.processors), ..m },
        Event::Shutdown(t) => if m.shut_down {
            m
        } else {
            PipelineModel { shut_down: true, calls: m.calls + shutdown_sweep(m.processors, t), ..m }
        },
        Event::Release => if m.shut_down {
            m
        } else {
            PipelineModel {
                shut_down: true,
                calls: m.calls + shutdown_sweep(m.processors, default_timeout()),
                ..m
            }
        },
    }
}

/// An explicit shutdown in state `m` is answered `AlreadyShutdown`.
pub open spec fn refused(m: PipelineModel) -> bool {
    m.shut_down
}

/// The state after each of `es` in turn.
pub open spec fn run(m: PipelineModel, es: Seq<Event>) -> PipelineModel
    decreases es.len(),
{
    if es.len() == 0 {
        m
    } else {
        step(run(m, es.drop_last()), es.last())
    }
}

proof fn lemma_shutdowns_concat(a: Seq<ProcessorCall>, b: Seq<ProcessorCall>, i: nat)
    ensures
        shutdowns_of(a + b, i) == shutdowns_of(a, i) + shutdowns_of(b, i),
    decreases b.len(),
{
    if b.len() == 0 {
        assert(a + b =~= a);
    } else {
        assert((a + b).drop_last() =~= a + b.drop_last());
        lemma_shutdowns_concat(a, b.drop_last(), i);
    }
}

proof fn lemma_shutdowns_of_shutdown_sweep(n: nat, t: Duration, i: nat)
    ensures
        shutdowns_of(shutdown_sweep(n, t), i) == if i < n { 1nat } else { 0nat },
    decreases n,
{
    if n > 0 {
        assert(shutdown_sweep(n, t).drop_last() =~= shutdown_sweep((n - 1) as nat, t));
        lemma_shutdowns_of_shutdown_sweep((n - 1) as nat, t, i);
    }
}

proof fn lemma_shutdowns_of_flush_sweep(n: nat, i: nat)
    ensures
        shutdowns_of(flush_sweep(n), i) == 0,
    decreases n,
{
    if n > 0 {
        assert(flush_sweep(n).drop_last() =~= flush_sweep((n - 1) as nat));
        lemma_shutdowns_of_flush_sweep((n - 1) as nat, i);
    }
}

/// A shutdown of a running pipeline of N processors with timeout `t` sets
/// the flag and calls each processor's shutdown exactly once with `t`,
/// processor i as the i-th call, whatever the processors return.
pub proof fn shutdown_calls_each_processor_once_in_order(m: PipelineModel, t: Duration)
    requires
        !m.shut_down,
    ensures
        step(m, Event::Shutdown(t)).shut_down,
        step(m, Event::Shutdown(t)).calls == m.calls + shutdown_sweep(m.processors, t),
        shutdown_sweep(m.processors, t).len() == m.processors,
        forall|i: int| 0 <= i < m.processors
            ==> (#[trigger] shutdown_sweep(m.processors, t)[i]) == ProcessorCall::Shutdown(i as nat, t),
        forall|i: nat| i < m.processors ==> #[trigger] shutdowns_of(shutdown_sweep(m.processors, t), i) == 1,
{
    assert forall|i: nat| i < m.processors implies #[trigger] shutdowns_of(shutdown_sweep(m.processors, t), i) == 1 by {
        lemma_shutdowns_of_shutdown_sweep(m.processors, t, i);
    }
}

/// Of two shutdowns in a row, the second is answered `AlreadyShutdown` and
/// calls no processor, whatever the first returned.
pub proof fn second_shutdown_is_refused(m: PipelineModel, t1: Duration, t2: Duration)
    ensures
        refused(step(m, Event::Shutdown(t1))),
        step(step(m, Event::Shutdown(t1)), Event::Shutdown(t2)) == step(m, Event::Shutdown(t1)),
{
}

/// Releasing the last handle of a pipeline that never shut down runs one
/// shutdown sweep over all processors with the default timeout; after an
/// explicit shutdown it calls no processor.
pub proof fn release_sweeps_once(m: PipelineModel, t: Duration)
    ensures
        !m.shut_down ==> step(m, Event::Release).calls == m.calls + shutdown_sweep(m.processors, default_timeout()),
        m.shut_down ==> step(m, Event::Release) == m,
        step(step(m, Event::Shutdown(t)), Event::Release) == step(m, Event::Shutdown(t)),
{
}

proof fn lemma_run_shutdown_counts(n: nat, es: Seq<Event>)
    ensures
        run(fresh(n), es).processors == n,
        forall|i: nat| i < n ==> #[trigger] shutdowns_of(run(fresh(n), es).calls, i)
            == if run(fresh(n), es).shut_down { 1nat } else { 0nat },
    decreases es.len(),
{
    if es.len() > 0 {
        lemma_run_shutdown_counts(n, es.drop_last());
        let m = run(fresh(n), es.drop_last());
        assert forall|i: nat| i < n implies #[trigger] shutdowns_of(run(fresh(n), es).calls, i)
            == if run(fresh(n), es).shut_down { 1nat } else { 0nat } by {
            lemma_shutdowns_of_flush_sweep(n, i);
            lemma_shutdowns_concat(m.calls, flush_sweep(n), i);
            match es.last() {
                Event::Shutdown(t) => {
                    lemma_shutdowns_of_shutdown_sweep(n, t, i);
                    lemma_shutdowns_concat(m.calls, shutdown_sweep(n, t), i);
                },
                _ => {
                    lemma_shutdowns_of_shutdown_sweep(n, default_timeout(), i);
                    lemma_shutdowns_concat(m.calls, shutdown_sweep(n, default_timeout()), i);
                },
            }
        }
    }
}

/// Over a pipeline's whole life, whatever flushes and shutdowns happen
/// before its last handle is released, each processor's shutdown is
/// called exactly once.
pub proof fn shutdown_delivered_exactly_once(n: nat, es: Seq<Event>, i: nat)
    requires
        i < n,
    ensures
        shutdowns_of(run(fresh(n), es.push(Event::Release)).calls, i) == 1,
{
    lemma_run_shutdown_counts(n, es.push(Event::Release));
    assert(es.push(Event::Release).drop_last() =~= es);
}

proof fn lemma_flushes_keep_flag(m: PipelineModel, k: nat)
    ensures
        run(m, Seq::new(k, |j: int| Event::Flush)).shut_down == m.shut_down,
        run(m, Seq::new(k, |j: int| Event::Flush)).processors == m.processors,
    decreases k,
{
    if k > 0 {
        assert(Seq::new(k, |j: int| Event::Flush).drop_last() =~= Seq::new((k - 1) as nat, |j: int| Event::Flush));
        lemma_flushes_keep_flag(m, (k - 1) as nat);
    }
}

/// A flush never changes the shutdown flag: any number of flushes, before
/// or after shutdown, leave it as it was, and each calls every processor's
/// `force_flush` once, in order.
pub proof fn flush_keeps_shutdown_flag(m: PipelineModel, k: nat)
    ensures
        step(m, Event::Flush).shut_down == m.shut_down,
        step(m, Event::Flush).calls == m.calls + flush_sweep(m.processors),
        run(m, Seq::new(k, |j: int| Event::Flush)).shut_down == m.shut_down,
{
    lemma_flushes_keep_flag(m, k);
}

} // verus!
