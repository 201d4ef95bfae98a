use vstd::prelude::*;

verus! {

/// Errors reported by processors and by the pipeline.
#[derive(Debug)]
pub enum SdkError {
    /// Shutdown was requested on a pipeline that had already shut down.
    AlreadyShutdown,
    /// An operation did not finish within the time it was given.
    Timeout(std::time::Duration),
    /// One or more stages failed; the text describes every failure.
    InternalFailure(String),
}

impl Clone for SdkError {
    fn clone(&self) -> (r: Self)
        ensures
            r == *self,
    {
        match self {
            SdkError::AlreadyShutdown => SdkError::AlreadyShutdown,
            SdkError::Timeout(d) => SdkError::Timeout(*d),
            SdkError::InternalFailure(s) => SdkError::InternalFailure(s.clone()),
        }
    }
}

/// The result type of flush and shutdown operations.
pub type SdkResult = Result<(), SdkError>;

/// The description that the `Debug` rendering gives to a list of errors.
pub uninterp spec fn failures_text(errs: Seq<SdkError>) -> Seq<char>;

/// True when every result in `rs` is `Ok`.
pub open spec fn all_ok(rs: Seq<SdkResult>) -> bool {
    forall|i: int| 0 <= i < rs.len() ==> (#[trigger] rs[i]) is Ok
}

/// The errors among `rs`, in their order.
pub open spec fn errors_of(rs: Seq<SdkResult>) -> Seq<SdkError>
    decreases rs.len(),
{
    if rs.len() == 0 {
        Seq::empty()
    } else {
        let rest = errors_of(rs.drop_last());
        match rs.last() {
            Ok(_) => rest,
            Err(e) => rest.push(e),
        }
    }
}

/// The single result that a sweep over processors reports for their results `rs`.
pub open spec fn aggregate_spec(rs: Seq<SdkResult>, r: SdkResult) -> bool {
    if all_ok(rs) {
        r is Ok
    } else {
        r is Err && r->Err_0 is InternalFailure
            && r->Err_0->InternalFailure_0@ == failures_text(errors_of(rs))
    }
}

/// Relies on the `Debug` rendering through `format!`: the text depends on the errors alone.
#[verifier::external_body]
fn describe_failures(errs: &Vec<SdkError>) -> (r: String)
    ensures
        r@ == failures_text(errs@),
{
    format!("{:?}", errs)
}

proof fn lemma_errors_of_empty_iff_all_ok(rs: Seq<SdkResult>)
    ensures
        all_ok(rs) <==> errors_of(rs).len() == 0,
    decreases rs.len(),
{
    if rs.len() > 0 {
        lemma_errors_of_empty_iff_all_ok(rs.drop_last());
        if all_ok(rs) {
            assert(all_ok(rs.drop_last())) by {
                assert forall|i: int| 0 <= i < rs.drop_last().len() implies
                    (#[trigger] rs.drop_last()[i]) is Ok by {
                    assert(rs.drop_last()[i] == rs[i]);
                }
            }
            assert(rs[rs.len() - 1] is Ok);
        } else {
            let i = choose|i: int| 0 <= i < rs.len() && !(#[trigger] rs[i] is Ok);
            if i < rs.len() - 1 {
                assert(rs.drop_last()[i] == rs[i]);
            }
        }
    }
}

/// Collects every error among `results`, in order; every result is looked at.
pub fn collect_failures(results: &Vec<SdkResult>) -> (r: Vec<SdkError>)
    ensures
        r@ == errors_of(results@),
{
    let mut out: Vec<SdkError> = Vec::new();
    let mut i: usize = 0;
    while i < results.len()
        invariant
            i <= results@.len(),
            out@ == errors_of(results@.subrange(0, i as int)),
        decreases results@.len() - i,
    {
        assert(results@.subrange(0, i as int + 1).drop_last() == results@.subrange(0, i as int));
        match &results[i] {
            Ok(_) => {},
            Err(e) => {
                out.push(e.clone());
            },
        }
        i = i + 1;
    }
    assert(results@.subrange(0, results@.len() as int) == results@);
    out
}

/// Folds the results of a sweep into one: `Ok` when every stage succeeded,
/// otherwise one `InternalFailure` that describes all failures together.
pub fn aggregate(results: &Vec<SdkResult>) -> (r: SdkResult)
    ensures
        aggregate_spec(results@, r),
{
    let errs = collect_failures(results);
    proof {
        lemma_errors_of_empty_iff_all_ok(results@);
    }
    if errs.len() == 0 {
        Ok(())
    } else {
        let text = describe_failures(&errs);
        Err(SdkError::InternalFailure(text))
    }
}

} // verus!
