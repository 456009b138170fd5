use backtrace::Backtrace;
use vstd::prelude::*;

verus! {

#[verifier::external_type_specification]
#[verifier::external_body]
pub struct ExBacktrace(Backtrace);

/// Relies on `backtrace::Backtrace::new_unresolved`: captures the frames of
/// the current call stack, leaving symbol names unresolved.
#[verifier::external_body]
pub(crate) fn capture_unresolved() -> (r: Backtrace) {
    Backtrace::new_unresolved()
}

/// Relies on `backtrace::Backtrace::resolve`: fills in the symbol names of
/// the captured frames.
#[verifier::external_body]
pub(crate) fn resolve(trace: &mut Backtrace) {
    trace.resolve()
}

} // verus!
