use vstd::prelude::*;

verus! {

/// What a step of the program returns when it may end the program without
/// an error: `Terminate` when the program should end normally, `Continue`
/// with a value otherwise. A type of its own rather than a `Result`, since
/// ending normally is not an error.
#[must_use]
pub enum PossibleNormalTermination<NonTerminationValue> {
    Continue(NonTerminationValue),
    Terminate,
}

} // verus!
