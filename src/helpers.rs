use vstd::prelude::*;

verus! {

/// Two computations awaited together; the first to complete decides the result.
pub struct Select<F1, F2> {
    pub future1: F1,
    pub future2: F2,
}

impl<F1, F2> Select<F1, F2> {
    pub fn new(future1: F1, future2: F2) -> (s: Self)
        ensures
            s.future1 == future1,
            s.future2 == future2,
    {
        Select { future1, future2 }
    }
}

/// Which of the two computations of a `Select` completed, with its output.
pub enum SelectResult<O1, O2> {
    First(O1),
    Second(O2),
}

/// Concludes one poll of a `Select` from the outputs its two computations
/// gave on this poll (`None` when not ready). The first computation is
/// preferred; `None` means neither is ready.
pub fn select_outcome<O1, O2>(first: Option<O1>, second: Option<O2>) -> (r: Option<
    SelectResult<O1, O2>,
>)
    ensures
        match first {
            Some(a) => r == Some(SelectResult::<O1, O2>::First(a)),
            None => match second {
                Some(b) => r == Some(SelectResult::<O1, O2>::Second(b)),
                None => r is None,
            },
        },
{
    match first {
        Some(a) => Some(SelectResult::First(a)),
        None => match second {
            Some(b) => Some(SelectResult::Second(b)),
            None => None,
        },
    }
}

} // verus!
