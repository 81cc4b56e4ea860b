use vstd::prelude::*;

verus! {

/// Reported when the storage handed to a wrapper is too small for the
/// declared number of channels and frames: what was found, what was needed,
/// and a human-readable description of both.
#[derive(Debug)]
pub struct BufferSizeError {
    /// The description, "<what>, <actual> < <required>".
    pub desc: String,
    /// The size found: slots or bytes of a flat buffer, vectors of a slice
    /// of vectors, or items of its short vector.
    pub actual: usize,
    /// The size needed (`usize::MAX` where it does not fit in `usize`).
    pub required: usize,
    /// The index of the vector that is too short, where that is the fault.
    pub entry: Option<usize>,
}

/// `n`, or `usize::MAX` where it does not fit.
pub open spec fn capped(n: int) -> int {
    if n <= usize::MAX {
        n
    } else {
        usize::MAX as int
    }
}

/// `e` reports storage of `len` items where `needed` were needed.
pub open spec fn reports_short(e: BufferSizeError, len: int, needed: int) -> bool {
    &&& e.actual == len
    &&& e.required == capped(needed)
    &&& e.entry is None
}

impl BufferSizeError {
    /// Creates an error carrying the given description and no sizes.
    pub fn new(desc: &str) -> (r: Self)
        ensures
            r.desc@ == desc@,
            r.actual == 0,
            r.required == 0,
            r.entry is None,
    {
        BufferSizeError { desc: desc.to_owned(), actual: 0, required: 0, entry: None }
    }

    /// The human-readable description of the mismatch.
    pub fn description(&self) -> (r: &str)
        ensures
            r@ == self.desc@,
    {
        self.desc.as_str()
    }
}

/// Relies on std's `format!`: renders "<what>, <actual> < <required>".
#[verifier::external_body]
fn describe(what: &str, actual: usize, required: usize) -> (r: String) {
    format!("{}, {} < {}", what, actual, required)
}

/// Relies on std's `format!`: renders "<what> <index> is too short, <actual> < <required>".
#[verifier::external_body]
fn describe_entry(what: &str, index: usize, actual: usize, required: usize) -> (r: String) {
    format!("{} {} is too short, {} < {}", what, index, actual, required)
}

/// The error for a buffer holding `actual` where `required` are needed.
pub(crate) fn too_short(what: &str, actual: usize, required: usize) -> (r: BufferSizeError)
    ensures
        r.actual == actual,
        r.required == required,
        r.entry is None,
{
    BufferSizeError { desc: describe(what, actual, required), actual, required, entry: None }
}

/// The error for a vector-of-vectors buffer whose vector `index` holds
/// `actual` items where `required` are needed.
pub(crate) fn entry_too_short(what: &str, index: usize, actual: usize, required: usize) -> (r:
    BufferSizeError)
    ensures
        r.actual == actual,
        r.required == required,
        r.entry == Some(index),
{
    BufferSizeError {
        desc: describe_entry(what, index, actual, required),
        actual,
        required,
        entry: Some(index),
    }
}

} // verus!
