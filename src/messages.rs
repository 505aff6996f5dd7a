use vstd::prelude::*;

verus! {

/// A unit of work submitted to the streaming pool, identified by `idx`.
#[derive(Clone, Copy, Debug, PartialEq, Eq, Structural)]
pub struct MyActorInputMessage {
    pub idx: u64,
}

/// A successful result: the item `idx` together with the value an actor computed for it.
#[derive(Clone, Copy, Debug, PartialEq, Eq, Structural)]
pub struct MyActorOutputMessage {
    pub idx: u64,
    pub data: u32,
}

/// A failed unit of work, tagged with the identifier of the item that failed.
#[derive(Clone, Copy, Debug, PartialEq, Eq, Structural)]
pub struct MyActorError {
    pub idx: u64,
}

/// What the streaming pool hands back for one item.
pub type MyActorResult = Result<MyActorOutputMessage, MyActorError>;

/// The identifier that a result, successful or not, is tagged with.
pub open spec fn result_idx(r: MyActorResult) -> u64 {
    match r {
        Ok(out) => out.idx,
        Err(e) => e.idx,
    }
}

impl MyActorError {
    /// Builds the failure for item `idx`.
    pub fn new(idx: u64) -> (r: MyActorError)
        ensures
            r.idx == idx,
    {
        MyActorError { idx }
    }
}

/// The identifier of a result, whichever way it went.
pub fn idx_of(r: &MyActorResult) -> (i: u64)
    ensures
        i == result_idx(*r),
{
    match r {
        Ok(out) => out.idx,
        Err(e) => e.idx,
    }
}

} // verus!
