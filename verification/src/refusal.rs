//! How a request is refused.
use vstd::prelude::*;

verus! {

/// An HTTP status and the label that the caller sees.
#[derive(Debug, PartialEq, Eq)]
pub struct Refusal {
    pub status: u16,
    pub error: String,
}

/// What a refusal means.
pub struct Fault {
    pub status: int,
    pub error: Seq<char>,
}

impl View for Refusal {
    type V = Fault;

    open spec fn view(&self) -> Fault {
        Fault { status: self.status as int, error: self.error@ }
    }
}

pub open spec fn fault(status: int, error: Seq<char>) -> Fault {
    Fault { status, error }
}

pub fn refuse(status: u16, error: &str) -> (r: Refusal)
    ensures
        r@ == fault(status as int, error@),
{
    Refusal { status, error: error.to_owned() }
}

} // verus!
