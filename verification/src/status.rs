//! The answers that the server gives.
use vstd::prelude::*;

verus! {

/// An HTTP status.
#[derive(Clone, Copy, Debug, PartialEq, Eq, Structural)]
pub enum Status {
    OK,
    Created,
    NotFound,
    InternalServerError,
}

impl Status {
    /// The number by which HTTP knows the status.
    pub open spec fn spec_code(self) -> u16 {
        match self {
            Status::OK => 200,
            Status::Created => 201,
            Status::NotFound => 404,
            Status::InternalServerError => 500,
        }
    }

    /// The number by which HTTP knows the status.
    pub fn code(self) -> (code: u16)
        ensures
            code == self.spec_code(),
    {
        match self {
            Status::OK => 200,
            Status::Created => 201,
            Status::NotFound => 404,
            Status::InternalServerError => 500,
        }
    }
}

/// The numbers are those of HTTP: a request that is served has one in the two
/// hundreds, one for something that is not there is 404, every other failure is
/// 500, and no two statuses have the same.
pub proof fn law_numbers_of_statuses(status: Status, other: Status)
    ensures
        status == Status::OK <==> status.spec_code() == 200,
        status == Status::Created <==> status.spec_code() == 201,
        status == Status::NotFound <==> status.spec_code() == 404,
        status == Status::InternalServerError <==> status.spec_code() == 500,
        status.spec_code() == other.spec_code() <==> status == other,
{
}

} // verus!
