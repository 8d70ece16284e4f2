//! The state of gestures, carried between cycles by the application.

use std::num::TryFromIntError;
use vstd::prelude::*;

verus! {

/// The identity of whatever takes part in a gesture. It is never zero.
#[derive(Copy, Clone, Eq, PartialEq, Structural)]
pub struct Id(pub(crate) u128);

/// `NonZeroU128::try_from`, and `NonZeroU128::get` on what it gives: the number
/// itself where it is not zero, and the error of the conversion where it is.
#[verifier::external_body]
fn non_zero(value: u128) -> (checked: Result<u128, TryFromIntError>)
    ensures
        checked is Ok <==> value != 0,
        checked matches Ok(number) ==> number == value,
{
    std::num::NonZeroU128::try_from(value).map(std::num::NonZeroU128::get)
}

impl Id {
    /// The number that stands for the identity.
    pub closed spec fn spec_get(self) -> u128 {
        self.0
    }

    /// The identity that `number` stands for.
    pub closed spec fn spec_new(number: u128) -> Id {
        Id(number)
    }

    /// An identity is never zero.
    pub open spec fn wf(self) -> bool {
        self.spec_get() != 0
    }

    /// The number that stands for the identity.
    #[verifier::when_used_as_spec(spec_get)]
    pub fn get(self) -> (number: u128)
        ensures
            number == self.spec_get(),
    {
        self.0
    }
}

impl TryFrom<u128> for Id {
    type Error = TryFromIntError;

    /// The identity that `value` stands for. Zero stands for none.
    fn try_from(value: u128) -> (id: Result<Id, TryFromIntError>)
        ensures
            id is Ok <==> value != 0,
            id matches Ok(made) ==> made.wf() && made.spec_get() == value,
    {
        match non_zero(value) {
            Ok(number) => Ok(Id(number)),
            Err(error) => Err(error),
        }
    }
}

impl vstd::std_specs::convert::TryFromSpecImpl<u128> for Id {
    /// The error of a failed conversion cannot be told from here, so nothing is
    /// claimed through this: `try_from` says itself what it returns.
    open spec fn obeys_try_from_spec() -> bool {
        false
    }

    open spec fn try_from_spec(value: u128) -> Result<Self, Self::Error> {
        if value != 0 {
            Ok(Id::spec_new(value))
        } else {
            Err(vstd::pervasive::arbitrary())
        }
    }
}

/// Which identities a gesture is active on, hovers over, and has in focus.
#[non_exhaustive]
#[derive(Copy, Clone, Eq, PartialEq, Structural)]
pub struct Values {
    pub active: Option<Id>,
    pub hover: Option<Id>,
    pub focus: Option<Id>,
}

impl Default for Values {
    /// No gesture is under way.
    fn default() -> (values: Values)
        ensures
            values == (Values { active: None, hover: None, focus: None }),
    {
        Values { active: None, hover: None, focus: None }
    }
}

} // verus!
