use vstd::prelude::*;

verus! {

/// The identifiers of histograms and cuts: `uuid::Uuid`, carried as it is.
#[verifier::external_type_specification]
#[verifier::external_body]
pub struct ExUuid(uuid::Uuid);

/// `clone` of `uuid::Uuid`, which that crate derives for a `Copy` type: the
/// clone is the identifier itself.
pub assume_specification[ <uuid::Uuid as Clone>::clone ](id: &uuid::Uuid) -> (copy: uuid::Uuid)
    ensures
        copy == *id,
;

} // verus!
