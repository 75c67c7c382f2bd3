//! Declarations of pricelevel's order types, which the conversions in
//! `outside` build and read.

use vstd::prelude::*;
use pricelevel::OrderType as PlOrderType;
use pricelevel::Side as PlSide;
use pricelevel::OrderId as PlOrderId;
use pricelevel::TimeInForce as PlTimeInForce;
use pricelevel::PegReferenceType as PlPegReferenceType;

verus! {

#[verifier::external_type_specification]
#[verifier::external_body]
#[verifier::reject_recursive_types(T)]
pub struct ExPlOrderType<T>(PlOrderType<T>);

#[verifier::external_type_specification]
#[verifier::external_body]
pub struct ExPlSide(PlSide);

#[verifier::external_type_specification]
#[verifier::external_body]
pub struct ExPlTimeInForce(PlTimeInForce);

#[verifier::external_type_specification]
#[verifier::external_body]
pub struct ExPlPegReferenceType(PlPegReferenceType);

#[verifier::external_type_specification]
#[verifier::external_body]
pub struct ExPlOrderId(PlOrderId);

} // verus!
