//! Endpoint identifiers.
//!
//! Endpoints are named by `bp7::EndpointID`. The verifier treats the type as
//! opaque; the functions below are the only operations the rest of the crate
//! performs on it, and their contracts are assumed rather than proved.

use bp7::EndpointID;
use vstd::prelude::*;

verus! {

/// Makes `bp7::EndpointID` known to the verifier, as a type whose values it
/// cannot look into.
#[verifier::external_type_specification]
#[verifier::external_body]
pub struct ExEndpointID(bp7::EndpointID);

/// Compares two endpoint identifiers with `EndpointID`'s `PartialEq::eq`.
///
/// The impl is derived over plain data (scheme number, address string or
/// node and service numbers), so it returns `true` exactly when both values
/// are the same identifier.
#[verifier::external_body]
pub(crate) fn same_eid(a: &EndpointID, b: &EndpointID) -> (same: bool)
    ensures
        same == (*a == *b),
{
    a == b
}

/// Copies an endpoint identifier with `EndpointID`'s `Clone::clone`, which is
/// derived and therefore yields an equal value.
#[verifier::external_body]
pub(crate) fn clone_eid(eid: &EndpointID) -> (copy: EndpointID)
    ensures
        copy == *eid,
{
    eid.clone()
}

/// `eid` occurs at index `i` of `eids` and nowhere before it.
pub open spec fn is_first_at(eids: Seq<EndpointID>, eid: EndpointID, i: int) -> bool {
    &&& 0 <= i < eids.len()
    &&& eids[i] == eid
    &&& forall|j: int| 0 <= j < i ==> eids[j] != eid
}

/// Index of the first occurrence of `eid` in `eids`, if it occurs at all.
pub open spec fn first_position(eids: Seq<EndpointID>, eid: EndpointID) -> Option<int> {
    if exists|i: int| is_first_at(eids, eid, i) {
        Some(choose|i: int| is_first_at(eids, eid, i))
    } else {
        None
    }
}

/// `first_position` finds an identifier exactly when the sequence contains
/// it, and then at the one index that `is_first_at` accepts.
pub proof fn lemma_first_position(eids: Seq<EndpointID>, eid: EndpointID)
    ensures
        first_position(eids, eid) is Some <==> eids.contains(eid),
        first_position(eids, eid) matches Some(i) ==> is_first_at(eids, eid, i),
        forall|i: int| is_first_at(eids, eid, i) ==> first_position(eids, eid) == Some(i),
{
    if eids.contains(eid) {
        let k = choose|k: int| 0 <= k < eids.len() && eids[k] == eid;
        lemma_least_occurrence(eids, eid, k);
    }
    assert forall|i: int| is_first_at(eids, eid, i) implies first_position(eids, eid) == Some(
        i,
    ) by {
        let c = choose|c: int| is_first_at(eids, eid, c);
        assert(is_first_at(eids, eid, c));
        if c < i {
            assert(eids[c] != eid);
        } else if i < c {
            assert(eids[i] != eid);
        }
    }
}

proof fn lemma_least_occurrence(eids: Seq<EndpointID>, eid: EndpointID, k: int)
    requires
        0 <= k < eids.len(),
        eids[k] == eid,
    ensures
        exists|i: int| is_first_at(eids, eid, i),
    decreases k,
{
    if forall|j: int| 0 <= j < k ==> eids[j] != eid {
        assert(is_first_at(eids, eid, k));
    } else {
        let j = choose|j: int| 0 <= j < k && eids[j] == eid;
        lemma_least_occurrence(eids, eid, j);
    }
}

} // verus!
