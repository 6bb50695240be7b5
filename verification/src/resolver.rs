//! From a mirrored service to the name of the logical service it mirrors.

use crate::service::{MirroredService, MirroredServiceView, PARENT_NAME_KEY};
use vstd::prelude::*;
use vstd::string::*;

verus! {

/// The value of the annotation `key`, or the empty string where the service
/// has no such annotation.
pub open spec fn annotation_or_empty(svc: MirroredServiceView, key: Seq<char>) -> Seq<char> {
    if svc.annotations.contains_key(key) {
        svc.annotations[key]
    } else {
        Seq::empty()
    }
}

/// The name of the logical parent of `svc`: what the parent-name annotation
/// holds where it is present and not empty, the service's own name otherwise.
pub open spec fn parent_name_of(svc: MirroredServiceView) -> Seq<char> {
    if annotation_or_empty(svc, PARENT_NAME_KEY@).len() > 0 {
        svc.annotations[PARENT_NAME_KEY@]
    } else {
        svc.name
    }
}

/// The name of the headless service that `svc` mirrors. A service that
/// carries no parent-name annotation, or an empty one, is its own parent.
pub fn get_parent_name(svc: &MirroredService) -> (parent: String)
    ensures
        parent@ == parent_name_of(svc@),
        !svc@.annotations.contains_key(PARENT_NAME_KEY@) ==> parent@ == svc@.name,
        svc@.annotations.contains_key(PARENT_NAME_KEY@) && svc@.annotations[PARENT_NAME_KEY@].len()
            > 0 ==> parent@ == svc@.annotations[PARENT_NAME_KEY@],
{
    match svc.annotation(PARENT_NAME_KEY) {
        Some(recorded) => {
            if !recorded.is_empty() {
                String::from_str(recorded)
            } else {
                String::from_str(svc.name())
            }
        },
        None => String::from_str(svc.name()),
    }
}

} // verus!
