//! From a mirrored service to the aggregation service that unions its
//! per-cluster mirrors: the name to look up in the service registry, and what
//! the registry's answer means.

use crate::registry::{exact_name_matches, holds_none, holds_once, names_of};
use crate::registry::{lemma_count_none, lemma_count_once, lemma_matches_count};
use crate::resolver::{annotation_or_empty, get_parent_name, parent_name_of};
use crate::service::{MirroredService, MirroredServiceView, CLUSTER_NAME_KEY};
use crate::text::{is_first_occurrence, lemma_replace_absent, lemma_replace_at};
use crate::text::{occurs, replace_first, replace_first_in};
use kube::api::ListParams;
use kube::api::VersionMatch;
use vstd::prelude::*;
use vstd::string::*;

verus! {

/// What stands in an aggregation service's name where a per-cluster mirror
/// carries its cluster suffix.
pub const GLOBAL_SUFFIX: &'static str = "-global";

/// The field that a registry lookup by name selects on, with its operator.
pub const NAME_FIELD: &'static str = "metadata.name=";

/// What introduces the lookup in the account of a failed query.
pub const LOOKUP_CONTEXT: &'static str =
    "Unable to list services to check if the aggregation service exist for filter : ";

/// kube's `VersionMatch`, with its variants.
#[verifier::external_type_specification]
pub struct ExVersionMatch(VersionMatch);

/// kube's `ListParams`, with its fields.
#[verifier::external_type_specification]
pub struct ExListParams(ListParams);

/// Calls `ListParams::default().fields(selector)` of kube. Not proved: that
/// the default parameters set nothing, and that `fields` stores a copy of
/// `selector` as the field selector and leaves the rest as it was.
#[verifier::external_body]
fn list_params_by_fields(selector: &str) -> (params: ListParams)
    ensures
        params.field_selector is Some,
        params.field_selector->0@ == selector@,
        params.label_selector is None,
        params.timeout is None,
        params.limit is None,
        params.continue_token is None,
        params.version_match is None,
        params.resource_version is None,
{
    ListParams::default().fields(selector)
}

/// The suffix that the source cluster leaves in a mirror's name: a hyphen,
/// then the cluster name, which is empty for a service without a
/// cluster-name annotation.
pub open spec fn cluster_suffix_of(svc: MirroredServiceView) -> Seq<char> {
    "-"@ + annotation_or_empty(svc, CLUSTER_NAME_KEY@)
}

/// The name of the aggregation service of `svc`: its parent's name with the
/// leftmost occurrence of the cluster suffix replaced by `GLOBAL_SUFFIX`.
pub open spec fn global_name_of(svc: MirroredServiceView) -> Seq<char> {
    replace_first(parent_name_of(svc), cluster_suffix_of(svc), GLOBAL_SUFFIX@)
}

/// The field selector that restricts a listing to the resources named `name`.
pub open spec fn name_selector(name: Seq<char>) -> Seq<char> {
    NAME_FIELD@ + name
}

/// What a listing of the services of one name says of that service: it
/// exists exactly if the listing is not empty.
pub open spec fn shows_existence(listed: Seq<Seq<char>>) -> bool {
    listed.len() > 0
}

/// The lookup that decides whether the aggregation service of a mirrored
/// service exists.
#[derive(Debug)]
pub struct AggregationQuery {
    /// A hyphen followed by the source cluster's name.
    pub cluster_suffix: String,
    /// The name under which the registry is asked.
    pub global_name: String,
}

/// Why an aggregation service could not be located.
#[derive(Debug)]
pub enum LocatorError<E> {
    /// The registry did not answer the lookup `lookup`; `cause` is its failure.
    QueryFailed { lookup: String, cause: E },
}

/// The cluster suffix of `svc`.
pub fn cluster_suffix(svc: &MirroredService) -> (suffix: String)
    ensures
        suffix@ == cluster_suffix_of(svc@),
{
    let mut suffix = String::from_str("-");
    match svc.annotation(CLUSTER_NAME_KEY) {
        Some(cluster) => suffix.append(cluster),
        None => {
            proof {
                assert("-"@ + Seq::<char>::empty() =~= "-"@);
            }
        },
    }
    suffix
}

/// The registry lookup for the aggregation service of `svc`.
pub fn aggregation_query(svc: &MirroredService) -> (query: AggregationQuery)
    ensures
        query.cluster_suffix@ == cluster_suffix_of(svc@),
        query.global_name@ == global_name_of(svc@),
{
    let parent = get_parent_name(svc);
    let cluster_suffix = cluster_suffix(svc);
    let global_name = replace_first_in(parent.as_str(), cluster_suffix.as_str(), GLOBAL_SUFFIX);
    AggregationQuery { cluster_suffix, global_name }
}

impl<E> LocatorError<E> {
    /// An account of the failure that names the lookup that was attempted.
    pub fn context(&self) -> (account: String)
        ensures
            self matches LocatorError::QueryFailed { lookup, .. } && account@ == LOOKUP_CONTEXT@
                + lookup@,
    {
        match self {
            LocatorError::QueryFailed { lookup, .. } => {
                let mut account = String::from_str(LOOKUP_CONTEXT);
                account.append(lookup.as_str());
                account
            },
        }
    }
}

impl AggregationQuery {
    /// The field selector to list with: it admits the resources whose name is
    /// exactly `global_name`, in the whole registry.
    pub fn field_selector(&self) -> (selector: String)
        ensures
            selector@ == name_selector(self.global_name@),
    {
        let mut selector = String::from_str(NAME_FIELD);
        selector.append(self.global_name.as_str());
        selector
    }

    /// The parameters to list the registry's services with: the field
    /// selector of this lookup and no other restriction, so that the listing
    /// covers the whole registry.
    pub fn list_params(&self) -> (params: ListParams)
        ensures
            params.field_selector is Some,
            params.field_selector->0@ == name_selector(self.global_name@),
            params.label_selector is None,
            params.timeout is None,
            params.limit is None,
            params.continue_token is None,
            params.version_match is None,
            params.resource_version is None,
    {
        let selector = self.field_selector();
        list_params_by_fields(selector.as_str())
    }

    /// What the registry's answer to this lookup means. A listing says that
    /// the aggregation service exists exactly if it is not empty, however
    /// many resources it holds; a failure comes back as it is, together with
    /// the selector that was asked for.
    pub fn conclude<E>(self, listed: Result<Vec<String>, E>) -> (outcome: Result<
        (bool, String),
        LocatorError<E>,
    >)
        ensures
            match listed {
                Ok(found) => outcome matches Ok((exists, name)) && exists == shows_existence(
                    names_of(found@),
                ) && name@ == self.global_name@,
                Err(failure) => outcome matches Err(LocatorError::QueryFailed { lookup, cause })
                    && cause == failure && lookup@ == name_selector(self.global_name@),
            },
    {
        match listed {
            Ok(found) => Ok((found.len() > 0, self.global_name)),
            Err(cause) => Err(LocatorError::QueryFailed { lookup: self.field_selector(), cause }),
        }
    }
}

/// Whether the aggregation service of `svc` exists, given what the registry
/// answered when asked to list the services named `global_name_of(svc)`:
/// the names it listed, or its failure. Returns the flag with the name that
/// was asked for; a failed query is an error that holds the registry's
/// failure unchanged and the selector of the lookup, never a `false`.
pub fn check_if_aggregation_service_exists<E>(
    svc: &MirroredService,
    listed: Result<Vec<String>, E>,
) -> (outcome: Result<(bool, String), LocatorError<E>>)
    ensures
        match listed {
            Ok(found) => outcome matches Ok((exists, name)) && exists == shows_existence(
                names_of(found@),
            ) && name@ == global_name_of(svc@),
            Err(failure) => outcome matches Err(LocatorError::QueryFailed { lookup, cause })
                && cause == failure && lookup@ == name_selector(global_name_of(svc@)),
        },
{
    aggregation_query(svc).conclude(listed)
}

/// A registry that holds exactly one service under the aggregation name of
/// `svc` answers the lookup with a listing that shows existence; one that
/// holds none answers with a listing that shows absence.
pub proof fn lemma_existence_round_trip(svc: MirroredServiceView, registry: Seq<Seq<char>>)
    ensures
        holds_once(registry, global_name_of(svc)) ==> shows_existence(
            exact_name_matches(registry, global_name_of(svc)),
        ),
        holds_none(registry, global_name_of(svc)) ==> !shows_existence(
            exact_name_matches(registry, global_name_of(svc)),
        ),
{
    let name = global_name_of(svc);
    lemma_matches_count(registry, name);
    lemma_count_once(registry, name);
    lemma_count_none(registry, name);
}

/// A listing by name shows existence exactly if the registry holds a
/// service of that name, however many it holds.
pub proof fn lemma_existence_iff_held(registry: Seq<Seq<char>>, name: Seq<char>)
    ensures
        shows_existence(exact_name_matches(registry, name)) <==> !holds_none(registry, name),
{
    lemma_matches_count(registry, name);
    lemma_count_none(registry, name);
}

/// A service without a cluster-name annotation has the bare hyphen as its
/// cluster suffix, so that its aggregation name is its parent's name with
/// the leftmost hyphen replaced by `-global`.
pub proof fn lemma_missing_cluster_annotation(svc: MirroredServiceView)
    requires
        !svc.annotations.contains_key(CLUSTER_NAME_KEY@),
    ensures
        cluster_suffix_of(svc) == seq!['-'],
        global_name_of(svc) == replace_first(
            parent_name_of(svc),
            seq!['-'],
            seq!['-', 'g', 'l', 'o', 'b', 'a', 'l'],
        ),
{
    reveal_strlit("-");
    reveal_strlit("-global");
    assert("-"@ + Seq::<char>::empty() =~= seq!['-']);
    assert("-global"@ =~= seq!['-', 'g', 'l', 'o', 'b', 'a', 'l']);
}

/// Where the parent's name is `base` followed by the cluster suffix, and the
/// suffix stands nowhere further left in it, the aggregation name is `base`
/// followed by `GLOBAL_SUFFIX`.
pub proof fn lemma_trailing_suffix(svc: MirroredServiceView, base: Seq<char>)
    requires
        parent_name_of(svc) == base + cluster_suffix_of(svc),
        is_first_occurrence(parent_name_of(svc), cluster_suffix_of(svc), base.len() as int),
    ensures
        global_name_of(svc) == base + GLOBAL_SUFFIX@,
{
    let parent = parent_name_of(svc);
    let suffix = cluster_suffix_of(svc);
    lemma_replace_at(parent, suffix, GLOBAL_SUFFIX@, base.len() as int);
    assert(parent.subrange(0, base.len() as int) =~= base);
    assert(parent.subrange(parent.len() as int, parent.len() as int) =~= Seq::empty());
    assert(base + GLOBAL_SUFFIX@ + Seq::<char>::empty() =~= base + GLOBAL_SUFFIX@);
}

/// Where the cluster suffix does not occur in the parent's name, the
/// aggregation name is the parent's name unchanged.
pub proof fn lemma_suffix_absent(svc: MirroredServiceView)
    requires
        !occurs(parent_name_of(svc), cluster_suffix_of(svc)),
    ensures
        global_name_of(svc) == parent_name_of(svc),
{
    lemma_replace_absent(parent_name_of(svc), cluster_suffix_of(svc), GLOBAL_SUFFIX@);
}

} // verus!
