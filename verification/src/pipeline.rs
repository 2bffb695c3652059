//! The pipeline of one resource: extract, reconcile, and form the mutation
//! that is submitted to the store.
//!
//! Every stage is a function of its inputs alone, so scanning an unchanged
//! resource again forms the same mutation again.

use vstd::prelude::*;
use crate::markdown::{extract_text, finding_of, link_views, Finding, FindingView, Link, LinkView};
use crate::resource::{lossy_text, stem, Resource};
use crate::tags::{reconcile_tags, reconciled};
use crate::text::string_views;

verus! {

/// A finding together with its final tag set.
#[derive(Debug)]
pub struct ReconciledFinding {
    pub finding: Finding,
    /// The declared tags and the caller's, reconciled.
    pub tags: Vec<String>,
}

/// Mathematical form of a [`ReconciledFinding`].
pub struct ReconciledView {
    pub finding: FindingView,
    pub tags: Seq<Seq<char>>,
}

impl View for ReconciledFinding {
    type V = ReconciledView;

    open spec fn view(&self) -> ReconciledView {
        ReconciledView { finding: self.finding@, tags: string_views(self.tags@) }
    }
}

/// The upsert that the store is asked to perform: keyed by the path, it
/// carries everything the store keeps of the resource.
#[derive(Debug)]
pub struct Mutation {
    pub path: String,
    pub checksum: Vec<u8>,
    pub title: String,
    pub tags: Vec<String>,
    pub links: Vec<Link>,
}

/// Mathematical form of a [`Mutation`].
pub struct MutationView {
    pub path: Seq<char>,
    pub checksum: Seq<u8>,
    pub title: Seq<char>,
    pub tags: Seq<Seq<char>>,
    pub links: Seq<LinkView>,
}

impl View for Mutation {
    type V = MutationView;

    open spec fn view(&self) -> MutationView {
        MutationView {
            path: self.path@,
            checksum: self.checksum@,
            title: self.title@,
            tags: string_views(self.tags@),
            links: link_views(self.links@),
        }
    }
}

/// The finding of a resource with these bytes at this path.
pub open spec fn finding_for(path: Seq<char>, content: Seq<u8>) -> FindingView {
    finding_of(lossy_text(content), stem(path))
}

/// The mutation for a resource and its reconciled finding.
pub open spec fn mutation_of(
    path: Seq<char>,
    checksum: Seq<u8>,
    finding: ReconciledView,
) -> MutationView {
    MutationView {
        path,
        checksum,
        title: finding.finding.title,
        tags: finding.tags,
        links: finding.finding.links,
    }
}

/// The mutation that a scan with these caller tags submits for a resource.
pub open spec fn prepared(
    path: Seq<char>,
    content: Seq<u8>,
    checksum: Seq<u8>,
    caller_tags: Seq<Seq<char>>,
) -> MutationView {
    let finding = finding_for(path, content);
    mutation_of(
        path,
        checksum,
        ReconciledView { finding, tags: reconciled(finding.tags, caller_tags) },
    )
}

/// Extracts the finding of a resource.
pub fn extract(resource: &Resource) -> (f: Finding)
    ensures
        f@ == finding_for(resource.path@, resource.content@),
{
    let text = resource.text();
    let fallback = resource.fallback_title();
    extract_text(text.as_str(), fallback.as_str())
}

/// Reconciles the tags of a finding with those of the caller.
pub fn reconcile(finding: Finding, caller_tags: &Vec<String>) -> (r: ReconciledFinding)
    ensures
        r@.finding == finding@,
        r@.tags == reconciled(finding@.tags, string_views(caller_tags@)),
{
    let tags = reconcile_tags(&finding.tags, caller_tags);
    ReconciledFinding { finding, tags }
}

/// Forms the mutation for a resource and its reconciled finding.
pub fn mutation_for(resource: &Resource, finding: ReconciledFinding) -> (m: Mutation)
    ensures
        m@ == mutation_of(resource.path@, resource.checksum@, finding@),
{
    let ReconciledFinding { finding, tags } = finding;
    let Finding { title, links, tags: _ } = finding;
    let checksum = resource.checksum.clone();
    assert(checksum@ =~= resource.checksum@);
    Mutation { path: resource.path.clone(), checksum, title, tags, links }
}

/// Runs the pipeline of one resource up to the submission: extract,
/// reconcile, form the mutation.
pub fn prepare(resource: &Resource, caller_tags: &Vec<String>) -> (m: Mutation)
    ensures
        m@ == prepared(
            resource.path@,
            resource.content@,
            resource.checksum@,
            string_views(caller_tags@),
        ),
{
    let finding = extract(resource);
    let reconciled = reconcile(finding, caller_tags);
    mutation_for(resource, reconciled)
}

/// Scanning the same bytes at the same path with the same caller tags forms
/// the same mutation, whatever else differs between the two resources.
pub proof fn lemma_unchanged_resource_same_mutation(
    a: Resource,
    b: Resource,
    caller_tags: Seq<Seq<char>>,
)
    requires
        a.wf(),
        b.wf(),
        a.path@ == b.path@,
        a.content@ == b.content@,
    ensures
        prepared(a.path@, a.content@, a.checksum@, caller_tags) == prepared(
            b.path@,
            b.content@,
            b.checksum@,
            caller_tags,
        ),
{
}

} // verus!
