//! Merging agency stores: the options and the running totals of transfers.
use vstd::prelude::*;

verus! {

/// Options for merging agency stores.
#[derive(Debug, Clone)]
pub struct MergeOptions {
    pub sources: Vec<String>,
    pub into: Option<String>,
    pub dry_run: bool,
    pub json: bool,
}

/// How many items one transfer (or several) added, updated and skipped.
#[derive(Debug, Clone, Copy, PartialEq, Eq, Structural)]
pub struct TransferSummary {
    pub roles_added: usize,
    pub roles_updated: usize,
    pub roles_skipped: usize,
    pub motivations_added: usize,
    pub motivations_updated: usize,
    pub motivations_skipped: usize,
    pub agents_added: usize,
    pub agents_updated: usize,
    pub agents_skipped: usize,
    pub evaluations_added: usize,
    pub evaluations_skipped: usize,
}

impl Default for TransferSummary {
    fn default() -> (r: TransferSummary)
        ensures
            r == (TransferSummary {
                roles_added: 0,
                roles_updated: 0,
                roles_skipped: 0,
                motivations_added: 0,
                motivations_updated: 0,
                motivations_skipped: 0,
                agents_added: 0,
                agents_updated: 0,
                agents_skipped: 0,
                evaluations_added: 0,
                evaluations_skipped: 0,
            }),
    {
        TransferSummary {
            roles_added: 0,
            roles_updated: 0,
            roles_skipped: 0,
            motivations_added: 0,
            motivations_updated: 0,
            motivations_skipped: 0,
            agents_added: 0,
            agents_updated: 0,
            agents_skipped: 0,
            evaluations_added: 0,
            evaluations_skipped: 0,
        }
    }
}

/// Every count fits when `a` and `b` are added.
pub open spec fn sums_fit(a: TransferSummary, b: TransferSummary) -> bool {
    &&& a.roles_added + b.roles_added <= usize::MAX
    &&& a.roles_updated + b.roles_updated <= usize::MAX
    &&& a.roles_skipped + b.roles_skipped <= usize::MAX
    &&& a.motivations_added + b.motivations_added <= usize::MAX
    &&& a.motivations_updated + b.motivations_updated <= usize::MAX
    &&& a.motivations_skipped + b.motivations_skipped <= usize::MAX
    &&& a.agents_added + b.agents_added <= usize::MAX
    &&& a.agents_updated + b.agents_updated <= usize::MAX
    &&& a.agents_skipped + b.agents_skipped <= usize::MAX
    &&& a.evaluations_added + b.evaluations_added <= usize::MAX
    &&& a.evaluations_skipped + b.evaluations_skipped <= usize::MAX
}

/// Add one transfer's counts to a running total.
pub fn accumulate(total: &mut TransferSummary, part: &TransferSummary)
    requires
        sums_fit(*old(total), *part),
    ensures
        *final(total) == (TransferSummary {
            roles_added: (old(total).roles_added + part.roles_added) as usize,
            roles_updated: (old(total).roles_updated + part.roles_updated) as usize,
            roles_skipped: (old(total).roles_skipped + part.roles_skipped) as usize,
            motivations_added: (old(total).motivations_added + part.motivations_added) as usize,
            motivations_updated: (old(total).motivations_updated + part.motivations_updated) as usize,
            motivations_skipped: (old(total).motivations_skipped + part.motivations_skipped) as usize,
            agents_added: (old(total).agents_added + part.agents_added) as usize,
            agents_updated: (old(total).agents_updated + part.agents_updated) as usize,
            agents_skipped: (old(total).agents_skipped + part.agents_skipped) as usize,
            evaluations_added: (old(total).evaluations_added + part.evaluations_added) as usize,
            evaluations_skipped: (old(total).evaluations_skipped + part.evaluations_skipped) as usize,
        }),
{
    total.roles_added = total.roles_added + part.roles_added;
    total.roles_updated = total.roles_updated + part.roles_updated;
    total.roles_skipped = total.roles_skipped + part.roles_skipped;
    total.motivations_added = total.motivations_added + part.motivations_added;
    total.motivations_updated = total.motivations_updated + part.motivations_updated;
    total.motivations_skipped = total.motivations_skipped + part.motivations_skipped;
    total.agents_added = total.agents_added + part.agents_added;
    total.agents_updated = total.agents_updated + part.agents_updated;
    total.agents_skipped = total.agents_skipped + part.agents_skipped;
    total.evaluations_added = total.evaluations_added + part.evaluations_added;
    total.evaluations_skipped = total.evaluations_skipped + part.evaluations_skipped;
}

/// A merge needs at least two sources.
pub fn check_sources(opts: &MergeOptions) -> (r: bool)
    ensures
        r == (opts.sources@.len() >= 2),
{
    opts.sources.len() >= 2
}

} // verus!
