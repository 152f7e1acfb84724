//! Which indexes a change of files makes stale.
use vstd::prelude::*;

use crate::text::{chars_of, contains, contains_str, ends_with, ends_with_str};

verus! {

/// The indexes to rebuild after a change.
#[derive(Debug, PartialEq, Eq, Structural, Clone, Copy)]
pub struct RescanPlan {
    pub async_flow: bool,
    pub grpc: bool,
    pub docs: bool,
}

/// A path that the watcher ignores: dependencies, Git data and build output.
pub open spec fn ignored_path(s: Seq<char>) -> bool {
    contains(s, "node_modules"@) || contains(s, ".git"@) || contains(s, "/target/"@)
}

/// A changed path makes the asynchronous flow graph stale: a TypeScript
/// source of the messaging package, a post-processor, a worker or an outbox.
pub open spec fn stales_async(s: Seq<char>) -> bool {
    !ignored_path(s) && !ends_with(s, ".proto"@) && !(ends_with(s, ".md"@) && contains(s, "/docs/"@)) && (ends_with(
        s,
        ".ts"@,
    ) || ends_with(s, ".tsx"@)) && (contains(s, "messaging"@) || contains(s, "post-processor"@) || contains(
        s,
        "worker"@,
    ) || contains(s, "outbox"@))
}

/// A changed path makes the gRPC graph stale: a `.proto` file, or a
/// TypeScript controller or service.
pub open spec fn stales_grpc(s: Seq<char>) -> bool {
    !ignored_path(s) && (ends_with(s, ".proto"@) || (!(ends_with(s, ".md"@) && contains(s, "/docs/"@)) && (ends_with(
        s,
        ".ts"@,
    ) || ends_with(s, ".tsx"@)) && (contains(s, "controller"@) || contains(s, "service"@))))
}

/// A changed path makes the documentation index stale: Markdown under `/docs/`.
pub open spec fn stales_docs(s: Seq<char>) -> bool {
    !ignored_path(s) && !ends_with(s, ".proto"@) && ends_with(s, ".md"@) && contains(s, "/docs/"@)
}

/// What one changed path makes stale.
pub fn path_plan(path: &str) -> (r: RescanPlan)
    ensures
        r.async_flow == stales_async(path@),
        r.grpc == stales_grpc(path@),
        r.docs == stales_docs(path@),
{
    let s = chars_of(path);
    let none = RescanPlan { async_flow: false, grpc: false, docs: false };
    if contains_str(&s, "node_modules") || contains_str(&s, ".git") || contains_str(&s, "/target/") {
        return none;
    }
    if ends_with_str(&s, ".proto") {
        RescanPlan { async_flow: false, grpc: true, docs: false }
    } else if ends_with_str(&s, ".md") && contains_str(&s, "/docs/") {
        RescanPlan { async_flow: false, grpc: false, docs: true }
    } else if ends_with_str(&s, ".ts") || ends_with_str(&s, ".tsx") {
        let a = contains_str(&s, "messaging") || contains_str(&s, "post-processor") || contains_str(&s, "worker")
            || contains_str(&s, "outbox");
        let g = contains_str(&s, "controller") || contains_str(&s, "service");
        RescanPlan { async_flow: a, grpc: g, docs: false }
    } else {
        none
    }
}

/// The indexes that a change of these paths makes stale: each one that some
/// path makes stale.
pub fn rescan_plan(paths: &Vec<String>) -> (r: RescanPlan)
    ensures
        r.async_flow == exists|i: int| 0 <= i < paths@.len() && stales_async(#[trigger] paths@[i]@),
        r.grpc == exists|i: int| 0 <= i < paths@.len() && stales_grpc(#[trigger] paths@[i]@),
        r.docs == exists|i: int| 0 <= i < paths@.len() && stales_docs(#[trigger] paths@[i]@),
{
    let mut plan = RescanPlan { async_flow: false, grpc: false, docs: false };
    let mut i: usize = 0;
    while i < paths.len()
        invariant
            0 <= i <= paths@.len(),
            plan.async_flow == exists|k: int| 0 <= k < i && stales_async(#[trigger] paths@[k]@),
            plan.grpc == exists|k: int| 0 <= k < i && stales_grpc(#[trigger] paths@[k]@),
            plan.docs == exists|k: int| 0 <= k < i && stales_docs(#[trigger] paths@[k]@),
        decreases paths@.len() - i,
    {
        let p = path_plan(paths[i].as_str());
        plan = RescanPlan {
            async_flow: plan.async_flow || p.async_flow,
            grpc: plan.grpc || p.grpc,
            docs: plan.docs || p.docs,
        };
        i = i + 1;
    }
    plan
}

/// A changed path makes the impact graph stale: a TypeScript source outside
/// build output and dependencies.
pub open spec fn stales_impact(s: Seq<char>) -> bool {
    ends_with(s, ".ts"@) && !contains(s, "/dist/"@) && !contains(s, "/node_modules/"@)
}

/// Whether a change of these paths calls for rebuilding the impact graph.
pub fn should_reindex(paths: &Vec<String>) -> (r: bool)
    ensures
        r == exists|i: int| 0 <= i < paths@.len() && stales_impact(#[trigger] paths@[i]@),
{
    let mut i: usize = 0;
    while i < paths.len()
        invariant
            0 <= i <= paths@.len(),
            forall|k: int| 0 <= k < i ==> !stales_impact(#[trigger] paths@[k]@),
        decreases paths@.len() - i,
    {
        let s = chars_of(paths[i].as_str());
        if ends_with_str(&s, ".ts") && !contains_str(&s, "/dist/") && !contains_str(&s, "/node_modules/") {
            assert(stales_impact(paths@[i as int]@));
            return true;
        }
        i = i + 1;
    }
    false
}

} // verus!
