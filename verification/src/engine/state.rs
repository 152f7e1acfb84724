//! What the server holds in memory: the import graph, the asynchronous and
//! gRPC flow graphs and the documentation index of one workspace.
use vstd::prelude::*;

use crate::domain::async_flow::AsyncFlowGraph;
use crate::domain::doc_entry::DocIndex;
use crate::domain::grpc_flow::GrpcFlowGraph;
use crate::strmap::{StrMap, StrSet};

verus! {

/// The indexes of one workspace.
pub struct AppState {
    pub root_dir: String,
    pub dependencies: StrMap<StrSet>,
    pub async_flow: AsyncFlowGraph,
    pub grpc_flow: GrpcFlowGraph,
    pub docs: DocIndex,
}

impl AppState {
    /// A state over the given scans of `root_dir`, with an empty import
    /// graph.
    pub fn new(
        root_dir: String,
        async_flow: AsyncFlowGraph,
        grpc_flow: GrpcFlowGraph,
        docs: DocIndex,
    ) -> (s: Self)
        ensures
            s.root_dir == root_dir,
            s.dependencies.spec_len() == 0,
            s.async_flow == async_flow,
            s.grpc_flow == grpc_flow,
            s.docs == docs,
    {
        AppState { root_dir, dependencies: StrMap::new(), async_flow, grpc_flow, docs }
    }

    /// Replaces the asynchronous flow graph by a fresh scan.
    pub fn reload_async(&mut self, updated: AsyncFlowGraph)
        ensures
            final(self).async_flow == updated,
            final(self).root_dir == old(self).root_dir,
            final(self).dependencies == old(self).dependencies,
            final(self).grpc_flow == old(self).grpc_flow,
            final(self).docs == old(self).docs,
    {
        self.async_flow = updated;
    }

    /// Replaces the gRPC flow graph by a fresh scan.
    pub fn reload_grpc(&mut self, updated: GrpcFlowGraph)
        ensures
            final(self).grpc_flow == updated,
            final(self).root_dir == old(self).root_dir,
            final(self).dependencies == old(self).dependencies,
            final(self).async_flow == old(self).async_flow,
            final(self).docs == old(self).docs,
    {
        self.grpc_flow = updated;
    }

    /// Replaces the documentation index by a fresh scan.
    pub fn reload_docs(&mut self, updated: DocIndex)
        ensures
            final(self).docs == updated,
            final(self).root_dir == old(self).root_dir,
            final(self).dependencies == old(self).dependencies,
            final(self).async_flow == old(self).async_flow,
            final(self).grpc_flow == old(self).grpc_flow,
    {
        self.docs = updated;
    }
}

} // verus!
