pub mod dependency_engine;
pub mod fuzzy_engine;
pub mod grpc_engine;
pub mod impact_engine;
pub mod state;
pub mod doc_engine;
