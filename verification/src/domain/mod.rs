pub mod async_flow;
pub mod doc_entry;
pub mod grpc_flow;
