pub mod async_scanner;
pub mod grpc_scanner;
pub mod doc_scanner;
pub mod async_laws;
pub mod grpc_laws;
pub mod async_links;
