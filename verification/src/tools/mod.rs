pub mod impact_graph;
pub mod find_dependents;
pub mod dependency_graph;
pub mod ast_parser;
pub mod smart_search;
