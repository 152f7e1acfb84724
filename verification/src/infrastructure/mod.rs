pub mod scanners;
pub mod watcher;
