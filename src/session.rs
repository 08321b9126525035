pub mod snapshot;
