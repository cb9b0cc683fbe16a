pub mod algorithms;
pub mod base;
pub mod keyed;
pub mod text;
pub mod worker;
pub mod contracts;
pub mod verifiers;
pub mod launch;
pub mod governance;
pub mod registry;
pub mod sdk;
pub mod benchmarks;
