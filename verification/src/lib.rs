pub mod flash;
pub mod flashield;
pub mod generator;
pub mod lru;
pub mod metrics;
pub mod policy;
pub mod trace;
pub mod text;
pub mod cli;
pub mod report;
pub mod simulate;
