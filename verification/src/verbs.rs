//! The verb surface: typed requests and results, and the decision logic
//! each verb runs on values already read from the substrate.

pub mod args;
pub mod results;
pub mod audit;
pub mod ids;
pub mod acs;
pub mod close;
pub mod tasks;
pub mod names;
pub mod specs;
pub mod topology;
pub mod findings;
pub mod cards;
pub mod resolve;
pub mod memory;
pub mod sessions;
pub mod skills;
pub mod overview;
pub mod graph;
pub mod catalog;
pub mod drift;
pub mod prime;
pub mod tree;
pub mod tasklist;
pub mod matching;
