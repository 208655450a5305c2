//! Intraprocedural value-range analysis over a control-flow graph.
//!
//! The pipeline: dominance analysis (`dominance`), minimal SSA construction
//! (`ssa`), e-SSA branch refinement (`essa`), constraint-graph construction
//! (`graph`, `cgraph`) and a widening/narrowing range solver over strongly
//! connected components (`scc`, `solver`); `analysis` runs it end to end.
pub mod range;
pub mod cfg;
pub mod dominance;
pub mod ssa;
pub mod essa;
pub mod graph;
pub mod scc;
pub mod solver;
pub mod cgraph;
pub mod analysis;
pub mod generics;
