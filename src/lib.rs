//! Decay-network engine for radioactive nuclides.
//!
//! - `symbol`, `nuclide`, `decay_mode`, `time_unit`: the vocabulary, read from and
//!   written to text.
//! - `decay_data`: an in-memory source of decay constants and progeny per nuclide.
//! - `paths`: every decay path from a root nuclide, with the branch rates and decay
//!   constants along it, found with an explicit stack.
//! - `solver`: the per-parent cache of path tables, built once per parent, and the
//!   decay of an inventory over it.
//! - `bateman`: the Bateman terms of a path and of a table.
//! - `inventory`: activity per nuclide, and the arithmetic a caller supplies.
//! - `chain`: the decay-chain graph, one node per nuclide and one edge per transition.
//! - `compound`: chemical formulas and their element counts.
//!
//! Decay constants, branch rates, times and activities are of a type parameter `W`. The
//! library moves them along and decides which terms to form; the numbers themselves come
//! from the caller's `Arithmetic` implementation.

pub mod bateman;
pub mod chain;
pub mod compound;
pub mod decay_data;
pub mod decay_mode;
pub mod error;
pub mod inventory;
pub mod nuclide;
pub mod paths;
pub mod solver;
pub mod symbol;
mod text;
pub mod time_unit;

pub use bateman::table_activities;
pub use chain::{ChainEdge, ChainNode, DecayChain, DecayChainBuilder};
pub use compound::{Composition, Compound};
pub use decay_data::{check_decay_mode, DecayData, NuclideRecord, Progeny};
pub use decay_mode::{DecayMode, DecayModeSet};
pub use error::Error;
pub use inventory::{Arithmetic, Inventory};
pub use nuclide::{MetastableState, Nuclide};
pub use paths::{PathEntry, PathError, PathTable};
pub use solver::BatemanDecaySolver;
pub use symbol::Symbol;
pub use time_unit::{half_life_parts, HalfLife, TimeUnit};
