//! Simrard's simulation core: spatial charter leases, causal event delivery,
//! transform-stack validation and the integer decision logic of pawns,
//! insects and the hypergraph substrate.

pub mod entity;
pub mod lease;
pub mod charter;
pub mod watchguard;
pub mod time;
pub mod causal;
pub mod text;
pub mod table;
pub mod transforms;
pub mod pawn;
pub mod ai;
pub mod quests;
pub mod movement;
pub mod actions;
pub mod dispatcher;
pub mod hypergraph;
pub mod world;
pub mod tier4;
pub mod run;
pub mod discovery;
