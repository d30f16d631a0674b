//! Lowering of a hierarchical, typed dataflow graph into a small
//! static-single-assignment target IR.
//!
//! A graph (`hugr`) is a module of function definitions. The body of a
//! function is a region of nodes that typed wires connect; a node may own
//! regions of its own: a nested dataflow graph, the cases of a
//! conditional, the body of a loop. Emission (`emit`) walks every region
//! in an order in which each node follows the nodes that it reads from
//! (`schedule`), and turns it into the instructions and basic blocks of
//! one target function (`ir`). Every wire lives in a stack slot of the
//! layout of its type (`convert`, `layout`). Constants (`constant`) and
//! the types, constants and operations of extensions (`extension`,
//! `int_ext`) are lowered by rules that a registry holds.
//!
//! What is emitted is a function of the model of the graph (`model`,
//! `extensional`) and of the registry alone, has a text (`text`), and is
//! structurally valid (`check`, `valid`). The shape of emitted control is
//! stated in `shape`, what the lowering of tuples and tags computes in
//! `semantics`, where the dispatch of a conditional goes in `dispatch`,
//! and on which graphs emission succeeds in `wellformed` and `success`.
pub mod layout;
pub mod types;
pub mod ir;
pub mod check;
pub mod error;
pub mod ops;
pub mod hugr;
pub mod model;
pub mod fat;
pub mod builder;
pub mod config;
pub mod extension;
pub mod int_ext;
pub mod convert;
pub mod constant;
pub mod schedule;
pub mod state;
pub mod context;
pub mod wires;
pub mod leaf;
pub mod region;
pub mod emit;
pub mod text;
pub mod frame;
pub mod shape;
pub mod semantics;
pub mod dispatch;
pub mod extensional;
pub mod sound;
pub mod valid;
pub mod wellformed;
pub mod confine;
pub mod owed;
pub mod success;
pub mod validate;
