//! Verified core of the actor editor: command history, mesh file format,
//! mesh topology bookkeeping, slice capping, socket naming and the editor's
//! small decision rules.
pub mod action_stack;
pub mod k2m;
pub mod mesh_topology;
pub mod capper;
pub mod sockets;
pub mod slicing;
pub mod editor_state;
pub mod optimization;
