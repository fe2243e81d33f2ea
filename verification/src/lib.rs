//! Owning containers over a pool of heap nodes.
//!
//! A [`node::Pool`] hands out nodes and takes them back. The four container
//! types own nodes on top of it: [`boxed::HeapBox`] one value, exclusively;
//! [`arc::HeapArc`] one value, shared and counted; [`array::HeapArray`] a run
//! of fixed length; [`fixed_vec::HeapFixedVec`] a buffer of fixed capacity
//! that is filled from the front.
//!
//! A container holds a handle and nothing else. Every operation names the
//! pool it works on, and an operation that ends ownership takes the
//! container by value: what is destroyed, and when, is in each contract.

pub mod arc;
pub mod array;
pub mod boxed;
pub mod fixed_vec;
pub mod node;
