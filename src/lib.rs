//! Coordination kernel for a discrete-event simulation of components that
//! talk through directional, acknowledged ports.
pub mod event;
pub mod port;
pub mod manager;
pub mod sim;
