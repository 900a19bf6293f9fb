//! Host side of a GPU Monte Carlo simulation of lattice gauge theories in their
//! dual, integer valued form.
//!
//! A state assigns an integer to every plaquette of a periodic four dimensional
//! lattice, for a number of replicas at once. The device runs the update kernels;
//! this crate decides which kernels run, with which arguments and on how many
//! threads, and turns what comes back from the device into results. Each method of
//! [`backend::CudaBackend`] that needs the device returns the list of
//! [`device::DeviceOp`]s to perform, and takes back what the device answered.

pub mod arrays;
pub mod backend;
pub mod buffers;
pub mod counts;
pub mod device;
pub mod dual_state;
pub mod error;
pub mod histogram;
pub mod lattice;
pub mod measure;
pub mod mesh;
pub mod pairs;
pub mod random;
pub mod redirect;
pub mod sizes;
pub mod sums;
pub mod tempering;
pub mod updates;
pub mod violations;
pub mod wilson;
