//! Running interaction nets on a device: books, nets and their readback, the
//! memory of the device and its snapshots, and the decisions of the processes
//! that drive it.

pub mod text;
pub mod reading;

pub mod hvm;
pub mod net;
pub mod readback;
pub mod readback_laws;
pub mod tree_laws;

pub mod pack;
pub mod wgsl;
pub mod wgsl_laws;
pub mod wgsl_reading;
pub mod splice_laws;
pub mod emit;
pub mod emit_laws;

pub mod snap;
pub mod boot;
pub mod snap_laws;
pub mod session;
pub mod session_laws;

pub mod config;
pub mod threads;
pub mod setup_laws;
pub mod supervise;
pub mod supervise_laws;
pub mod scripts;
pub mod scripts_laws;
