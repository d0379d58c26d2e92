//! The Æther agent's logic, verified: the layered filesystem that processes
//! inside the sandbox see, the overlay of a directory with lazy files, the
//! FUSE path index, materialization, the add-in registry, the context file,
//! the shim-loader's outputs, Shimmer's scoring and the probe's staging.

pub mod agentfs;
pub mod context;
pub mod fuse_ops;
pub mod layer;
pub mod manifest;
pub mod maps;
pub mod materializer;
pub mod net;
pub mod overlay;
pub mod paths;
pub mod probe;
pub mod registry;
pub mod shim_loader;
pub mod shimmer;
pub mod strmap;
pub mod text;
pub mod tree;
