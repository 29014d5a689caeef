//! Local storage of images.

pub mod oci;

pub use oci::OciStore;
