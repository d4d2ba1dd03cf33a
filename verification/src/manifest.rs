pub mod base;
pub mod detect;
pub mod nodejs;
pub mod python;
pub mod rust;

pub use base::Manifest;
pub use base::ManifestError;
pub use nodejs::PackageJson;
pub use python::PyprojectToml;
pub use rust::CargoToml;
