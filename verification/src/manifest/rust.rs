use vstd::prelude::*;
use crate::manifest::base::Manifest;
use crate::manifest::base::ManifestError;

verus! {

/// What `lic` reads of a `Cargo.toml`: its `package` table.
#[derive(Debug, PartialEq)]
pub struct CargoToml {
    pub package: Option<Package>,
}

/// The `package` table of a `Cargo.toml`, as far as `lic` reads it.
#[derive(Debug, PartialEq)]
pub struct Package {
    pub license: Option<String>,
}

impl Manifest for CargoToml {
    open spec fn declared_license(self) -> Option<String> {
        match self.package {
            Some(package) => package.license,
            None => None,
        }
    }

    open spec fn file_name() -> Seq<char> {
        "Cargo.toml"@
    }

    fn license(self) -> (declared: Result<String, ManifestError>) {
        match self.package {
            Some(Package { license: Some(id) }) => Ok(id),
            _ => Err(ManifestError::LicenseNotFound),
        }
    }

    fn filename() -> (name: String) {
        "Cargo.toml".to_owned()
    }
}

} // verus!
