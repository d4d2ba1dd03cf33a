use vstd::prelude::*;
use crate::manifest::base::Manifest;
use crate::manifest::base::ManifestError;

verus! {

/// What `lic` reads of a `package.json`: its top-level `license` field.
#[derive(Debug, PartialEq)]
pub struct PackageJson {
    pub license: Option<String>,
}

impl Manifest for PackageJson {
    open spec fn declared_license(self) -> Option<String> {
        self.license
    }

    open spec fn file_name() -> Seq<char> {
        "package.json"@
    }

    fn license(self) -> (declared: Result<String, ManifestError>) {
        match self.license {
            Some(id) => Ok(id),
            None => Err(ManifestError::LicenseNotFound),
        }
    }

    fn filename() -> (name: String) {
        "package.json".to_owned()
    }
}

} // verus!
