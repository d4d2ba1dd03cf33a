use vstd::prelude::*;
use crate::manifest::base::declared;
use crate::manifest::base::license_of;
use crate::manifest::base::ManifestError;
use crate::manifest::nodejs::PackageJson;
use crate::manifest::python::PyprojectToml;
use crate::manifest::rust::CargoToml;

verus! {

/// The license that a project declares, given what was found of each kind
/// of manifest: `None` where the project has no such file, and else what
/// parsing the file gave. `Cargo.toml` decides where it is there, then
/// `pyproject.toml`, then `package.json`; a project with none of them gives
/// `FileNotFound`.
pub open spec fn detected(
    cargo: Option<Result<CargoToml, ManifestError>>,
    pyproject: Option<Result<PyprojectToml, ManifestError>>,
    package: Option<Result<PackageJson, ManifestError>>,
) -> Result<String, ManifestError> {
    match cargo {
        Some(parsed) => license_of(parsed),
        None => match pyproject {
            Some(parsed) => license_of(parsed),
            None => match package {
                Some(parsed) => license_of(parsed),
                None => Err(ManifestError::FileNotFound),
            },
        },
    }
}

/// Finds the license that a project declares in the first of its manifests.
pub fn detect_license(
    cargo: Option<Result<CargoToml, ManifestError>>,
    pyproject: Option<Result<PyprojectToml, ManifestError>>,
    package: Option<Result<PackageJson, ManifestError>>,
) -> (license: Result<String, ManifestError>)
    ensures
        license == detected(cargo, pyproject, package),
{
    match cargo {
        Some(parsed) => declared(parsed),
        None => match pyproject {
            Some(parsed) => declared(parsed),
            None => match package {
                Some(parsed) => declared(parsed),
                None => Err(ManifestError::FileNotFound),
            },
        },
    }
}

} // verus!
