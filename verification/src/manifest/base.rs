use vstd::prelude::*;

verus! {

/// Why a project's manifest gave no license.
#[derive(Debug, PartialEq)]
pub enum ManifestError {
    /// The manifest declares no license.
    LicenseNotFound,
    /// The project has no manifest of a known kind.
    FileNotFound,
    /// The manifest could not be parsed.
    ParseError,
}

/// A project manifest that may declare the project's license.
pub trait Manifest: Sized {
    /// The license that the manifest declares, if it declares one.
    spec fn declared_license(self) -> Option<String>;

    /// The name of the file that holds a manifest of this kind.
    spec fn file_name() -> Seq<char>;

    /// The declared license, or `LicenseNotFound` where none is declared.
    fn license(self) -> (declared: Result<String, ManifestError>)
        ensures
            declared == match self.declared_license() {
                Some(id) => Ok::<String, ManifestError>(id),
                None => Err(ManifestError::LicenseNotFound),
            },
    ;

    /// The name of the file that holds a manifest of this kind.
    fn filename() -> (name: String)
        ensures
            name@ == Self::file_name(),
    ;
}

/// What a manifest that was read gives: the license that it declares,
/// `LicenseNotFound` where it declares none, or the error that reading it
/// gave.
pub open spec fn license_of<M: Manifest>(parsed: Result<M, ManifestError>) -> Result<
    String,
    ManifestError,
> {
    match parsed {
        Ok(manifest) => match manifest.declared_license() {
            Some(id) => Ok(id),
            None => Err(ManifestError::LicenseNotFound),
        },
        Err(error) => Err(error),
    }
}

/// The license that a manifest declares, where the manifest could be read.
pub fn declared<M: Manifest>(parsed: Result<M, ManifestError>) -> (license: Result<
    String,
    ManifestError,
>)
    ensures
        license == license_of(parsed),
{
    match parsed {
        Ok(manifest) => manifest.license(),
        Err(error) => Err(error),
    }
}

} // verus!
