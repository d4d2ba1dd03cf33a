use vstd::prelude::*;
use crate::manifest::base::Manifest;
use crate::manifest::base::ManifestError;

verus! {

/// What `lic` reads of a `pyproject.toml`: its `project` table and its
/// `tool` table.
#[derive(Debug, PartialEq)]
pub struct PyprojectToml {
    pub project: Option<Project>,
    pub tool: Option<Tool>,
}

/// The `project` table, as far as `lic` reads it.
#[derive(Debug, PartialEq)]
pub struct Project {
    pub license: Option<License>,
}

/// The `license` table of a project: a file that holds the license, or its
/// text.
#[derive(Debug, PartialEq)]
pub struct License {
    pub file: Option<String>,
    pub text: Option<String>,
}

/// The `tool` table, as far as `lic` reads it.
#[derive(Debug, PartialEq)]
pub struct Tool {
    pub poetry: Option<Poetry>,
}

/// The `tool.poetry` table, as far as `lic` reads it.
#[derive(Debug, PartialEq)]
pub struct Poetry {
    pub license: Option<String>,
}

impl PyprojectToml {
    /// The text of the license that the `project` table declares.
    pub open spec fn project_license(self) -> Option<String> {
        match self.project {
            Some(Project { license: Some(license) }) => license.text,
            _ => None,
        }
    }

    /// The license that the `tool.poetry` table declares.
    pub open spec fn poetry_license(self) -> Option<String> {
        match self.tool {
            Some(Tool { poetry: Some(poetry) }) => poetry.license,
            _ => None,
        }
    }
}

impl Manifest for PyprojectToml {
    /// The `project` table is asked first, `tool.poetry` where it declares
    /// no license text.
    open spec fn declared_license(self) -> Option<String> {
        match self.project_license() {
            Some(text) => Some(text),
            None => self.poetry_license(),
        }
    }

    open spec fn file_name() -> Seq<char> {
        "pyproject.toml"@
    }

    fn license(self) -> (declared: Result<String, ManifestError>) {
        let from_project = match self.project {
            Some(Project { license: Some(license) }) => license.text,
            _ => None,
        };
        let found = match from_project {
            Some(text) => Some(text),
            None => match self.tool {
                Some(Tool { poetry: Some(poetry) }) => poetry.license,
                _ => None,
            },
        };
        match found {
            Some(id) => Ok(id),
            None => Err(ManifestError::LicenseNotFound),
        }
    }

    fn filename() -> (name: String) {
        "pyproject.toml".to_owned()
    }
}

} // verus!
