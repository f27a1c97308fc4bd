//! Failures of registering a host function.

use vstd::prelude::*;

verus! {

/// Why a host function was not registered.
#[derive(Debug, Clone, PartialEq, Eq)]
pub enum RegistryError {
    /// A function of this name is registered already.
    FunctionAlreadyExists(String),
    /// A type of the signature is not fully resolved.
    UnresolvedDataType,
}

/// A registry failure as a mathematical value.
pub enum RegistryFault {
    /// A function of this name is registered already.
    FunctionAlreadyExists(Seq<char>),
    /// A type of the signature is not fully resolved.
    UnresolvedDataType,
}

impl View for RegistryError {
    type V = RegistryFault;

    open spec fn view(&self) -> RegistryFault {
        match self {
            RegistryError::FunctionAlreadyExists(n) => RegistryFault::FunctionAlreadyExists(n@),
            RegistryError::UnresolvedDataType => RegistryFault::UnresolvedDataType,
        }
    }
}

/// The text of a registry failure.
pub open spec fn registry_fault_text(e: RegistryFault) -> Seq<char> {
    match e {
        RegistryFault::FunctionAlreadyExists(n) => "Function `"@ + n + "` already exists"@,
        RegistryFault::UnresolvedDataType =>
            "Cannot use unresolved data types in function metadata"@,
    }
}

impl RegistryError {
    /// This failure as the failing case of a result.
    pub fn err<T>(self) -> (r: Result<T, RegistryError>)
        ensures
            r == Err::<T, RegistryError>(self),
    {
        Err(self)
    }

    /// The text of this failure.
    pub fn to_text(&self) -> (s: String)
        ensures
            s@ == registry_fault_text(self@),
    {
        match self {
            RegistryError::FunctionAlreadyExists(n) => {
                let mut out = String::from_str("Function `");
                out.append(n.as_str());
                out.append("` already exists");
                out
            },
            RegistryError::UnresolvedDataType => String::from_str(
                "Cannot use unresolved data types in function metadata",
            ),
        }
    }
}

} // verus!
