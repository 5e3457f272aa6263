//! The error that every operation of the control plane reports.
use vstd::prelude::*;

verus! {

/// What went wrong, with a message for the caller.
#[derive(Debug)]
pub enum ControlPlaneError {
    /// The thing that the request names does not exist.
    NotFound(String),
    /// The request contradicts the present state.
    Conflict(String),
    /// The request is malformed, whatever the state.
    Validation(String),
    /// The store behind the control plane failed.
    Backend(String),
    /// A stored value could not be encoded or decoded.
    Serialization(String),
}

/// An error by its kind and the characters of its message.
pub enum Fault {
    NotFound(Seq<char>),
    Conflict(Seq<char>),
    Validation(Seq<char>),
    Backend(Seq<char>),
    Serialization(Seq<char>),
}

impl View for ControlPlaneError {
    type V = Fault;

    open spec fn view(&self) -> Fault {
        match self {
            ControlPlaneError::NotFound(m) => Fault::NotFound(m@),
            ControlPlaneError::Conflict(m) => Fault::Conflict(m@),
            ControlPlaneError::Validation(m) => Fault::Validation(m@),
            ControlPlaneError::Backend(m) => Fault::Backend(m@),
            ControlPlaneError::Serialization(m) => Fault::Serialization(m@),
        }
    }
}

/// A result with its error taken by kind and message.
pub open spec fn outcome<T>(r: Result<T, ControlPlaneError>) -> Result<T, Fault> {
    match r {
        Ok(t) => Ok(t),
        Err(e) => Err(e@),
    }
}

/// A textual result by its characters.
pub open spec fn text_outcome(r: Result<String, ControlPlaneError>) -> Result<Seq<char>, Fault> {
    match r {
        Ok(t) => Ok(t@),
        Err(e) => Err(e@),
    }
}

impl ControlPlaneError {
    pub fn duplicate(&self) -> (r: Self)
        ensures
            r == *self,
    {
        match self {
            ControlPlaneError::NotFound(m) => ControlPlaneError::NotFound(m.clone()),
            ControlPlaneError::Conflict(m) => ControlPlaneError::Conflict(m.clone()),
            ControlPlaneError::Validation(m) => ControlPlaneError::Validation(m.clone()),
            ControlPlaneError::Backend(m) => ControlPlaneError::Backend(m.clone()),
            ControlPlaneError::Serialization(m) => ControlPlaneError::Serialization(m.clone()),
        }
    }

    /// The message, whatever the kind.
    pub fn message(&self) -> (r: &str)
        ensures
            r@ == (match self@ {
                Fault::NotFound(m) => m,
                Fault::Conflict(m) => m,
                Fault::Validation(m) => m,
                Fault::Backend(m) => m,
                Fault::Serialization(m) => m,
            }),
    {
        match self {
            ControlPlaneError::NotFound(m) => m.as_str(),
            ControlPlaneError::Conflict(m) => m.as_str(),
            ControlPlaneError::Validation(m) => m.as_str(),
            ControlPlaneError::Backend(m) => m.as_str(),
            ControlPlaneError::Serialization(m) => m.as_str(),
        }
    }
}

} // verus!
