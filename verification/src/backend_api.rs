//! Backend-neutral graphics contracts.
//!
//! No X11 or Wayland implementation belongs here. Concrete backends implement
//! these contracts instead of leaking protocol-native handles to higher modules.

use crate::text::{is_blank, str_is_blank};
use vstd::prelude::*;

verus! {

#[derive(Clone, Copy, Debug, PartialEq, Eq, Structural)]
pub enum BackendKind {
    X11,
    Wayland,
}

#[derive(Clone, Copy, Debug, PartialEq, Eq, Structural)]
pub struct BackendCapabilities {
    pub multi_monitor: bool,
    pub hotplug: bool,
    pub xwayland_compatibility: bool,
}

/// Backend-neutral output identifier: a non-blank text.
#[derive(Clone, Debug, PartialEq, Eq, Hash, PartialOrd, Ord)]
pub struct OutputId(String);

impl View for OutputId {
    type V = Seq<char>;

    closed spec fn view(&self) -> Seq<char> {
        self.0@
    }
}

impl OutputId {
    /// Creates an output identifier; blank values are rejected.
    pub fn new(value: &str) -> (r: Result<Self, &'static str>)
        ensures
            is_blank(value@) <==> r is Err,
            r matches Ok(id) ==> id@ == value@,
            r matches Err(e) ==> e@ == "output id cannot be empty"@,
    {
        if str_is_blank(value) {
            return Err("output id cannot be empty");
        }
        Ok(OutputId(value.to_owned()))
    }

    pub fn as_str(&self) -> (r: &str)
        ensures
            r@ == self@,
    {
        self.0.as_str()
    }
}

#[derive(Clone, Debug, PartialEq, Eq)]
pub struct OutputInfo {
    pub id: OutputId,
    pub name: String,
    pub width: u32,
    pub height: u32,
    pub scale_milli: u32,
    pub primary: bool,
}

/// Failures a graphics backend reports, with a human-readable reason.
#[derive(Clone, Debug, PartialEq, Eq)]
pub enum BackendError {
    Unavailable(String),
    Operation(String),
}

impl BackendError {
    /// The diagnostic text of the error.
    pub fn message(&self) -> (r: String)
        ensures
            r@ == (match self {
                BackendError::Unavailable(m) => "graphics backend is unavailable: "@ + m@,
                BackendError::Operation(m) => "graphics backend operation failed: "@ + m@,
            }),
    {
        match self {
            BackendError::Unavailable(m) => "graphics backend is unavailable: ".to_owned().concat(
                m.as_str(),
            ),
            BackendError::Operation(m) => "graphics backend operation failed: ".to_owned().concat(
                m.as_str(),
            ),
        }
    }
}

/// Minimal contract exposed by concrete graphics backends to the Core.
pub trait GraphicsBackend {
    fn kind(&self) -> BackendKind;

    fn capabilities(&self) -> BackendCapabilities;

    fn start(&mut self) -> Result<(), BackendError>;

    fn stop(&mut self) -> Result<(), BackendError>;

    fn outputs(&self) -> Result<Vec<OutputInfo>, BackendError>;
}

} // verus!
