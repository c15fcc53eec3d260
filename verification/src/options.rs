//! The parameters with which an endpoint joins a bus.

use crate::label::Label;
use vstd::prelude::*;

verus! {

/// Parameters for joining the bus.
#[derive(Debug)]
pub struct Options {
    /// Identifier for the bus, e.g. `com.myapp`.
    pub identifier: String,
    /// The label by which messages find the endpoint.
    pub label: Label,
    /// The secret that the endpoints of one bus share.
    pub token: String,
    /// Whether the endpoint may become the bus controller.
    pub controller_affinity: bool,
}

impl Options {
    /// Options for the bus `identifier`, with controller affinity switched
    /// on.
    pub fn new(identifier: &str, label: Label, token: &str) -> (options: Options)
        ensures
            options.identifier@ == identifier@,
            options.label == label,
            options.token@ == token@,
            options.controller_affinity,
    {
        Options {
            identifier: identifier.to_owned(),
            label,
            token: token.to_owned(),
            controller_affinity: true,
        }
    }
}

impl Clone for Options {
    fn clone(&self) -> (copy: Options)
        ensures
            copy.identifier@ == self.identifier@,
            copy.label@ == self.label@,
            copy.label.wf() == self.label.wf(),
            copy.token@ == self.token@,
            copy.controller_affinity == self.controller_affinity,
    {
        Options {
            identifier: self.identifier.clone(),
            label: self.label.clone(),
            token: self.token.clone(),
            controller_affinity: self.controller_affinity,
        }
    }
}

} // verus!
