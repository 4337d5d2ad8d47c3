//! Error kinds of the automation core.

use vstd::prelude::*;

verus! {

/// What went wrong with a query or an action.
#[derive(Clone, Copy, Debug, PartialEq, Eq, Structural)]
pub enum AutomationError {
    /// The selector matched nothing.
    NotFound,
    /// The handle's node no longer exists.
    StaleElement,
    /// An application or URL could not be opened.
    LaunchFailed,
    /// An action was rejected.
    ActionFailed,
    /// The caller aborted a resolution.
    Cancelled,
}

impl AutomationError {
    pub open spec fn message_spec(&self) -> Seq<char> {
        match self {
            AutomationError::NotFound => "element not found"@,
            AutomationError::StaleElement => "element no longer exists"@,
            AutomationError::LaunchFailed => "launch failed"@,
            AutomationError::ActionFailed => "action failed"@,
            AutomationError::Cancelled => "cancelled"@,
        }
    }

    /// A short description of the error.
    pub fn message(&self) -> (r: &'static str)
        ensures
            r@ == self.message_spec(),
    {
        match self {
            AutomationError::NotFound => "element not found",
            AutomationError::StaleElement => "element no longer exists",
            AutomationError::LaunchFailed => "launch failed",
            AutomationError::ActionFailed => "action failed",
            AutomationError::Cancelled => "cancelled",
        }
    }
}

} // verus!
