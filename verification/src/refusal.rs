//! Why a consent request was refused.

use vstd::prelude::*;

verus! {

/// The reason for a refusal.
#[derive(Clone, Copy, Debug, PartialEq, Eq, Structural)]
pub enum BrowserRefusalCode {
    /// What was inspected is not provably the approved consent prompt.
    BrowserWrongTargetRefused,
    /// The approved window no longer belongs to the approved process.
    BrowserBindingStale,
    /// The window's accessibility tree could not be inspected.
    BrowserRouteUnavailable,
    /// The person at the screen closed the prompt.
    BrowserConsentRevoked,
}

/// A refusal: its reason and a sentence that explains it.
#[derive(Clone, Debug)]
pub struct BrowserRefusal {
    pub code: BrowserRefusalCode,
    pub message: String,
}

/// The contents of a `BrowserRefusal`.
pub struct RefusalView {
    pub code: BrowserRefusalCode,
    pub message: Seq<char>,
}

impl View for BrowserRefusal {
    type V = RefusalView;

    open spec fn view(&self) -> RefusalView {
        RefusalView { code: self.code, message: self.message@ }
    }
}

/// The refusal of a target that is not provably the approved prompt.
pub open spec fn wrong_target(message: Seq<char>) -> RefusalView {
    RefusalView { code: BrowserRefusalCode::BrowserWrongTargetRefused, message }
}

/// The value of a result, its refusal taken by its contents.
pub open spec fn outcome_view<T>(r: Result<T, BrowserRefusal>) -> Result<T, RefusalView> {
    match r {
        Ok(value) => Ok(value),
        Err(refused) => Err(refused@),
    }
}

impl BrowserRefusal {
    /// A refusal with its reason and its sentence.
    pub fn new(code: BrowserRefusalCode, message: String) -> (refused: BrowserRefusal)
        ensures
            refused.code == code,
            refused.message@ == message@,
    {
        BrowserRefusal { code, message }
    }
}

/// A refusal with a fixed sentence.
pub fn refusal(code: BrowserRefusalCode, message: &str) -> (refused: BrowserRefusal)
    ensures
        refused@ == (RefusalView { code, message: message@ }),
{
    BrowserRefusal::new(code, message.to_owned())
}

} // verus!
