//! The protocols that an upstream service may speak.
use vstd::prelude::*;

verus! {

/// The protocol of an upstream service.
#[derive(Debug, Clone, Copy, PartialEq, Eq, Structural)]
pub enum OpenAiType {
    Responses,
    Chat,
}

impl OpenAiType {
    /// The name of the protocol.
    pub open spec fn label(self) -> Seq<char> {
        match self {
            OpenAiType::Responses => "Responses"@,
            OpenAiType::Chat => "Chat"@,
        }
    }

    /// The name of the protocol.
    pub fn name(self) -> (r: &'static str)
        ensures
            r@ == self.label(),
    {
        match self {
            OpenAiType::Responses => "Responses",
            OpenAiType::Chat => "Chat",
        }
    }
}

}
