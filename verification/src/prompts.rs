//! A minimal prompt source abstraction: a prompt text with an optional
//! attribution, and a trait for anything that can supply a batch of them.

use vstd::prelude::*;

verus! {

/// One practice text, with an optional note of where it came from.
#[derive(Debug, Clone)]
pub struct Prompt {
    text: String,
    source: Option<String>,
}

impl Prompt {
    /// The prompt text.
    pub closed spec fn text_view(&self) -> Seq<char> {
        self.text@
    }

    /// The attribution, if one is known.
    pub closed spec fn source_view(&self) -> Option<Seq<char>> {
        match self.source {
            Some(s) => Some(s@),
            None => None,
        }
    }

    /// Packages a prompt text with its optional attribution.
    pub fn new(text: String, source: Option<String>) -> (r: Self)
        ensures
            r.text_view() == text@,
            r.source_view() == (match source {
                Some(s) => Some(s@),
                None => None::<Seq<char>>,
            }),
    {
        Self { text, source }
    }

    /// Hands the prompt text back out.
    pub fn text(&self) -> (r: &String)
        ensures
            r@ == self.text_view(),
    {
        &self.text
    }
}

/// A supplier of practice prompts, for callers that want to drive rounds
/// from some collection of texts.
pub trait Prompter {
    /// The batch of prompts this source offers.
    fn prompts(&self) -> Vec<Prompt>;
}

} // verus!
