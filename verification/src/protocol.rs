//! The backend's wire shapes: the messages a chat request carries and the
//! records its streamed response is made of.

use vstd::prelude::*;

verus! {

/// One entry of a chat request, or the message part of a response record.
pub struct OllamaMessage {
    pub role: String,
    pub content: String,
    pub images: Option<Vec<String>>,
    pub thinking: Option<String>,
}

/// Mathematical value of an `OllamaMessage`.
pub ghost struct OllamaMessageV {
    pub role: Seq<char>,
    pub content: Seq<char>,
    pub images: Option<Seq<Seq<char>>>,
    pub thinking: Option<Seq<char>>,
}

pub open spec fn opt_string_view(o: Option<String>) -> Option<Seq<char>> {
    match o {
        Some(s) => Some(s@),
        None => None,
    }
}

pub open spec fn opt_strings_view(o: Option<Vec<String>>) -> Option<Seq<Seq<char>>> {
    match o {
        Some(v) => Some(v.deep_view()),
        None => None,
    }
}

impl View for OllamaMessage {
    type V = OllamaMessageV;

    open spec fn view(&self) -> OllamaMessageV {
        OllamaMessageV {
            role: self.role@,
            content: self.content@,
            images: opt_strings_view(self.images),
            thinking: opt_string_view(self.thinking),
        }
    }
}

impl DeepView for OllamaMessage {
    type V = OllamaMessageV;

    open spec fn deep_view(&self) -> OllamaMessageV {
        self.view()
    }
}

/// A full chat request: the model to drive and the conversation so far.
/// The engine always streams.
pub struct ChatRequest {
    pub model: String,
    pub messages: Vec<OllamaMessage>,
    pub stream: bool,
}

/// One record of the backend's streamed response.
pub struct ChatResponse {
    pub model: String,
    pub created_at: String,
    pub message: Option<OllamaMessage>,
    pub done: bool,
}

/// Mathematical value of a `ChatResponse`.
pub ghost struct ChatResponseV {
    pub model: Seq<char>,
    pub created_at: Seq<char>,
    pub message: Option<OllamaMessageV>,
    pub done: bool,
}

impl View for ChatResponse {
    type V = ChatResponseV;

    open spec fn view(&self) -> ChatResponseV {
        ChatResponseV {
            model: self.model@,
            created_at: self.created_at@,
            message: match self.message {
                Some(m) => Some(m@),
                None => None,
            },
            done: self.done,
        }
    }
}

impl DeepView for ChatResponse {
    type V = ChatResponseV;

    open spec fn deep_view(&self) -> ChatResponseV {
        self.view()
    }
}

/// The reasoning increment a record carries, or the empty sequence.
pub open spec fn rec_think(r: ChatResponseV) -> Seq<char> {
    match r.message {
        Some(m) => match m.thinking {
            Some(t) => t,
            None => Seq::empty(),
        },
        None => Seq::empty(),
    }
}

/// The answer increment a record carries, or the empty sequence.
pub open spec fn rec_answer(r: ChatResponseV) -> Seq<char> {
    match r.message {
        Some(m) => m.content,
        None => Seq::empty(),
    }
}

} // verus!
