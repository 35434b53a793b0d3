//! Conversation messages and the computable parts of the chat-completion
//! call: request URL, authorization header value, and reply extraction.

use vstd::prelude::*;

verus! {

/// Closed set of speaker roles; free-form role strings are normalized to this
/// at the transcript-reload boundary only.
#[derive(Clone, Copy, PartialEq, Eq, Structural, Debug)]
pub enum Role {
    System,
    User,
    Assistant,
}

/// One conversation turn.
#[derive(Clone, Debug)]
pub struct Message {
    pub role: Role,
    pub content: String,
}

impl View for Message {
    type V = (Role, Seq<char>);

    open spec fn view(&self) -> (Role, Seq<char>) {
        (self.role, self.content@)
    }
}

/// The views of a sequence of messages.
pub open spec fn msgs_view(s: Seq<Message>) -> Seq<(Role, Seq<char>)> {
    s.map_values(|m: Message| m@)
}

/// The chat-completions endpoint under an API base URL.
pub fn chat_completions_url(base: &str) -> (r: String)
    ensures
        r@ == base@ + "/chat/completions"@,
{
    let mut url = base.to_owned();
    url.append("/chat/completions");
    url
}

/// The value of the authorization header for a backend credential.
pub fn bearer_value(key: &str) -> (r: String)
    ensures
        r@ == "Bearer "@ + key@,
{
    let mut v = String::from_str("Bearer ");
    v.append(key);
    v
}

/// Picks the reply out of the backend's choice list: the first choice's
/// content, or an error if the list is empty.
pub fn extract_reply(choices: Vec<String>) -> (r: Result<String, String>)
    ensures
        choices@.len() > 0 ==> (r matches Ok(s) && s@ == choices@[0]@),
        choices@.len() == 0 ==> (r matches Err(e) && e@ == "No response from LLM"@),
{
    if choices.len() > 0 {
        Ok(choices[0].clone())
    } else {
        Err(String::from_str("No response from LLM"))
    }
}

} // verus!
