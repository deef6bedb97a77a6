//! Chat messages and their normalization.

use vstd::prelude::*;

verus! {

/// Abstract value of a [`ChatMessage`]: its three fields as character
/// sequences.
pub ghost struct MessageView {
    pub sender: Seq<char>,
    pub content: Seq<char>,
    pub chat_id: Seq<char>,
}

/// A message observed in a conversation, or a request read off the wire.
///
/// Values are immutable once constructed except for the one-time
/// normalization pass done by [`ChatMessage::clean`]. Equality is structural
/// over the three fields.
pub struct ChatMessage {
    pub sender: String,
    pub content: String,
    pub chat_id: String,
}

impl View for ChatMessage {
    type V = MessageView;

    open spec fn view(&self) -> MessageView {
        MessageView { sender: self.sender@, content: self.content@, chat_id: self.chat_id@ }
    }
}

impl DeepView for ChatMessage {
    type V = MessageView;

    open spec fn deep_view(&self) -> MessageView {
        self.view()
    }
}

impl Clone for ChatMessage {
    fn clone(&self) -> (r: Self)
        ensures
            r == *self,
    {
        ChatMessage {
            sender: self.sender.clone(),
            content: self.content.clone(),
            chat_id: self.chat_id.clone(),
        }
    }
}

impl PartialEq for ChatMessage {
    fn eq(&self, other: &Self) -> (r: bool) {
        self.sender == other.sender && self.content == other.content
            && self.chat_id == other.chat_id
    }
}

impl vstd::std_specs::cmp::PartialEqSpecImpl for ChatMessage {
    open spec fn obeys_eq_spec() -> bool {
        true
    }

    open spec fn eq_spec(&self, other: &ChatMessage) -> bool {
        self@ == other@
    }
}

/// The ASCII transliteration of a character sequence, as the `unidecode`
/// crate computes it from a fixed per-character table.
pub uninterp spec fn transliterated(s: Seq<char>) -> Seq<char>;

/// Relies on unidecode::unidecode: the result is a per-character table
/// lookup, so it depends on the input characters alone; its documentation
/// guarantees that the output is ASCII and that ASCII characters map to
/// themselves.
#[verifier::external_body]
fn transliterate(s: &str) -> (r: String)
    ensures
        r@ == transliterated(s@),
        s@.len() == 0 ==> r@.len() == 0,
        forall|i: int| 0 <= i < r@.len() ==> (r@[i] as u32) < 128,
        (forall|i: int| 0 <= i < s@.len() ==> (s@[i] as u32) < 128) ==> r@ == s@,
{
    unidecode::unidecode(s)
}

impl ChatMessage {
    /// Builds a message from its three fields.
    pub fn new(sender: String, content: String, chat_id: String) -> (m: ChatMessage)
        ensures
            m@ == (MessageView { sender: sender@, content: content@, chat_id: chat_id@ }),
    {
        ChatMessage { sender, content, chat_id }
    }

    /// Replaces the content by its ASCII transliteration, so that it only
    /// holds characters that can be typed into the chat source.
    pub fn clean(&mut self)
        ensures
            final(self)@.sender == old(self)@.sender,
            final(self)@.chat_id == old(self)@.chat_id,
            final(self)@.content == transliterated(old(self)@.content),
    {
        self.content = transliterate(self.content.as_str());
    }
}

/// Element-wise copy of a message vector.
pub(crate) fn clone_messages(v: &Vec<ChatMessage>) -> (r: Vec<ChatMessage>)
    ensures
        r.deep_view() == v.deep_view(),
{
    let mut r: Vec<ChatMessage> = Vec::new();
    let mut i: usize = 0;
    while i < v.len()
        invariant
            i <= v.len(),
            r.deep_view() =~= v.deep_view().subrange(0, i as int),
        decreases v.len() - i,
    {
        let ghost r0 = r.deep_view();
        r.push(v[i].clone());
        proof {
            assert(r.deep_view() =~= r0.push(v.deep_view()[i as int]));
            assert(r.deep_view() =~= v.deep_view().subrange(0, i as int + 1));
        }
        i += 1;
    }
    proof {
        assert(r.deep_view() =~= v.deep_view());
    }
    r
}

} // verus!
