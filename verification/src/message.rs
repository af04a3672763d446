//! Conversation messages as skills produce them: a role and text blocks.
use vstd::prelude::*;

use crate::text::owned;

verus! {

/// Who speaks a message.
#[derive(Debug, Clone, Copy, PartialEq, Eq, Structural)]
pub enum Role {
    User,
    Assistant,
}

/// One block of a message's content.
#[derive(Debug)]
pub enum ContentBlock {
    Text { text: String },
}

/// A conversation message.
#[derive(Debug)]
pub struct Message {
    pub role: Role,
    pub content: Vec<ContentBlock>,
}

/// The texts of the blocks.
pub open spec fn block_texts(content: Seq<ContentBlock>) -> Seq<Seq<char>> {
    content.map_values(|b: ContentBlock| match b {
        ContentBlock::Text { text } => text@,
    })
}

impl Message {
    /// A user message with one text block.
    pub fn user(text: &str) -> (m: Message)
        ensures
            m.role == Role::User,
            block_texts(m.content@) == seq![text@],
    {
        let m = Message { role: Role::User, content: vec![ContentBlock::Text { text: owned(text) }] };
        assert(block_texts(m.content@) =~= seq![text@]);
        m
    }
}

} // verus!
