//! The message value handed to the pipeline by the chat platform: author,
//! chat, raw text, and arrival time in epoch seconds.

use vstd::prelude::*;

verus! {

/// Mathematical image of a message.
pub ghost struct MsgModel {
    pub author_id: int,
    pub chat_id: int,
    pub text: Seq<char>,
    pub date: int,
}

/// One incoming chat message, as the excluded chat-platform client delivers
/// it: who said what, where, and when (epoch seconds).
pub struct Message {
    pub author_id: i64,
    pub chat_id: i64,
    pub text: String,
    pub date: i64,
}

impl View for Message {
    type V = MsgModel;

    open spec fn view(&self) -> MsgModel {
        MsgModel {
            author_id: self.author_id as int,
            chat_id: self.chat_id as int,
            text: self.text@,
            date: self.date as int,
        }
    }
}

} // verus!
