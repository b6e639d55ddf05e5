//! What a message type says of itself.

use vstd::prelude::*;

verus! {

/// The name of a message type, the fingerprint of its definition, and the
/// definition itself.
#[derive(Clone, Debug, PartialEq, Eq)]
pub struct MessageType {
    pub msg_type: String,
    pub md5sum: String,
    pub definition: String,
}

/// The three parts of a message type as texts.
pub struct MessageTypeModel {
    pub msg_type: Seq<char>,
    pub md5sum: Seq<char>,
    pub definition: Seq<char>,
}

impl View for MessageType {
    type V = MessageTypeModel;

    open spec fn view(&self) -> MessageTypeModel {
        MessageTypeModel {
            msg_type: self.msg_type@,
            md5sum: self.md5sum@,
            definition: self.definition@,
        }
    }
}

impl MessageType {
    /// A message type from its three parts.
    pub fn new(msg_type: &str, md5sum: &str, definition: &str) -> (r: MessageType)
        ensures
            r@.msg_type == msg_type@,
            r@.md5sum == md5sum@,
            r@.definition == definition@,
    {
        MessageType {
            msg_type: msg_type.to_owned(),
            md5sum: md5sum.to_owned(),
            definition: definition.to_owned(),
        }
    }

    /// A copy of the message type.
    pub fn copy(&self) -> (r: MessageType)
        ensures
            r@ == self@,
    {
        MessageType {
            msg_type: self.msg_type.clone(),
            md5sum: self.md5sum.clone(),
            definition: self.definition.clone(),
        }
    }
}

} // verus!
