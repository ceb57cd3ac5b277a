//! What travels over a chat's socket.

use vstd::prelude::*;
use crate::models::chat::Message;

verus! {

/// A message on its way through a chat, with the user that sent it.
#[derive(Debug)]
pub struct WsCommand {
    pub from: String,
    pub message: Message,
}

impl Clone for WsCommand {
    fn clone(&self) -> (command: WsCommand)
        ensures
            command.from@ == self.from@,
            command.message@ == self.message@,
    {
        WsCommand { from: self.from.clone(), message: self.message.clone() }
    }
}

} // verus!
