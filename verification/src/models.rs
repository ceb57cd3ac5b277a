//! What the store keeps for the chat service: users, chats and credentials.

pub mod chat;
pub mod codec;
pub mod creds;
pub mod user;
