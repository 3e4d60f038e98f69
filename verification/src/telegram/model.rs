use vstd::prelude::*;

verus! {

/// An order as the model extracts it from a message.
#[derive(Debug)]
pub struct OrderForm {
    pub symbol: String,
    pub side: char,
    pub price: u32,
    pub lot: u32,
}

/// An order as it is sent to the order service.
#[derive(Debug)]
pub struct OrderRequest {
    pub symbol: String,
    pub side: char,
    pub price: u32,
    pub lot: u32,
    pub expiry: String,
    pub user_id: u32,
}

/// The model's answer.
#[derive(Debug)]
pub struct LlamaResponse {
    pub response: String,
}

/// A request to the model.
#[derive(Debug)]
pub struct LlamaRequest {
    pub model: String,
    pub prompt: String,
    pub stream: bool,
}

/// A message to send to a Telegram chat.
#[derive(Debug)]
pub struct TeleMessage {
    pub chat_id: i64,
    pub text: String,
}

/// The answer of Telegram's `getUpdates`.
#[derive(Debug)]
pub struct GetUpdatesResp {
    pub ok: bool,
    pub result: Vec<TelegramUpdate>,
}

/// One update of `getUpdates`.
#[derive(Debug)]
pub struct TelegramUpdate {
    pub update_id: i64,
    pub message: Message,
}

/// A Telegram message.
#[derive(Debug)]
pub struct Message {
    pub message_id: i64,
    pub from: User,
    pub chat: Chat,
    pub date: i64,
    pub text: String,
    pub entities: Option<Vec<MessageEntity>>,
}

/// A Telegram user.
#[derive(Debug)]
pub struct User {
    pub id: i64,
    pub is_bot: bool,
    pub first_name: String,
    pub username: Option<String>,
    pub language_code: Option<String>,
}

/// A Telegram chat.
#[derive(Debug)]
pub struct Chat {
    pub id: i64,
    pub first_name: String,
    pub username: Option<String>,
    pub chat_type: String,
}

/// A marked span of a Telegram message.
#[derive(Debug)]
pub struct MessageEntity {
    pub offset: i64,
    pub length: i64,
    pub entity_type: String,
}

} // verus!
