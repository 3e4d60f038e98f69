pub mod text;
pub mod number;
pub mod http_client;
pub mod client;
pub mod chatbot_stream;
pub mod server;
pub mod cfg;
pub mod chatbot;
pub mod notification;
pub mod telegram;
