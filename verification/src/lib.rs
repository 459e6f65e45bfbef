//! Core logic of a chat-room component: the JSON envelope wire format,
//! the in-memory roster and message state with its reducers, the avatar
//! URL derivation, and the rendering of state into a structured view.

pub mod avatar;
pub mod chat;
pub mod codec;
pub mod model;
pub mod render;
mod strutil;

pub use chat::DecodeError;
pub use chat::UpdateOutcome;
pub use model::Chat;
pub use model::MessageData;
pub use model::Msg;
pub use model::MsgTypes;
pub use model::UserProfile;
pub use model::WebSocketMessage;
pub use render::FeedEntry;
pub use render::RenderedChat;
pub use render::SidebarEntry;
