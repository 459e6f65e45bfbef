//! Data model of the chat component: wire records, profiles, messages,
//! and the component state, together with their mathematical views.

use vstd::prelude::*;

verus! {

/// Discriminator of a wire envelope: which payload field is meaningful.
#[derive(Clone, Copy, Debug, PartialEq, Eq, Structural)]
pub enum MsgTypes {
    Users,
    Register,
    Message,
}

/// Top-level wire record exchanged with the server. Exactly one of
/// `data_array` / `data` is meaningful, depending on `message_type`:
/// `Users` carries `data_array`, `Register` and `Message` carry `data`.
pub struct WebSocketMessage {
    pub message_type: MsgTypes,
    pub data_array: Option<Vec<String>>,
    pub data: Option<String>,
}

/// Mathematical view of a `WebSocketMessage`.
pub struct WebSocketMessageView {
    pub message_type: MsgTypes,
    pub data_array: Option<Seq<Seq<char>>>,
    pub data: Option<Seq<char>>,
}

impl View for WebSocketMessage {
    type V = WebSocketMessageView;

    open spec fn view(&self) -> WebSocketMessageView {
        WebSocketMessageView {
            message_type: self.message_type,
            data_array: match self.data_array {
                Some(a) => Some(a.deep_view()),
                None => None,
            },
            data: match self.data {
                Some(d) => Some(d@),
                None => None,
            },
        }
    }
}

/// Payload of a `Message` envelope, itself carried JSON-encoded in `data`.
pub struct MessageData {
    pub from: String,
    pub message: String,
}

/// Mathematical view of a `MessageData`.
pub struct MessageDataView {
    pub from: Seq<char>,
    pub message: Seq<char>,
}

impl View for MessageData {
    type V = MessageDataView;

    open spec fn view(&self) -> MessageDataView {
        MessageDataView { from: self.from@, message: self.message@ }
    }
}

/// A chat participant as shown in the sidebar: a name and the avatar
/// URL derived from it.
pub struct UserProfile {
    pub name: String,
    pub avatar: String,
}

/// Mathematical view of a `UserProfile`.
pub struct UserProfileView {
    pub name: Seq<char>,
    pub avatar: Seq<char>,
}

impl View for UserProfile {
    type V = UserProfileView;

    open spec fn view(&self) -> UserProfileView {
        UserProfileView { name: self.name@, avatar: self.avatar@ }
    }
}

/// Event handled by the component: an inbound raw frame from the event
/// bus, or a submit action from the send control.
pub enum Msg {
    HandleMsg(String),
    SubmitMessage,
}

/// Component state: the current roster, the messages received so far,
/// and the fixed identity of the local user.
pub struct Chat {
    pub users: Vec<UserProfile>,
    pub messages: Vec<MessageData>,
    pub current_user: String,
}

/// Mathematical view of the component state.
pub struct ChatStateView {
    pub users: Seq<UserProfileView>,
    pub messages: Seq<MessageDataView>,
    pub current_user: Seq<char>,
}

impl View for Chat {
    type V = ChatStateView;

    open spec fn view(&self) -> ChatStateView {
        ChatStateView {
            users: self.users@.map_values(|u: UserProfile| u@),
            messages: self.messages@.map_values(|m: MessageData| m@),
            current_user: self.current_user@,
        }
    }
}

} // verus!
