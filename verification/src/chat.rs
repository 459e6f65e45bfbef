//! The chat component's behaviour: creation, the register frame it
//! sends, the two state reducers driven by inbound frames, and the
//! submit action that builds an outbound frame.

use vstd::prelude::*;
use vstd::string::StringExecFns;
use crate::avatar::avatar_url;
use crate::avatar::avatar_url_spec;
use crate::codec::decode_envelope;
use crate::codec::decode_message_data;
use crate::codec::encode_envelope;
use crate::codec::envelope_text;
use crate::codec::parse_envelope_spec;
use crate::codec::parse_message_data_spec;
use crate::model::Chat;
use crate::model::ChatStateView;
use crate::model::MessageDataView;
use crate::model::Msg;
use crate::model::MsgTypes;
use crate::model::UserProfile;
use crate::model::UserProfileView;
use crate::model::WebSocketMessage;
use crate::model::WebSocketMessageView;

verus! {

/// Why an inbound frame was refused. The state is left untouched on
/// every refusal.
#[derive(Clone, Copy, Debug, PartialEq, Eq, Structural)]
pub enum DecodeError {
    /// The frame is not an envelope of the wire grammar.
    MalformedEnvelope,
    /// A `message` envelope came without a `data` field.
    MissingPayload,
    /// The `data` field of a `message` envelope is not a payload of
    /// the wire grammar.
    MalformedPayload,
}

/// What one update step produced: whether to re-render, and a frame to
/// hand to the transport.
pub struct UpdateOutcome {
    pub render: bool,
    pub outbound: Option<String>,
}

/// The envelope registering `name`, sent once at creation.
pub open spec fn register_envelope_spec(name: Seq<char>) -> WebSocketMessageView {
    WebSocketMessageView {
        message_type: MsgTypes::Register,
        data_array: None,
        data: Some(name),
    }
}

/// The envelope carrying one submitted text.
pub open spec fn message_envelope_spec(text: Seq<char>) -> WebSocketMessageView {
    WebSocketMessageView {
        message_type: MsgTypes::Message,
        data_array: None,
        data: Some(text),
    }
}

/// The profile derived from one user name.
pub open spec fn profile_of(name: Seq<char>) -> UserProfileView {
    UserProfileView { name: name, avatar: avatar_url_spec(name) }
}

/// The profiles derived from a roster of names, in roster order.
pub open spec fn profiles_of(names: Seq<Seq<char>>) -> Seq<UserProfileView> {
    names.map_values(|n: Seq<char>| profile_of(n))
}

/// The names carried by a `users` envelope: its array, or none at all.
pub open spec fn opt_names(da: Option<Seq<Seq<char>>>) -> Seq<Seq<char>> {
    match da {
        Some(a) => a,
        None => Seq::empty(),
    }
}

/// The state after a `users` envelope: the roster is replaced
/// wholesale, nothing else moves.
pub open spec fn apply_users_spec(st: ChatStateView, da: Option<Seq<Seq<char>>>) -> ChatStateView {
    ChatStateView {
        users: profiles_of(opt_names(da)),
        messages: st.messages,
        current_user: st.current_user,
    }
}

/// The state after a decoded message payload: appended, nothing else
/// moves.
pub open spec fn apply_message_spec(st: ChatStateView, m: MessageDataView) -> ChatStateView {
    ChatStateView {
        users: st.users,
        messages: st.messages.push(m),
        current_user: st.current_user,
    }
}

/// The state after one raw frame: a `users` envelope replaces the
/// roster, a well-formed `message` envelope appends its payload, and
/// everything else — a `register` envelope or any decode failure —
/// leaves the state unchanged.
pub open spec fn step_frame_spec(st: ChatStateView, frame: Seq<char>) -> ChatStateView {
    match parse_envelope_spec(frame) {
        Some(e) => match e.message_type {
            MsgTypes::Users => apply_users_spec(st, e.data_array),
            MsgTypes::Message => match e.data {
                Some(d) => match parse_message_data_spec(d) {
                    Some(m) => apply_message_spec(st, m),
                    None => st,
                },
                None => st,
            },
            MsgTypes::Register => st,
        },
        None => st,
    }
}

/// The exact result of handling one raw frame: whether to re-render on
/// success, and which refusal otherwise.
pub open spec fn frame_result_spec(frame: Seq<char>) -> Result<bool, DecodeError> {
    match parse_envelope_spec(frame) {
        None => Err(DecodeError::MalformedEnvelope),
        Some(e) => match e.message_type {
            MsgTypes::Users => Ok(true),
            MsgTypes::Register => Ok(false),
            MsgTypes::Message => match e.data {
                None => Err(DecodeError::MissingPayload),
                Some(d) => match parse_message_data_spec(d) {
                    Some(_) => Ok(true),
                    None => Err(DecodeError::MalformedPayload),
                },
            },
        },
    }
}

/// The profiles for a roster of names, each with its derived avatar
/// URL, in roster order.
pub fn roster_profiles(names: &Vec<String>) -> (r: Vec<UserProfile>)
    ensures
        r@.map_values(|u: UserProfile| u@) == profiles_of(names.deep_view()),
{
    let mut out: Vec<UserProfile> = Vec::new();
    let mut i: usize = 0;
    while i < names.len()
        invariant
            i <= names@.len(),
            out@.map_values(|u: UserProfile| u@) == profiles_of(names.deep_view().take(i as int)),
        decreases names@.len() - i,
    {
        let name = &names[i];
        let profile = UserProfile { name: name.clone(), avatar: avatar_url(name.as_str()) };
        out.push(profile);
        proof {
            assert(names.deep_view().take(i as int).push(name@) =~= names.deep_view().take(
                i + 1 as int,
            ));
            assert(out@.map_values(|u: UserProfile| u@) =~= profiles_of(
                names.deep_view().take(i as int),
            ).push(profile@));
            assert(profiles_of(names.deep_view().take(i as int)).push(profile@) =~= profiles_of(
                names.deep_view().take(i + 1 as int),
            ));
        }
        i = i + 1;
    }
    proof {
        assert(names.deep_view().take(names@.len() as int) =~= names.deep_view());
    }
    out
}

impl Chat {
    /// A fresh component for an identified user, together with the one
    /// register frame it hands to the transport at creation.
    pub fn create(current_user: String) -> (r: (Chat, String))
        ensures
            r.0@.users == Seq::<UserProfileView>::empty(),
            r.0@.messages == Seq::<MessageDataView>::empty(),
            r.0@.current_user == current_user@,
            r.1@ == envelope_text(register_envelope_spec(current_user@)),
    {
        let reg = WebSocketMessage {
            message_type: MsgTypes::Register,
            data_array: None,
            data: Some(current_user.clone()),
        };
        let frame = encode_envelope(&reg);
        let chat = Chat { users: Vec::new(), messages: Vec::new(), current_user };
        proof {
            assert(chat@.users =~= Seq::<UserProfileView>::empty());
            assert(chat@.messages =~= Seq::<MessageDataView>::empty());
        }
        (chat, frame)
    }

    /// Handles one raw frame from the event bus: decodes it and applies
    /// the reducer its kind calls for. Returns whether to re-render, or
    /// the exact refusal; the state is untouched on refusal.
    pub fn handle_frame(&mut self, frame: &str) -> (r: Result<bool, DecodeError>)
        ensures
            final(self)@ == step_frame_spec(old(self)@, frame@),
            r == frame_result_spec(frame@),
    {
        match decode_envelope(frame) {
            None => Err(DecodeError::MalformedEnvelope),
            Some(env) => match env.message_type {
                MsgTypes::Users => {
                    let names = match env.data_array {
                        Some(a) => a,
                        None => Vec::new(),
                    };
                    self.users = roster_profiles(&names);
                    proof {
                        assert(names.deep_view() =~= opt_names(
                            parse_envelope_spec(frame@)->Some_0.data_array,
                        ));
                    }
                    Ok(true)
                },
                MsgTypes::Message => match env.data {
                    None => Err(DecodeError::MissingPayload),
                    Some(d) => match decode_message_data(d.as_str()) {
                        None => Err(DecodeError::MalformedPayload),
                        Some(m) => {
                            self.messages.push(m);
                            proof {
                                assert(final(self)@.messages =~= old(self)@.messages.push(m@));
                            }
                            Ok(true)
                        },
                    },
                },
                MsgTypes::Register => Ok(false),
            },
        }
    }

    /// Builds the outbound frame for the input field's current text —
    /// sent as-is, empty or not — and clears the field. Nothing of the
    /// transport's verdict on the frame enters the component.
    pub fn submit_message(&self, input: &mut String) -> (frame: String)
        ensures
            frame@ == envelope_text(message_envelope_spec(old(input)@)),
            final(input)@ == Seq::<char>::empty(),
    {
        let env = WebSocketMessage {
            message_type: MsgTypes::Message,
            data_array: None,
            data: Some(input.clone()),
        };
        let frame = encode_envelope(&env);
        *input = String::new();
        frame
    }

    /// One component step, as the surrounding event loop drives it: an
    /// inbound frame is handled, a submit action reads and clears the
    /// input field and yields the frame to send.
    pub fn update(&mut self, msg: Msg, input: &mut String) -> (r: Result<UpdateOutcome, DecodeError>)
        ensures
            final(self)@.current_user == old(self)@.current_user,
            (match msg {
                Msg::HandleMsg(s) => {
                    &&& final(self)@ == step_frame_spec(old(self)@, s@)
                    &&& final(input)@ == old(input)@
                    &&& (match r {
                        Ok(o) => frame_result_spec(s@) == Ok::<bool, DecodeError>(o.render)
                            && o.outbound is None,
                        Err(e) => frame_result_spec(s@) == Err::<bool, DecodeError>(e),
                    })
                },
                Msg::SubmitMessage => {
                    &&& final(self)@ == old(self)@
                    &&& final(input)@ == Seq::<char>::empty()
                    &&& (match r {
                        Ok(o) => !o.render && (o.outbound matches Some(f) && f@ == envelope_text(
                            message_envelope_spec(old(input)@),
                        )),
                        Err(_) => false,
                    })
                },
            }),
    {
        match msg {
            Msg::HandleMsg(s) => match self.handle_frame(s.as_str()) {
                Ok(render) => Ok(UpdateOutcome { render, outbound: None }),
                Err(e) => Err(e),
            },
            Msg::SubmitMessage => {
                let frame = self.submit_message(input);
                Ok(UpdateOutcome { render: false, outbound: Some(frame) })
            },
        }
    }
}

/// The state after a run of decoded message payloads, applied in order.
pub open spec fn apply_messages_spec(st: ChatStateView, ms: Seq<MessageDataView>) -> ChatStateView
    decreases ms.len(),
{
    if ms.len() == 0 {
        st
    } else {
        apply_messages_spec(apply_message_spec(st, ms[0]), ms.drop_first())
    }
}

/// Messages only accumulate: any run of message payloads appends
/// exactly those payloads, in arrival order, and touches neither the
/// roster nor the local identity.
pub proof fn lemma_messages_append_in_order(st: ChatStateView, ms: Seq<MessageDataView>)
    ensures
        apply_messages_spec(st, ms).messages == st.messages + ms,
        apply_messages_spec(st, ms).users == st.users,
        apply_messages_spec(st, ms).current_user == st.current_user,
    decreases ms.len(),
{
    if ms.len() == 0 {
        assert(st.messages + ms =~= st.messages);
    } else {
        lemma_messages_append_in_order(apply_message_spec(st, ms[0]), ms.drop_first());
        assert(st.messages.push(ms[0]) + ms.drop_first() =~= st.messages + ms);
    }
}

/// The state after a run of raw frames, applied in order.
pub open spec fn apply_frames_spec(st: ChatStateView, frames: Seq<Seq<char>>) -> ChatStateView
    decreases frames.len(),
{
    if frames.len() == 0 {
        st
    } else {
        apply_frames_spec(step_frame_spec(st, frames[0]), frames.drop_first())
    }
}

/// The local identity is fixed at creation: no run of inbound frames,
/// whatever it holds, ever changes `current_user`.
pub proof fn lemma_current_user_immutable(st: ChatStateView, frames: Seq<Seq<char>>)
    ensures
        apply_frames_spec(st, frames).current_user == st.current_user,
    decreases frames.len(),
{
    if frames.len() > 0 {
        lemma_current_user_immutable(step_frame_spec(st, frames[0]), frames.drop_first());
    }
}

/// The state after a run of `users` envelopes, each carrying a roster
/// of names, applied in order.
pub open spec fn apply_rosters_spec(st: ChatStateView, rosters: Seq<Seq<Seq<char>>>) -> ChatStateView
    decreases rosters.len(),
{
    if rosters.len() == 0 {
        st
    } else {
        apply_rosters_spec(apply_users_spec(st, Some(rosters[0])), rosters.drop_first())
    }
}

/// Rosters never accumulate: after any run of `users` envelopes the
/// user list holds exactly the profiles of the last roster, in its
/// order, and the messages and the local identity are untouched.
pub proof fn lemma_roster_replaced_wholesale(st: ChatStateView, rosters: Seq<Seq<Seq<char>>>)
    requires
        rosters.len() > 0,
    ensures
        apply_rosters_spec(st, rosters).users == profiles_of(rosters.last()),
        apply_rosters_spec(st, rosters).messages == st.messages,
        apply_rosters_spec(st, rosters).current_user == st.current_user,
    decreases rosters.len(),
{
    if rosters.len() == 1 {
        assert(rosters.drop_first().len() == 0);
        assert(apply_rosters_spec(apply_users_spec(st, Some(rosters[0])), rosters.drop_first())
            == apply_users_spec(st, Some(rosters[0])));
        assert(rosters[0] == rosters.last());
    } else {
        lemma_roster_replaced_wholesale(apply_users_spec(st, Some(rosters[0])), rosters.drop_first());
        assert(rosters.drop_first().last() == rosters.last());
    }
}

} // verus!
