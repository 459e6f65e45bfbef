//! Rendering: a pure function from component state to a structured
//! view — the user sidebar and the message feed.

use vstd::prelude::*;
use vstd::string::StringExecFns;
use vstd::string::StrSliceExecFns;
use crate::chat::apply_rosters_spec;
use crate::chat::profiles_of;
use crate::model::Chat;
use crate::model::ChatStateView;
use crate::model::MessageDataView;
use crate::model::UserProfile;
use crate::model::UserProfileView;

verus! {

/// One sidebar row: a participant, marked when it is the local user.
pub struct SidebarEntry {
    pub name: String,
    pub avatar: String,
    /// Whether this row is the local user: shown distinguished, with a
    /// "You" badge.
    pub is_you: bool,
    /// The row's status text: "That's you!" for the local user,
    /// "Online" for everyone else.
    pub status: String,
}

/// Mathematical view of a `SidebarEntry`.
pub struct SidebarEntryView {
    pub name: Seq<char>,
    pub avatar: Seq<char>,
    pub is_you: bool,
    pub status: Seq<char>,
}

impl View for SidebarEntry {
    type V = SidebarEntryView;

    open spec fn view(&self) -> SidebarEntryView {
        SidebarEntryView {
            name: self.name@,
            avatar: self.avatar@,
            is_you: self.is_you,
            status: self.status@,
        }
    }
}

/// One feed row: a message shown with its sender's profile.
pub struct FeedEntry {
    /// The sender's name as carried by the message.
    pub from: String,
    /// The sender's avatar URL, from the matching profile.
    pub avatar: String,
    /// Whether the local user wrote it: shown right-aligned, in the
    /// distinct bubble style.
    pub is_you: bool,
    /// The row's header label: "You" for the local user, the sender's
    /// name for everyone else.
    pub header: String,
    /// Whether the text is shown as an image rather than as text.
    pub is_image: bool,
    /// The message text (the image source when `is_image`).
    pub body: String,
}

/// Mathematical view of a `FeedEntry`.
pub struct FeedEntryView {
    pub from: Seq<char>,
    pub avatar: Seq<char>,
    pub is_you: bool,
    pub header: Seq<char>,
    pub is_image: bool,
    pub body: Seq<char>,
}

impl View for FeedEntry {
    type V = FeedEntryView;

    open spec fn view(&self) -> FeedEntryView {
        FeedEntryView {
            from: self.from@,
            avatar: self.avatar@,
            is_you: self.is_you,
            header: self.header@,
            is_image: self.is_image,
            body: self.body@,
        }
    }
}

/// The rendered component: sidebar rows and feed rows.
pub struct RenderedChat {
    pub sidebar: Vec<SidebarEntry>,
    pub feed: Vec<FeedEntry>,
}

/// The sidebar row for one profile.
pub open spec fn sidebar_entry_spec(u: UserProfileView, current: Seq<char>) -> SidebarEntryView {
    SidebarEntryView {
        name: u.name,
        avatar: u.avatar,
        is_you: u.name == current,
        status: if u.name == current {
            "That's you!"@
        } else {
            "Online"@
        },
    }
}

/// The sidebar: one row per profile, in roster order.
pub open spec fn sidebar_spec(st: ChatStateView) -> Seq<SidebarEntryView> {
    st.users.map_values(|u: UserProfileView| sidebar_entry_spec(u, st.current_user))
}

/// Whether a message text ends in the literal suffix `.gif` — the
/// extension-only inference that turns the row into an image.
pub open spec fn is_gif(s: Seq<char>) -> bool {
    s.len() >= 4 && s[s.len() - 4] == '.' && s[s.len() - 3] == 'g' && s[s.len() - 2] == 'i' && s[
        s.len() - 1] == 'f'
}

/// The feed row for one message and its sender's profile.
pub open spec fn feed_entry_spec(
    m: MessageDataView,
    u: UserProfileView,
    current: Seq<char>,
) -> FeedEntryView {
    FeedEntryView {
        from: m.from,
        avatar: u.avatar,
        is_you: m.from == current,
        header: if m.from == current {
            "You"@
        } else {
            m.from
        },
        is_image: is_gif(m.message),
        body: m.message,
    }
}

/// The first profile whose name matches, if any.
pub open spec fn first_profile(users: Seq<UserProfileView>, name: Seq<char>) -> Option<
    UserProfileView,
>
    decreases users.len(),
{
    if users.len() == 0 {
        None
    } else if users[0].name == name {
        Some(users[0])
    } else {
        first_profile(users.drop_first(), name)
    }
}

/// The feed rows for a run of messages: one per message whose sender
/// has a profile, in insertion order; a message without a matching
/// profile is omitted.
pub open spec fn feed_rec(
    msgs: Seq<MessageDataView>,
    users: Seq<UserProfileView>,
    current: Seq<char>,
) -> Seq<FeedEntryView>
    decreases msgs.len(),
{
    if msgs.len() == 0 {
        Seq::empty()
    } else {
        let rest = feed_rec(msgs.drop_first(), users, current);
        match first_profile(users, msgs[0].from) {
            Some(u) => seq![feed_entry_spec(msgs[0], u, current)] + rest,
            None => rest,
        }
    }
}

/// The feed of a state.
pub open spec fn feed_spec(st: ChatStateView) -> Seq<FeedEntryView> {
    feed_rec(st.messages, st.users, st.current_user)
}

/// Dropping a prefix of profiles none of which matches leaves the
/// first match unchanged.
proof fn lemma_first_profile_skip(users: Seq<UserProfileView>, name: Seq<char>, i: int)
    requires
        0 <= i <= users.len(),
        forall|k: int| 0 <= k < i ==> users[k].name != name,
    ensures
        first_profile(users, name) == first_profile(users.skip(i), name),
    decreases i,
{
    if i > 0 {
        lemma_first_profile_skip(users.drop_first(), name, i - 1);
        assert(users.drop_first().skip(i - 1) =~= users.skip(i));
        assert(users.skip(0) =~= users);
    } else {
        assert(users.skip(0) =~= users);
    }
}

/// Appending one message appends its row — or nothing, when its
/// sender has no profile.
proof fn lemma_feed_rec_snoc(
    msgs: Seq<MessageDataView>,
    users: Seq<UserProfileView>,
    current: Seq<char>,
    m: MessageDataView,
)
    ensures
        feed_rec(msgs.push(m), users, current) == feed_rec(msgs, users, current) + (match first_profile(
            users,
            m.from,
        ) {
            Some(u) => seq![feed_entry_spec(m, u, current)],
            None => Seq::<FeedEntryView>::empty(),
        }),
    decreases msgs.len(),
{
    let tail = (match first_profile(users, m.from) {
        Some(u) => seq![feed_entry_spec(m, u, current)],
        None => Seq::<FeedEntryView>::empty(),
    });
    if msgs.len() == 0 {
        assert(msgs.push(m).drop_first() =~= Seq::<MessageDataView>::empty());
        assert(msgs.push(m)[0] == m);
        assert(feed_rec(msgs.push(m).drop_first(), users, current) =~= Seq::<FeedEntryView>::empty());
        assert(feed_rec(msgs, users, current) + tail =~= tail);
        assert(feed_rec(msgs.push(m), users, current) =~= tail);
    } else {
        lemma_feed_rec_snoc(msgs.drop_first(), users, current, m);
        assert(msgs.push(m).drop_first() =~= msgs.drop_first().push(m));
        assert(msgs.push(m)[0] == msgs[0]);
        match first_profile(users, msgs[0].from) {
            Some(u) => {
                assert(seq![feed_entry_spec(msgs[0], u, current)] + (feed_rec(
                    msgs.drop_first(),
                    users,
                    current,
                ) + tail) =~= (seq![feed_entry_spec(msgs[0], u, current)] + feed_rec(
                    msgs.drop_first(),
                    users,
                    current,
                )) + tail);
            },
            None => {},
        }
    }
}

/// The index of the first profile whose name matches, if any.
fn find_profile_index(users: &Vec<UserProfile>, name: &String) -> (r: Option<usize>)
    ensures
        (match r {
            Some(i) => 0 <= i < users@.len() && first_profile(
                users@.map_values(|u: UserProfile| u@),
                name@,
            ) == Some(users@[i as int]@),
            None => first_profile(users@.map_values(|u: UserProfile| u@), name@) is None,
        }),
{
    let ghost uv = users@.map_values(|u: UserProfile| u@);
    let mut i: usize = 0;
    while i < users.len()
        invariant
            i <= users@.len(),
            uv == users@.map_values(|u: UserProfile| u@),
            forall|k: int| 0 <= k < i ==> uv[k].name != name@,
        decreases users@.len() - i,
    {
        if users[i].name.eq(name) {
            proof {
                lemma_first_profile_skip(uv, name@, i as int);
                assert(uv.skip(i as int)[0] == uv[i as int]);
                assert(uv.skip(i as int).len() > 0);
            }
            return Some(i);
        }
        i = i + 1;
    }
    proof {
        lemma_first_profile_skip(uv, name@, i as int);
        assert(uv.skip(i as int) =~= Seq::<UserProfileView>::empty());
    }
    None
}

/// Whether the string ends in the literal suffix `.gif`.
fn ends_with_gif(s: &String) -> (r: bool)
    ensures
        r == is_gif(s@),
{
    let n = s.as_str().unicode_len();
    if n < 4 {
        return false;
    }
    let c1 = s.as_str().get_char(n - 4);
    let c2 = s.as_str().get_char(n - 3);
    let c3 = s.as_str().get_char(n - 2);
    let c4 = s.as_str().get_char(n - 1);
    c1 == '.' && c2 == 'g' && c3 == 'i' && c4 == 'f'
}

impl Chat {
    /// The rendered sidebar: exactly one row per profile of the
    /// current roster, in roster order, the local user's row
    /// distinguished.
    pub fn render_sidebar(&self) -> (r: Vec<SidebarEntry>)
        ensures
            r@.map_values(|e: SidebarEntry| e@) == sidebar_spec(self@),
    {
        let mut out: Vec<SidebarEntry> = Vec::new();
        let mut i: usize = 0;
        while i < self.users.len()
            invariant
                i <= self.users@.len(),
                out@.map_values(|e: SidebarEntry| e@) == self.users@.map_values(
                    |u: UserProfile| u@,
                ).take(i as int).map_values(
                    |u: UserProfileView| sidebar_entry_spec(u, self.current_user@),
                ),
            decreases self.users@.len() - i,
        {
            let u = &self.users[i];
            let is_you = u.name.eq(&self.current_user);
            let status = if is_you {
                String::from_str("That's you!")
            } else {
                String::from_str("Online")
            };
            let entry = SidebarEntry {
                name: u.name.clone(),
                avatar: u.avatar.clone(),
                is_you,
                status,
            };
            proof {
                assert(entry@ == sidebar_entry_spec(u@, self.current_user@));
            }
            let ghost prev = out@;
            out.push(entry);
            proof {
                let uv = self.users@.map_values(|p: UserProfile| p@);
                let fe = |e: SidebarEntry| e@;
                let g = |p: UserProfileView| sidebar_entry_spec(p, self.current_user@);
                prev.lemma_push_map_commute(fe, entry);
                uv.take(i as int).lemma_push_map_commute(g, uv[i as int]);
                assert(uv[i as int] == u@);
                assert(uv.take(i as int).push(uv[i as int]) =~= uv.take(i + 1 as int));
                assert(out@.map_values(fe) =~= uv.take(i + 1 as int).map_values(g));
            }
            i = i + 1;
        }
        proof {
            let uv = self.users@.map_values(|u: UserProfile| u@);
            assert(uv.take(uv.len() as int) =~= uv);
        }
        out
    }

    /// The rendered feed: the messages in insertion order, each shown
    /// with its sender's profile; a message whose sender has no
    /// profile in the current roster is omitted.
    pub fn render_feed(&self) -> (r: Vec<FeedEntry>)
        ensures
            r@.map_values(|e: FeedEntry| e@) == feed_spec(self@),
    {
        let mut out: Vec<FeedEntry> = Vec::new();
        let mut i: usize = 0;
        while i < self.messages.len()
            invariant
                i <= self.messages@.len(),
                out@.map_values(|e: FeedEntry| e@) == feed_rec(
                    self.messages@.map_values(|m: crate::model::MessageData| m@).take(i as int),
                    self.users@.map_values(|u: UserProfile| u@),
                    self.current_user@,
                ),
            decreases self.messages@.len() - i,
        {
            let ghost mv = self.messages@.map_values(|m: crate::model::MessageData| m@);
            let ghost uv = self.users@.map_values(|u: UserProfile| u@);
            let m = &self.messages[i];
            match find_profile_index(&self.users, &m.from) {
                Some(j) => {
                    let is_you = m.from.eq(&self.current_user);
                    let header = if is_you {
                        String::from_str("You")
                    } else {
                        m.from.clone()
                    };
                    let entry = FeedEntry {
                        from: m.from.clone(),
                        avatar: self.users[j].avatar.clone(),
                        is_you,
                        header,
                        is_image: ends_with_gif(&m.message),
                        body: m.message.clone(),
                    };
                    proof {
                        assert(entry@ == feed_entry_spec(m@, uv[j as int], self.current_user@));
                    }
                    out.push(entry);
                },
                None => {},
            }
            proof {
                lemma_feed_rec_snoc(mv.take(i as int), uv, self.current_user@, mv[i as int]);
                assert(mv.take(i as int).push(mv[i as int]) =~= mv.take(i + 1 as int));
                assert(out@.map_values(|e: FeedEntry| e@) =~= feed_rec(
                    mv.take(i + 1 as int),
                    uv,
                    self.current_user@,
                ));
            }
            i = i + 1;
        }
        proof {
            let mv = self.messages@.map_values(|m: crate::model::MessageData| m@);
            assert(mv.take(mv.len() as int) =~= mv);
        }
        out
    }

    /// The rendered component: the sidebar and the feed, both pure
    /// functions of the state.
    pub fn render(&self) -> (r: RenderedChat)
        ensures
            r.sidebar@.map_values(|e: SidebarEntry| e@) == sidebar_spec(self@),
            r.feed@.map_values(|e: FeedEntry| e@) == feed_spec(self@),
    {
        RenderedChat { sidebar: self.render_sidebar(), feed: self.render_feed() }
    }
}

/// A sender without a profile is invisible: no row of the feed carries
/// its name, however many of its messages the state holds.
proof fn lemma_unknown_sender_rec(
    msgs: Seq<MessageDataView>,
    users: Seq<UserProfileView>,
    current: Seq<char>,
    name: Seq<char>,
)
    requires
        first_profile(users, name) is None,
    ensures
        forall|k: int|
            0 <= k < feed_rec(msgs, users, current).len() ==> feed_rec(msgs, users, current)[k].from
                != name,
    decreases msgs.len(),
{
    if msgs.len() > 0 {
        lemma_unknown_sender_rec(msgs.drop_first(), users, current, name);
        let rest = feed_rec(msgs.drop_first(), users, current);
        match first_profile(users, msgs[0].from) {
            Some(u) => {
                assert(msgs[0].from != name);
                let whole = seq![feed_entry_spec(msgs[0], u, current)] + rest;
                assert(forall|k: int| 0 <= k < whole.len() ==> whole[k].from != name) by {
                    assert(whole[0].from == msgs[0].from);
                    assert(forall|k: int| 1 <= k < whole.len() ==> whole[k] == rest[k - 1]);
                }
            },
            None => {},
        }
    }
}

/// A message whose sender has no matching profile never appears in
/// the rendered feed, even though it stays in the message list.
pub proof fn lemma_unknown_sender_never_rendered(st: ChatStateView, name: Seq<char>)
    requires
        first_profile(st.users, name) is None,
    ensures
        forall|k: int| 0 <= k < feed_spec(st).len() ==> feed_spec(st)[k].from != name,
{
    lemma_unknown_sender_rec(st.messages, st.users, st.current_user, name);
}

/// After any run of `users` envelopes, the sidebar holds exactly one
/// row per name of the latest roster, in that roster's order — never
/// an accumulation across envelopes.
pub proof fn lemma_sidebar_tracks_latest_roster(st: ChatStateView, rosters: Seq<Seq<Seq<char>>>)
    requires
        rosters.len() > 0,
    ensures
        sidebar_spec(apply_rosters_spec(st, rosters)).len() == rosters.last().len(),
        forall|i: int|
            0 <= i < rosters.last().len() ==> sidebar_spec(apply_rosters_spec(st, rosters))[i].name
                == rosters.last()[i],
{
    crate::chat::lemma_roster_replaced_wholesale(st, rosters);
    let after = apply_rosters_spec(st, rosters);
    assert(after.users == profiles_of(rosters.last()));
    assert forall|i: int| 0 <= i < rosters.last().len() implies sidebar_spec(after)[i].name
        == rosters.last()[i] by {
        assert(after.users[i] == crate::chat::profile_of(rosters.last()[i]));
        assert(sidebar_spec(after)[i] == sidebar_entry_spec(after.users[i], after.current_user));
    }
}

} // verus!
