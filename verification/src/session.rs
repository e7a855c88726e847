//! Session store: the registry of conversations, the active conversation
//! id and the current behavior mode. The registry is the single source of
//! truth for chat state; every mutation goes through the operations here.
//!
//! Invariant: conversation ids are unique, and the active id (when set)
//! always keys an existing conversation.

use vstd::prelude::*;
use vstd::string::*;
use vstd::seq_lib::group_to_multiset_ensures;
use crate::message::{msg_views, ChatMessage, MessageView, Role};
use crate::mode::MiaMode;
use crate::text::{chars_of, string_from_chars};

verus! {

broadcast use group_to_multiset_ensures;

/// A history may hold at most this many messages; older ones are evicted.
pub const HISTORY_CAP: usize = 15;

/// One conversation: an id and its ordered message history.
pub struct Conversation {
    pub id: u128,
    pub messages: Vec<ChatMessage>,
}

/// Mathematical view of a [`Conversation`].
pub struct ConvView {
    pub id: u128,
    pub messages: Seq<MessageView>,
}

impl View for Conversation {
    type V = ConvView;

    open spec fn view(&self) -> ConvView {
        ConvView { id: self.id, messages: msg_views(self.messages@) }
    }
}

/// The views of a conversation list, in order.
pub open spec fn conv_views(s: Seq<Conversation>) -> Seq<ConvView> {
    s.map_values(|c: Conversation| c@)
}

/// The session registry plus the process-wide current mode.
pub struct SessionStore {
    pub convs: Vec<Conversation>,
    pub active_id: Option<u128>,
    pub current_mode: MiaMode,
}

/// Mathematical view of a [`SessionStore`].
pub struct StoreView {
    pub convs: Seq<ConvView>,
    pub active_id: Option<u128>,
    pub current_mode: MiaMode,
}

impl View for SessionStore {
    type V = StoreView;

    open spec fn view(&self) -> StoreView {
        StoreView {
            convs: conv_views(self.convs@),
            active_id: self.active_id,
            current_mode: self.current_mode,
        }
    }
}

/// Ids are pairwise distinct.
pub open spec fn ids_unique_in(s: Seq<ConvView>) -> bool {
    forall|i: int, j: int| 0 <= i < j < s.len() ==> s[i].id != s[j].id
}

impl StoreView {
    /// A conversation with this id exists.
    pub open spec fn has_conv(self, id: u128) -> bool {
        exists|i: int| 0 <= i < self.convs.len() && self.convs[i].id == id
    }

    /// The index of the conversation with this id (ids are unique under
    /// [`StoreView::wf`]).
    pub open spec fn conv_index(self, id: u128) -> int {
        choose|i: int| 0 <= i < self.convs.len() && self.convs[i].id == id
    }

    /// The history of the conversation with this id; empty if absent.
    pub open spec fn history_of(self, id: u128) -> Seq<MessageView> {
        if self.has_conv(id) {
            self.convs[self.conv_index(id)].messages
        } else {
            Seq::empty()
        }
    }

    /// Ids are unique.
    pub open spec fn ids_unique(self) -> bool {
        ids_unique_in(self.convs)
    }

    /// Well-formedness: unique ids, and the active id keys a conversation.
    pub open spec fn wf(self) -> bool {
        &&& self.ids_unique()
        &&& match self.active_id {
            Option::Some(id) => self.has_conv(id),
            Option::None => true,
        }
    }
}

/// Under unique ids, any position holding `id` is the conversation index.
pub proof fn lemma_index_of_id(s: StoreView, i: int, id: u128)
    requires
        s.ids_unique(),
        0 <= i < s.convs.len(),
        s.convs[i].id == id,
    ensures
        s.has_conv(id),
        s.conv_index(id) == i,
{
    assert(s.has_conv(id));
    let j = s.conv_index(id);
    if j != i {
        if j < i {
            assert(s.convs[j].id != s.convs[i].id);
        } else {
            assert(s.convs[i].id != s.convs[j].id);
        }
    }
}

/// Replacing a conversation by one with the same id keeps ids unique.
proof fn lemma_update_keeps_unique(s: Seq<ConvView>, i: int, c: ConvView)
    requires
        ids_unique_in(s),
        0 <= i < s.len(),
        s[i].id == c.id,
    ensures
        ids_unique_in(s.update(i, c)),
{
}

/// Appending a conversation with a fresh id keeps ids unique.
proof fn lemma_push_keeps_unique(s: Seq<ConvView>, c: ConvView)
    requires
        ids_unique_in(s),
        forall|k: int| 0 <= k < s.len() ==> s[k].id != c.id,
    ensures
        ids_unique_in(s.push(c)),
{
}

/// Removing a conversation keeps ids unique.
proof fn lemma_remove_keeps_unique(s: Seq<ConvView>, i: int)
    requires
        ids_unique_in(s),
        0 <= i < s.len(),
    ensures
        ids_unique_in(s.remove(i)),
{
    let r = s.remove(i);
    assert forall|a: int, b: int| 0 <= a < b < r.len() implies r[a].id != r[b].id by {
        let a0 = if a < i { a } else { a + 1 };
        let b0 = if b < i { b } else { b + 1 };
        assert(r[a] == s[a0]);
        assert(r[b] == s[b0]);
    }
}

/// The registry after deleting one conversation: the conversation leaves,
/// and a deleted active id falls back to the first remaining conversation
/// (or to none when no conversation remains).
pub open spec fn spec_delete(s: StoreView, id: u128) -> StoreView {
    let convs = if s.has_conv(id) {
        s.convs.remove(s.conv_index(id))
    } else {
        s.convs
    };
    let active = if s.active_id == Some(id) {
        if convs.len() == 0 {
            Option::<u128>::None
        } else {
            Option::Some(convs[0].id)
        }
    } else {
        s.active_id
    };
    StoreView { convs, active_id: active, current_mode: s.current_mode }
}

/// Law: deleting the active conversation leaves the active id either unset
/// (exactly when no conversations remain) or pointing to a conversation
/// that still exists — never a dangling id.
pub proof fn lemma_delete_active_never_dangles(s: StoreView, id: u128)
    requires
        s.wf(),
        s.active_id == Some(id),
    ensures
        (spec_delete(s, id).active_id is None) <==> spec_delete(s, id).convs.len() == 0,
        spec_delete(s, id).active_id matches Some(a) ==> spec_delete(s, id).has_conv(a),
{
    let d = spec_delete(s, id);
    if d.convs.len() > 0 {
        assert(d.convs[0].id == d.active_id->Some_0);
        assert(d.has_conv(d.active_id->Some_0));
    }
}

/// A history after one append: the new message goes to the back, and the
/// front is evicted down to the cap.
pub open spec fn appended_history(h: Seq<MessageView>, m: MessageView) -> Seq<MessageView> {
    let h2 = h.push(m);
    if h2.len() > HISTORY_CAP { h2.skip(h2.len() - HISTORY_CAP) } else { h2 }
}

/// The greeting that seeds a new conversation.
pub open spec fn greeting_text() -> Seq<char> {
    "Hi! I'm Mia. How can I help you today?"@
}

/// Relies on `std::time::SystemTime`: milliseconds of the system clock
/// since the Unix epoch (zero if the clock reads earlier than the epoch).
/// Nothing can be promised of a clock reading.
#[verifier::external_body]
pub(crate) fn get_now() -> u64 {
    std::time::SystemTime::now()
        .duration_since(std::time::UNIX_EPOCH)
        .unwrap_or_default()
        .as_millis() as u64
}

/// Relies on `uuid::Uuid::new_v4` / `Uuid::as_u128`: a freshly drawn
/// random 128-bit identifier. Nothing can be promised of a random draw.
#[verifier::external_body]
fn fresh_chat_id() -> u128 {
    uuid::Uuid::new_v4().as_u128()
}

impl SessionStore {
    /// An empty registry: no conversations, no active id, automatic mode.
    pub fn new() -> (s: SessionStore)
        ensures
            s@.wf(),
            s@.convs.len() == 0,
            s@.active_id is None,
            s@.current_mode == MiaMode::Auto,
    {
        SessionStore { convs: Vec::new(), active_id: Option::None, current_mode: MiaMode::Auto }
    }

    /// Sets the process-wide behavior mode; nothing else changes.
    pub fn set_mia_mode(&mut self, mode: MiaMode)
        ensures
            final(self)@ == (StoreView { current_mode: mode, ..old(self)@ }),
    {
        self.current_mode = mode;
    }

    /// The id of the active conversation; a request cannot proceed without
    /// one, and the error is what the caller surfaces.
    pub fn active_chat(&self) -> (r: Result<u128, String>)
        ensures
            match r {
                Result::Ok(id) => self@.active_id == Some(id),
                Result::Err(e) => self@.active_id is None && e@ == "No active chat!"@,
            },
    {
        match self.active_id {
            Option::Some(id) => Result::Ok(id),
            Option::None => Result::Err(String::from_str("No active chat!")),
        }
    }

    /// The position of the conversation with this id, if any.
    fn find_index(&self, id: u128) -> (r: Option<usize>)
        ensures
            match r {
                Option::Some(i) => i < self@.convs.len() && self@.convs[i as int].id == id,
                Option::None => !self@.has_conv(id),
            },
    {
        let n = self.convs.len();
        let mut i: usize = 0;
        while i < n
            invariant
                n == self.convs@.len(),
                i <= n,
                forall|k: int| 0 <= k < i ==> self@.convs[k].id != id,
            decreases n - i,
        {
            if self.convs[i].id == id {
                assert(self@.convs[i as int].id == id);
                return Option::Some(i);
            }
            i += 1;
        }
        Option::None
    }

    /// Creates a conversation seeded with the assistant greeting, makes it
    /// the active one, and returns its freshly drawn id. Every other
    /// conversation is untouched.
    pub fn create_new_chat(&mut self) -> (id: u128)
        requires
            old(self)@.wf(),
        ensures
            final(self)@.wf(),
            final(self)@.current_mode == old(self)@.current_mode,
            final(self)@.active_id == Some(id),
            final(self)@.has_conv(id),
            final(self)@.history_of(id).len() == 1,
            final(self)@.history_of(id)[0].role == Role::Assistant,
            final(self)@.history_of(id)[0].content == greeting_text(),
            final(self)@.history_of(id)[0].sources is None,
            final(self)@.convs.len() == old(self)@.convs.len() + (
            if old(self)@.has_conv(id) {
                0int
            } else {
                1int
            }),
            forall|k: int|
                0 <= k < old(self)@.convs.len() && old(self)@.convs[k].id != id
                    ==> final(self)@.convs[k] == old(self)@.convs[k],
    {
        let id = fresh_chat_id();
        let ts = get_now();
        let msg = ChatMessage {
            role: Role::Assistant,
            content: String::from_str("Hi! I'm Mia. How can I help you today?"),
            timestamp: ts,
            sources: Option::None,
        };
        let ghost mv = msg@;
        let mut messages: Vec<ChatMessage> = Vec::new();
        messages.push(msg);
        let conv = Conversation { id, messages };
        let ghost cv = conv@;
        proof {
            assert(cv.messages =~= seq![mv]);
        }
        match self.find_index(id) {
            Option::Some(i) => {
                let _ = self.convs.remove(i);
                self.convs.insert(i, conv);
                proof {
                    assert(conv_views(self.convs@) =~= old(self)@.convs.update(i as int, cv));
                    lemma_update_keeps_unique(old(self)@.convs, i as int, cv);
                    lemma_index_of_id(self@, i as int, id);
                }
            },
            Option::None => {
                self.convs.push(conv);
                proof {
                    assert(conv_views(self.convs@) =~= old(self)@.convs.push(cv));
                    lemma_push_keeps_unique(old(self)@.convs, cv);
                    lemma_index_of_id(self@, old(self)@.convs.len() as int, id);
                }
            },
        }
        self.active_id = Option::Some(id);
        proof {
            let s = self@;
            assert(s.convs[s.conv_index(id)].messages == seq![mv]);
        }
        id
    }

    /// Appends one message to the conversation with this id, creating the
    /// conversation when absent, and evicts from the front down to the cap.
    pub fn append_message(&mut self, id: u128, msg: ChatMessage)
        requires
            old(self)@.wf(),
        ensures
            final(self)@.wf(),
            final(self)@.current_mode == old(self)@.current_mode,
            final(self)@.active_id == old(self)@.active_id,
            final(self)@.has_conv(id),
            final(self)@.history_of(id) == appended_history(old(self)@.history_of(id), msg@),
            final(self)@.convs.len() == old(self)@.convs.len() + (
            if old(self)@.has_conv(id) {
                0int
            } else {
                1int
            }),
            forall|k: int|
                0 <= k < old(self)@.convs.len() && old(self)@.convs[k].id != id
                    ==> final(self)@.convs[k] == old(self)@.convs[k],
            forall|k: int|
                0 <= k < old(self)@.convs.len()
                    ==> final(self)@.convs[k].id == old(self)@.convs[k].id,
    {
        let ghost old_hist = old(self)@.history_of(id);
        match self.find_index(id) {
            Option::Some(i) => {
                proof {
                    lemma_index_of_id(old(self)@, i as int, id);
                }
                let mut conv = self.convs.remove(i);
                assert(conv@.messages == old_hist);
                append_with_cap(&mut conv.messages, msg);
                let ghost cv = conv@;
                self.convs.insert(i, conv);
                proof {
                    assert(conv_views(self.convs@) =~= old(self)@.convs.update(i as int, cv));
                    lemma_update_keeps_unique(old(self)@.convs, i as int, cv);
                    lemma_index_of_id(self@, i as int, id);
                    match old(self)@.active_id {
                        Option::Some(a) => {
                            let j = old(self)@.conv_index(a);
                            assert(self@.convs[j].id == a);
                        },
                        Option::None => {},
                    }
                }
            },
            Option::None => {
                let mut messages: Vec<ChatMessage> = Vec::new();
                append_with_cap(&mut messages, msg);
                let conv = Conversation { id, messages };
                let ghost cv = conv@;
                self.convs.push(conv);
                proof {
                    assert(old_hist =~= Seq::<MessageView>::empty());
                    assert(msg_views(Seq::<ChatMessage>::empty()) =~= Seq::<MessageView>::empty());
                    assert(conv_views(self.convs@) =~= old(self)@.convs.push(cv));
                    lemma_push_keeps_unique(old(self)@.convs, cv);
                    lemma_index_of_id(self@, old(self)@.convs.len() as int, id);
                    match old(self)@.active_id {
                        Option::Some(a) => {
                            let j = old(self)@.conv_index(a);
                            assert(self@.convs[j].id == a);
                        },
                        Option::None => {},
                    }
                }
            },
        }
    }

    /// Makes the conversation with this id the active one; fails when it
    /// does not exist, leaving everything unchanged.
    pub fn switch_chat(&mut self, chat_id: u128) -> (r: Result<(), String>)
        requires
            old(self)@.wf(),
        ensures
            final(self)@.wf(),
            (r is Ok) == old(self)@.has_conv(chat_id),
            r is Ok ==> final(self)@ == (StoreView { active_id: Some(chat_id), ..old(self)@ }),
            r matches Err(e) ==> final(self)@ == old(self)@ && e@ == "Chat not found"@,
    {
        match self.find_index(chat_id) {
            Option::Some(i) => {
                proof {
                    lemma_index_of_id(old(self)@, i as int, chat_id);
                }
                self.active_id = Option::Some(chat_id);
                proof {
                    assert(self@.convs[i as int].id == chat_id);
                    assert(self@.has_conv(chat_id));
                }
                Result::Ok(())
            },
            Option::None => Result::Err(String::from_str("Chat not found")),
        }
    }

    /// Removes the conversation with this id; a missing id is a
    /// user-correctable error and leaves everything unchanged. When the
    /// active conversation is deleted, the first remaining conversation
    /// becomes active, or the active id is unset if none remain — the
    /// registry never references a dangling id.
    pub fn delete_chat(&mut self, chat_id: u128) -> (r: Result<(), String>)
        requires
            old(self)@.wf(),
        ensures
            final(self)@.wf(),
            (r is Ok) == old(self)@.has_conv(chat_id),
            r is Ok ==> final(self)@ == spec_delete(old(self)@, chat_id),
            r matches Err(e) ==> final(self)@ == old(self)@ && e@ == "Chat not found"@,
            !final(self)@.has_conv(chat_id),
    {
        match self.find_index(chat_id) {
            Option::Some(i) => {
                proof {
                    lemma_index_of_id(old(self)@, i as int, chat_id);
                }
                let _ = self.convs.remove(i);
                proof {
                    assert(conv_views(self.convs@) =~= old(self)@.convs.remove(i as int));
                    lemma_remove_keeps_unique(old(self)@.convs, i as int);
                    assert forall|k: int|
                        0 <= k < self@.convs.len() implies self@.convs[k].id != chat_id by {
                        if k < i {
                            assert(self@.convs[k] == old(self)@.convs[k]);
                            assert(old(self)@.convs[k].id != old(self)@.convs[i as int].id);
                        } else {
                            assert(self@.convs[k] == old(self)@.convs[k + 1]);
                            assert(old(self)@.convs[i as int].id != old(self)@.convs[k + 1].id);
                        }
                    }
                }
                let is_active = match self.active_id {
                    Option::Some(a) => a == chat_id,
                    Option::None => false,
                };
                if is_active {
                    if self.convs.len() == 0 {
                        self.active_id = Option::None;
                    } else {
                        let first_id = self.convs[0].id;
                        self.active_id = Option::Some(first_id);
                        proof {
                            assert(self@.convs[0].id == first_id);
                            assert(self@.has_conv(first_id));
                        }
                    }
                } else {
                    proof {
                        match old(self)@.active_id {
                            Option::Some(a) => {
                                let j = old(self)@.conv_index(a);
                                if j < i {
                                    assert(self@.convs[j] == old(self)@.convs[j]);
                                    assert(self@.convs[j].id == a);
                                } else {
                                    assert(j > i);
                                    assert(self@.convs[j - 1] == old(self)@.convs[j]);
                                    assert(self@.convs[j - 1].id == a);
                                }
                                assert(self@.has_conv(a));
                            },
                            Option::None => {},
                        }
                    }
                }
                Result::Ok(())
            },
            Option::None => Result::Err(String::from_str("Chat not found")),
        }
    }

    /// The message history of a conversation; empty if it does not exist
    /// (non-existence is an error only for `switch_chat` and `delete_chat`).
    pub fn get_chat_history(&self, chat_id: u128) -> (r: Vec<ChatMessage>)
        requires
            self@.wf(),
        ensures
            msg_views(r@) == self@.history_of(chat_id),
    {
        match self.find_index(chat_id) {
            Option::Some(i) => {
                proof {
                    lemma_index_of_id(self@, i as int, chat_id);
                }
                duplicate_messages(&self.convs[i].messages)
            },
            Option::None => {
                let r: Vec<ChatMessage> = Vec::new();
                assert(msg_views(r@) =~= Seq::<MessageView>::empty());
                r
            },
        }
    }
}

/// Appends a message to a history vector and evicts from the front until
/// the cap is respected; the relative order of survivors is unchanged.
pub fn append_with_cap(messages: &mut Vec<ChatMessage>, msg: ChatMessage)
    ensures
        msg_views(final(messages)@) == appended_history(msg_views(old(messages)@), msg@),
{
    let ghost target = msg_views(old(messages)@).push(msg@);
    messages.push(msg);
    assert(msg_views(messages@) =~= target);
    while messages.len() > HISTORY_CAP
        invariant
            messages@.len() <= target.len(),
            HISTORY_CAP <= messages@.len() || messages@.len() == target.len(),
            msg_views(messages@) == target.skip(target.len() - messages@.len()),
        decreases messages@.len(),
    {
        let ghost pre = messages@;
        let _ = messages.remove(0);
        proof {
            assert(messages@ == pre.remove(0));
            assert forall|k: int| 0 <= k < messages@.len() implies msg_views(messages@)[k]
                == target.skip(target.len() - messages@.len())[k] by {
                assert(messages@[k] == pre[k + 1]);
                assert(msg_views(pre)[k + 1] == target.skip(target.len() - pre.len())[k + 1]);
            }
            assert(msg_views(messages@) =~= target.skip(target.len() - messages@.len()));
        }
    }
    proof {
        if target.len() > HISTORY_CAP {
            assert(messages@.len() == HISTORY_CAP);
        } else {
            assert(messages@.len() == target.len());
            assert(target.skip(0) =~= target);
        }
    }
}

/// A copy of a message list with the same views.
pub fn duplicate_messages(v: &Vec<ChatMessage>) -> (r: Vec<ChatMessage>)
    ensures
        msg_views(r@) == msg_views(v@),
{
    let mut r: Vec<ChatMessage> = Vec::new();
    let mut i: usize = 0;
    while i < v.len()
        invariant
            i <= v@.len(),
            r@.len() == i,
            forall|k: int| 0 <= k < i ==> r@[k]@ == v@[k]@,
        decreases v@.len() - i,
    {
        r.push(v[i].duplicate());
        i += 1;
    }
    assert(msg_views(r@) =~= msg_views(v@));
    r
}

/// A row of the conversation listing.
pub struct ChatEntry {
    pub id: u128,
    pub name: String,
    pub last_active: u64,
}

/// Mathematical view of a [`ChatEntry`].
pub struct EntryView {
    pub id: u128,
    pub name: Seq<char>,
    pub last_active: u64,
}

impl View for ChatEntry {
    type V = EntryView;

    open spec fn view(&self) -> EntryView {
        EntryView { id: self.id, name: self.name@, last_active: self.last_active }
    }
}

/// The views of an entry list, in order.
pub open spec fn entry_views(s: Seq<ChatEntry>) -> Seq<EntryView> {
    s.map_values(|e: ChatEntry| e@)
}

/// The first user-authored message of a history, if any.
pub open spec fn first_user(h: Seq<MessageView>) -> Option<MessageView>
    decreases h.len(),
{
    if h.len() == 0 {
        Option::None
    } else if h[0].role == Role::User {
        Option::Some(h[0])
    } else {
        first_user(h.drop_first())
    }
}

/// The display name of a history: the first user message (or the first
/// message if no user message exists) cut to 25 characters with an ellipsis
/// marker when it was longer; a fixed fallback for an empty history.
pub open spec fn spec_display_name(h: Seq<MessageView>) -> Seq<char> {
    let source = match first_user(h) {
        Option::Some(m) => Option::Some(m.content),
        Option::None => if h.len() > 0 {
            Option::Some(h[0].content)
        } else {
            Option::<Seq<char>>::None
        },
    };
    match source {
        Option::Some(c) => if c.len() > 25 {
            c.take(25) + "..."@
        } else {
            c
        },
        Option::None => "New conversation"@,
    }
}

/// The timestamp of the newest message; zero for an empty history.
pub open spec fn spec_last_active(h: Seq<MessageView>) -> u64 {
    if h.len() > 0 {
        h.last().timestamp
    } else {
        0u64
    }
}

/// The listing row a conversation gives rise to.
pub open spec fn entry_of(c: ConvView) -> EntryView {
    EntryView {
        id: c.id,
        name: spec_display_name(c.messages),
        last_active: spec_last_active(c.messages),
    }
}

/// The listing rows of a conversation list, in registry order.
pub open spec fn entries_of(s: Seq<ConvView>) -> Seq<EntryView> {
    s.map_values(|c: ConvView| entry_of(c))
}

/// Sorted by last activity, newest first.
pub open spec fn sorted_desc(s: Seq<EntryView>) -> bool {
    forall|i: int, j: int| 0 <= i < j < s.len() ==> s[i].last_active >= s[j].last_active
}

/// With no user message before `i` and a user message at `i`, the first
/// user message is the one at `i`.
proof fn lemma_first_user_at(h: Seq<MessageView>, i: int)
    requires
        0 <= i < h.len(),
        h[i].role == Role::User,
        forall|k: int| 0 <= k < i ==> h[k].role != Role::User,
    ensures
        first_user(h) == Some(h[i]),
    decreases i,
{
    if i == 0 {
    } else {
        lemma_first_user_at(h.drop_first(), i - 1);
    }
}

/// With no user message at all, there is no first user message.
proof fn lemma_first_user_none(h: Seq<MessageView>)
    requires
        forall|k: int| 0 <= k < h.len() ==> h[k].role != Role::User,
    ensures
        first_user(h) is None,
    decreases h.len(),
{
    if h.len() > 0 {
        lemma_first_user_none(h.drop_first());
    }
}

/// The position of the first user message, if any.
fn first_user_index(messages: &Vec<ChatMessage>) -> (r: Option<usize>)
    ensures
        match r {
            Option::Some(i) => i < messages@.len() && messages@[i as int]@.role == Role::User
                && forall|k: int| 0 <= k < i ==> messages@[k]@.role != Role::User,
            Option::None => forall|k: int|
                0 <= k < messages@.len() ==> messages@[k]@.role != Role::User,
        },
{
    let n = messages.len();
    let mut i: usize = 0;
    while i < n
        invariant
            n == messages@.len(),
            i <= n,
            forall|k: int| 0 <= k < i ==> messages@[k]@.role != Role::User,
        decreases n - i,
    {
        if messages[i].role == Role::User {
            return Option::Some(i);
        }
        i += 1;
    }
    Option::None
}

/// Cuts a name to 25 characters, marking the cut with an ellipsis; shorter
/// names are returned unmodified.
fn truncated_name(content: &str) -> (r: String)
    ensures
        r@ == (if content@.len() > 25 {
            content@.take(25) + "..."@
        } else {
            content@
        }),
{
    let cv = chars_of(content);
    if cv.len() > 25 {
        let mut out: Vec<char> = Vec::new();
        let mut i: usize = 0;
        while i < 25
            invariant
                cv@.len() > 25,
                cv@ == content@,
                i <= 25,
                out@ == cv@.take(i as int),
            decreases 25 - i,
        {
            out.push(cv[i]);
            assert(out@ =~= cv@.take(i + 1));
            i += 1;
        }
        out.push('.');
        out.push('.');
        out.push('.');
        proof {
            reveal_strlit("...");
            assert(out@ =~= content@.take(25) + "..."@);
        }
        string_from_chars(&out)
    } else {
        String::from_str(content)
    }
}

/// The display name of a history.
pub fn display_name(messages: &Vec<ChatMessage>) -> (r: String)
    ensures
        r@ == spec_display_name(msg_views(messages@)),
{
    let ghost h = msg_views(messages@);
    match first_user_index(messages) {
        Option::Some(i) => {
            proof {
                lemma_first_user_at(h, i as int);
            }
            truncated_name(self_content(&messages[i]))
        },
        Option::None => {
            proof {
                lemma_first_user_none(h);
            }
            if messages.len() > 0 {
                truncated_name(self_content(&messages[0]))
            } else {
                String::from_str("New conversation")
            }
        },
    }
}

/// The content of a message, as a borrowed string.
fn self_content(m: &ChatMessage) -> (r: &str)
    ensures
        r@ == m@.content,
{
    m.content.as_str()
}

/// Where a row goes in a listing already sorted newest first: after every
/// row at least as recent, so rows with equal stamps keep their order.
pub open spec fn insert_desc(s: Seq<EntryView>, x: EntryView) -> Seq<EntryView>
    decreases s.len(),
{
    if s.len() > 0 && s[0].last_active >= x.last_active {
        seq![s[0]] + insert_desc(s.drop_first(), x)
    } else {
        seq![x] + s
    }
}

/// The stable descending sort of a listing: each row inserted in turn, so
/// ties keep their registry order and the result is deterministic.
pub open spec fn sort_desc_spec(s: Seq<EntryView>) -> Seq<EntryView>
    decreases s.len(),
{
    if s.len() == 0 {
        Seq::empty()
    } else {
        insert_desc(sort_desc_spec(s.drop_last()), s.last())
    }
}

/// Inserting adds one to the length.
proof fn lemma_insert_desc_len(s: Seq<EntryView>, x: EntryView)
    ensures
        insert_desc(s, x).len() == s.len() + 1,
    decreases s.len(),
{
    if s.len() > 0 && s[0].last_active >= x.last_active {
        lemma_insert_desc_len(s.drop_first(), x);
    }
}

/// Sorting keeps the length.
proof fn lemma_sort_desc_spec_len(s: Seq<EntryView>)
    ensures
        sort_desc_spec(s).len() == s.len(),
    decreases s.len(),
{
    if s.len() > 0 {
        lemma_sort_desc_spec_len(s.drop_last());
        lemma_insert_desc_len(sort_desc_spec(s.drop_last()), s.last());
    }
}

/// In a listing sorted newest first, the insertion point found by scanning
/// past every at-least-as-recent row is where `insert_desc` puts the row.
proof fn lemma_insert_desc_at(p: Seq<EntryView>, x: EntryView, j: int)
    requires
        0 <= j <= p.len(),
        forall|k: int| 0 <= k < j ==> p[k].last_active >= x.last_active,
        j < p.len() ==> p[j].last_active < x.last_active,
    ensures
        insert_desc(p, x) == p.insert(j, x),
    decreases j,
{
    if j == 0 {
        if p.len() > 0 {
            assert(p[0].last_active < x.last_active);
        }
        assert(insert_desc(p, x) == seq![x] + p);
        assert(p.insert(0, x) =~= seq![x] + p);
    } else {
        assert(p[0].last_active >= x.last_active);
        assert(forall|k: int|
            0 <= k < j - 1 ==> p.drop_first()[k].last_active >= x.last_active);
        lemma_insert_desc_at(p.drop_first(), x, j - 1);
        assert(insert_desc(p, x) == seq![p[0]] + p.drop_first().insert(j - 1, x));
        assert(seq![p[0]] + p.drop_first().insert(j - 1, x) =~= p.insert(j, x));
    }
}

/// `insert` adds one occurrence to the multiset of an entry sequence.
proof fn lemma_insert_to_multiset(s: Seq<EntryView>, j: int, x: EntryView)
    requires
        0 <= j <= s.len(),
    ensures
        s.insert(j, x).to_multiset() == s.to_multiset().insert(x),
{
    let t = s.insert(j, x);
    assert(t.remove(j) =~= s);
    assert(t.remove(j).to_multiset() == t.to_multiset().remove(t[j]));
    assert(t[j] == x);
    assert(t.contains(x));
    assert(t.to_multiset().count(x) > 0);
    assert(t.to_multiset() =~= s.to_multiset().insert(x));
}

/// Sorts the listing by last activity, newest first, in place: exactly the
/// stable sort of the rows, so equal stamps keep their order.
fn sort_entries(entries: &mut Vec<ChatEntry>)
    ensures
        final(entries)@.len() == old(entries)@.len(),
        entry_views(final(entries)@) == sort_desc_spec(entry_views(old(entries)@)),
        entry_views(final(entries)@).to_multiset() == entry_views(old(entries)@).to_multiset(),
        sorted_desc(entry_views(final(entries)@)),
{
    let ghost orig = entry_views(entries@);
    let n = entries.len();
    if n == 0 {
        assert(sort_desc_spec(orig) =~= orig);
        return;
    }
    if n == 1 {
        proof {
            assert(orig.drop_last() =~= Seq::<EntryView>::empty());
            assert(sort_desc_spec(Seq::<EntryView>::empty()) == Seq::<EntryView>::empty());
            assert(sort_desc_spec(orig) == insert_desc(Seq::<EntryView>::empty(), orig.last()));
            assert(insert_desc(Seq::<EntryView>::empty(), orig.last()) =~= seq![orig.last()]);
            assert(sort_desc_spec(orig) =~= orig);
        }
        return;
    }
    proof {
        assert(orig.take(1).drop_last() =~= Seq::<EntryView>::empty());
        assert(sort_desc_spec(Seq::<EntryView>::empty()) == Seq::<EntryView>::empty());
        assert(sort_desc_spec(orig.take(1)) == insert_desc(
            Seq::<EntryView>::empty(),
            orig.take(1).last(),
        ));
        assert(insert_desc(Seq::<EntryView>::empty(), orig[0]) =~= seq![orig[0]]);
        assert(orig.take(1).last() == orig[0]);
        assert(sort_desc_spec(orig.take(1)) + orig.skip(1) =~= orig);
    }
    let mut i: usize = 1;
    while i < n
        invariant
            n == entries@.len(),
            1 <= i <= n,
            orig == entry_views(old(entries)@),
            orig.len() == n,
            entry_views(entries@).to_multiset() == entry_views(old(entries)@).to_multiset(),
            sorted_desc(entry_views(entries@).take(i as int)),
            entry_views(entries@) == sort_desc_spec(orig.take(i as int)) + orig.skip(i as int),
        decreases n - i,
    {
        let ghost before = entry_views(entries@);
        let x = entries.remove(i);
        let ghost gx = x@;
        proof {
            assert(entry_views(entries@) =~= before.remove(i as int));
            assert(before[i as int] == gx);
        }
        let mut j: usize = 0;
        while j < i && entries[j].last_active >= x.last_active
            invariant
                i < n,
                n - 1 == entries@.len(),
                before.len() == n,
                gx == x@,
                j <= i,
                entry_views(entries@) == before.remove(i as int),
                forall|k: int|
                    0 <= k < j ==> entry_views(entries@)[k].last_active >= gx.last_active,
            decreases i - j,
    {
            assert(entry_views(entries@)[j as int] == entries@[j as int]@);
            j += 1;
        }
        let ghost mid = entry_views(entries@);
        let ghost gj = j as int;
        proof {
            if gj < i {
                assert(mid[gj].last_active < gx.last_active);
            }
        }
        entries.insert(j, x);
        proof {
            assert(entry_views(entries@) =~= mid.insert(gj, gx));
            lemma_insert_to_multiset(mid, gj, gx);
            assert(entry_views(entries@).to_multiset() == entry_views(old(entries)@).to_multiset());
            let now = entry_views(entries@);
            // exact stable order: the insertion point matches insert_desc
            lemma_sort_desc_spec_len(orig.take(i as int));
            let p = before.take(i as int);
            assert(p =~= sort_desc_spec(orig.take(i as int)));
            assert(before.skip(i as int) =~= orig.skip(i as int));
            assert(gx == orig[i as int]);
            assert(mid =~= p + orig.skip(i + 1));
            assert(forall|k: int| 0 <= k < gj ==> p[k] == mid[k]);
            lemma_insert_desc_at(p, gx, gj);
            assert(now =~= p.insert(gj, gx) + orig.skip(i + 1));
            assert(orig.take(i + 1).drop_last() =~= orig.take(i as int));
            assert(orig.take(i + 1).last() == orig[i as int]);
            assert(sort_desc_spec(orig.take(i + 1)) == insert_desc(
                sort_desc_spec(orig.take(i as int)),
                orig[i as int],
            ));
            assert(now =~= sort_desc_spec(orig.take(i + 1)) + orig.skip(i + 1));
            assert forall|a: int, b: int| 0 <= a < b < i + 1 implies now[a].last_active
                >= now[b].last_active by {
                if b < gj {
                    assert(now[a] == mid[a] && now[b] == mid[b]);
                    assert(mid[a] == before[a] && mid[b] == before[b]);
                } else if b == gj {
                    if a < gj {
                        assert(now[a] == mid[a]);
                    }
                } else {
                    assert(now[b] == mid[b - 1]);
                    assert(mid[b - 1] == before[b - 1]);
                    if a < gj {
                        assert(now[a] == mid[a] && mid[a] == before[a]);
                        if b - 1 < i {
                            assert(before[a].last_active >= before[b - 1].last_active);
                        }
                    } else if a == gj {
                        assert(gj < i);
                        assert(mid[gj] == before[gj]);
                        if b - 1 > gj {
                            assert(before[gj].last_active >= before[b - 1].last_active);
                        }
                        assert(gx.last_active > mid[gj].last_active);
                    } else {
                        assert(now[a] == mid[a - 1] && mid[a - 1] == before[a - 1]);
                        if b - 1 < i && a - 1 >= 0 {
                            assert(before[a - 1].last_active >= before[b - 1].last_active);
                        }
                    }
                }
            }
            assert(sorted_desc(entry_views(entries@).take(i + 1)));
        }
        i += 1;
    }
    proof {
        assert(entry_views(entries@).take(n as int) =~= entry_views(entries@));
        assert(orig.take(n as int) =~= orig);
        assert(orig.skip(n as int) =~= Seq::<EntryView>::empty());
        assert(sort_desc_spec(orig) + Seq::<EntryView>::empty() =~= sort_desc_spec(orig));
    }
}

impl SessionStore {
    /// The conversation listing: one row per conversation (id, display
    /// name, last activity), sorted by descending last-message timestamp,
    /// ties keeping their registry order (a stable, deterministic sort).
    pub fn get_all_chats(&self) -> (r: Vec<ChatEntry>)
        ensures
            r@.len() == self@.convs.len(),
            entry_views(r@) == sort_desc_spec(entries_of(self@.convs)),
            entry_views(r@).to_multiset() == entries_of(self@.convs).to_multiset(),
            sorted_desc(entry_views(r@)),
    {
        let n = self.convs.len();
        let mut entries: Vec<ChatEntry> = Vec::new();
        let mut i: usize = 0;
        while i < n
            invariant
                n == self.convs@.len(),
                i <= n,
                entries@.len() == i,
                forall|k: int| 0 <= k < i ==> entries@[k]@ == entry_of(self@.convs[k]),
            decreases n - i,
        {
            let c = &self.convs[i];
            let name = display_name(&c.messages);
            let m = c.messages.len();
            let last: u64 = if m > 0 {
                c.messages[m - 1].timestamp
            } else {
                0
            };
            proof {
                let cv = self@.convs[i as int];
                assert(cv == self.convs@[i as int]@);
                if m > 0 {
                    assert(cv.messages[m - 1] == self.convs@[i as int].messages@[m - 1]@);
                    assert(last == spec_last_active(cv.messages));
                } else {
                    assert(cv.messages.len() == 0);
                }
            }
            entries.push(ChatEntry { id: c.id, name, last_active: last });
            i += 1;
        }
        proof {
            assert(entry_views(entries@) =~= entries_of(self@.convs));
        }
        sort_entries(&mut entries);
        entries
    }
}

/// Law: one append never leaves more than the cap, keeps exactly the newest
/// messages of `h.push(m)`, and preserves their relative order (the result
/// is a suffix of `h.push(m)`; eviction takes the oldest first).
pub proof fn lemma_append_bounds(h: Seq<MessageView>, m: MessageView)
    ensures
        appended_history(h, m).len() == if h.len() + 1 <= HISTORY_CAP {
            (h.len() + 1) as int
        } else {
            HISTORY_CAP as int
        },
        ({
            let r = appended_history(h, m);
            let h2 = h.push(m);
            forall|k: int| 0 <= k < r.len() ==> r[k] == h2[h2.len() - r.len() + k]
        }),
{
}

/// The history after a sequence of appends, oldest first.
pub open spec fn append_all(h: Seq<MessageView>, ms: Seq<MessageView>) -> Seq<MessageView>
    decreases ms.len(),
{
    if ms.len() == 0 {
        h
    } else {
        append_all(appended_history(h, ms[0]), ms.drop_first())
    }
}

/// Law: for every sequence of appends to one conversation, the history
/// length never exceeds the cap once any append has happened (and a history
/// that starts within the cap stays within it throughout).
pub proof fn lemma_history_never_exceeds_cap(h: Seq<MessageView>, ms: Seq<MessageView>)
    requires
        ms.len() > 0 || h.len() <= HISTORY_CAP,
    ensures
        append_all(h, ms).len() <= HISTORY_CAP,
    decreases ms.len(),
{
    if ms.len() == 0 {
    } else {
        lemma_history_never_exceeds_cap(appended_history(h, ms[0]), ms.drop_first());
    }
}

} // verus!
