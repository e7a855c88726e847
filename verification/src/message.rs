//! The chat data model: roles, web sources and messages, together with
//! their mathematical views.

use vstd::prelude::*;
use vstd::string::*;

verus! {

/// Who authored a message.
#[derive(Clone, Copy, PartialEq, Eq, Structural, Debug)]
pub enum Role {
    System,
    User,
    Assistant,
}

/// A citable web source produced by the retrieval augmenter.
pub struct WebSource {
    pub title: String,
    pub url: String,
}

/// Mathematical view of a [`WebSource`].
pub struct SourceView {
    pub title: Seq<char>,
    pub url: Seq<char>,
}

impl View for WebSource {
    type V = SourceView;

    open spec fn view(&self) -> SourceView {
        SourceView { title: self.title@, url: self.url@ }
    }
}

/// One turn of a conversation. Immutable once appended.
pub struct ChatMessage {
    pub role: Role,
    pub content: String,
    pub timestamp: u64,
    pub sources: Option<Vec<WebSource>>,
}

/// Mathematical view of a [`ChatMessage`].
pub struct MessageView {
    pub role: Role,
    pub content: Seq<char>,
    pub timestamp: u64,
    pub sources: Option<Seq<SourceView>>,
}

/// The views of a source list, in order.
pub open spec fn source_views(s: Seq<WebSource>) -> Seq<SourceView> {
    s.map_values(|x: WebSource| x@)
}

impl View for ChatMessage {
    type V = MessageView;

    open spec fn view(&self) -> MessageView {
        MessageView {
            role: self.role,
            content: self.content@,
            timestamp: self.timestamp,
            sources: match self.sources {
                Option::None => Option::None,
                Option::Some(v) => Option::Some(source_views(v@)),
            },
        }
    }
}

/// The views of a message list, in order.
pub open spec fn msg_views(s: Seq<ChatMessage>) -> Seq<MessageView> {
    s.map_values(|m: ChatMessage| m@)
}

/// The role tag used in the prompt markup and in the durable document.
pub open spec fn role_text(r: Role) -> Seq<char> {
    match r {
        Role::System => "system"@,
        Role::User => "user"@,
        Role::Assistant => "assistant"@,
    }
}

impl Role {
    /// The textual tag of this role.
    pub fn as_str(self) -> (s: &'static str)
        ensures
            s@ == role_text(self),
    {
        match self {
            Role::System => "system",
            Role::User => "user",
            Role::Assistant => "assistant",
        }
    }
}

impl WebSource {
    /// A copy of this source with the same view.
    pub fn duplicate(&self) -> (s: WebSource)
        ensures
            s@ == self@,
    {
        WebSource { title: self.title.clone(), url: self.url.clone() }
    }
}

/// A copy of a source list with the same views.
pub fn duplicate_sources(v: &Vec<WebSource>) -> (r: Vec<WebSource>)
    ensures
        source_views(r@) == source_views(v@),
{
    let mut r: Vec<WebSource> = Vec::new();
    let mut i: usize = 0;
    while i < v.len()
        invariant
            i <= v@.len(),
            r@.len() == i,
            forall|k: int| 0 <= k < i ==> r@[k]@ == v@[k]@,
        decreases v@.len() - i,
    {
        r.push(v[i].duplicate());
        i += 1;
    }
    assert(source_views(r@) =~= source_views(v@));
    r
}

/// The sources field of a recorded assistant turn: present exactly when
/// any source was gathered.
pub fn sources_option(sources: &Vec<WebSource>) -> (r: Option<Vec<WebSource>>)
    ensures
        match r {
            Option::None => sources@.len() == 0,
            Option::Some(v) => sources@.len() > 0 && source_views(v@) == source_views(sources@),
        },
{
    if sources.len() == 0 {
        Option::None
    } else {
        Option::Some(duplicate_sources(sources))
    }
}

impl ChatMessage {
    /// A copy of this message with the same view.
    pub fn duplicate(&self) -> (m: ChatMessage)
        ensures
            m@ == self@,
    {
        let sources = match &self.sources {
            Option::None => Option::None,
            Option::Some(v) => Option::Some(duplicate_sources(v)),
        };
        let m = ChatMessage {
            role: self.role,
            content: self.content.clone(),
            timestamp: self.timestamp,
            sources,
        };
        m
    }
}

} // verus!
