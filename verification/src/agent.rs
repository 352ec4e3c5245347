//! The agent panel: how the events of a conversation become its transcript.
use vstd::prelude::*;
use crate::badge::Icon;
use crate::git::{content_of, trimmed_content};
use crate::keys::Keystroke;
use crate::text::{cat, same};
use crate::theme::{GIT_DELETED, GIT_NEW, MUTED};

verus! {

/// One entry of the transcript.
#[derive(Debug)]
pub enum AgentMsg {
    /// What the user typed.
    User(String),
    /// Text of the agent, which grows as it comes in.
    Agent(String),
    /// Reasoning of the agent, which grows as it comes in.
    Thought(String),
    /// A tool that the agent ran, and its latest status.
    Tool { id: String, title: String, status: String },
}

/// What an entry says.
pub ghost enum MsgView {
    User(Seq<char>),
    Agent(Seq<char>),
    Thought(Seq<char>),
    Tool { id: Seq<char>, title: Seq<char>, status: Seq<char> },
}

impl View for AgentMsg {
    type V = MsgView;

    open spec fn view(&self) -> MsgView {
        match self {
            AgentMsg::User(t) => MsgView::User(t@),
            AgentMsg::Agent(t) => MsgView::Agent(t@),
            AgentMsg::Thought(t) => MsgView::Thought(t@),
            AgentMsg::Tool { id, title, status } => MsgView::Tool {
                id: id@,
                title: title@,
                status: status@,
            },
        }
    }
}

/// What the entries say.
pub open spec fn msg_views(v: Seq<AgentMsg>) -> Seq<MsgView> {
    Seq::new(v.len(), |i: int| v[i]@)
}

proof fn lemma_msg_push(v: Seq<AgentMsg>, m: AgentMsg)
    ensures
        msg_views(v.push(m)) == msg_views(v).push(m@),
{
    assert(msg_views(v.push(m)) =~= msg_views(v).push(m@));
}

/// An event of the conversation.
#[derive(Debug)]
pub enum AgentEvent {
    Ready,
    Text(String),
    Thought(String),
    Tool { id: String, title: String, status: String },
    ToolStatus { id: String, status: String },
    TurnEnd,
    Failed(String),
}

/// What an event says.
pub ghost enum EventView {
    Ready,
    Text(Seq<char>),
    Thought(Seq<char>),
    Tool { id: Seq<char>, title: Seq<char>, status: Seq<char> },
    ToolStatus { id: Seq<char>, status: Seq<char> },
    TurnEnd,
    Failed(Seq<char>),
}

impl View for AgentEvent {
    type V = EventView;

    open spec fn view(&self) -> EventView {
        match self {
            AgentEvent::Ready => EventView::Ready,
            AgentEvent::Text(t) => EventView::Text(t@),
            AgentEvent::Thought(t) => EventView::Thought(t@),
            AgentEvent::Tool { id, title, status } => EventView::Tool {
                id: id@,
                title: title@,
                status: status@,
            },
            AgentEvent::ToolStatus { id, status } => EventView::ToolStatus { id: id@, status: status@ },
            AgentEvent::TurnEnd => EventView::TurnEnd,
            AgentEvent::Failed(e) => EventView::Failed(e@),
        }
    }
}

/// The transcript: its entries, the ones that still grow, and whether the agent is at work.
#[derive(Debug)]
pub struct Transcript {
    pub msgs: Vec<AgentMsg>,
    pub cur: Option<usize>,
    pub cur_thought: Option<usize>,
    pub busy: bool,
}

/// The transcript as plain values.
pub ghost struct TranscriptView {
    pub msgs: Seq<MsgView>,
    pub cur: Option<int>,
    pub cur_thought: Option<int>,
    pub busy: bool,
}

/// An optional place as a number.
pub open spec fn opt_int(o: Option<usize>) -> Option<int> {
    match o {
        Some(i) => Some(i as int),
        None => None,
    }
}

impl View for Transcript {
    type V = TranscriptView;

    open spec fn view(&self) -> TranscriptView {
        TranscriptView {
            msgs: msg_views(self.msgs@),
            cur: opt_int(self.cur),
            cur_thought: opt_int(self.cur_thought),
            busy: self.busy,
        }
    }
}

/// The entry that text goes to is one of the agent's, and that for reasoning one of reasoning.
pub open spec fn transcript_ok(t: TranscriptView) -> bool {
    &&& match t.cur {
        Some(i) => 0 <= i < t.msgs.len() && t.msgs[i] is Agent,
        None => true,
    }
    &&& match t.cur_thought {
        Some(i) => 0 <= i < t.msgs.len() && t.msgs[i] is Thought,
        None => true,
    }
}

/// The entries with the status of the tool `id` set.
pub open spec fn with_status(v: Seq<MsgView>, id: Seq<char>, status: Seq<char>) -> Seq<MsgView> {
    v.map_values(
        |m: MsgView|
            match m {
                MsgView::Tool { id: i, title, status: s } => if i == id {
                    MsgView::Tool { id: i, title, status }
                } else {
                    m
                },
                _ => m,
            },
    )
}

/// The transcript after an event. Text grows the agent's entry, or begins one, and ends the
/// reasoning; a tool ends both.
pub open spec fn applied(t: TranscriptView, e: EventView) -> TranscriptView {
    match e {
        EventView::Ready => t,
        EventView::Text(s) => match t.cur {
            Some(i) => TranscriptView {
                msgs: t.msgs.update(i, MsgView::Agent(t.msgs[i]->Agent_0 + s)),
                cur_thought: None,
                ..t
            },
            None => TranscriptView {
                msgs: t.msgs.push(MsgView::Agent(s)),
                cur: Some(t.msgs.len() as int),
                cur_thought: None,
                ..t
            },
        },
        EventView::Thought(s) => match t.cur_thought {
            Some(i) => TranscriptView {
                msgs: t.msgs.update(i, MsgView::Thought(t.msgs[i]->Thought_0 + s)),
                ..t
            },
            None => TranscriptView {
                msgs: t.msgs.push(MsgView::Thought(s)),
                cur_thought: Some(t.msgs.len() as int),
                ..t
            },
        },
        EventView::Tool { id, title, status } => TranscriptView {
            msgs: t.msgs.push(MsgView::Tool { id, title, status }),
            cur: None,
            cur_thought: None,
            ..t
        },
        EventView::ToolStatus { id, status } => TranscriptView {
            msgs: with_status(t.msgs, id, status),
            ..t
        },
        EventView::TurnEnd => TranscriptView { busy: false, cur: None, cur_thought: None, ..t },
        EventView::Failed(s) => TranscriptView {
            msgs: t.msgs.push(
                MsgView::Tool { id: Seq::empty(), title: s, status: "failed"@ },
            ),
            busy: false,
            cur: None,
            cur_thought: None,
        },
    }
}

/// Every event keeps the transcript in order.
pub proof fn events_keep_the_transcript_in_order(t: TranscriptView, e: EventView)
    requires
        transcript_ok(t),
    ensures
        transcript_ok(applied(t, e)),
{
    if let EventView::ToolStatus { id, status } = e {
        let w = with_status(t.msgs, id, status);
        if let Some(i) = t.cur {
            assert(w[i] == t.msgs[i]);
        }
        if let Some(i) = t.cur_thought {
            assert(w[i] == t.msgs[i]);
        }
    }
}

/// Text that comes in two pieces reads as if it had come in one.
pub proof fn text_in_pieces_reads_as_one(t: TranscriptView, a: Seq<char>, b: Seq<char>)
    requires
        transcript_ok(t),
    ensures
        applied(applied(t, EventView::Text(a)), EventView::Text(b)) == applied(
            t,
            EventView::Text(a + b),
        ),
{
    let x = applied(applied(t, EventView::Text(a)), EventView::Text(b));
    let y = applied(t, EventView::Text(a + b));
    match t.cur {
        Some(i) => {
            let s = t.msgs[i]->Agent_0;
            assert(s + a + b =~= s + (a + b));
            assert(x.msgs =~= y.msgs);
        },
        None => {
            assert(x.msgs =~= y.msgs);
        },
    }
}

fn copy_msg(m: &AgentMsg) -> (r: AgentMsg)
    ensures
        r@ == m@,
{
    match m {
        AgentMsg::User(t) => AgentMsg::User(t.clone()),
        AgentMsg::Agent(t) => AgentMsg::Agent(t.clone()),
        AgentMsg::Thought(t) => AgentMsg::Thought(t.clone()),
        AgentMsg::Tool { id, title, status } => AgentMsg::Tool {
            id: id.clone(),
            title: title.clone(),
            status: status.clone(),
        },
    }
}

impl Transcript {
    /// The growing entries are of the right kind.
    pub open spec fn wf(&self) -> bool {
        transcript_ok(self@)
    }

    /// An empty transcript.
    pub fn new() -> (r: Transcript)
        ensures
            r.wf(),
            r@ == (TranscriptView {
                msgs: Seq::empty(),
                cur: None,
                cur_thought: None,
                busy: false,
            }),
    {
        let r = Transcript { msgs: Vec::new(), cur: None, cur_thought: None, busy: false };
        assert(msg_views(r.msgs@) =~= Seq::<MsgView>::empty());
        r
    }

    /// Takes an event into the transcript.
    pub fn apply(&mut self, e: AgentEvent)
        requires
            old(self).wf(),
            old(self).msgs.len() < usize::MAX,
        ensures
            final(self).wf(),
            final(self)@ == applied(old(self)@, e@),
    {
        proof {
            events_keep_the_transcript_in_order(self@, e@);
        }
        let ghost v = msg_views(self.msgs@);
        match e {
            AgentEvent::Ready => {},
            AgentEvent::Text(t) => {
                self.cur_thought = None;
                match self.cur {
                    Some(i) => {
                        assert(v[i as int] == self.msgs@[i as int]@);
                        let grown = match &self.msgs[i] {
                            AgentMsg::Agent(s) => cat(s.as_str(), t.as_str()),
                            _ => t,
                        };
                        let m = AgentMsg::Agent(grown);
                        self.msgs.set(i, m);
                        assert(msg_views(self.msgs@) =~= v.update(i as int, m@));
                    },
                    None => {
                        let m = AgentMsg::Agent(t);
                        proof {
                            lemma_msg_push(self.msgs@, m);
                        }
                        self.msgs.push(m);
                        self.cur = Some(self.msgs.len() - 1);
                    },
                }
            },
            AgentEvent::Thought(t) => match self.cur_thought {
                Some(i) => {
                    assert(v[i as int] == self.msgs@[i as int]@);
                    let grown = match &self.msgs[i] {
                        AgentMsg::Thought(s) => cat(s.as_str(), t.as_str()),
                        _ => t,
                    };
                    let m = AgentMsg::Thought(grown);
                    self.msgs.set(i, m);
                    assert(msg_views(self.msgs@) =~= v.update(i as int, m@));
                },
                None => {
                    let m = AgentMsg::Thought(t);
                    proof {
                        lemma_msg_push(self.msgs@, m);
                    }
                    self.msgs.push(m);
                    self.cur_thought = Some(self.msgs.len() - 1);
                },
            },
            AgentEvent::Tool { id, title, status } => {
                self.cur = None;
                self.cur_thought = None;
                let m = AgentMsg::Tool { id, title, status };
                proof {
                    lemma_msg_push(self.msgs@, m);
                }
                self.msgs.push(m);
            },
            AgentEvent::ToolStatus { id, status } => {
                let ghost want = with_status(v, id@, status@);
                let mut i: usize = 0;
                while i < self.msgs.len()
                    invariant
                        i <= self.msgs.len(),
                        self.msgs.len() == v.len(),
                        self.cur == old(self).cur,
                        self.cur_thought == old(self).cur_thought,
                        self.busy == old(self).busy,
                        want == with_status(v, id@, status@),
                        forall|j: int| 0 <= j < i ==> (#[trigger] self.msgs@[j])@ == want[j],
                        forall|j: int| i <= j < v.len() ==> (#[trigger] self.msgs@[j])@ == v[j],
                    decreases self.msgs.len() - i,
                {
                    let m = copy_msg(&self.msgs[i]);
                    if let AgentMsg::Tool { id: x, title, status: s } = m {
                        if same(x.as_str(), id.as_str()) {
                            let n = AgentMsg::Tool { id: x, title, status: status.clone() };
                            assert(n@ == want[i as int]);
                            self.msgs.set(i, n);
                        }
                    }
                    i = i + 1;
                }
                assert(msg_views(self.msgs@) =~= want);
            },
            AgentEvent::TurnEnd => {
                self.busy = false;
                self.cur = None;
                self.cur_thought = None;
            },
            AgentEvent::Failed(s) => {
                self.busy = false;
                self.cur = None;
                self.cur_thought = None;
                let id = String::new();
                assert(id@ =~= Seq::<char>::empty());
                let m = AgentMsg::Tool { id, title: s, status: "failed".to_owned() };
                proof {
                    lemma_msg_push(self.msgs@, m);
                }
                self.msgs.push(m);
            },
        }
    }

    /// The user sends a prompt: it is an entry of its own, and the agent is at work.
    pub fn prompted(&mut self, text: String)
        requires
            old(self).wf(),
        ensures
            final(self).wf(),
            final(self)@ == (TranscriptView {
                msgs: old(self)@.msgs.push(MsgView::User(text@)),
                cur: None,
                cur_thought: None,
                busy: true,
            }),
    {
        let m = AgentMsg::User(text);
        proof {
            lemma_msg_push(self.msgs@, m);
        }
        self.msgs.push(m);
        self.cur = None;
        self.cur_thought = None;
        self.busy = true;
    }

    /// Notes that the agent could not be started.
    pub fn not_started(&mut self)
        requires
            old(self).wf(),
        ensures
            final(self).wf(),
            final(self)@ == (TranscriptView {
                msgs: old(self)@.msgs.push(
                    MsgView::Tool {
                        id: Seq::empty(),
                        title: "could not start agent — is `npx` (Node 22+) on PATH?"@,
                        status: "failed"@,
                    },
                ),
                ..old(self)@
            }),
    {
        let id = String::new();
        assert(id@ =~= Seq::<char>::empty());
        let m = AgentMsg::Tool {
            id,
            title: "could not start agent — is `npx` (Node 22+) on PATH?".to_owned(),
            status: "failed".to_owned(),
        };
        let ghost v = self@.msgs;
        proof {
            lemma_msg_push(self.msgs@, m);
        }
        self.msgs.push(m);
        proof {
            if self.cur is Some {
                assert(self@.msgs[self.cur->0 as int] == v[self.cur->0 as int]);
            }
            if self.cur_thought is Some {
                assert(self@.msgs[self.cur_thought->0 as int] == v[self.cur_thought->0 as int]);
            }
        }
    }
}

/// The sign and the colour of a tool's status.
pub fn tool_sign(status: &str) -> (r: (char, u32))
    ensures
        r == if status@ == "completed"@ {
            ('\u{eab2}', GIT_NEW)
        } else if status@ == "failed"@ || status@ == "cancelled"@ {
            ('✕', GIT_DELETED)
        } else {
            ('●', MUTED)
        },
{
    if same(status, "completed") {
        (Icon::Check.glyph(), GIT_NEW)
    } else if same(status, "failed") || same(status, "cancelled") {
        ('✕', GIT_DELETED)
    } else {
        ('●', MUTED)
    }
}

/// What a key does in the box of the agent.
#[derive(Debug)]
pub enum AgentKey {
    Close,
    Send(String),
    Edit,
    Nothing,
}

/// Escape closes the panel, enter sends what was typed, unless it is nothing.
pub fn agent_key(k: &Keystroke, typed: &str) -> (r: AgentKey)
    ensures
        if k@.key == "escape"@ {
            r is Close
        } else if k@.key == "enter"@ {
            match content_of(typed@) {
                Some(t) => r is Send && r->Send_0@ == t,
                None => r is Nothing,
            }
        } else {
            r is Edit
        },
{
    if k.is("escape") {
        AgentKey::Close
    } else if k.is("enter") {
        match trimmed_content(typed) {
            Some(t) => AgentKey::Send(t),
            None => AgentKey::Nothing,
        }
    } else {
        AgentKey::Edit
    }
}

/// What an empty transcript says, given whether the agent is still starting.
pub fn empty_hint(starting: bool) -> (r: &'static str)
    ensures
        r@ == if starting {
            "Starting agent…"@
        } else {
            "Ask the agent about this project. It can read and edit files in the working tree."@
        },
{
    if starting {
        "Starting agent…"
    } else {
        "Ask the agent about this project. It can read and edit files in the working tree."
    }
}

/// Text goes to the end of the agent's growing entry, or begins one; earlier entries stay. Reasoning
/// does the same with entries of its own, and text ends it.
pub proof fn text_goes_to_the_growing_entry(t: TranscriptView, s: Seq<char>, i: int)
    requires
        transcript_ok(t),
        0 <= i < t.msgs.len(),
    ensures
        ({
            let a = applied(t, EventView::Text(s));
            &&& t.cur is None ==> a.msgs == t.msgs.push(MsgView::Agent(s)) && a.cur == Some(t.msgs.len() as int)
            &&& t.cur is Some ==> a.msgs.len() == t.msgs.len() && a.msgs[t.cur->0] == MsgView::Agent(t.msgs[t.cur->0]->Agent_0 + s) && a.cur == t.cur
            &&& t.cur != Some(i) ==> a.msgs[i] == t.msgs[i]
            &&& a.cur_thought is None && a.busy == t.busy
        }),
        ({
            let a = applied(t, EventView::Thought(s));
            &&& t.cur_thought is None ==> a.msgs == t.msgs.push(MsgView::Thought(s)) && a.cur_thought == Some(t.msgs.len() as int)
            &&& t.cur_thought is Some ==> a.msgs.len() == t.msgs.len() && a.msgs[t.cur_thought->0] == MsgView::Thought(
                t.msgs[t.cur_thought->0]->Thought_0 + s,
            )
            &&& t.cur_thought != Some(i) ==> a.msgs[i] == t.msgs[i]
            &&& a.cur == t.cur && a.busy == t.busy
        }),
{
}

/// A tool has an entry of its own behind the others; its status is that of the last report of it, and
/// no other entry changes with it.
pub proof fn tools_have_their_latest_status(t: TranscriptView, id: Seq<char>, title: Seq<char>, a: Seq<char>, b: Seq<char>, i: int)
    requires
        0 <= i < t.msgs.len(),
    ensures
        ({
            let x = applied(t, EventView::Tool { id, title, status: a });
            let y = applied(x, EventView::ToolStatus { id, status: b });
            &&& x.msgs == t.msgs.push(MsgView::Tool { id, title, status: a }) && x.cur is None && x.cur_thought is None && x.busy == t.busy
            &&& y.msgs.len() == x.msgs.len() && y.msgs.last() == (MsgView::Tool { id, title, status: b })
            &&& !(t.msgs[i] is Tool) ==> y.msgs[i] == t.msgs[i]
            &&& t.msgs[i] is Tool && t.msgs[i]->id != id ==> y.msgs[i] == t.msgs[i]
        }),
{
}

/// The end of a turn, or a failure, leaves the agent idle and ends what was growing; a failure is
/// shown as such.
pub proof fn a_turn_ends(t: TranscriptView, s: Seq<char>)
    ensures
        ({
            let e = applied(t, EventView::TurnEnd);
            !e.busy && e.cur is None && e.cur_thought is None && e.msgs == t.msgs
        }),
        ({
            let f = applied(t, EventView::Failed(s));
            &&& !f.busy && f.cur is None && f.cur_thought is None
            &&& f.msgs.len() == t.msgs.len() + 1 && f.msgs.last() is Tool && f.msgs.last()->title == s && f.msgs.last()->status == "failed"@
        }),
        applied(t, EventView::Ready) == t,
{
}

} // verus!
