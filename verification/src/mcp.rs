//! The decisions of the MCP `chat` tool: which agent profile serves a
//! request, and how the agent's outcome is reported back.
use vstd::prelude::*;
use vstd::string::StringExecFns;

verus! {

/// Most model turns an agent may take to answer one request.
pub const MAX_TURNS: usize = 5;

/// The agent profiles that can serve a request.
#[derive(Clone, Copy, PartialEq, Eq, Structural)]
pub enum Profile {
    /// The specialist of the company's business domain.
    Alpha,
}

impl Profile {
    /// The profile serving a request for `name`: `alpha`, which is also the
    /// profile used for any name that is not known.
    pub fn from_name(name: &str) -> (p: Profile)
        ensures
            p == Profile::Alpha,
    {
        Profile::Alpha
    }
}

/// The reply of the `chat` tool: a text, marked as an error or not.
pub struct ChatReply {
    pub is_error: bool,
    pub text: String,
}

/// The text of the reply when the agent failed for the reason `cause`.
pub open spec fn failure_text(cause: Seq<char>) -> Seq<char> {
    "error generating a response: "@ + cause
}

impl ChatReply {
    /// The reply to the agent's outcome: its answer as a successful reply, or
    /// the description of its failure as an error reply.
    pub fn from_outcome(outcome: Result<String, String>) -> (r: ChatReply)
        ensures
            match outcome {
                Ok(answer) => !r.is_error && r.text@ == answer@,
                Err(cause) => r.is_error && r.text@ == failure_text(cause@),
            },
    {
        match outcome {
            Ok(answer) => ChatReply { is_error: false, text: answer },
            Err(cause) => {
                let mut text = "error generating a response: ".to_owned();
                text.append(cause.as_str());
                ChatReply { is_error: true, text }
            },
        }
    }
}

/// The conversations that have an agent, in the order they started. A
/// conversation keeps the agent it started with: the agent of the
/// conversation at position `i` is the `i`-th agent created.
pub struct Conversations {
    ids: Vec<String>,
}

impl Conversations {
    /// The ids of the conversations, in the order they started.
    pub closed spec fn spec_ids(&self) -> Seq<Seq<char>> {
        crate::rag::strings_view(self.ids@)
    }

    /// No conversation yet.
    pub fn new() -> (c: Conversations)
        ensures
            c.spec_ids() == Seq::<Seq<char>>::empty(),
    {
        let c = Conversations { ids: Vec::new() };
        assert(c.spec_ids() =~= Seq::<Seq<char>>::empty());
        c
    }

    /// The position of the agent serving conversation `id`, and whether a new
    /// agent has to be created for it: a known conversation reuses its agent;
    /// an unknown one is recorded last and gets a new agent.
    pub fn slot(&mut self, id: &String) -> (r: (usize, bool))
        ensures
            old(self).spec_ids().contains(id@) ==> {
                &&& !r.1
                &&& final(self).spec_ids() == old(self).spec_ids()
                &&& r.0 < old(self).spec_ids().len()
                &&& old(self).spec_ids()[r.0 as int] == id@
                &&& forall|j: int| 0 <= j < r.0 ==> old(self).spec_ids()[j] != id@
            },
            !old(self).spec_ids().contains(id@) ==> {
                &&& r.1
                &&& final(self).spec_ids() == old(self).spec_ids().push(id@)
                &&& r.0 == old(self).spec_ids().len()
            },
    {
        let mut i: usize = 0;
        while i < self.ids.len()
            invariant
                i <= self.ids@.len(),
                self.ids == old(self).ids,
                forall|j: int| 0 <= j < i ==> self.ids@[j]@ != id@,
            decreases self.ids.len() - i,
        {
            if self.ids[i] == *id {
                assert(self.spec_ids()[i as int] == id@);
                assert(self.spec_ids().contains(id@));
                return (i, false);
            }
            i = i + 1;
        }
        assert(!self.spec_ids().contains(id@)) by {
            if self.spec_ids().contains(id@) {
                let k = choose|k: int| 0 <= k < self.spec_ids().len() && self.spec_ids()[k] == id@;
                assert(self.ids@[k]@ == id@);
            }
        }
        let n = self.ids.len();
        let ghost before = self.ids@;
        self.ids.push(id.clone());
        assert(self.spec_ids() =~= crate::rag::strings_view(before).push(id@));
        (n, true)
    }
}

} // verus!
