//! The course of one agent run: the conversation, and what comes next in it.

use vstd::prelude::*;

use crate::agent::{
    build_user_context, user_context, AgentReply, RunArgs, ToolCall, ToolResultPayload, MAX_STEPS,
};
use crate::text::{blank, is_blank, opt_chars, unless_blank, unless_blank_chars};

verus! {

/// The result of a tool call, as the model is told it.
pub struct ToolResponse {
    pub name: String,
    pub id: String,
    pub status: String,
    pub output: String,
}

/// One turn of the conversation.
pub enum Turn {
    /// What the user brings.
    User(String),
    /// The tool calls that the model asked for.
    Calls(Vec<ToolCall>),
    /// The results of those calls.
    Responses(Vec<ToolResponse>),
}

/// Whether a result answers a call.
pub open spec fn answers(response: ToolResponse, call: ToolCall) -> bool {
    response.name == call.name && response.id == call.id
}

/// Whether `turns[i]` answers the calls of the turn before it: each call, in order.
pub open spec fn answered_at(turns: Seq<Turn>, i: int) -> bool {
    &&& turns[i - 1] is Calls
    &&& turns[i] is Responses
    &&& turns[i]->Responses_0@.len() == turns[i - 1]->Calls_0@.len()
    &&& forall|k: int|
        0 <= k < turns[i]->Responses_0@.len() ==> answers(
            #[trigger] turns[i]->Responses_0@[k],
            turns[i - 1]->Calls_0@[k],
        )
}

/// The number of results that a conversation holds.
pub open spec fn results_in(turns: Seq<Turn>) -> nat
    decreases turns.len(),
{
    if turns.len() == 0 {
        0
    } else {
        results_in(turns.drop_last()) + match turns.last() {
            Turn::Responses(all) => all@.len(),
            _ => 0,
        }
    }
}

/// A run between two tool calls: how many calls were worked off, the
/// conversation, and the results so far of the calls that stand last in it.
pub struct AgentRun {
    pub calls_made: usize,
    pub turns: Vec<Turn>,
    pub done: Vec<ToolResponse>,
}

/// What the run does with a reply of the model.
pub enum ReplyAction {
    /// Report an error and end.
    Fail(String),
    /// Report an answer and end.
    Answer(String),
    /// End.
    End,
    /// Report the prose that came with the calls, where there is any, and work
    /// off the calls.
    Work { prose: Option<String> },
}

impl AgentRun {
    /// Whether calls of the model are being worked off.
    pub open spec fn busy(self) -> bool {
        self.turns@.len() > 0 && self.turns@.last() is Calls
    }

    /// The calls that are being worked off.
    pub open spec fn calls(self) -> Seq<ToolCall> {
        self.turns@.last()->Calls_0@
    }

    /// What holds at every point of a run: the conversation opens with the
    /// user; after that calls and their results alternate, every call being
    /// answered in order under its own name and id; while calls are worked
    /// off, the results so far answer the first of them and at least one is
    /// open; and no more calls were worked off than allowed.
    pub open spec fn wf(self) -> bool {
        let n = self.turns@.len();
        &&& n > 0
        &&& self.turns@[0] is User
        &&& self.busy() == (n % 2 == 0)
        &&& forall|i: int| 0 < i < n && i % 2 == 0 ==> #[trigger] answered_at(self.turns@, i)
        &&& forall|i: int| 0 < i < n && i % 2 == 1 ==> (#[trigger] self.turns@[i]) is Calls
        &&& self.calls_made == results_in(self.turns@) + self.done@.len()
        &&& self.calls_made <= MAX_STEPS
        &&& n <= 2 * results_in(self.turns@) + 2
        &&& !self.busy() ==> n <= 2 * results_in(self.turns@) + 1
        &&& if self.busy() {
            &&& self.done@.len() < self.calls().len()
            &&& forall|k: int|
                0 <= k < self.done@.len() ==> answers(#[trigger] self.done@[k], self.calls()[k])
        } else {
            self.done@.len() == 0
        }
    }

    /// Open a run with what the user brings.
    pub fn start(args: &RunArgs) -> (r: AgentRun)
        ensures
            r.wf(),
            !r.busy(),
            r.calls_made == 0,
            r.turns@.len() == 1,
            r.turns@[0] matches Turn::User(s) && s@ == user_context(
                args.transcript@,
                args.notes@,
                args.ask@,
            ),
    {
        let opening: String = build_user_context(
            args.transcript.as_str(),
            args.notes.as_str(),
            args.ask.as_str(),
        );
        let mut turns: Vec<Turn> = Vec::new();
        turns.push(Turn::User(opening));
        proof {
            assert(turns@.drop_last() =~= Seq::empty());
            assert(results_in(turns@.drop_last()) == 0);
        }
        AgentRun { calls_made: 0, turns, done: Vec::new() }
    }

    /// Whether the model is asked once more: not after a stop, and not once
    /// `MAX_STEPS` calls were worked off.
    pub fn ask_model(&self, stopped: bool) -> (r: bool)
        requires
            self.wf(),
        ensures
            r == (!stopped && self.calls_made < MAX_STEPS),
            r <==> !stopped && self.calls_made < 8,
    {
        !stopped && self.calls_made < MAX_STEPS
    }

    /// Take in the model's reply. Its prose is reported, where that is not
    /// blank. Calls become a turn of the conversation and are worked off; a
    /// reply without calls ends the run, and so does an error.
    pub fn take_reply(&mut self, reply: Result<AgentReply, String>) -> (r: ReplyAction)
        requires
            old(self).wf(),
            !old(self).busy(),
        ensures
            final(self).wf(),
            final(self).calls_made == old(self).calls_made,
            match reply {
                Err(e) => r == ReplyAction::Fail(e) && *final(self) == *old(self),
                Ok(reply) => if reply.calls@.len() == 0 {
                    &&& *final(self) == *old(self)
                    &&& r == (if is_blank(reply.text@) {
                        ReplyAction::End
                    } else {
                        ReplyAction::Answer(reply.text)
                    })
                } else {
                    &&& r is Work
                    &&& opt_chars(r->prose) == unless_blank_chars(Some(reply.text@))
                    &&& final(self).busy()
                    &&& final(self).turns@ == old(self).turns@.push(Turn::Calls(reply.calls))
                    &&& final(self).done@.len() == 0
                },
            },
    {
        match reply {
            Err(e) => ReplyAction::Fail(e),
            Ok(reply) => {
                if reply.calls.len() == 0 {
                    if blank(reply.text.as_str()) {
                        return ReplyAction::End;
                    }
                    return ReplyAction::Answer(reply.text);
                }
                let ghost before = self.turns@;
                self.turns.push(Turn::Calls(reply.calls));
                proof {
                    assert(self.turns@.drop_last() =~= before);
                    assert forall|i: int|
                        0 < i < self.turns@.len() && i % 2
                            == 0 implies #[trigger] answered_at(self.turns@, i) by {
                        assert(answered_at(before, i));
                        assert(self.turns@[i] == before[i] && self.turns@[i - 1] == before[i - 1]);
                    }
                }
                ReplyAction::Work { prose: unless_blank(Some(reply.text)) }
            },
        }
    }

    /// The call to work off next, while there is one and another call is
    /// allowed.
    pub fn current(&self) -> (r: Option<&ToolCall>)
        requires
            self.wf(),
        ensures
            match r {
                Some(call) => {
                    &&& self.busy() && self.calls_made < MAX_STEPS
                    &&& *call == self.calls()[self.done@.len() as int]
                },
                None => !self.busy() || self.calls_made == MAX_STEPS,
            },
            r is Some <==> self.busy() && self.calls_made < 8,
    {
        if self.calls_made >= MAX_STEPS {
            return None;
        }
        let n: usize = self.turns.len();
        match &self.turns[n - 1] {
            Turn::Calls(calls) => Some(&calls[self.done.len()]),
            _ => None,
        }
    }

    /// Record how the current call ended. With the last call of the turn, the
    /// results become a turn of the conversation, and the model is to be
    /// asked next.
    pub fn respond(&mut self, status: String, output: String) -> (r: ToolResultPayload)
        requires
            old(self).wf(),
            old(self).busy(),
            old(self).calls_made < MAX_STEPS,
        ensures
            final(self).wf(),
            final(self).calls_made == old(self).calls_made + 1,
            ({
                let calls = old(self).calls();
                let k = old(self).done@.len() as int;
                let response = ToolResponse {
                    name: calls[k].name,
                    id: calls[k].id,
                    status,
                    output,
                };
                let so_far = old(self).done@.push(response);
                &&& r == (ToolResultPayload { call_id: calls[k].id, status, output })
                &&& if k + 1 == calls.len() {
                    &&& !final(self).busy()
                    &&& final(self).turns@.len() == old(self).turns@.len() + 1
                    &&& final(self).turns@.drop_last() == old(self).turns@
                    &&& final(self).turns@.last() matches Turn::Responses(all) && all@ == so_far
                } else {
                    &&& final(self).turns == old(self).turns
                    &&& final(self).done@ == so_far
                }
            }),
    {
        let n: usize = self.turns.len();
        let k: usize = self.done.len();
        let ghost calls = self.calls();
        let ghost before = self.turns@;
        let (name, id, total): (String, String, usize) = match &self.turns[n - 1] {
            Turn::Calls(list) => (list[k].name.clone(), list[k].id.clone(), list.len()),
            _ => (String::new(), String::new(), 0),
        };
        let payload: ToolResultPayload = ToolResultPayload {
            call_id: id.clone(),
            status: status.clone(),
            output: output.clone(),
        };
        self.done.push(ToolResponse { name, id, status, output });
        self.calls_made = self.calls_made + 1;
        if k + 1 == total {
            let mut all: Vec<ToolResponse> = Vec::new();
            std::mem::swap(&mut all, &mut self.done);
            self.turns.push(Turn::Responses(all));
            proof {
                assert(self.turns@.drop_last() =~= before);
                assert forall|i: int| 0 < i < self.turns@.len() && i % 2 == 0 implies #[trigger]
                    answered_at(self.turns@, i) by {
                    if i < n {
                        assert(answered_at(before, i));
                        assert(self.turns@[i] == before[i] && self.turns@[i - 1] == before[i - 1]);
                    }
                }
            }
        }
        payload
    }
}

/// When a run is not working off calls, every call that the conversation
/// holds has its result in the next turn, under the call's own name and id,
/// and in the order of the calls.
pub proof fn law_every_call_is_answered(run: AgentRun, i: int, k: int)
    requires
        run.wf(),
        !run.busy(),
        0 <= i < run.turns@.len(),
        run.turns@[i] is Calls,
        0 <= k < run.turns@[i]->Calls_0@.len(),
    ensures
        i + 1 < run.turns@.len(),
        run.turns@[i + 1] matches Turn::Responses(all) && {
            &&& all@.len() == run.turns@[i]->Calls_0@.len()
            &&& all@[k].name == run.turns@[i]->Calls_0@[k].name
            &&& all@[k].id == run.turns@[i]->Calls_0@[k].id
        },
{
    let n = run.turns@.len();
    assert(i != 0);
    if i % 2 == 0 {
        assert(answered_at(run.turns@, i));
    } else {
        assert(i + 1 < n);
        assert(answered_at(run.turns@, i + 1));
        assert(answers(run.turns@[i + 1]->Responses_0@[k], run.turns@[i]->Calls_0@[k]));
    }
}

/// A run works off at most `MAX_STEPS` tool calls, and its conversation is
/// bounded with them.
pub proof fn law_a_run_is_bounded(run: AgentRun)
    requires
        run.wf(),
    ensures
        results_in(run.turns@) + run.done@.len() <= MAX_STEPS,
        run.turns@.len() <= 2 * MAX_STEPS + 2,
{
}

/// Results are counted where they stand in the conversation, and nothing else
/// is; eight calls are worked off, at most.
pub proof fn law_results_are_counted(
    turns: Seq<Turn>,
    all: Vec<ToolResponse>,
    calls: Vec<ToolCall>,
    text: String,
    run: AgentRun,
)
    requires
        run.wf(),
    ensures
        results_in(Seq::empty()) == 0,
        results_in(turns.push(Turn::Responses(all))) == results_in(turns) + all@.len(),
        results_in(turns.push(Turn::Calls(calls))) == results_in(turns),
        results_in(turns.push(Turn::User(text))) == results_in(turns),
        results_in(run.turns@) + run.done@.len() <= 8,
{
    assert(turns.push(Turn::Responses(all)).drop_last() =~= turns);
    assert(turns.push(Turn::Calls(calls)).drop_last() =~= turns);
    assert(turns.push(Turn::User(text)).drop_last() =~= turns);
}

} // verus!
