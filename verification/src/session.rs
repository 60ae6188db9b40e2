//! Multi-turn conversation sessions.

use vstd::prelude::*;
use crate::api::models::{ChatCompletionRequest, ChatTemplateKwargs, Message, duplicate_messages};
use crate::metrics::models::MetricCounts;

verus! {

/// Multi-turn conversation session.
///
/// Holds the conversation across turns. Each turn is a user prompt and an
/// assistant response; the history grows as turns progress. For single-turn
/// mode, `num_turns = 1` and the session completes after one request.
pub struct MultiTurnSession {
    pub num_turns: usize,
    pub messages: Vec<Message>,
    pub turn_index: usize,
    pub model: String,
    pub max_tokens: u32,
    pub thinking: bool,
}

/// The message at position `i` of a well-kept history comes from the user
/// when `i` is even and from the assistant when `i` is odd.
pub open spec fn expected_role(i: int) -> Seq<char> {
    if i % 2 == 0 {
        "user"@
    } else {
        "assistant"@
    }
}

impl MultiTurnSession {
    /// The history alternates user and assistant messages, starting with the
    /// user, and holds one user prompt more than answers while turns remain.
    pub open spec fn history_ok(&self) -> bool {
        &&& forall|i: int|
            0 <= i < self.messages@.len() ==> #[trigger] self.messages@[i].role@ == expected_role(
                i,
            )
        &&& self.messages@.len() == if self.turn_index < self.num_turns || self.turn_index == 0 {
            2 * self.turn_index + 1
        } else {
            2 * self.turn_index
        }
        &&& self.turn_index <= self.num_turns || (self.num_turns == 0 && self.turn_index == 0)
    }

    /// All turns are done.
    pub open spec fn spec_is_complete(&self) -> bool {
        self.turn_index >= self.num_turns
    }

    /// Creates a session whose history holds the first user prompt.
    pub fn new(
        num_turns: usize,
        initial_prompt: String,
        model: String,
        max_tokens: u32,
        thinking: bool,
    ) -> (s: MultiTurnSession)
        ensures
            s.num_turns == num_turns,
            s.turn_index == 0,
            s.model == model,
            s.max_tokens == max_tokens,
            s.thinking == thinking,
            s.messages@.len() == 1,
            s.messages@[0].role@ == "user"@,
            s.messages@[0].content == initial_prompt,
            s.messages@[0].reasoning is None,
            s.history_ok(),
    {
        let mut messages: Vec<Message> = Vec::new();
        messages.push(Message { role: "user".to_owned(), content: initial_prompt, reasoning: None });
        MultiTurnSession { num_turns, messages, turn_index: 0, model, max_tokens, thinking }
    }

    /// All turns are done: `num_turns` assistant responses have been stored.
    pub fn is_complete(&self) -> (b: bool)
        ensures
            b == self.spec_is_complete(),
    {
        self.turn_index >= self.num_turns
    }

    /// Stores the assistant's response, with the reasoning that came with
    /// it, and advances to the next turn; when turns remain, the next user
    /// prompt comes from `next_prompt`, which is called then and only then.
    /// The reasoning is echoed back as `reasoning_content`, so a provider can
    /// reuse its prefix cache over it; an empty one is left out.
    pub fn store_response_and_advance<F: FnOnce() -> String>(
        &mut self,
        content: String,
        reasoning: String,
        next_prompt: F,
    )
        requires
            old(self).turn_index < usize::MAX,
            old(self).turn_index + 1 < old(self).num_turns ==> call_requires(next_prompt, ()),
        ensures
            stored_turn(*old(self), *final(self), content, reasoning),
            final(self).turn_index < final(self).num_turns ==> call_ensures(
                next_prompt,
                (),
                final(self).messages@[old(self).messages@.len() + 1int].content,
            ),
            old(self).history_ok() && old(self).turn_index < old(self).num_turns
                ==> final(self).history_ok(),
    {
        let kept = if reasoning.as_str().unicode_len() == 0 {
            None
        } else {
            Some(reasoning)
        };
        self.messages.push(Message { role: "assistant".to_owned(), content, reasoning: kept });
        self.turn_index = self.turn_index + 1;
        if !self.is_complete() {
            let prompt = next_prompt();
            self.messages.push(Message { role: "user".to_owned(), content: prompt, reasoning: None });
        }
        proof {
            assert(self.messages@.subrange(0, old(self).messages@.len() as int) =~= old(
                self,
            ).messages@);
            if old(self).history_ok() && old(self).turn_index < old(self).num_turns {
                lemma_store_step_keeps_history(*old(self), *self);
            }
        }
    }

    /// Ends one turn: a failed request leaves the session and the counts as
    /// they are and ends the session's run; a finished one sets the turn's
    /// total to its input plus output tokens, stores the response and its
    /// reasoning and advances. Returns whether another turn is to be sent.
    pub fn finish_turn<F: FnOnce() -> String>(
        &mut self,
        counts: &mut MetricCounts,
        failed: bool,
        content: String,
        reasoning: String,
        next_prompt: F,
    ) -> (more: bool)
        requires
            !failed ==> {
                &&& old(counts).number_input_tokens + old(counts).number_output_tokens <= u32::MAX
                &&& old(self).turn_index < usize::MAX
                &&& old(self).turn_index + 1 < old(self).num_turns ==> call_requires(
                    next_prompt,
                    (),
                )
            },
        ensures
            failed ==> !more && *final(self) == *old(self) && *final(counts) == *old(counts),
            !failed ==> {
                &&& *final(counts) == (MetricCounts {
                    number_total_tokens: (old(counts).number_input_tokens
                        + old(counts).number_output_tokens) as u32,
                    ..*old(counts)
                })
                &&& stored_turn(*old(self), *final(self), content, reasoning)
                &&& final(self).turn_index < final(self).num_turns ==> call_ensures(
                    next_prompt,
                    (),
                    final(self).messages@[old(self).messages@.len() + 1int].content,
                )
                &&& more == !final(self).spec_is_complete()
            },
            old(self).history_ok() && old(self).turn_index < old(self).num_turns
                ==> final(self).history_ok(),
    {
        if failed {
            return false;
        }
        counts.recompute_total();
        self.store_response_and_advance(content, reasoning, next_prompt);
        !self.is_complete()
    }

    /// Builds the request for the current turn from the whole history; the
    /// request is streamed.
    pub fn build_request(&self) -> (r: ChatCompletionRequest)
        ensures
            r.model@ == self.model@,
            r.messages@ == self.messages@,
            r.max_tokens == self.max_tokens,
            r.stream,
            r.stream_options.include_usage,
            r.chat_template_kwargs == if self.thinking {
                None
            } else {
                Some(ChatTemplateKwargs { enable_thinking: false, thinking: false })
            },
    {
        ChatCompletionRequest::from_messages(
            self.model.as_str(),
            duplicate_messages(&self.messages),
            self.max_tokens,
            true,
            self.thinking,
        )
    }

    /// The current turn number, counted from 1.
    pub fn current_turn(&self) -> (n: usize)
        requires
            self.turn_index < usize::MAX,
        ensures
            n == self.turn_index + 1,
    {
        self.turn_index + 1
    }
}

/// One stored turn: the turn index grows by one, the settings stay, and the
/// history gains the assistant's message, then the next user prompt while
/// turns remain.
pub open spec fn is_store_step(a: MultiTurnSession, b: MultiTurnSession) -> bool {
    let n = a.messages@.len();
    &&& b.turn_index == a.turn_index + 1
    &&& b.num_turns == a.num_turns
    &&& b.model == a.model
    &&& b.max_tokens == a.max_tokens
    &&& b.thinking == a.thinking
    &&& b.messages@.len() == n + if b.turn_index < b.num_turns {
        2int
    } else {
        1int
    }
    &&& b.messages@.subrange(0, n as int) == a.messages@
    &&& b.messages@[n as int].role@ == "assistant"@
    &&& b.turn_index < b.num_turns ==> {
        &&& b.messages@[n + 1int].role@ == "user"@
        &&& b.messages@[n + 1int].reasoning is None
    }
}

/// A stored turn whose assistant message holds `content` and, when it is not
/// empty, `reasoning`.
pub open spec fn stored_turn(
    a: MultiTurnSession,
    b: MultiTurnSession,
    content: String,
    reasoning: String,
) -> bool {
    let m = b.messages@[a.messages@.len() as int];
    &&& is_store_step(a, b)
    &&& m.content == content
    &&& m.reasoning == if reasoning@.len() == 0 {
        None::<String>
    } else {
        Some(reasoning)
    }
}

proof fn lemma_store_step_keeps_history(a: MultiTurnSession, b: MultiTurnSession)
    requires
        a.history_ok(),
        a.turn_index < a.num_turns,
        is_store_step(a, b),
    ensures
        b.history_ok(),
{
    let n = a.messages@.len() as int;
    assert(n == 2 * a.turn_index + 1);
    assert forall|i: int| 0 <= i < b.messages@.len() implies #[trigger] b.messages@[i].role@
        == expected_role(i) by {
        if i < n {
            assert(b.messages@.subrange(0, n)[i] == a.messages@[i]);
        } else if i == n {
            assert(n % 2 == 1);
        } else {
            assert(i % 2 == 0);
        }
    }
}

/// A session run turn by turn from its creation, each turn stored while the
/// session is not complete: after `k` stored responses its turn index is `k`,
/// it is complete exactly when `k` reaches the number of turns, its history
/// alternates user and assistant, and once complete it holds two messages
/// per turn, the last from the assistant.
pub proof fn lemma_session_run(states: Seq<MultiTurnSession>)
    requires
        states.len() > 0,
        states[0].turn_index == 0,
        states[0].messages@.len() == 1,
        states[0].messages@[0].role@ == "user"@,
        forall|i: int|
            0 <= i < states.len() - 1 ==> !(#[trigger] states[i]).spec_is_complete()
                && is_store_step(states[i], states[i + 1]),
    ensures
        forall|i: int|
            0 <= i < states.len() ==> {
                &&& (#[trigger] states[i]).turn_index == i
                &&& states[i].num_turns == states[0].num_turns
                &&& states[i].spec_is_complete() <==> i >= states[0].num_turns
                &&& states[i].history_ok()
            },
        states.last().spec_is_complete() && states[0].num_turns > 0 ==> {
            &&& states.last().messages@.len() == 2 * states[0].num_turns
            &&& states.last().messages@.last().role@ == "assistant"@
        },
    decreases states.len(),
{
    if states.len() == 1 {
        assert(states[0].history_ok()) by {
            assert forall|i: int| 0 <= i < states[0].messages@.len() implies #[trigger] states[0].messages@[
                i
            ].role@ == expected_role(i) by {
                assert(i == 0);
            }
        }
    } else {
        let init = states.drop_last();
        assert forall|i: int| 0 <= i < init.len() - 1 implies !(#[trigger] init[i]).spec_is_complete()
            && is_store_step(init[i], init[i + 1]) by {
            assert(init[i] == states[i]);
            assert(init[i + 1] == states[i + 1]);
        }
        lemma_session_run(init);
        let k = states.len() - 1;
        let prev = states[k - 1];
        assert(prev == init[k - 1]);
        assert(!prev.spec_is_complete() && is_store_step(prev, states[k]));
        lemma_store_step_keeps_history(prev, states[k]);
        assert forall|i: int| 0 <= i < states.len() implies {
            &&& (#[trigger] states[i]).turn_index == i
            &&& states[i].num_turns == states[0].num_turns
            &&& states[i].spec_is_complete() <==> i >= states[0].num_turns
            &&& states[i].history_ok()
        } by {
            if i < k {
                assert(states[i] == init[i]);
            }
        }
        let last = states.last();
        if last.spec_is_complete() && states[0].num_turns > 0 {
            let len = last.messages@.len() as int;
            assert(len == 2 * last.turn_index);
            assert(last.messages@[len - 1].role@ == expected_role(len - 1));
            assert((len - 1) % 2 == 1);
        }
    }
}

} // verus!
