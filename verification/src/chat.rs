//! Chat context manager: one conversation's bounded message history, the
//! local command interpreter, prompt construction, and how each turn changes
//! the history. The backend round trip itself is performed by the caller;
//! this module decides what to send and records what came back.

use vstd::prelude::*;

use crate::llm::{msgs_view, Message, Role};
use crate::summary::UserSummary;
use crate::transcript::history_view;
use crate::text::{
    cmd_arg, cmd_token, dec_str, lemma_find_char_is, lower_seq, trim_spec,
};
use crate::Config;

verus! {

/// Hard cap on the retained history.
pub const HISTORY_CAP: usize = 40;

/// Role strings read back from a transcript, normalized to the closed set;
/// unknown roles are dropped.
pub open spec fn normalize_role_spec(role: Seq<char>) -> Option<Role> {
    if role == "user"@ {
        Option::Some(Role::User)
    } else if role == "assistant"@ || role == "ai"@ {
        Option::Some(Role::Assistant)
    } else {
        Option::None
    }
}

/// History reloaded from a transcript: roles normalized, unknown roles dropped.
pub open spec fn normalize_history(h: Seq<(Seq<char>, Seq<char>)>) -> Seq<(Role, Seq<char>)>
    decreases h.len(),
{
    if h.len() == 0 {
        Seq::empty()
    } else {
        let rest = normalize_history(h.drop_first());
        match normalize_role_spec(h.first().0) {
            Option::Some(role) => seq![(role, h.first().1)] + rest,
            Option::None => rest,
        }
    }
}

/// The personalized system prompt: the base prompt, a name instruction when a
/// name is stored, and the running session count when past the first session.
pub open spec fn system_prompt_spec(
    base: Seq<char>,
    name: Option<Seq<char>>,
    sessions: u32,
) -> Seq<char> {
    (match name {
        Option::Some(nm) => base + "\n\nThe user's name is "@ + nm
            + ". Address them by name occasionally."@,
        Option::None => base,
    }) + (if sessions > 1 {
        "\nThis is session #"@ + dec_str(sessions as nat) + " with this user."@
    } else {
        Seq::<char>::empty()
    })
}

/// The outbound prompt: system message, then the history oldest..newest, then
/// the new user message.
pub open spec fn prompt_spec(
    base: Seq<char>,
    name: Option<Seq<char>>,
    sessions: u32,
    history: Seq<(Role, Seq<char>)>,
    input: Seq<char>,
) -> Seq<(Role, Seq<char>)> {
    seq![(Role::System, system_prompt_spec(base, name, sessions))] + history
        + seq![(Role::User, input)]
}

/// History after the user's message is appended.
pub open spec fn after_user_turn(h: Seq<(Role, Seq<char>)>, input: Seq<char>) -> Seq<
    (Role, Seq<char>),
> {
    h.push((Role::User, input))
}

/// FIFO eviction down to the history cap.
pub open spec fn evict(h: Seq<(Role, Seq<char>)>) -> Seq<(Role, Seq<char>)> {
    if h.len() > HISTORY_CAP {
        h.skip(h.len() - HISTORY_CAP)
    } else {
        h
    }
}

/// History after the assistant's reply is appended and the cap enforced.
pub open spec fn after_assistant_reply(h: Seq<(Role, Seq<char>)>, reply: Seq<char>) -> Seq<
    (Role, Seq<char>),
> {
    evict(h.push((Role::Assistant, reply)))
}

/// The fixed reply of the help command.
pub open spec fn help_text_spec() -> Seq<char> {
    "Commands:\n  /set-name <name> - Set your name\n  /clear - Clear history\n  /help - Show this\n  /quit - Exit"@
}

/// What the caller must do next after a line of input was interpreted.
#[derive(Debug)]
pub enum InputAction {
    /// Send this reply to the user; no backend call.
    Reply(String),
    /// The name was stored in memory; persist it, then send the reply.
    PersistName { name: String, reply: String },
    /// Close this connection after a goodbye.
    Quit,
    /// Log the user turn, send this prompt to the backend, and hand the reply
    /// to `record_reply` on success.
    CallBackend { prompt: Vec<Message> },
}

/// Effect of the local command interpreter on one command line `t`.
pub open spec fn command_outcome(
    pre_msgs: Seq<(Role, Seq<char>)>,
    pre_sum: (Option<Seq<char>>, u32),
    t: Seq<char>,
    post_msgs: Seq<(Role, Seq<char>)>,
    post_sum: (Option<Seq<char>>, u32),
    act: InputAction,
) -> bool {
    let tok = lower_seq(cmd_token(t));
    let arg = cmd_arg(t);
    if tok == lower_seq("/set-name"@) {
        if arg.len() == 0 {
            post_msgs == pre_msgs && post_sum == pre_sum && (act matches InputAction::Reply(r)
                && r@ == "Usage: /set-name <your name>"@)
        } else {
            post_msgs == pre_msgs && post_sum == (Option::Some(arg), pre_sum.1) && (act matches
            InputAction::PersistName { name, reply } && name@ == arg && reply@
                == "Nice to meet you, "@ + arg + "!"@)
        }
    } else if tok == lower_seq("/clear"@) {
        post_msgs == Seq::<(Role, Seq<char>)>::empty() && post_sum == pre_sum && (act matches
        InputAction::Reply(r) && r@ == "Chat history cleared."@)
    } else if tok == lower_seq("/help"@) {
        post_msgs == pre_msgs && post_sum == pre_sum && (act matches InputAction::Reply(r) && r@
            == help_text_spec())
    } else if tok == lower_seq("/quit"@) || tok == lower_seq("/exit"@) {
        post_msgs == pre_msgs && post_sum == pre_sum && act == InputAction::Quit
    } else {
        post_msgs == pre_msgs && post_sum == pre_sum && (act matches InputAction::Reply(r) && r@
            == "Unknown command. Type /help for available commands."@)
    }
}

/// One conversation's state: base prompt, bounded history, personalization.
pub struct ChatSession {
    pub system_prompt_base: String,
    pub messages: Vec<Message>,
    pub user_summary: UserSummary,
}

impl ChatSession {
    /// Starts a session from the stored summary and the (role, content) pairs
    /// reloaded from today's transcript.
    pub fn new(config: &Config, user_summary: UserSummary, history: Vec<(String, String)>) -> (s:
        Self)
        ensures
            s.system_prompt_base@ == config.system_prompt@,
            s.user_summary@ == user_summary@,
            msgs_view(s.messages@) == normalize_history(history_view(history@)),
    {
        let mut messages: Vec<Message> = Vec::new();
        let n = history.len();
        let mut i: usize = 0;
        proof {
            assert(history@.skip(0) =~= history@);
            assert(msgs_view(messages@) =~= Seq::<(Role, Seq<char>)>::empty());
        }
        while i < n
            invariant
                0 <= i <= n,
                n == history@.len(),
                normalize_history(history_view(history@)) == msgs_view(messages@)
                    + normalize_history(history_view(history@.skip(i as int))),
            decreases n - i,
        {
            let ghost pre = msgs_view(messages@);
            let ghost rem = history_view(history@.skip(i as int));
            let role = &history[i].0;
            let content = &history[i].1;
            if crate::text::str_eq(role.as_str(), "user") {
                messages.push(Message { role: Role::User, content: content.clone() });
            } else if crate::text::str_eq(role.as_str(), "assistant") || crate::text::str_eq(
                role.as_str(),
                "ai",
            ) {
                messages.push(Message { role: Role::Assistant, content: content.clone() });
            }
            proof {
                assert(rem.first() == (history@[i as int].0@, history@[i as int].1@));
                assert(rem.drop_first() =~= history_view(history@.skip(i + 1)));
                match normalize_role_spec(rem.first().0) {
                    Option::Some(role) => {
                        assert(msgs_view(messages@) =~= pre + seq![(role, rem.first().1)]);
                        assert(pre + (seq![(role, rem.first().1)] + normalize_history(
                            rem.drop_first(),
                        )) =~= (pre + seq![(role, rem.first().1)]) + normalize_history(
                            rem.drop_first(),
                        ));
                    }
                    Option::None => {
                        assert(msgs_view(messages@) =~= pre);
                    }
                }
            }
            i = i + 1;
        }
        proof {
            assert(history_view(history@.skip(n as int)) =~= Seq::<(Seq<char>, Seq<char>)>::empty());
            assert(msgs_view(messages@) + Seq::<(Role, Seq<char>)>::empty() =~= msgs_view(
                messages@,
            ));
        }
        ChatSession {
            system_prompt_base: config.system_prompt.clone(),
            messages,
            user_summary,
        }
    }

    /// The personalized system prompt, computed fresh on every call.
    pub fn system_prompt(&self) -> (r: String)
        ensures
            r@ == system_prompt_spec(
                self.system_prompt_base@,
                self.user_summary@.0,
                self.user_summary@.1,
            ),
    {
        let mut prompt = self.system_prompt_base.clone();
        match &self.user_summary.name {
            Some(nm) => {
                prompt.append("\n\nThe user's name is ");
                prompt.append(nm.as_str());
                prompt.append(". Address them by name occasionally.");
            }
            None => {},
        }
        if self.user_summary.total_sessions > 1 {
            prompt.append("\nThis is session #");
            let ds = crate::text::u32_to_string(self.user_summary.total_sessions);
            prompt.append(ds.as_str());
            prompt.append(" with this user.");
        }
        proof {
            assert(prompt@ =~= system_prompt_spec(
                self.system_prompt_base@,
                self.user_summary@.0,
                self.user_summary@.1,
            ));
        }
        prompt
    }

    /// Builds the outbound prompt for one user message.
    pub fn build_messages(&self, user_input: &str) -> (r: Vec<Message>)
        ensures
            msgs_view(r@) == prompt_spec(
                self.system_prompt_base@,
                self.user_summary@.0,
                self.user_summary@.1,
                msgs_view(self.messages@),
                user_input@,
            ),
    {
        let mut msgs: Vec<Message> = Vec::new();
        msgs.push(Message { role: Role::System, content: self.system_prompt() });
        let n = self.messages.len();
        let mut i: usize = 0;
        while i < n
            invariant
                0 <= i <= n,
                n == self.messages@.len(),
                msgs_view(msgs@) =~= seq![
                    (
                        Role::System,
                        system_prompt_spec(
                            self.system_prompt_base@,
                            self.user_summary@.0,
                            self.user_summary@.1,
                        ),
                    ),
                ] + msgs_view(self.messages@.take(i as int)),
            decreases n - i,
        {
            let ghost pre = msgs@;
            let m = &self.messages[i];
            msgs.push(Message { role: m.role, content: m.content.clone() });
            proof {
                assert(msgs_view(msgs@) =~= msgs_view(pre).push(self.messages@[i as int]@));
                assert(msgs_view(msgs@) =~= seq![
                    (
                        Role::System,
                        system_prompt_spec(
                            self.system_prompt_base@,
                            self.user_summary@.0,
                            self.user_summary@.1,
                        ),
                    ),
                ] + msgs_view(self.messages@.take(i + 1)));
            }
            i = i + 1;
        }
        msgs.push(Message { role: Role::User, content: user_input.to_owned() });
        proof {
            assert(self.messages@.take(n as int) =~= self.messages@);
            assert(msgs_view(msgs@) =~= prompt_spec(
                self.system_prompt_base@,
                self.user_summary@.0,
                self.user_summary@.1,
                msgs_view(self.messages@),
                user_input@,
            ));
        }
        msgs
    }

    /// Interprets one command line (the first whitespace-delimited token,
    /// case-insensitively) and applies its effect.
    pub fn handle_command(&mut self, line: &str) -> (act: InputAction)
        ensures
            final(self).system_prompt_base == old(self).system_prompt_base,
            command_outcome(
                msgs_view(old(self).messages@),
                old(self).user_summary@,
                line@,
                msgs_view(final(self).messages@),
                final(self).user_summary@,
                act,
            ),
    {
        let n = line.unicode_len();
        let (tok_end, has_arg): (usize, bool) = match crate::text::find_char_at(line, 0, ' ') {
            Some(i) => (i, true),
            None => (n, false),
        };
        proof {
            lemma_find_char_is(line@, ' ', tok_end as int);
        }
        let token = line.substring_char(0, tok_end);
        let arg: String = if has_arg {
            crate::text::trim_str(line.substring_char(tok_end + 1, n))
        } else {
            String::new()
        };
        proof {
            assert(token@ =~= cmd_token(line@));
            if has_arg {
                assert(line@.skip(tok_end as int + 1) =~= line@.subrange(
                    tok_end as int + 1,
                    n as int,
                ));
            }
            assert(arg@ == cmd_arg(line@));
        }
        if crate::text::eq_ignore_case(token, "/set-name") {
            if arg.unicode_len() == 0 {
                InputAction::Reply(String::from_str("Usage: /set-name <your name>"))
            } else {
                self.user_summary.name = Some(arg.clone());
                let mut reply = String::from_str("Nice to meet you, ");
                reply.append(arg.as_str());
                reply.append("!");
                InputAction::PersistName { name: arg, reply }
            }
        } else if crate::text::eq_ignore_case(token, "/clear") {
            self.messages.clear();
            proof {
                assert(msgs_view(Seq::<Message>::empty()) =~= Seq::<(Role, Seq<char>)>::empty());
            }
            InputAction::Reply(String::from_str("Chat history cleared."))
        } else if crate::text::eq_ignore_case(token, "/help") {
            InputAction::Reply(
                String::from_str(
                    "Commands:\n  /set-name <name> - Set your name\n  /clear - Clear history\n  /help - Show this\n  /quit - Exit",
                ),
            )
        } else if crate::text::eq_ignore_case(token, "/quit") || crate::text::eq_ignore_case(
            token,
            "/exit",
        ) {
            InputAction::Quit
        } else {
            InputAction::Reply(String::from_str("Unknown command. Type /help for available commands."))
        }
    }

    /// Processes one raw input line: empty input replies with nothing,
    /// command input is interpreted locally, anything else becomes a user
    /// turn whose prompt the caller must send to the backend.
    pub fn process_input(&mut self, input: &str) -> (act: InputAction)
        ensures
            final(self).system_prompt_base == old(self).system_prompt_base,
            ({
                let t = trim_spec(input@);
                if t.len() == 0 {
                    msgs_view(final(self).messages@) == msgs_view(old(self).messages@)
                        && final(self).user_summary@ == old(self).user_summary@
                        && (act matches InputAction::Reply(r) && r@ == Seq::<char>::empty())
                } else if t[0] == '/' {
                    command_outcome(
                        msgs_view(old(self).messages@),
                        old(self).user_summary@,
                        t,
                        msgs_view(final(self).messages@),
                        final(self).user_summary@,
                        act,
                    )
                } else {
                    msgs_view(final(self).messages@) == after_user_turn(
                        msgs_view(old(self).messages@),
                        t,
                    ) && final(self).user_summary@ == old(self).user_summary@ && (act matches
                    InputAction::CallBackend { prompt } && msgs_view(prompt@) == prompt_spec(
                        old(self).system_prompt_base@,
                        old(self).user_summary@.0,
                        old(self).user_summary@.1,
                        msgs_view(old(self).messages@),
                        t,
                    ))
                }
            }),
    {
        let t = crate::text::trim_str(input);
        if t.unicode_len() == 0 {
            return InputAction::Reply(String::new());
        }
        if t.as_str().get_char(0) == '/' {
            return self.handle_command(t.as_str());
        }
        let prompt = self.build_messages(t.as_str());
        self.messages.push(Message { role: Role::User, content: t });
        proof {
            assert(msgs_view(self.messages@) =~= after_user_turn(
                msgs_view(old(self).messages@),
                trim_spec(input@),
            ));
        }
        InputAction::CallBackend { prompt }
    }

    /// Records the assistant's reply after a successful backend call and
    /// evicts the oldest turns beyond the history cap. On a failed call
    /// nothing is recorded: the user's message stays, no assistant turn
    /// appears.
    pub fn record_reply(&mut self, reply: &str)
        ensures
            final(self).system_prompt_base == old(self).system_prompt_base,
            final(self).user_summary@ == old(self).user_summary@,
            msgs_view(final(self).messages@) == after_assistant_reply(
                msgs_view(old(self).messages@),
                reply@,
            ),
    {
        self.messages.push(Message { role: Role::Assistant, content: reply.to_owned() });
        let ghost full = msgs_view(self.messages@);
        let ghost mut j: int = 0;
        proof {
            assert(full.skip(0) =~= full);
        }
        while self.messages.len() > HISTORY_CAP
            invariant
                0 <= j,
                j + self.messages@.len() == full.len(),
                msgs_view(self.messages@) == full.skip(j),
                j > 0 ==> self.messages@.len() >= HISTORY_CAP,
                self.user_summary@ == old(self).user_summary@,
                self.system_prompt_base == old(self).system_prompt_base,
            decreases self.messages@.len(),
        {
            let ghost prev = self.messages@;
            self.messages.remove(0);
            proof {
                assert(self.messages@ =~= prev.skip(1));
                assert forall|k: int| 0 <= k < self.messages@.len() implies msgs_view(
                    self.messages@,
                )[k] == full.skip(j + 1)[k] by {
                    assert(self.messages@[k] == prev[k + 1]);
                    assert(msgs_view(prev)[k + 1] == prev[k + 1]@);
                }
                assert(msgs_view(self.messages@) =~= full.skip(j + 1));
                j = j + 1;
            }
        }
        proof {
            let pushed = msgs_view(old(self).messages@).push((Role::Assistant, reply@));
            assert(full =~= pushed);
            if pushed.len() > HISTORY_CAP {
                assert(j == pushed.len() - HISTORY_CAP);
            } else {
                assert(j == 0);
                assert(full.skip(0) =~= full);
            }
        }
    }

    /// The greeting shown when a session channel opens.
    pub fn welcome_message(&self) -> (r: String)
        ensures
            r@ == (match self.user_summary@.0 {
                Option::Some(nm) => "Welcome back, "@ + nm + "! How can I help you today?"@,
                Option::None =>
                    "Welcome! Type /set-name <your name> to introduce yourself, or just start chatting!"@,
            }),
    {
        match &self.user_summary.name {
            Some(nm) => {
                let mut r = String::from_str("Welcome back, ");
                r.append(nm.as_str());
                r.append("! How can I help you today?");
                r
            }
            None => String::from_str(
                "Welcome! Type /set-name <your name> to introduce yourself, or just start chatting!",
            ),
        }
    }
}

/// Law: with the per-connection lock serializing two lines, the second line's
/// prompt carries the first line's assistant reply, in order, directly after
/// the history that preceded it.
pub proof fn lemma_reply_ordered_into_next_prompt(
    base: Seq<char>,
    name: Option<Seq<char>>,
    sessions: u32,
    h: Seq<(Role, Seq<char>)>,
    input1: Seq<char>,
    reply1: Seq<char>,
    input2: Seq<char>,
)
    ensures
        ({
            let h1 = after_user_turn(h, input1);
            let h2 = after_assistant_reply(h1, reply1);
            let p2 = prompt_spec(base, name, sessions, h2, input2);
            &&& h2.len() >= 1
            &&& p2.len() == h2.len() + 2
            &&& p2[h2.len() as int] == (Role::Assistant, reply1)
            &&& p2[h2.len() as int + 1] == (Role::User, input2)
        }),
{
    let h1 = after_user_turn(h, input1);
    let pushed = h1.push((Role::Assistant, reply1));
    let h2 = after_assistant_reply(h1, reply1);
    assert(pushed.last() == (Role::Assistant, reply1));
    if pushed.len() > HISTORY_CAP {
        assert(h2 == pushed.skip(pushed.len() - HISTORY_CAP));
        assert(h2.len() == HISTORY_CAP);
        assert(h2[h2.len() - 1] == pushed[pushed.len() - 1]);
    }
    assert(h2.last() == (Role::Assistant, reply1));
    let p2 = prompt_spec(base, name, sessions, h2, input2);
    assert(p2[h2.len() as int] == h2[h2.len() - 1]);
    assert(p2[h2.len() as int + 1] == (Role::User, input2));
}

/// Law: a failed backend call leaves the user's message as the last history
/// entry with no assistant turn for it, and the next turn's prompt contains
/// assistant messages only from the history that preceded the failed turn.
pub proof fn lemma_failed_turn_adds_no_assistant(
    base: Seq<char>,
    name: Option<Seq<char>>,
    sessions: u32,
    h: Seq<(Role, Seq<char>)>,
    input1: Seq<char>,
    input2: Seq<char>,
)
    ensures
        ({
            let h1 = after_user_turn(h, input1);
            let p2 = prompt_spec(base, name, sessions, h1, input2);
            &&& h1.last() == (Role::User, input1)
            &&& h1.len() == h.len() + 1
            &&& forall|i: int|
                0 <= i < p2.len() && (#[trigger] p2[i]).0 == Role::Assistant ==> 1 <= i <= h.len()
                    && p2[i] == h[i - 1]
        }),
{
    let h1 = after_user_turn(h, input1);
    let p2 = prompt_spec(base, name, sessions, h1, input2);
    assert forall|i: int|
        0 <= i < p2.len() && (#[trigger] p2[i]).0 == Role::Assistant implies 1 <= i <= h.len()
        && p2[i] == h[i - 1] by {
        if i == 0 {
            assert(p2[0].0 == Role::System);
        } else if i <= h.len() {
            assert(p2[i] == h1[i - 1]);
            assert(h1[i - 1] == h[i - 1]);
        } else if i == h.len() + 1 {
            assert(p2[i] == h1[i - 1]);
            assert(h1[i - 1] == (Role::User, input1));
        } else {
            assert(p2[i] == (Role::User, input2));
        }
    }
}

} // verus!
