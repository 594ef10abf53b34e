//! The session loop's state machine.
//!
//! The loop owns the conversation history and the configuration. Each turn
//! moves through the states awaiting input, dispatching, and rendering;
//! the decisions — quit on the sentinel, what the new turn's content is,
//! what is appended after a response, whether another turn follows — are
//! all made here on plain values. The surrounding binary only reads input,
//! performs the HTTP exchange, and prints what it is handed.

use vstd::prelude::*;
use crate::models::Args;
use crate::models::ArgsView;
use crate::models::LlmChoice;
use crate::models::LlmRequest;
use crate::models::LlmResponse;
use crate::models::Message;
use crate::models::MessageView;
use crate::models::msgs_view;
use crate::models::user_role;
use crate::json::request_text;
use crate::json::encode_request;
use crate::render::displayed;
use crate::render::render_content;
use crate::text::chars_of;
use crate::text::string_from_chars;

verus! {

/// A single trailing line terminator (`"\n"` or `"\r\n"`) removed, if
/// present.
pub open spec fn trim_eol(s: Seq<char>) -> Seq<char> {
    if s.len() >= 2 && s[s.len() - 2] == '\r' && s[s.len() - 1] == '\n' {
        s.subrange(0, s.len() - 2)
    } else if s.len() >= 1 && s[s.len() - 1] == '\n' {
        s.subrange(0, s.len() - 1)
    } else {
        s
    }
}

/// The sentinel text that ends a session instead of being sent.
pub open spec fn quit_sentinel() -> Seq<char> {
    seq!['w', 'q']
}

/// Whether raw input, once a single trailing line terminator is dropped,
/// equals the quit sentinel.
pub open spec fn is_quit(s: Seq<char>) -> bool {
    trim_eol(s) == quit_sentinel()
}

/// Whether this raw input is the quit sentinel.
pub fn is_quit_input(input: &str) -> (r: bool)
    ensures
        r == is_quit(input@),
{
    let n = input.unicode_len();
    let k: usize = if n >= 2 && input.get_char(n - 2) == '\r' && input.get_char(n - 1) == '\n' {
        n - 2
    } else if n >= 1 && input.get_char(n - 1) == '\n' {
        n - 1
    } else {
        n
    };
    proof {
        assert(trim_eol(input@) =~= input@.subrange(0, k as int));
    }
    if k != 2 {
        return false;
    }
    let r = input.get_char(0) == 'w' && input.get_char(1) == 'q';
    proof {
        if r {
            assert(trim_eol(input@) =~= quit_sentinel());
        } else {
            assert(trim_eol(input@) != quit_sentinel());
        }
    }
    r
}

/// The instruction preamble sent ahead of one-shot turns: it directs the
/// model to answer with the bare transformation only.
pub open spec fn preamble() -> Seq<char> {
    "You are a CLI tool for use in generation of small snippets of code for direct insertion into the editor. Perceive yourself like a form of rustfmt, except in addition to formatting, you may do other things like generate a function, or take a function and rewrite it.\nIn your following response, DO NOT:\n- Give any syntactically invalid text\n- Give any code except EXACTLY what you are asked for\n- Put markdown markers around code (they are not valid syntax)\n- Write any explanatory text\n\nIf you get some lines of code:\n- ONLY perform the operation requested on the given lines of code.\n- Don't reprint anything except the given lines. Your input is the following:\n"@
}

/// The instruction preamble as a string slice.
pub fn preamble_text() -> (r: &'static str)
    ensures
        r@ == preamble(),
{
    "You are a CLI tool for use in generation of small snippets of code for direct insertion into the editor. Perceive yourself like a form of rustfmt, except in addition to formatting, you may do other things like generate a function, or take a function and rewrite it.\nIn your following response, DO NOT:\n- Give any syntactically invalid text\n- Give any code except EXACTLY what you are asked for\n- Put markdown markers around code (they are not valid syntax)\n- Write any explanatory text\n\nIf you get some lines of code:\n- ONLY perform the operation requested on the given lines of code.\n- Don't reprint anything except the given lines. Your input is the following:\n"
}

/// The instruction preamble is not empty and opens with a capital `Y`, so
/// no text that opens with a line feed can begin with it.
pub proof fn lemma_preamble_shape()
    ensures
        preamble().len() > 0,
        preamble()[0] == 'Y',
{
    reveal_strlit(
        "You are a CLI tool for use in generation of small snippets of code for direct insertion into the editor. Perceive yourself like a form of rustfmt, except in addition to formatting, you may do other things like generate a function, or take a function and rewrite it.\nIn your following response, DO NOT:\n- Give any syntactically invalid text\n- Give any code except EXACTLY what you are asked for\n- Put markdown markers around code (they are not valid syntax)\n- Write any explanatory text\n\nIf you get some lines of code:\n- ONLY perform the operation requested on the given lines of code.\n- Don't reprint anything except the given lines. Your input is the following:\n",
    );
}

/// Tokens joined with single spaces.
pub open spec fn join_spaces(ts: Seq<Seq<char>>) -> Seq<char>
    decreases ts.len(),
{
    if ts.len() == 0 {
        Seq::empty()
    } else if ts.len() == 1 {
        ts[0]
    } else {
        join_spaces(ts.drop_last()) + seq![' '] + ts.last()
    }
}

/// The content of a new user turn: in one-shot mode the instruction
/// preamble, then the literal command-line tokens joined by spaces, then
/// the raw input, each separated by a line feed; in conversation mode the
/// same without the preamble.
pub open spec fn turn_content(conversation: bool, tokens: Seq<Seq<char>>, input: Seq<char>)
    -> Seq<char> {
    (if conversation {
        Seq::empty()
    } else {
        preamble()
    }) + seq!['\n'] + join_spaces(tokens) + seq!['\n'] + input
}

/// Builds the content of the new user turn from the configuration and the
/// raw input.
pub fn build_turn_content(config: &Args, input: &str) -> (r: String)
    ensures
        r@ == turn_content(config@.conversation, config@.llm_input, input@),
{
    let mut out: Vec<char> = Vec::new();
    if !config.conversation {
        let p = chars_of(preamble_text());
        let mut i: usize = 0;
        while i < p.len()
            invariant
                p@ == preamble(),
                i <= p@.len(),
                out@ == p@.subrange(0, i as int),
            decreases p@.len() - i,
        {
            out.push(p[i]);
            proof {
                assert(out@ =~= p@.subrange(0, i + 1));
            }
            i = i + 1;
        }
        proof {
            assert(out@ =~= preamble());
        }
    }
    out.push('\n');
    let ghost head = out@;
    let tokens = &config.llm_input;
    let ghost ts = config@.llm_input;
    let mut i: usize = 0;
    while i < tokens.len()
        invariant
            ts == config@.llm_input,
            ts.len() == tokens@.len(),
            forall|j: int| 0 <= j < ts.len() ==> ts[j] == tokens@[j]@,
            i <= tokens@.len(),
            out@ == head + join_spaces(ts.take(i as int)),
        decreases tokens@.len() - i,
    {
        if i > 0 {
            out.push(' ');
        }
        let tok = chars_of(tokens[i].as_str());
        let ghost mid = out@;
        let mut j: usize = 0;
        while j < tok.len()
            invariant
                j <= tok@.len(),
                out@ == mid + tok@.subrange(0, j as int),
            decreases tok@.len() - j,
        {
            out.push(tok[j]);
            proof {
                assert(out@ =~= mid + tok@.subrange(0, j + 1));
            }
            j = j + 1;
        }
        proof {
            assert(tok@.subrange(0, tok@.len() as int) =~= tok@);
            let ghost pref = ts.take(i as int);
            assert(ts.take(i + 1) =~= pref.push(ts[i as int]));
            assert(pref.push(ts[i as int]).drop_last() =~= pref);
            if i == 0 {
                assert(out@ =~= head + join_spaces(ts.take(i + 1)));
            } else {
                assert(out@ =~= head + (join_spaces(pref) + seq![' '] + ts[i as int]));
                assert(out@ =~= head + join_spaces(ts.take(i + 1)));
            }
        }
        i = i + 1;
    }
    proof {
        assert(ts.take(ts.len() as int) =~= ts);
    }
    out.push('\n');
    let ghost mid2 = out@;
    let inp = chars_of(input);
    let mut j: usize = 0;
    while j < inp.len()
        invariant
            inp@ == input@,
            j <= inp@.len(),
            out@ == mid2 + inp@.subrange(0, j as int),
        decreases inp@.len() - j,
    {
        out.push(inp[j]);
        proof {
            assert(out@ =~= mid2 + inp@.subrange(0, j + 1));
        }
        j = j + 1;
    }
    proof {
        assert(inp@.subrange(0, inp@.len() as int) =~= inp@);
        assert(out@ =~= turn_content(config@.conversation, config@.llm_input, input@));
    }
    string_from_chars(&out)
}

/// How the next turn's raw input is to be acquired.
#[derive(Debug, PartialEq, Eq)]
pub enum InputMode {
    /// Consume the input stream to its end and hand it over as one block.
    ReadAll,
    /// Read exactly one line.
    ReadLine,
    /// Do not touch the input stream: the literal tokens are the turn.
    NoRead,
}

/// The acquisition mode a configuration calls for.
pub open spec fn input_mode_of(a: ArgsView) -> InputMode {
    if a.extended {
        InputMode::ReadAll
    } else if a.llm_input.len() == 0 {
        InputMode::ReadLine
    } else {
        InputMode::NoRead
    }
}

/// Where the session loop stands.
#[derive(Debug, PartialEq, Eq)]
pub enum SessionState {
    /// Ready for the next turn's input.
    AwaitingInput,
    /// A request body has been handed out; its outcome is awaited.
    Dispatching,
    /// A response or failure has been folded in; the turn is closing.
    Rendering,
    /// The loop is over; only persisting the history remains.
    Terminated,
}

/// The messages a response's choices fold back into the history: role and
/// content only, any tool-call payload discarded.
pub open spec fn choice_msgs(cs: Seq<LlmChoice>) -> Seq<MessageView> {
    Seq::new(cs.len(), |i: int| MessageView {
        role: cs[i].message.role@,
        content: cs[i].message.content@,
    })
}

/// The session loop's state: the configuration, the in-memory history,
/// and where the loop stands.
#[derive(Debug)]
pub struct Session {
    pub config: Args,
    pub history: Vec<Message>,
    pub state: SessionState,
}

impl Session {
    /// A fresh session, awaiting its first input.
    pub fn new(config: Args, history: Vec<Message>) -> (s: Session)
        ensures
            s.config == config,
            s.history == history,
            s.state is AwaitingInput,
    {
        Session { config, history, state: SessionState::AwaitingInput }
    }

    /// How this session's next input is to be acquired.
    pub fn input_mode(&self) -> (m: InputMode)
        ensures
            m == input_mode_of(self.config@),
    {
        if self.config.extended {
            InputMode::ReadAll
        } else if self.config.llm_input.len() == 0 {
            proof {
                assert(self.config@.llm_input.len() == 0);
            }
            InputMode::ReadLine
        } else {
            InputMode::NoRead
        }
    }

    /// Feeds the turn's raw input to the session. On the quit sentinel the
    /// loop terminates with nothing sent and nothing appended; otherwise
    /// the new user message joins the history and the body to send comes
    /// back.
    pub fn on_input(&mut self, input: &str) -> (r: Option<String>)
        requires
            old(self).state is AwaitingInput,
        ensures
            final(self).config == old(self).config,
            is_quit(input@) ==> final(self).state is Terminated && final(self).history == old(
                self,
            ).history && r is None,
            !is_quit(input@) ==> final(self).state is Dispatching && msgs_view(
                final(self).history@,
            ) == msgs_view(old(self).history@).push(
                MessageView {
                    role: user_role(),
                    content: turn_content(
                        old(self).config@.conversation,
                        old(self).config@.llm_input,
                        input@,
                    ),
                },
            ) && (r matches Some(body) && body@ == request_text(msgs_view(final(self).history@))),
    {
        if is_quit_input(input) {
            self.state = SessionState::Terminated;
            return None;
        }
        let content = build_turn_content(&self.config, input);
        proof {
            reveal_strlit("user");
        }
        let role = String::from_str("user");
        proof {
            assert(role@ =~= user_role());
        }
        let ghost h0 = msgs_view(self.history@);
        self.history.push(Message { role, content });
        proof {
            assert(msgs_view(self.history@) =~= h0.push(
                MessageView {
                    role: user_role(),
                    content: turn_content(
                        self.config@.conversation,
                        self.config@.llm_input,
                        input@,
                    ),
                },
            ));
        }
        let req = LlmRequest::from_messages(&self.history);
        let body = encode_request(&req);
        self.state = SessionState::Dispatching;
        Some(body)
    }

    /// Folds a decoded response in: every choice's message joins the
    /// history in order, stripped to role and content, and the rendered
    /// text of each choice comes back for display, filtered of
    /// fence-opening lines unless verbose display is on.
    pub fn on_response(&mut self, resp: &LlmResponse) -> (r: Vec<String>)
        requires
            old(self).state is Dispatching,
        ensures
            final(self).config == old(self).config,
            final(self).state is Rendering,
            msgs_view(final(self).history@) == msgs_view(old(self).history@) + choice_msgs(
                resp.choices@,
            ),
            r@.len() == resp.choices@.len(),
            forall|i: int| 0 <= i < r@.len() ==> r@[i]@ == displayed(
                resp.choices@[i].message.content@,
                old(self).config@.long,
            ),
    {
        let ghost h0 = msgs_view(self.history@);
        let mut rendered: Vec<String> = Vec::new();
        let mut i: usize = 0;
        while i < resp.choices.len()
            invariant
                self.config == old(self).config,
                self.state == old(self).state,
                i <= resp.choices@.len(),
                h0 == msgs_view(old(self).history@),
                msgs_view(self.history@) == h0 + choice_msgs(resp.choices@.take(i as int)),
                rendered@.len() == i,
                forall|j: int| 0 <= j < i ==> rendered@[j]@ == displayed(
                    resp.choices@[j].message.content@,
                    self.config@.long,
                ),
            decreases resp.choices@.len() - i,
        {
            let choice = &resp.choices[i];
            let shown = render_content(choice.message.content.as_str(), self.config.long);
            rendered.push(shown);
            let ghost hmid = msgs_view(self.history@);
            self.history.push(Message {
                role: choice.message.role.clone(),
                content: choice.message.content.clone(),
            });
            proof {
                assert(msgs_view(self.history@) =~= hmid.push(
                    MessageView {
                        role: resp.choices@[i as int].message.role@,
                        content: resp.choices@[i as int].message.content@,
                    },
                ));
                assert(choice_msgs(resp.choices@.take(i + 1)) =~= choice_msgs(
                    resp.choices@.take(i as int),
                ).push(
                    MessageView {
                        role: resp.choices@[i as int].message.role@,
                        content: resp.choices@[i as int].message.content@,
                    },
                ));
                assert(msgs_view(self.history@) =~= h0 + choice_msgs(
                    resp.choices@.take(i + 1),
                ));
            }
            i = i + 1;
        }
        self.state = SessionState::Rendering;
        proof {
            assert(resp.choices@.take(resp.choices@.len() as int) =~= resp.choices@);
        }
        rendered
    }

    /// Records that the exchange failed: nothing joins the history for
    /// this turn — the user's own message stays — and the turn closes.
    pub fn on_exchange_failed(&mut self)
        requires
            old(self).state is Dispatching,
        ensures
            final(self).config == old(self).config,
            final(self).history == old(self).history,
            final(self).state is Rendering,
    {
        self.state = SessionState::Rendering;
    }

    /// Closes the turn: in conversation mode the loop waits for the next
    /// input, otherwise it terminates.
    pub fn finish_turn(&mut self)
        requires
            old(self).state is Rendering,
        ensures
            final(self).config == old(self).config,
            final(self).history == old(self).history,
            old(self).config@.conversation ==> final(self).state is AwaitingInput,
            !old(self).config@.conversation ==> final(self).state is Terminated,
    {
        if self.config.conversation {
            self.state = SessionState::AwaitingInput;
        } else {
            self.state = SessionState::Terminated;
        }
    }

    /// Whether the loop is over.
    pub fn is_terminated(&self) -> (r: bool)
        ensures
            r == (self.state is Terminated),
    {
        match self.state {
            SessionState::Terminated => true,
            _ => false,
        }
    }
}

} // verus!
