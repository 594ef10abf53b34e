//! Data shapes of the client: history messages, the wire request and
//! response, and the configuration record parsed from the command line.

use vstd::prelude::*;
use crate::text::str_eq;
use crate::text::strs_view;

verus! {

/// Mathematical image of a history message: its role and content as
/// character sequences.
pub struct MessageView {
    pub role: Seq<char>,
    pub content: Seq<char>,
}

/// Is used for sending a message, as well as storing the message history.
#[derive(Debug, Clone)]
pub struct Message {
    pub role: String,
    pub content: String,
}

impl View for Message {
    type V = MessageView;

    open spec fn view(&self) -> MessageView {
        MessageView { role: self.role@, content: self.content@ }
    }
}

/// The views of a sequence of messages.
pub open spec fn msgs_view(s: Seq<Message>) -> Seq<MessageView> {
    Seq::new(s.len(), |i: int| s[i]@)
}

/// The role tag a user turn carries.
pub open spec fn user_role() -> Seq<char> {
    seq!['u', 's', 'e', 'r']
}

/// Contents of a response message as the remote API shapes it; `tool_calls`
/// is accepted but never folded back into the history.
#[derive(Debug)]
pub struct LlmMessage {
    pub role: String,
    pub tool_calls: Option<Vec<u8>>,
    pub content: String,
}

impl LlmMessage {
    /// Convenience method that just removes the `tool_calls` field so that
    /// you can push it to a vec of `Message`.
    pub fn to_message(self) -> (m: Message)
        ensures
            m@ == (MessageView { role: self.role@, content: self.content@ }),
    {
        Message { role: self.role, content: self.content }
    }
}

/// One choice of a response; the actual content sits inside `message`.
#[derive(Debug)]
pub struct LlmChoice {
    pub index: usize,
    pub message: LlmMessage,
    pub finish_reason: String,
}

/// Token accounting the remote API reports; the core never reads it.
#[derive(Debug)]
pub struct LlmUsage {
    pub prompt_tokens: u32,
    pub total_tokens: u32,
    pub completion_tokens: u32,
}

/// The "top-level" of the API's response contains these fields.
#[derive(Debug)]
pub struct LlmResponse {
    pub id: String,
    pub object: String,
    pub created: u32,
    pub model: String,
    pub choices: Vec<LlmChoice>,
    pub usage: LlmUsage,
}

/// Available model types from the remote API.
#[derive(Debug)]
pub enum LlmModel {
    MistralLargeLatest,
}

/// The identifier of the one supported model, as it goes over the wire.
pub open spec fn model_id() -> Seq<char> {
    seq![
        'm', 'i', 's', 't', 'r', 'a', 'l', '-', 'l', 'a', 'r', 'g', 'e', '-', 'l', 'a', 't',
        'e', 's', 't',
    ]
}

impl LlmModel {
    /// The wire name of the model.
    pub fn as_str(&self) -> (r: &'static str)
        ensures
            r@ == model_id(),
    {
        proof {
            reveal_strlit("mistral-large-latest");
        }
        let r = match self {
            LlmModel::MistralLargeLatest => "mistral-large-latest",
        };
        proof {
            assert(r@ =~= model_id());
        }
        r
    }
}

/// The "top-level" of the http request body that is sent to the remote API.
#[derive(Debug)]
pub struct LlmRequest {
    pub model: LlmModel,
    pub messages: Vec<Message>,
}

impl LlmRequest {
    /// When input is read from stdin: a request holding one user message.
    pub fn from_str(input: &str) -> (r: Self)
        ensures
            r.model is MistralLargeLatest,
            msgs_view(r.messages@) == seq![MessageView { role: user_role(), content: input@ }],
    {
        proof {
            reveal_strlit("user");
        }
        let role = String::from_str("user");
        proof {
            assert(role@ =~= user_role());
        }
        let mut messages: Vec<Message> = Vec::new();
        messages.push(Message { role, content: input.to_owned() });
        let r = LlmRequest { model: LlmModel::MistralLargeLatest, messages };
        proof {
            assert(msgs_view(r.messages@) =~= seq![
                MessageView { role: user_role(), content: input@ },
            ]);
        }
        r
    }

    /// This is used after pushing the latest message to `messages`, and
    /// simply wraps the messages to add info about the model type as well.
    pub fn from_messages(messages: &Vec<Message>) -> (r: Self)
        ensures
            r.model is MistralLargeLatest,
            r.messages@ == messages@,
    {
        let mut copy: Vec<Message> = Vec::new();
        let mut i: usize = 0;
        while i < messages.len()
            invariant
                i <= messages@.len(),
                copy@ == messages@.subrange(0, i as int),
            decreases messages@.len() - i,
        {
            copy.push(Message {
                role: messages[i].role.clone(),
                content: messages[i].content.clone(),
            });
            proof {
                assert(copy@ =~= messages@.subrange(0, i + 1));
            }
            i = i + 1;
        }
        proof {
            assert(copy@ =~= messages@);
        }
        LlmRequest { model: LlmModel::MistralLargeLatest, messages: copy }
    }
}

/// Mathematical image of the configuration record.
pub struct ArgsView {
    pub conversation: bool,
    pub extended: bool,
    pub long: bool,
    pub context: bool,
    pub help: bool,
    pub llm_input: Seq<Seq<char>>,
    pub warnings: Seq<Seq<char>>,
}

/// Configuration parsed once from the command line, immutable afterwards.
///
/// `llm_input` holds the non-flag tokens, passed on to the model verbatim;
/// `warnings` holds unrecognised flags, which the caller may report but
/// which change nothing else.
#[derive(Debug)]
pub struct Args {
    pub conversation: bool,
    pub extended: bool,
    pub long: bool,
    pub context: bool,
    pub help: bool,
    pub llm_input: Vec<String>,
    pub warnings: Vec<String>,
}

impl View for Args {
    type V = ArgsView;

    open spec fn view(&self) -> ArgsView {
        ArgsView {
            conversation: self.conversation,
            extended: self.extended,
            long: self.long,
            context: self.context,
            help: self.help,
            llm_input: strs_view(self.llm_input@),
            warnings: strs_view(self.warnings@),
        }
    }
}

/// The configuration with nothing set.
pub open spec fn empty_args() -> ArgsView {
    ArgsView {
        conversation: false,
        extended: false,
        long: false,
        context: false,
        help: false,
        llm_input: Seq::empty(),
        warnings: Seq::empty(),
    }
}

/// One command-line token folded into the configuration.
pub open spec fn args_step(a: ArgsView, arg: Seq<char>) -> ArgsView {
    if arg == "-c"@ || arg == "--conv"@ {
        ArgsView { conversation: true, ..a }
    } else if arg == "-e"@ || arg == "--extended"@ {
        ArgsView { extended: true, ..a }
    } else if arg == "-l"@ || arg == "--long"@ {
        ArgsView { long: true, ..a }
    } else if arg == "--context"@ {
        ArgsView { context: true, ..a }
    } else if arg == "-h"@ || arg == "--help"@ {
        ArgsView { help: true, ..a }
    } else if arg.len() > 0 && arg[0] == '-' {
        ArgsView { warnings: a.warnings.push(arg), ..a }
    } else {
        ArgsView { llm_input: a.llm_input.push(arg), ..a }
    }
}

/// The tokens after the program name, folded left to right.
pub open spec fn args_fold(a: ArgsView, rest: Seq<Seq<char>>) -> ArgsView
    decreases rest.len(),
{
    if rest.len() == 0 {
        a
    } else {
        args_step(args_fold(a, rest.drop_last()), rest.last())
    }
}

/// The configuration that a full argument vector (program name first)
/// denotes.
pub open spec fn args_of(argv: Seq<Seq<char>>) -> ArgsView {
    if argv.len() == 0 {
        empty_args()
    } else {
        args_fold(empty_args(), argv.drop_first())
    }
}

impl Args {
    /// Parses the argument vector; the first token (the program name) is
    /// skipped, flags set their field, anything else starting with `-` is
    /// recorded as a warning, and the rest is literal input for the model.
    pub fn from(args: Vec<String>) -> (r: Args)
        ensures
            r@ == args_of(strs_view(args@)),
    {
        let mut a = Args {
            conversation: false,
            extended: false,
            long: false,
            context: false,
            help: false,
            llm_input: Vec::new(),
            warnings: Vec::new(),
        };
        proof {
            assert(strs_view(a.llm_input@) =~= Seq::<Seq<char>>::empty());
            assert(strs_view(a.warnings@) =~= Seq::<Seq<char>>::empty());
        }
        if args.len() == 0 {
            return a;
        }
        let ghost tail = strs_view(args@).drop_first();
        let mut i: usize = 1;
        while i < args.len()
            invariant
                1 <= i <= args@.len(),
                tail == strs_view(args@).drop_first(),
                tail.len() == args@.len() - 1,
                a@ == args_fold(empty_args(), tail.take(i - 1)),
            decreases args@.len() - i,
        {
            let ghost before = a@;
            let ghost argv = tail[i - 1];
            proof {
                assert(argv == args@[i as int]@);
            }
            let arg = &args[i];
            let s = arg.as_str();
            if str_eq(s, "-c") || str_eq(s, "--conv") {
                a.conversation = true;
            } else if str_eq(s, "-e") || str_eq(s, "--extended") {
                a.extended = true;
            } else if str_eq(s, "-l") || str_eq(s, "--long") {
                a.long = true;
            } else if str_eq(s, "--context") {
                a.context = true;
            } else if str_eq(s, "-h") || str_eq(s, "--help") {
                a.help = true;
            } else if s.unicode_len() > 0 && s.get_char(0) == '-' {
                a.warnings.push(arg.clone());
                proof {
                    assert(strs_view(a.warnings@) =~= before.warnings.push(argv));
                }
            } else {
                a.llm_input.push(arg.clone());
                proof {
                    assert(strs_view(a.llm_input@) =~= before.llm_input.push(argv));
                }
            }
            proof {
                assert(a@ == args_step(before, argv));
                assert(tail.take(i as int) =~= tail.take(i - 1).push(argv));
                assert(tail.take(i as int).drop_last() =~= tail.take(i - 1));
                assert(a@ == args_fold(empty_args(), tail.take(i as int)));
            }
            i = i + 1;
        }
        proof {
            assert(tail.take(i - 1) =~= tail);
        }
        a
    }
}

} // verus!
