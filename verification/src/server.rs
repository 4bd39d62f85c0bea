//! The OpenAI-compatible surface: from a chat request to a prompt and a session,
//! and from an output to a response.

use crate::text;
use vstd::prelude::*;
use vstd::string::*;

verus! {

/// A message of a conversation.
pub struct ChatMessage {
    pub role: String,
    pub content: String,
}

/// A request for a completion.
pub struct ChatCompletionRequest {
    /// Accepted for compatibility, not used for routing.
    pub model: Option<String>,
    pub messages: Vec<ChatMessage>,
    /// A stable identifier of the caller, used as the session id.
    pub user: Option<String>,
}

/// The answer to a request.
pub struct ChatCompletionResponse {
    pub id: String,
    pub object: String,
    pub created: u64,
    pub model: String,
    pub choices: Vec<ChatChoice>,
}

/// One choice of an answer.
pub struct ChatChoice {
    pub index: u32,
    pub message: ChatMessage,
    pub finish_reason: String,
}

/// An entry of the model list.
pub struct ModelEntry {
    pub id: String,
    pub object: String,
    pub created: u64,
    pub owned_by: String,
}

/// Why a request is not answered.
#[derive(Debug)]
pub enum ChatError {
    /// The request holds no message of the user.
    NoUserMessage,
    /// The task that ran the pipeline failed.
    TaskJoin(String),
    /// The pipeline failed.
    Pipeline(String),
}

/// What a request asks for.
#[derive(Debug)]
pub struct ChatTask {
    pub session_id: String,
    pub prompt: String,
}

impl ChatError {
    /// The HTTP status of the answer.
    pub open spec fn status(self) -> nat {
        match self {
            ChatError::NoUserMessage => 400,
            _ => 500,
        }
    }

    /// The text of the answer.
    pub open spec fn text(self) -> Seq<char> {
        match self {
            ChatError::NoUserMessage => "no user message in request"@,
            ChatError::TaskJoin(e) => "task join error: "@ + e@,
            ChatError::Pipeline(e) => "pipeline error: "@ + e@,
        }
    }

    /// The HTTP status and the text to answer with.
    pub fn answer(&self) -> (r: (u16, String))
        ensures
            r.0 == self.status(),
            r.1@ == self.text(),
    {
        match self {
            ChatError::NoUserMessage => (400, "no user message in request".to_string()),
            ChatError::TaskJoin(e) => (500, text::concat2("task join error: ", e.as_str())),
            ChatError::Pipeline(e) => (500, text::concat2("pipeline error: ", e.as_str())),
        }
    }
}

/// What the health check answers.
pub fn health() -> (status: String)
    ensures
        status@ == "ok"@,
{
    "ok".to_string()
}

/// The models to choose from: one.
pub fn list_models() -> (models: Vec<ModelEntry>)
    ensures
        models@.len() == 1,
        models@[0].id@ == "ssm-moe"@,
        models@[0].object@ == "model"@,
        models@[0].created == 0,
        models@[0].owned_by@ == "local"@,
{
    let mut models: Vec<ModelEntry> = Vec::new();
    models.push(
        ModelEntry {
            id: "ssm-moe".to_string(),
            object: "model".to_string(),
            created: 0,
            owned_by: "local".to_string(),
        },
    );
    models
}

/// The address to listen on.
pub fn listen_address(port: u16) -> (a: String)
    ensures
        a@ == "0.0.0.0:"@ + text::decimal(port as nat),
{
    text::concat2("0.0.0.0:", text::to_decimal(port as u128).as_str())
}

/// The session of a request: its user, else the session header, else one that all
/// such requests share.
pub open spec fn session_of(user: Option<String>, header: Option<String>) -> Seq<char> {
    match user {
        Some(u) => u@,
        None => match header {
            Some(h) => h@,
            None => "default"@,
        },
    }
}

/// The prompt of a conversation: the content of its last message of the user, if
/// there is one.
pub open spec fn prompt_of(messages: Seq<ChatMessage>) -> Option<Seq<char>>
    decreases messages.len(),
{
    if messages.len() == 0 {
        None
    } else if messages.last().role@ == "user"@ {
        Some(messages.last().content@)
    } else {
        prompt_of(messages.drop_last())
    }
}

/// The session id of a request with this user and this session header.
pub fn session_id(user: Option<String>, header: Option<String>) -> (s: String)
    ensures
        s@ == session_of(user, header),
        user matches Some(u) ==> s@ == u@,
{
    match user {
        Some(u) => u,
        None => match header {
            Some(h) => h,
            None => "default".to_string(),
        },
    }
}

/// The prompt of a request. Earlier turns are carried by the context memory of the
/// session, not by the messages before the last one of the user.
pub fn last_user_prompt(messages: &[ChatMessage]) -> (r: Result<String, ChatError>)
    ensures
        match prompt_of(messages@) {
            Some(prompt) => r matches Ok(p) && p@ == prompt,
            None => r matches Err(e) && e is NoUserMessage,
        },
{
    let n: usize = messages.len();
    let mut i: usize = n;
    assert(messages@.take(n as int) =~= messages@);
    while i > 0
        invariant
            i <= n,
            n == messages@.len(),
            prompt_of(messages@.take(i as int)) == prompt_of(messages@),
        decreases i,
    {
        assert(messages@.take(i as int).drop_last() =~= messages@.take(i - 1));
        i = i - 1;
        if text::str_eq(messages[i].role.as_str(), "user") {
            return Ok(messages[i].content.clone());
        }
    }
    Err(ChatError::NoUserMessage)
}

/// What a request asks for; `header` is its session header.
pub fn chat_completions(req: ChatCompletionRequest, header: Option<String>) -> (r: Result<
    ChatTask,
    ChatError,
>)
    ensures
        match prompt_of(req.messages@) {
            Some(prompt) => r matches Ok(task) && task.prompt@ == prompt && task.session_id@
                == session_of(req.user, header),
            None => r matches Err(e) && e is NoUserMessage,
        },
        r matches Ok(task) ==> (req.user matches Some(u) ==> task.session_id@ == u@),
        r matches Ok(task) ==> (req.user is None ==> (header matches Some(h) ==> task.session_id@
            == h@)),
{
    match last_user_prompt(req.messages.as_slice()) {
        Ok(prompt) => Ok(ChatTask { session_id: session_id(req.user, header), prompt }),
        Err(e) => Err(e),
    }
}

/// An id for a response from the time in nanoseconds: enough to tell responses
/// apart in logs.
pub fn uuid_like(nanos: u128) -> (s: String)
    ensures
        s@ == text::lower_hex(nanos as nat),
{
    text::to_lower_hex(nanos)
}

/// The response that carries an output. `nanos` is the time in nanoseconds, and
/// `created` the time in seconds where it is known.
pub fn chat_response(nanos: u128, created: Option<u64>, output: String) -> (r:
    ChatCompletionResponse)
    ensures
        r.id@ == "chatcmpl-"@ + text::lower_hex(nanos as nat),
        r.object@ == "chat.completion"@,
        r.created == match created {
            Some(secs) => secs,
            None => 0,
        },
        r.model@ == "ssm-moe"@,
        r.choices@.len() == 1,
        r.choices@[0].index == 0,
        r.choices@[0].message.role@ == "assistant"@,
        r.choices@[0].message.content == output,
        r.choices@[0].finish_reason@ == "stop"@,
{
    let mut choices: Vec<ChatChoice> = Vec::new();
    choices.push(
        ChatChoice {
            index: 0,
            message: ChatMessage { role: "assistant".to_string(), content: output },
            finish_reason: "stop".to_string(),
        },
    );
    ChatCompletionResponse {
        id: text::concat2("chatcmpl-", uuid_like(nanos).as_str()),
        object: "chat.completion".to_string(),
        created: match created {
            Some(secs) => secs,
            None => 0,
        },
        model: "ssm-moe".to_string(),
        choices,
    }
}

/// Responses made at different times have different ids.
pub proof fn response_ids_differ(a: nat, b: nat)
    requires
        a != b,
    ensures
        "chatcmpl-"@ + text::lower_hex(a) != "chatcmpl-"@ + text::lower_hex(b),
{
    let x = "chatcmpl-"@ + text::lower_hex(a);
    let y = "chatcmpl-"@ + text::lower_hex(b);
    let k = "chatcmpl-"@.len() as int;
    if x == y {
        assert(x.skip(k) =~= text::lower_hex(a));
        assert(y.skip(k) =~= text::lower_hex(b));
        text::lemma_lower_hex_injective(a, b);
    }
}

/// What follows the last message of the user does not change the prompt, and what
/// precedes it does not either.
pub proof fn only_the_last_user_message_counts(
    before: Seq<ChatMessage>,
    m: ChatMessage,
    behind: Seq<ChatMessage>,
)
    requires
        m.role@ == "user"@,
        forall|i: int| 0 <= i < behind.len() ==> (#[trigger] behind[i]).role@ != "user"@,
    ensures
        prompt_of(before.push(m) + behind) == Some(m.content@),
    decreases behind.len(),
{
    let all = before.push(m) + behind;
    if behind.len() == 0 {
        assert(all =~= before.push(m));
    } else {
        assert(all.last() == behind.last());
        assert(all.drop_last() =~= before.push(m) + behind.drop_last());
        assert forall|i: int| 0 <= i < behind.drop_last().len() implies (
        #[trigger] behind.drop_last()[i]).role@ != "user"@ by {
            assert(behind[i].role@ != "user"@);
        }
        only_the_last_user_message_counts(before, m, behind.drop_last());
    }
}

/// A conversation has no prompt exactly if no message of it is the user's.
pub proof fn prompt_needs_a_user_message(messages: Seq<ChatMessage>)
    ensures
        prompt_of(messages) is None <==> forall|i: int|
            0 <= i < messages.len() ==> (#[trigger] messages[i]).role@ != "user"@,
    decreases messages.len(),
{
    if messages.len() > 0 {
        let short = messages.drop_last();
        prompt_needs_a_user_message(short);
        if messages.last().role@ != "user"@ {
            if prompt_of(short) is None {
                assert forall|i: int| 0 <= i < messages.len() implies (
                #[trigger] messages[i]).role@ != "user"@ by {
                    if i < short.len() {
                        assert(short[i].role@ != "user"@);
                    }
                }
            } else {
                let i = choose|i: int|
                    0 <= i < short.len() && (#[trigger] short[i]).role@ == "user"@;
                assert(messages[i].role@ == "user"@);
            }
        } else {
            assert(messages[messages.len() - 1].role@ == "user"@);
        }
    }
}

/// A request with a user belongs to that user's session, whatever its header. So
/// requests of different users never share a session, and those of one user always do.
pub proof fn users_have_sessions_of_their_own(
    a: String,
    a_header: Option<String>,
    b: String,
    b_header: Option<String>,
)
    ensures
        session_of(Some(a), a_header) == a@,
        session_of(Some(a), a_header) == session_of(Some(b), b_header) <==> a@ == b@,
{
}

/// Without a user the header names the session, and without either all requests share
/// one.
pub proof fn headers_name_sessions_without_users(header: String)
    ensures
        session_of(None, Some(header)) == header@,
        session_of(None, None) == "default"@,
{
}

/// A request without a message of the user is the caller's fault, any other failure is
/// ours; and the answer to a failure holds what went wrong.
pub proof fn failures_are_answered_by_whose_they_are(e: ChatError)
    ensures
        e is NoUserMessage <==> e.status() == 400,
        !(e is NoUserMessage) <==> e.status() == 500,
        e is NoUserMessage ==> e.text() == "no user message in request"@,
        e matches ChatError::TaskJoin(why) ==> e.text() == "task join error: "@ + why@,
        e matches ChatError::Pipeline(why) ==> e.text() == "pipeline error: "@ + why@,
{
}

}
