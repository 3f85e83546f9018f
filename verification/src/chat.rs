//! What is asked of the language model, and what comes of its answers.
use async_openai::error::OpenAIError;
use async_openai::types::{
    ChatCompletionRequestAssistantMessageArgs, ChatCompletionRequestMessage,
    ChatCompletionRequestSystemMessageArgs, ChatCompletionRequestUserMessageArgs,
    CreateChatCompletionRequest, CreateChatCompletionRequestArgs, CreateCompletionRequest,
    CreateCompletionRequestArgs,
};
use vstd::prelude::*;

verus! {

/// A message of a chat, as it is sent.
#[verifier::external_type_specification]
#[verifier::external_body]
pub struct ExChatCompletionRequestMessage(ChatCompletionRequestMessage);

/// A request to continue a chat.
#[verifier::external_type_specification]
#[verifier::external_body]
pub struct ExCreateChatCompletionRequest(CreateChatCompletionRequest);

/// A request to complete a text.
#[verifier::external_type_specification]
#[verifier::external_body]
pub struct ExCreateCompletionRequest(CreateCompletionRequest);

/// The error of a request that could not be built.
#[verifier::external_type_specification]
#[verifier::external_body]
pub struct ExOpenAIError(OpenAIError);

/// Whose message it is.
#[derive(Clone, Copy, Debug, PartialEq, Eq, Structural)]
pub enum Role {
    System,
    User,
    Assistant,
    Tool,
    Function,
}

/// A message of a chat.
#[derive(Clone, Debug)]
pub struct ChatMessage {
    pub role: Role,
    pub content: String,
}

/// A chat in a window of its own.
#[derive(Debug)]
pub struct WheelWindow(pub Vec<ChatMessage>);

impl Default for WheelWindow {
    /// A chat with one message, which the user has yet to write.
    fn default() -> (r: WheelWindow)
        ensures
            r.0@.len() == 1,
            r.0@[0].role == Role::User,
            r.0@[0].content@ == Seq::<char>::empty(),
    {
        WheelWindow(vec![ChatMessage { role: Role::User, content: String::new() }])
    }
}

/// The message that `ChatCompletionRequestSystemMessageArgs` builds.
pub uninterp spec fn system_message_of(content: Seq<char>) -> ChatCompletionRequestMessage;

/// The message that `ChatCompletionRequestUserMessageArgs` builds.
pub uninterp spec fn user_message_of(content: Seq<char>) -> ChatCompletionRequestMessage;

/// The message that `ChatCompletionRequestAssistantMessageArgs` builds.
pub uninterp spec fn assistant_message_of(content: Seq<char>) -> ChatCompletionRequestMessage;

/// The request that `CreateChatCompletionRequestArgs` builds of a model, a limit
/// on the tokens of the answer, and the messages.
pub uninterp spec fn chat_request_of(
    model: Seq<char>,
    max_tokens: u16,
    messages: Seq<ChatCompletionRequestMessage>,
) -> CreateChatCompletionRequest;

/// The request that `CreateCompletionRequestArgs` builds of a model, a limit on
/// the tokens of the answer, the biases of tokens, the prompt, the number of
/// answers, and whether they are streamed.
pub uninterp spec fn completion_request_of(
    model: Seq<char>,
    max_tokens: u16,
    logit_bias: Seq<(Seq<char>, i32)>,
    prompt: Seq<char>,
    n: u8,
    stream: bool,
) -> CreateCompletionRequest;

/// `ChatCompletionRequestSystemMessageArgs::build` with nothing but the content
/// set: the message of that content. It has a default for every field, so it
/// always succeeds.
#[verifier::external_body]
fn system_message(content: String) -> (r: ChatCompletionRequestMessage)
    ensures
        r == system_message_of(content@),
{
    ChatCompletionRequestSystemMessageArgs::default().content(content).build().unwrap().into()
}

/// `ChatCompletionRequestUserMessageArgs::build` with nothing but the content
/// set: the message of that content. It has a default for every field, so it
/// always succeeds.
#[verifier::external_body]
fn user_message(content: String) -> (r: ChatCompletionRequestMessage)
    ensures
        r == user_message_of(content@),
{
    ChatCompletionRequestUserMessageArgs::default().content(content).build().unwrap().into()
}

/// `ChatCompletionRequestAssistantMessageArgs::build` with nothing but the
/// content set: the message of that content. It has a default for every field,
/// so it always succeeds.
#[verifier::external_body]
fn assistant_message(content: String) -> (r: ChatCompletionRequestMessage)
    ensures
        r == assistant_message_of(content@),
{
    ChatCompletionRequestAssistantMessageArgs::default().content(content).build().unwrap().into()
}

/// `CreateChatCompletionRequestArgs::build` with the model, the limit and the
/// messages set. It has a default for every field, so it always succeeds.
#[verifier::external_body]
fn build_chat_request(
    model: &str,
    max_tokens: u16,
    messages: Vec<ChatCompletionRequestMessage>,
) -> (r: Result<CreateChatCompletionRequest, OpenAIError>)
    ensures
        r is Ok && r->Ok_0 == chat_request_of(model@, max_tokens, messages@),
{
    CreateChatCompletionRequestArgs::default()
        .model(model)
        .max_tokens(max_tokens)
        .messages(messages)
        .build()
}

/// The tokens and their biases, as plain values.
pub open spec fn biases(logit_bias: Seq<(String, i32)>) -> Seq<(Seq<char>, i32)> {
    logit_bias.map_values(|bias: (String, i32)| (bias.0@, bias.1))
}

/// No token has two biases.
pub open spec fn tokens_differ(logit_bias: Seq<(Seq<char>, i32)>) -> bool {
    forall|i: int, j: int| #![trigger logit_bias[i], logit_bias[j]]
        0 <= i < j < logit_bias.len() ==> logit_bias[i].0 != logit_bias[j].0
}

/// `CreateCompletionRequestArgs::build` with these six fields set, where a bias
/// becomes a JSON number. It has a default for every field, so it always
/// succeeds. The request keeps one bias for each token.
#[verifier::external_body]
fn build_completion_request(
    model: &str,
    max_tokens: u16,
    logit_bias: Vec<(String, i32)>,
    prompt: String,
    n: u8,
    stream: bool,
) -> (r: Result<CreateCompletionRequest, OpenAIError>)
    requires
        tokens_differ(biases(logit_bias@)),
    ensures
        r is Ok && r->Ok_0 == completion_request_of(
            model@,
            max_tokens,
            biases(logit_bias@),
            prompt@,
            n,
            stream,
        ),
{
    let number = |bias: i32| serde_json::Number::from_f64(bias.into()).unwrap();
    let json = |bias: i32| serde_json::Value::Number(number(bias));
    let logit_bias = logit_bias.into_iter().map(|(token, bias)| (token, json(bias)));
    CreateCompletionRequestArgs::default()
        .model(model)
        .max_tokens(max_tokens)
        .logit_bias(logit_bias.collect::<std::collections::HashMap<_, _>>())
        .prompt(prompt)
        .n(n)
        .stream(stream)
        .build()
}

/// The smaller of the two models that chats are held with.
pub const GPT_3_5: &'static str = "gpt-3.5-turbo-0125";

/// The larger of the two models that chats are held with.
pub const GPT_4: &'static str = "gpt-4-0125-preview";

/// The role is one that a message is sent in.
pub open spec fn sendable(role: Role) -> bool {
    role == Role::System || role == Role::User || role == Role::Assistant
}

/// The message, as it is sent.
pub open spec fn sent(message: ChatMessage) -> ChatCompletionRequestMessage {
    match message.role {
        Role::System => system_message_of(message.content@),
        Role::User => user_message_of(message.content@),
        _ => assistant_message_of(message.content@),
    }
}

/// The messages that are sent: first the transcript, unless it is empty, as a
/// message of the user, then the messages of the chat in their order.
pub open spec fn all_sent(
    messages: Seq<ChatMessage>,
    transcript: Seq<char>,
) -> Seq<ChatCompletionRequestMessage> {
    let chat = messages.map_values(|message: ChatMessage| sent(message));
    if transcript.len() > 0 {
        seq![user_message_of(transcript)] + chat
    } else {
        chat
    }
}

/// The messages that are sent for a chat and a transcript.
pub fn request_messages(messages: Vec<ChatMessage>, transcript: String) -> (r: Vec<
    ChatCompletionRequestMessage,
>)
    requires
        forall|k: int| #![trigger messages@[k]]
            0 <= k < messages@.len() ==> sendable(messages@[k].role),
    ensures
        r@ == all_sent(messages@, transcript@),
{
    let mut r: Vec<ChatCompletionRequestMessage> = Vec::new();
    let mut k: usize = 0;
    while k < messages.len()
        invariant
            k <= messages@.len(),
            forall|k: int| #![trigger messages@[k]]
                0 <= k < messages@.len() ==> sendable(messages@[k].role),
            r@ == messages@.take(k as int).map_values(|message: ChatMessage| sent(message)),
        decreases messages@.len() - k,
    {
        let content = messages[k].content.clone();
        assert(sendable(messages@[k as int].role));
        let message = match messages[k].role {
            Role::System => system_message(content),
            Role::User => user_message(content),
            _ => assistant_message(content),
        };
        r.push(message);
        k = k + 1;
        assert(r@ =~= messages@.take(k as int).map_values(|message: ChatMessage| sent(message)));
    }
    assert(messages@.take(k as int) =~= messages@);
    if !transcript.as_str().is_empty() {
        let first = user_message(transcript);
        r.insert(0, first);
        assert(r@ =~= all_sent(messages@, transcript@));
    }
    r
}

/// What is asked for a chat and a transcript.
pub open spec fn chat_asked(
    model: Seq<char>,
    messages: Seq<ChatMessage>,
    transcript: Seq<char>,
) -> CreateChatCompletionRequest {
    chat_request_of(model, 4096, all_sent(messages, transcript))
}

/// What is asked for the completion of a prompt.
pub open spec fn completion_asked(prompt: Seq<char>) -> CreateCompletionRequest {
    completion_request_of(
        "gpt-3.5-turbo-instruct"@,
        100,
        suppressed().map_values(|token: Seq<char>| (token, -100i32)),
        prompt,
        1,
        true,
    )
}

/// The request for a chat and a transcript.
pub fn chat_request(model: &str, messages: Vec<ChatMessage>, transcript: String) -> (r:
    CreateChatCompletionRequest)
    requires
        forall|k: int| #![trigger messages@[k]]
            0 <= k < messages@.len() ==> sendable(messages@[k].role),
    ensures
        r == chat_request_of(model@, 4096, all_sent(messages@, transcript@)),
        r == chat_asked(model@, messages@, transcript@),
{
    let messages = request_messages(messages, transcript);
    build_chat_request(model, 4096, messages).unwrap()
}

/// The tokens that must not occur in a completion.
pub open spec fn suppressed() -> Seq<Seq<char>> {
    seq!["198"@, "271"@, "1432"@, "4815"@, "1980"@, "382"@, "720"@, "627"@]
}

proof fn lemma_suppressed_differ()
    ensures
        forall|i: int, j: int| #![trigger suppressed()[i], suppressed()[j]]
            0 <= i < j < suppressed().len() ==> suppressed()[i] != suppressed()[j],
{
    reveal_strlit("198");
    reveal_strlit("271");
    reveal_strlit("1432");
    reveal_strlit("4815");
    reveal_strlit("1980");
    reveal_strlit("382");
    reveal_strlit("720");
    reveal_strlit("627");
    assert forall|i: int, j: int| #![trigger suppressed()[i], suppressed()[j]]
        0 <= i < j < suppressed().len() implies suppressed()[i] != suppressed()[j] by {
        assert(suppressed()[i].len() != suppressed()[j].len() || suppressed()[i][0]
            != suppressed()[j][0] || suppressed()[i][1] != suppressed()[j][1]);
    }
}

/// The request for the completion of a prompt: one answer, streamed, of at most a
/// hundred tokens, and none of them one that is suppressed.
pub fn completion_request(prompt: String) -> (r: CreateCompletionRequest)
    ensures
        r == completion_request_of(
            "gpt-3.5-turbo-instruct"@,
            100,
            suppressed().map_values(|token: Seq<char>| (token, -100i32)),
            prompt@,
            1,
            true,
        ),
        r == completion_asked(prompt@),
{
    let tokens = ["198", "271", "1432", "4815", "1980", "382", "720", "627"];
    let mut logit_bias: Vec<(String, i32)> = Vec::new();
    let mut k: usize = 0;
    while k < 8
        invariant
            k <= 8,
            tokens@ == seq!["198", "271", "1432", "4815", "1980", "382", "720", "627"],
            logit_bias@.len() == k,
            forall|j: int| #![trigger logit_bias@[j]]
                0 <= j < k ==> logit_bias@[j].0@ == suppressed()[j] && logit_bias@[j].1 == -100,
        decreases 8 - k,
    {
        assert(tokens@[k as int]@ == suppressed()[k as int]);
        logit_bias.push((tokens[k].to_owned(), -100));
        k = k + 1;
    }
    assert(biases(logit_bias@) =~= suppressed().map_values(
        |token: Seq<char>| (token, -100i32),
    ));
    proof {
        lemma_suppressed_differ();
        assert forall|i: int, j: int|
            #![trigger biases(logit_bias@)[i], biases(logit_bias@)[j]]
            0 <= i < j < biases(logit_bias@).len() implies biases(logit_bias@)[i].0 != biases(
            logit_bias@,
        )[j].0 by {
            assert(suppressed()[i] != suppressed()[j]);
        }
    }
    build_completion_request("gpt-3.5-turbo-instruct", 100, logit_bias, prompt, 1, true).unwrap()
}

/// The contents among the pieces, in their order.
pub open spec fn contents_of(pieces: Seq<Option<String>>) -> Seq<String>
    decreases pieces.len(),
{
    if pieces.len() == 0 {
        Seq::empty()
    } else {
        match pieces.last() {
            Some(content) => contents_of(pieces.drop_last()).push(content),
            None => contents_of(pieces.drop_last()),
        }
    }
}

/// What a part of a streamed answer brings: the contents of its choices, in
/// their order, of those that have one.
pub fn contents(pieces: &Vec<Option<String>>) -> (r: Vec<String>)
    ensures
        r@ == contents_of(pieces@),
{
    let mut r: Vec<String> = Vec::new();
    let mut k: usize = 0;
    while k < pieces.len()
        invariant
            k <= pieces@.len(),
            r@ == contents_of(pieces@.take(k as int)),
        decreases pieces@.len() - k,
    {
        if let Some(content) = &pieces[k] {
            r.push(content.clone());
        }
        k = k + 1;
        assert(pieces@.take(k as int).drop_last() =~= pieces@.take(k - 1));
    }
    assert(pieces@.take(k as int) =~= pieces@);
    r
}

/// A choice with a content brings that content and one without brings nothing, and
/// what a row of choices brings is what its parts bring, one after the other.
pub proof fn law_every_choice_counts(
    content: String,
    before: Seq<Option<String>>,
    after: Seq<Option<String>>,
)
    ensures
        contents_of(Seq::<Option<String>>::empty()) == Seq::<String>::empty(),
        contents_of(seq![Some(content)]) == seq![content],
        contents_of(seq![None]) == Seq::<String>::empty(),
        contents_of(before + after) == contents_of(before) + contents_of(after),
    decreases after.len(),
{
    let one: Seq<Option<String>> = seq![Some(content)];
    let none: Seq<Option<String>> = seq![None];
    assert(one.drop_last() =~= Seq::<Option<String>>::empty());
    assert(none.drop_last() =~= Seq::<Option<String>>::empty());
    assert(contents_of(one.drop_last()) == Seq::<String>::empty());
    assert(one.last() == Some(content) && none.last() is None);
    assert(contents_of(one) =~= seq![content]);
    if after.len() == 0 {
        assert(before + after =~= before);
        assert(contents_of(before) + contents_of(after) =~= contents_of(before));
    } else {
        law_every_choice_counts(content, before, after.drop_last());
        assert((before + after).drop_last() =~= before + after.drop_last());
        assert((before + after).last() == after.last());
        assert(contents_of(before + after) =~= contents_of(before) + contents_of(after));
    }
}

/// A message is sent in its own role with its own content.
pub proof fn law_messages_are_sent_in_their_roles(message: ChatMessage)
    ensures
        message.role == Role::System ==> sent(message) == system_message_of(message.content@),
        message.role == Role::User ==> sent(message) == user_message_of(message.content@),
        message.role == Role::Assistant ==> sent(message) == assistant_message_of(
            message.content@,
        ),
        sendable(message.role) <==> message.role != Role::Tool && message.role
            != Role::Function,
{
}

/// Every message of the chat is sent, in order and with nothing between. Before
/// them stands the transcript, in the role of the user, unless it is empty.
pub proof fn law_transcript_then_chat(
    messages: Seq<ChatMessage>,
    transcript: Seq<char>,
    k: int,
)
    requires
        0 <= k < messages.len(),
    ensures
        ({
            let all = all_sent(messages, transcript);
            let start: int = if transcript.len() == 0 {
                0
            } else {
                1
            };
            &&& all.len() == start + messages.len()
            &&& start == 1 ==> all[0] == user_message_of(transcript)
            &&& messages[k].role == Role::System ==> all[start + k] == system_message_of(
                messages[k].content@,
            )
            &&& messages[k].role == Role::User ==> all[start + k] == user_message_of(
                messages[k].content@,
            )
            &&& messages[k].role == Role::Assistant ==> all[start + k] == assistant_message_of(
                messages[k].content@,
            )
        }),
{
}

/// Where there is no chat, the transcript alone is sent, if it is not empty.
pub proof fn law_transcript_without_chat(transcript: Seq<char>)
    ensures
        all_sent(Seq::empty(), Seq::empty()).len() == 0,
        transcript.len() > 0 ==> all_sent(Seq::empty(), transcript) == seq![
            user_message_of(transcript),
        ],
{
    assert(transcript.len() > 0 ==> all_sent(Seq::empty(), transcript) =~= seq![
        user_message_of(transcript),
    ]);
}

/// Of the model that was named, an answer of at most four thousand and ninety-six
/// tokens is asked for, to the transcript, if there is one, and the chat.
pub proof fn law_chat_is_asked(
    model: Seq<char>,
    messages: Seq<ChatMessage>,
    transcript: Seq<char>,
    all: Seq<ChatCompletionRequestMessage>,
)
    requires
        all.len() == messages.len() + (if transcript.len() == 0 {
            0int
        } else {
            1int
        }),
        transcript.len() > 0 ==> all[0] == user_message_of(transcript),
        forall|k: int| #![trigger messages[k]]
            0 <= k < messages.len() ==> {
                let message = all[all.len() - messages.len() + k];
                match messages[k].role {
                    Role::System => message == system_message_of(messages[k].content@),
                    Role::User => message == user_message_of(messages[k].content@),
                    _ => message == assistant_message_of(messages[k].content@),
                }
            },
    ensures
        chat_asked(model, messages, transcript) == chat_request_of(model, 4096, all),
{
    let sent_all = all_sent(messages, transcript);
    assert forall|j: int| 0 <= j < all.len() implies all[j] == sent_all[j] by {
        let start = all.len() - messages.len();
        if j >= start {
            let k = j - start;
            assert(messages[k] == messages[j - start]);
            assert(sent_all[j] == sent(messages[k]));
        }
    }
    assert(all =~= sent_all);
}

/// Of the model that completes texts, one answer to the prompt is asked for, of at
/// most a hundred tokens, as it comes, with a bias against each of eight tokens.
pub proof fn law_completion_is_asked(prompt: Seq<char>, biases: Seq<(Seq<char>, i32)>)
    requires
        biases.len() == 8,
        forall|k: int| #![trigger biases[k]] 0 <= k < 8 ==> biases[k].1 == -100,
        biases[0].0 == "198"@,
        biases[1].0 == "271"@,
        biases[2].0 == "1432"@,
        biases[3].0 == "4815"@,
        biases[4].0 == "1980"@,
        biases[5].0 == "382"@,
        biases[6].0 == "720"@,
        biases[7].0 == "627"@,
    ensures
        completion_asked(prompt) == completion_request_of(
            "gpt-3.5-turbo-instruct"@,
            100,
            biases,
            prompt,
            1,
            true,
        ),
{
    let all = suppressed().map_values(|token: Seq<char>| (token, -100i32));
    assert forall|k: int| 0 <= k < 8 implies biases[k] == all[k] by {
        assert(biases[k].1 == -100);
    }
    assert(biases =~= all);
}

} // verus!
