use vstd::prelude::*;

verus! {

/// The chat models a request can name.
#[derive(Debug, Clone, Copy, PartialEq, Eq, Structural)]
pub enum CompletionModel {
    GPT3_5Turbo,
    GPT4Turbo,
}

/// Wire name of a model.
pub open spec fn model_name(m: CompletionModel) -> Seq<char> {
    match m {
        CompletionModel::GPT3_5Turbo => "gpt-3.5-turbo"@,
        CompletionModel::GPT4Turbo => "gpt-4-turbo"@,
    }
}

impl CompletionModel {
    /// The identifier the API knows the model by.
    pub fn name(&self) -> (r: String)
        ensures
            r@ == model_name(*self),
    {
        match self {
            CompletionModel::GPT3_5Turbo => String::from_str("gpt-3.5-turbo"),
            CompletionModel::GPT4Turbo => String::from_str("gpt-4-turbo"),
        }
    }
}

/// Author of a conversation message.
#[derive(Debug, Clone, Copy, PartialEq, Eq, Structural)]
pub enum CompletionRole {
    System,
    User,
    Assistant,
}

/// Wire name of a role.
pub open spec fn role_name(r: CompletionRole) -> Seq<char> {
    match r {
        CompletionRole::System => "system"@,
        CompletionRole::User => "user"@,
        CompletionRole::Assistant => "assistant"@,
    }
}

impl CompletionRole {
    /// The name a role carries in the request body.
    pub fn name(&self) -> (r: String)
        ensures
            r@ == role_name(*self),
    {
        match self {
            CompletionRole::System => String::from_str("system"),
            CompletionRole::User => String::from_str("user"),
            CompletionRole::Assistant => String::from_str("assistant"),
        }
    }

    /// The role whose wire name is `s`, if there is one.
    pub fn from_name(s: &str) -> (r: Option<CompletionRole>)
        ensures
            r matches Some(role) ==> role_name(role) == s@,
            r is None ==> forall|role: CompletionRole| role_name(role) != s@,
    {
        proof {
            reveal_strlit("system");
            reveal_strlit("user");
            reveal_strlit("assistant");
        }
        let given = String::from_str(s);
        if given == String::from_str("system") {
            Some(CompletionRole::System)
        } else if given == String::from_str("user") {
            Some(CompletionRole::User)
        } else if given == String::from_str("assistant") {
            Some(CompletionRole::Assistant)
        } else {
            None
        }
    }
}

/// Naming a role and reading the name back gives the same role.
pub proof fn lemma_role_name_round_trip(role: CompletionRole)
    ensures
        forall|other: CompletionRole| role_name(other) == role_name(role) ==> other == role,
{
    reveal_strlit("system");
    reveal_strlit("user");
    reveal_strlit("assistant");
    assert forall|other: CompletionRole| role_name(other) == role_name(role) implies other == role by {
        if other != role {
            assert(role_name(other).len() != role_name(role).len() || role_name(other)[0]
                != role_name(role)[0]);
        }
    }
}

/// One message of a conversation.
#[derive(Debug)]
pub struct CompletionMessage {
    pub role: CompletionRole,
    pub content: String,
}

impl Clone for CompletionMessage {
    fn clone(&self) -> (r: Self)
        ensures
            r == *self,
    {
        CompletionMessage { role: self.role, content: self.content.clone() }
    }
}

/// The instruction that opens every request.
pub open spec fn system_preamble() -> Seq<char> {
    "You are a helpful assistant."@
}

impl CompletionMessage {
    pub fn default_system_message() -> (r: Self)
        ensures
            r.role == CompletionRole::System,
            r.content@ == system_preamble(),
    {
        CompletionMessage {
            role: CompletionRole::System,
            content: String::from_str("You are a helpful assistant."),
        }
    }

    pub fn new_user_message(content: String) -> (r: Self)
        ensures
            r.role == CompletionRole::User,
            r.content == content,
    {
        CompletionMessage { role: CompletionRole::User, content }
    }

    pub fn new_assistant_message(content: String) -> (r: Self)
        ensures
            r.role == CompletionRole::Assistant,
            r.content == content,
    {
        CompletionMessage { role: CompletionRole::Assistant, content }
    }
}

/// The body of a chat-completion request.
#[derive(Debug)]
pub struct CompletionRequest {
    pub model: CompletionModel,
    pub messages: Vec<CompletionMessage>,
    pub stream: bool,
}

/// One decoded event of a streamed completion.
#[derive(Debug)]
pub struct CompletionChunk {
    pub id: String,
    pub object: String,
    pub created: u64,
    pub model: String,
    pub system_fingerprint: Option<String>,
    pub choices: Vec<CompletionChoice>,
}

#[derive(Debug)]
pub struct CompletionChoice {
    pub index: u64,
    pub delta: CompletionChoiceDelta,
    pub finish_reason: Option<String>,
}

#[derive(Debug)]
pub struct CompletionChoiceDelta {
    pub content: Option<String>,
}

/// The text a chunk adds to the answer: the delta of its first choice, or
/// nothing when it has no choice or the delta carries no text.
pub open spec fn chunk_delta(c: CompletionChunk) -> Seq<char> {
    if c.choices@.len() == 0 {
        Seq::empty()
    } else {
        match c.choices@[0].delta.content {
            Some(s) => s@,
            None => Seq::empty(),
        }
    }
}

} // verus!
