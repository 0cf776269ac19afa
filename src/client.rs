//! Client configuration: where requests go and with which key.
use vstd::prelude::*;

verus! {

/// Settings read at start-up.
pub struct OpenAIClientConfig {
    pub base_url: Option<String>,
    pub api_key: String,
}

/// Where requests are sent and the bearer token they carry.
pub struct OpenAIClient {
    pub base_url: String,
    pub api_key: String,
}

pub open spec fn default_base_url() -> Seq<char> {
    "https://api.openai.com/v1"@
}

impl OpenAIClient {
    /// Uses the configured base URL, or the public endpoint when none is set.
    pub fn new(cfg: OpenAIClientConfig) -> (r: Self)
        ensures
            r.api_key == cfg.api_key,
            cfg.base_url matches Some(u) ==> r.base_url == u,
            cfg.base_url is None ==> r.base_url@ == default_base_url(),
    {
        let base_url = match cfg.base_url {
            Some(u) => u,
            None => String::from_str("https://api.openai.com/v1"),
        };
        OpenAIClient { base_url, api_key: cfg.api_key }
    }

    /// The endpoint of streamed chat completions.
    pub fn chat_completions_url(&self) -> (r: String)
        ensures
            r@ == self.base_url@ + "/chat/completions"@,
    {
        self.base_url.clone().concat("/chat/completions")
    }
}

/// Asks single questions and keeps no context.
pub struct CompletionClient {
    openai_client: OpenAIClient,
}

impl CompletionClient {
    pub closed spec fn endpoint(&self) -> OpenAIClient {
        self.openai_client
    }

    pub fn new(openai_cfg: OpenAIClientConfig) -> (r: Self)
        ensures
            r.endpoint().api_key == openai_cfg.api_key,
            openai_cfg.base_url matches Some(u) ==> r.endpoint().base_url == u,
            openai_cfg.base_url is None ==> r.endpoint().base_url@ == default_base_url(),
    {
        CompletionClient { openai_client: OpenAIClient::new(openai_cfg) }
    }

    pub fn openai_client(&self) -> (r: &OpenAIClient)
        ensures
            *r == self.endpoint(),
    {
        &self.openai_client
    }
}

/// Asks questions, alone or within a conversation.
pub struct Client {
    openai_client: OpenAIClient,
}

impl Client {
    pub closed spec fn endpoint(&self) -> OpenAIClient {
        self.openai_client
    }

    pub fn new(openai_cfg: OpenAIClientConfig) -> (r: Self)
        ensures
            r.endpoint().api_key == openai_cfg.api_key,
            openai_cfg.base_url matches Some(u) ==> r.endpoint().base_url == u,
            openai_cfg.base_url is None ==> r.endpoint().base_url@ == default_base_url(),
    {
        Client { openai_client: OpenAIClient::new(openai_cfg) }
    }

    pub fn openai_client(&self) -> (r: &OpenAIClient)
        ensures
            *r == self.endpoint(),
    {
        &self.openai_client
    }
}

} // verus!
