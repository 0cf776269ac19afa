use chat_stream::client::{Client, CompletionClient, OpenAIClient, OpenAIClientConfig};
use chat_stream::conversation::Conversation;
use chat_stream::model::{CompletionMessage, CompletionModel, CompletionRequest, CompletionRole};
use serde_json::Value;

#[test]
fn message_round_trips_through_json_body() {
    let req = CompletionRequest {
        model: CompletionModel::GPT3_5Turbo,
        messages: vec![CompletionMessage { role: CompletionRole::User, content: "hello".to_string() }],
        stream: true,
    };
    let body = req.to_json_body();
    let v: Value = serde_json::from_str(&body).unwrap();
    let m = &v["messages"][0];
    let role = CompletionRole::from_name(m["role"].as_str().unwrap());
    assert_eq!(role, Some(CompletionRole::User));
    assert_eq!(m["content"].as_str(), Some("hello"));
}

#[test]
fn json_body_has_exact_shape() {
    let req = CompletionRequest::for_prompt("say \"hi\"\n".to_string(), CompletionModel::GPT4Turbo);
    assert_eq!(
        req.to_json_body(),
        "{\"model\":\"gpt-4-turbo\",\"messages\":[{\"role\":\"system\",\"content\":\"You are a helpful assistant.\"},{\"role\":\"user\",\"content\":\"say \\\"hi\\\"\\n\"}],\"stream\":true}"
    );
    let empty = CompletionRequest { model: CompletionModel::GPT3_5Turbo, messages: vec![], stream: false };
    assert_eq!(
        empty.to_json_body(),
        "{\"model\":\"gpt-3.5-turbo\",\"messages\":[],\"stream\":false}"
    );
}

#[test]
fn conversation_request_body_orders_messages() {
    let mut c = Conversation::new(50);
    c.append(CompletionMessage::new_user_message("q1".to_string()), 3);
    c.append(CompletionMessage::new_assistant_message("a1".to_string()), 3);
    let req = CompletionRequest::for_conversation(&c, "q2".to_string(), CompletionModel::GPT3_5Turbo);
    let v: Value = serde_json::from_str(&req.to_json_body()).unwrap();
    let roles: Vec<&str> = v["messages"].as_array().unwrap().iter().map(|m| m["role"].as_str().unwrap()).collect();
    assert_eq!(roles, vec!["system", "user", "assistant", "user"]);
    assert_eq!(v["messages"][3]["content"], "q2");
    assert_eq!(v["stream"], true);
}

#[test]
fn role_and_model_names() {
    for r in [CompletionRole::System, CompletionRole::User, CompletionRole::Assistant] {
        assert_eq!(CompletionRole::from_name(&r.name()), Some(r));
    }
    assert_eq!(CompletionRole::from_name("robot"), None);
    assert_eq!(CompletionModel::GPT3_5Turbo.name(), "gpt-3.5-turbo");
    assert_eq!(CompletionModel::GPT4Turbo.name(), "gpt-4-turbo");
}

#[test]
fn default_messages() {
    let s = CompletionMessage::default_system_message();
    assert_eq!(s.role, CompletionRole::System);
    assert_eq!(s.content, "You are a helpful assistant.");
    let u = CompletionMessage::new_user_message("hey".to_string());
    assert_eq!(u.role, CompletionRole::User);
    assert_eq!(u.content, "hey");
}

#[test]
fn client_base_url_defaults() {
    let c = OpenAIClient::new(OpenAIClientConfig { base_url: None, api_key: "k".to_string() });
    assert_eq!(c.base_url, "https://api.openai.com/v1");
    assert_eq!(c.api_key, "k");
    assert_eq!(c.chat_completions_url(), "https://api.openai.com/v1/chat/completions");
    let c = CompletionClient::new(OpenAIClientConfig { base_url: Some("http://localhost:8080".to_string()), api_key: "k".to_string() });
    assert_eq!(c.openai_client().chat_completions_url(), "http://localhost:8080/chat/completions");
    let c = Client::new(OpenAIClientConfig { base_url: None, api_key: "z".to_string() });
    assert_eq!(c.openai_client().api_key, "z");
}

#[test]
fn json_body_escapes_control_characters() {
    let req = CompletionRequest {
        model: CompletionModel::GPT3_5Turbo,
        messages: vec![CompletionMessage::new_assistant_message("a\u{1}\t\\/\u{8}\u{c}\r\u{1f}é\u{7f}".to_string())],
        stream: true,
    };
    assert_eq!(
        req.to_json_body(),
        "{\"model\":\"gpt-3.5-turbo\",\"messages\":[{\"role\":\"assistant\",\"content\":\"a\\u0001\\t\\\\/\\b\\f\\r\\u001fé\u{7f}\"}],\"stream\":true}"
    );
    let v: Value = serde_json::from_str(&req.to_json_body()).unwrap();
    assert_eq!(v["messages"][0]["content"], "a\u{1}\t\\/\u{8}\u{c}\r\u{1f}é\u{7f}");
}
