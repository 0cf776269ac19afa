use chat_stream::model::{CompletionChoice, CompletionChoiceDelta, CompletionChunk};
use chat_stream::reader::{CompletionContentReader, CompletionStreamReader, StreamStep};
use serde_json::Value;

fn opt_string(v: &Value) -> Option<Option<String>> {
    match v {
        Value::Null => Some(None),
        Value::String(s) => Some(Some(s.clone())),
        _ => None,
    }
}

/// Decodes a chunk payload; `None` where the JSON is malformed or lacks a field.
fn decode(payload: &[u8]) -> Option<CompletionChunk> {
    let v: Value = serde_json::from_slice(payload).ok()?;
    let mut choices = Vec::new();
    for c in v.get("choices")?.as_array()? {
        let content = match c.get("delta")?.get("content") {
            None => None,
            Some(x) => opt_string(x)?,
        };
        let finish_reason = match c.get("finish_reason") {
            None => None,
            Some(x) => opt_string(x)?,
        };
        choices.push(CompletionChoice {
            index: c.get("index")?.as_u64()?,
            delta: CompletionChoiceDelta { content },
            finish_reason,
        });
    }
    Some(CompletionChunk {
        id: v.get("id")?.as_str()?.to_string(),
        object: v.get("object")?.as_str()?.to_string(),
        created: v.get("created")?.as_u64()?,
        model: v.get("model")?.as_str()?.to_string(),
        system_fingerprint: match v.get("system_fingerprint") {
            None => None,
            Some(x) => opt_string(x)?,
        },
        choices,
    })
}

/// Pulls the next accumulated answer, `None` at the end of the stream.
fn next_content(reader: &mut CompletionContentReader) -> Option<String> {
    loop {
        match reader.next_step() {
            StreamStep::Payload(p) => {
                if let Some(s) = reader.apply_decoded(decode(&p)) {
                    return Some(s);
                }
            }
            StreamStep::NeedBytes => reader.close_transport(),
            StreamStep::Finished => return None,
        }
    }
}

fn chunk(delta: Option<&str>) -> CompletionChunk {
    CompletionChunk {
        id: "1".to_string(),
        object: "chat.completion.chunk".to_string(),
        created: 0,
        model: "gpt-3.5-turbo".to_string(),
        system_fingerprint: None,
        choices: vec![CompletionChoice {
            index: 0,
            delta: CompletionChoiceDelta { content: delta.map(|s| s.to_string()) },
            finish_reason: None,
        }],
    }
}

fn empty_chunk() -> CompletionChunk {
    let mut c = chunk(None);
    c.choices.clear();
    c
}

#[test]
fn end_to_end_hi_then_end() {
    let raw = "data: {\"id\":\"1\",\"object\":\"chat.completion.chunk\",\"created\":1,\"model\":\"gpt-3.5-turbo\",\"choices\":[{\"index\":0,\"delta\":{\"content\":\"Hi\"},\"finish_reason\":null}]}\n\ndata: [DONE]\n\n";
    let mut stream = CompletionStreamReader::new();
    stream.feed(raw.as_bytes()).unwrap();
    let mut reader = stream.to_content_reader();
    assert_eq!(next_content(&mut reader), Some("Hi".to_string()));
    assert_eq!(next_content(&mut reader), None);
}

#[test]
fn malformed_payloads_are_skipped() {
    let good = "{\"id\":\"1\",\"object\":\"o\",\"created\":1,\"model\":\"m\",\"choices\":[{\"index\":0,\"delta\":{\"content\":\"ab\"},\"finish_reason\":null}]}";
    let raw = format!("data: {{not json\n\ndata: {good}\n\ndata: {{\"id\":3}}\n\ndata: {good}\n\ndata: [DONE]\n\n");
    let mut stream = CompletionStreamReader::new();
    stream.feed(raw.as_bytes()).unwrap();
    let mut reader = CompletionContentReader::new(stream);
    assert_eq!(next_content(&mut reader), Some("ab".to_string()));
    assert_eq!(next_content(&mut reader), Some("abab".to_string()));
    assert_eq!(next_content(&mut reader), None);
}

#[test]
fn empty_choices_keep_the_answer() {
    let mut reader = CompletionContentReader::new(CompletionStreamReader::new());
    assert_eq!(reader.apply_decoded(Some(chunk(Some("Hel")))), Some("Hel".to_string()));
    assert_eq!(reader.apply_decoded(Some(empty_chunk())), Some("Hel".to_string()));
    assert_eq!(reader.apply_decoded(Some(chunk(Some("lo")))), Some("Hello".to_string()));
}

#[test]
fn missing_delta_repeats_the_answer() {
    let mut reader = CompletionContentReader::new(CompletionStreamReader::new());
    assert_eq!(reader.apply_decoded(Some(chunk(None))), Some(String::new()));
    assert_eq!(reader.apply_decoded(Some(chunk(Some("x")))), Some("x".to_string()));
    assert_eq!(reader.apply_decoded(None), None);
    assert_eq!(reader.apply_decoded(Some(chunk(None))), Some("x".to_string()));
}

#[test]
fn answers_extend_each_other() {
    let mut reader = CompletionContentReader::new(CompletionStreamReader::new());
    let mut last = String::new();
    for d in [Some("a"), None, Some("bc"), Some(""), Some("d")] {
        let now = reader.apply_decoded(Some(chunk(d))).unwrap();
        assert!(now.starts_with(&last));
        last = now;
    }
    assert_eq!(last, "abcd");
}
