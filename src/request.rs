//! The outbound request: which messages it carries, and its JSON body
//! `{"model":…,"messages":[{"role":…,"content":…},…],"stream":…}`.
use crate::conversation::Conversation;
use crate::model::{
    model_name, role_name, system_preamble, CompletionMessage, CompletionModel, CompletionRequest,
    CompletionRole,
};
use vstd::prelude::*;

verus! {

/// Lowercase hexadecimal digits.
pub open spec fn hex_digits() -> Seq<char> {
    seq!['0', '1', '2', '3', '4', '5', '6', '7', '8', '9', 'a', 'b', 'c', 'd', 'e', 'f']
}

/// How one character is written inside a JSON string: quote and backslash
/// behind a backslash, the five control characters with a short form by that
/// form, every other control character as `\u00` and two hex digits, and
/// anything else as itself.
pub open spec fn escape_char(c: char) -> Seq<char> {
    if c == '"' {
        seq!['\\', '"']
    } else if c == '\\' {
        seq!['\\', '\\']
    } else if c == '\x08' {
        seq!['\\', 'b']
    } else if c == '\t' {
        seq!['\\', 't']
    } else if c == '\n' {
        seq!['\\', 'n']
    } else if c == '\x0c' {
        seq!['\\', 'f']
    } else if c == '\r' {
        seq!['\\', 'r']
    } else if (c as int) < 32 {
        seq!['\\', 'u', '0', '0', hex_digits()[(c as int) / 16], hex_digits()[(c as int) % 16]]
    } else {
        seq![c]
    }
}

/// The characters of `s`, each escaped.
pub open spec fn escape_text(s: Seq<char>) -> Seq<char>
    decreases s.len(),
{
    if s.len() == 0 {
        Seq::empty()
    } else {
        escape_char(s[0]) + escape_text(s.drop_first())
    }
}

/// The JSON string literal that denotes `s`: its escaped text in quotes.
pub open spec fn json_string_literal(s: Seq<char>) -> Seq<char> {
    seq!['"'] + escape_text(s) + seq!['"']
}

proof fn lemma_escape_char_nonempty(c: char)
    ensures
        escape_char(c).len() >= 1,
        escape_char(c)[0] != '\\' ==> escape_char(c) == seq![c],
{
}

/// Two escaped characters that start the same text are the same character.
proof fn lemma_escape_char_prefix_free(c: char, d: char, x: Seq<char>, y: Seq<char>)
    requires
        escape_char(c) + x == escape_char(d) + y,
    ensures
        c == d,
{
    let ec = escape_char(c);
    let ed = escape_char(d);
    let t = ec + x;
    lemma_escape_char_nonempty(c);
    lemma_escape_char_nonempty(d);
    assert(t[0] == ec[0] && t[0] == ed[0]);
    if ec[0] == '\\' {
        assert(ec.len() >= 2 && ed.len() >= 2);
        assert(t[1] == ec[1] && t[1] == ed[1]);
        if ec[1] == 'u' {
            assert(ec.len() == 6 && ed.len() == 6);
            assert(t[4] == ec[4] && t[4] == ed[4]);
            assert(t[5] == ec[5] && t[5] == ed[5]);
            let hc = (c as int) / 16;
            let hd = (d as int) / 16;
            let lc = (c as int) % 16;
            let ld = (d as int) % 16;
            assert(hex_digits()[hc] == hex_digits()[hd]);
            assert(hex_digits()[lc] == hex_digits()[ld]);
            assert(hc == hd && lc == ld);
            assert((c as int) == (d as int));
        }
    }
}

/// Distinct texts have distinct escaped forms.
proof fn lemma_escape_text_injective(a: Seq<char>, b: Seq<char>)
    requires
        escape_text(a) == escape_text(b),
    ensures
        a == b,
    decreases a.len() + b.len(),
{
    if a.len() == 0 && b.len() == 0 {
        assert(a =~= b);
    } else if a.len() == 0 {
        lemma_escape_char_nonempty(b[0]);
    } else if b.len() == 0 {
        lemma_escape_char_nonempty(a[0]);
    } else {
        lemma_escape_char_prefix_free(a[0], b[0], escape_text(a.drop_first()), escape_text(
            b.drop_first(),
        ));
        let e = escape_char(a[0]);
        assert(escape_text(a.drop_first()) =~= escape_text(a).subrange(e.len() as int, escape_text(a).len() as int));
        assert(escape_text(b.drop_first()) =~= escape_text(b).subrange(e.len() as int, escape_text(b).len() as int));
        lemma_escape_text_injective(a.drop_first(), b.drop_first());
        assert(a =~= seq![a[0]] + a.drop_first());
        assert(b =~= seq![b[0]] + b.drop_first());
    }
}

/// A text can be read back from its JSON string literal: distinct texts
/// have distinct literals.
pub proof fn lemma_json_string_literal_injective(a: Seq<char>, b: Seq<char>)
    requires
        json_string_literal(a) == json_string_literal(b),
    ensures
        a == b,
{
    let la = json_string_literal(a);
    let lb = json_string_literal(b);
    assert(escape_text(a) =~= la.subrange(1, la.len() - 1));
    assert(escape_text(b) =~= lb.subrange(1, lb.len() - 1));
    lemma_escape_text_injective(a, b);
}

/// Relies on serde_json::to_string applied to a `str`: it writes into a
/// vector, which cannot fail, the text in quotes with `"`, `\\` and the
/// control characters escaped as above (format_escaped_str and
/// write_char_escape).
#[verifier::external_body]
fn quote_json(s: &str) -> (r: Option<String>)
    ensures
        r is Some,
        r matches Some(q) ==> q@ == json_string_literal(s@),
{
    serde_json::to_string(s).ok()
}

pub open spec fn message_json(m: CompletionMessage) -> Seq<char> {
    "{\"role\":"@ + json_string_literal(role_name(m.role)) + ",\"content\":"@
        + json_string_literal(m.content@) + "}"@
}

/// A message can be read back from its JSON object: two messages with the
/// same object have the same role and the same content.
pub proof fn lemma_message_json_round_trip(m1: CompletionMessage, m2: CompletionMessage)
    requires
        message_json(m1) == message_json(m2),
    ensures
        m1.role == m2.role,
        m1.content@ == m2.content@,
{
    reveal_strlit("{\"role\":");
    reveal_strlit(",\"content\":");
    reveal_strlit("}");
    reveal_strlit("system");
    reveal_strlit("user");
    reveal_strlit("assistant");
    let n1 = role_name(m1.role);
    let n2 = role_name(m2.role);
    assert(escape_text(n1)[0] == n1[0]);
    assert(escape_text(n2)[0] == n2[0]);
    assert(message_json(m1)[9] == n1[0]);
    assert(message_json(m2)[9] == n2[0]);
    assert(m1.role == m2.role);
    let j = message_json(m1);
    let k: int = 8 + json_string_literal(n1).len() as int + 11;
    assert(json_string_literal(m1.content@) =~= j.subrange(k, j.len() as int - 1));
    assert(json_string_literal(m2.content@) =~= message_json(m2).subrange(k, j.len() as int - 1));
    lemma_json_string_literal_injective(m1.content@, m2.content@);
}

/// The messages as JSON objects, separated by commas.
pub open spec fn messages_json(ms: Seq<CompletionMessage>) -> Seq<char>
    decreases ms.len(),
{
    if ms.len() == 0 {
        Seq::empty()
    } else if ms.len() == 1 {
        message_json(ms[0])
    } else {
        messages_json(ms.drop_last()) + ","@ + message_json(ms.last())
    }
}

pub open spec fn bool_json(b: bool) -> Seq<char> {
    if b {
        "true"@
    } else {
        "false"@
    }
}

/// The JSON body of a request.
pub open spec fn request_json(r: CompletionRequest) -> Seq<char> {
    "{\"model\":"@ + json_string_literal(model_name(r.model)) + ",\"messages\":["@
        + messages_json(r.messages@) + "],\"stream\":"@ + bool_json(r.stream) + "}"@
}

/// Appends the JSON object of `m` to `out`.
fn push_message_json(out: &mut String, m: &CompletionMessage)
    ensures
        final(out)@ == old(out)@ + message_json(*m),
{
    let role = m.role.name();
    let quoted_role = quote_json(role.as_str()).unwrap();
    let quoted_content = quote_json(m.content.as_str()).unwrap();
    out.append("{\"role\":");
    out.append(quoted_role.as_str());
    out.append(",\"content\":");
    out.append(quoted_content.as_str());
    out.append("}");
    assert(out@ =~= old(out)@ + message_json(*m));
}

impl CompletionRequest {
    /// A streamed request with the system message and then `prompt` from
    /// the user.
    pub fn for_prompt(prompt: String, model: CompletionModel) -> (r: Self)
        ensures
            r.model == model,
            r.stream,
            r.messages@.len() == 2,
            r.messages@[0].role == CompletionRole::System,
            r.messages@[0].content@ == system_preamble(),
            r.messages@[1] == (CompletionMessage { role: CompletionRole::User, content: prompt }),
    {
        let mut messages: Vec<CompletionMessage> = Vec::new();
        messages.push(CompletionMessage::default_system_message());
        messages.push(CompletionMessage::new_user_message(prompt));
        CompletionRequest { model, messages, stream: true }
    }

    /// A streamed request with the system message, the history of
    /// `conversation`, and then `prompt` from the user.
    pub fn for_conversation(conversation: &Conversation, prompt: String, model: CompletionModel) -> (r: Self)
        requires
            conversation.wf(),
        ensures
            r.model == model,
            r.stream,
            r.messages@.len() == conversation.messages().len() + 2,
            r.messages@[0].role == CompletionRole::System,
            r.messages@[0].content@ == system_preamble(),
            r.messages@.subrange(1, r.messages@.len() - 1) == conversation.messages(),
            r.messages@.last() == (CompletionMessage { role: CompletionRole::User, content: prompt }),
    {
        CompletionRequest { model, messages: conversation.request_messages(prompt), stream: true }
    }

    /// The JSON body of the request.
    pub fn to_json_body(&self) -> (r: String)
        ensures
            r@ == request_json(*self),
    {
        let name = self.model.name();
        let quoted_model = quote_json(name.as_str()).unwrap();
        let mut out = String::from_str("{\"model\":");
        out.append(quoted_model.as_str());
        out.append(",\"messages\":[");
        let ghost head = out@;
        let mut i: usize = 0;
        while i < self.messages.len()
            invariant
                i <= self.messages@.len(),
                out@ == head + messages_json(self.messages@.take(i as int)),
            decreases self.messages@.len() - i,
        {
            let ghost before = out@;
            if i > 0 {
                out.append(",");
            }
            push_message_json(&mut out, &self.messages[i]);
            proof {
                let taken = self.messages@.take(i + 1);
                assert(taken.drop_last() =~= self.messages@.take(i as int));
                assert(taken.last() == self.messages@[i as int]);
                if i == 0 {
                    assert(self.messages@.take(0) =~= Seq::<CompletionMessage>::empty());
                    assert(out@ =~= head + messages_json(taken));
                } else {
                    assert(out@ =~= head + messages_json(taken));
                }
            }
            i = i + 1;
        }
        assert(self.messages@.take(i as int) =~= self.messages@);
        out.append("],\"stream\":");
        if self.stream {
            out.append("true");
        } else {
            out.append("false");
        }
        out.append("}");
        assert(out@ =~= request_json(*self));
        out
    }
}

} // verus!
