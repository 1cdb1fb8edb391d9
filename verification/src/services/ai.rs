//! The AI chat assistant: whether it is configured, the requests it makes, and how its
//! answers are read.

use vstd::prelude::*;
use vstd::string::*;
use crate::json::{jsons_view, jv_get, jv_str, Json, JsonView};

verus! {

/// Why a chat could not be answered.
pub enum AiError {
    /// No OpenAI key is configured.
    NotConfigured,
    /// The request failed; the reason.
    RequestFailed(String),
}

/// Where the assistant's models are reached.
pub struct AiConfig {
    pub openai_key: Option<String>,
    pub openai_model: Option<String>,
    pub ollama_url: Option<String>,
    pub ollama_model: Option<String>,
}

impl AiConfig {
    /// The assistant is enabled when an OpenAI key or an Ollama address is configured.
    pub fn is_enabled(&self) -> (r: bool)
        ensures
            r == (self.openai_key is Some || self.ollama_url is Some),
    {
        self.openai_key.is_some() || self.ollama_url.is_some()
    }
}

/// One message of a chat.
pub struct ChatMessage {
    pub role: String,
    pub content: String,
}

/// The request a chat sends to OpenAI.
pub struct ChatRequest {
    /// The bearer key.
    pub key: String,
    /// The model asked for.
    pub model: String,
    /// The JSON body.
    pub body: Json,
}

/// `{"role": .., "content": ..}`, as a message is serialized.
pub open spec fn message_json(role: Seq<char>, content: Seq<char>) -> JsonView {
    JsonView::Object(seq![("role"@, JsonView::Str(role)), ("content"@, JsonView::Str(content))])
}

pub open spec fn messages_json(ms: Seq<ChatMessage>) -> Seq<JsonView> {
    ms.map_values(|m: ChatMessage| message_json(m.role@, m.content@))
}

/// The model a chat uses: the configured one, else `gpt-4.1-mini`.
pub open spec fn model_of(config: AiConfig) -> Seq<char> {
    match config.openai_model {
        Some(m) => m@,
        None => "gpt-4.1-mini"@,
    }
}

/// The body of a chat request: the model and messages, and `"stream": true` when streaming.
pub open spec fn chat_body(model: Seq<char>, ms: Seq<ChatMessage>, stream: bool) -> JsonView {
    if stream {
        JsonView::Object(
            seq![
                ("model"@, JsonView::Str(model)),
                ("messages"@, JsonView::Array(messages_json(ms))),
                ("stream"@, JsonView::Bool(true)),
            ],
        )
    } else {
        JsonView::Object(
            seq![("model"@, JsonView::Str(model)), ("messages"@, JsonView::Array(messages_json(ms)))],
        )
    }
}

/// `value[key]`: the member, or null.
pub open spec fn index_key(j: JsonView, key: Seq<char>) -> JsonView {
    match jv_get(j, key) {
        Some(v) => v,
        None => JsonView::Null,
    }
}

/// `value[i]`: the element, or null.
pub open spec fn index_pos(j: JsonView, i: int) -> JsonView {
    match j {
        JsonView::Array(xs) => if 0 <= i < xs.len() {
            xs[i]
        } else {
            JsonView::Null
        },
        _ => JsonView::Null,
    }
}

/// The answer in a completion: `choices[0].message.content` when it is a string, else empty.
pub open spec fn completion_content(resp: JsonView) -> Seq<char> {
    match jv_str(Some(index_key(index_key(index_pos(index_key(resp, "choices"@), 0), "message"@), "content"@))) {
        Some(s) => s,
        None => seq![],
    }
}

fn index_key_exec<'a>(j: &'a Json, key: &str) -> (r: Option<&'a Json>)
    ensures
        match r {
            Some(v) => index_key(j@, key@) == v@,
            None => index_key(j@, key@) == JsonView::Null,
        },
{
    j.get(key)
}

fn members(pairs: Vec<(String, Json)>) -> (r: Json)
    ensures
        r@ == JsonView::Object(pairs@.map_values(|p: (String, Json)| (p.0@, p.1@))),
{
    proof {
        crate::json::lemma_view_object(pairs);
        assert(Seq::new(pairs@.len(), |i: int| (pairs@[i].0@, pairs@[i].1@)) =~= pairs@.map_values(
            |p: (String, Json)| (p.0@, p.1@),
        ));
    }
    Json::Object(pairs)
}

pub struct AiService;

impl AiService {
    /// Whether the assistant is available.
    pub fn check(config: &AiConfig) -> (r: bool)
        ensures
            r == (config.openai_key is Some || config.ollama_url is Some),
    {
        config.is_enabled()
    }

    /// The request a chat sends: `NotConfigured` without an OpenAI key.
    pub fn chat_request(config: &AiConfig, messages: &Vec<ChatMessage>, stream: bool) -> (r: Result<ChatRequest, AiError>)
        ensures
            match r {
                Ok(req) => {
                    &&& config.openai_key matches Some(k) && req.key@ == k@
                    &&& req.model@ == model_of(*config)
                    &&& req.body@ == chat_body(model_of(*config), messages@, stream)
                },
                Err(e) => config.openai_key is None && e is NotConfigured,
            },
    {
        let key = match &config.openai_key {
            Some(k) => k.clone(),
            None => {
                return Err(AiError::NotConfigured);
            },
        };
        let model = match &config.openai_model {
            Some(m) => m.clone(),
            None => "gpt-4.1-mini".to_string(),
        };
        let mut msgs: Vec<Json> = Vec::new();
        let mut i: usize = 0;
        while i < messages.len()
            invariant
                i <= messages@.len(),
                jsons_view(msgs@) == messages_json(messages@.take(i as int)),
            decreases messages@.len() - i,
        {
            let mut pairs: Vec<(String, Json)> = Vec::new();
            pairs.push(("role".to_string(), Json::string(messages[i].role.clone())));
            pairs.push(("content".to_string(), Json::string(messages[i].content.clone())));
            let m = members(pairs);
            assert(pairs@.map_values(|p: (String, Json)| (p.0@, p.1@)) =~= seq![
                ("role"@, JsonView::Str(messages@[i as int].role@)),
                ("content"@, JsonView::Str(messages@[i as int].content@)),
            ]);
            let ghost before = msgs@;
            msgs.push(m);
            assert(jsons_view(msgs@) =~= jsons_view(before).push(m@));
            assert(messages_json(messages@.take(i + 1)) =~= messages_json(messages@.take(i as int)).push(
                message_json(messages@[i as int].role@, messages@[i as int].content@),
            ));
            i = i + 1;
        }
        assert(messages@.take(i as int) =~= messages@);
        let mut pairs: Vec<(String, Json)> = Vec::new();
        pairs.push(("model".to_string(), Json::string(model.clone())));
        pairs.push(("messages".to_string(), Json::array(msgs)));
        if stream {
            pairs.push(("stream".to_string(), Json::Bool(true)));
        }
        let body = members(pairs);
        assert(body@ == chat_body(model@, messages@, stream)) by {
            if stream {
                assert(pairs@.map_values(|p: (String, Json)| (p.0@, p.1@)) =~= seq![
                    ("model"@, JsonView::Str(model@)),
                    ("messages"@, JsonView::Array(messages_json(messages@))),
                    ("stream"@, JsonView::Bool(true)),
                ]);
            } else {
                assert(pairs@.map_values(|p: (String, Json)| (p.0@, p.1@)) =~= seq![
                    ("model"@, JsonView::Str(model@)),
                    ("messages"@, JsonView::Array(messages_json(messages@))),
                ]);
            }
        }
        Ok(ChatRequest { key, model, body })
    }

    /// The answer in a completion response (empty when it has none).
    pub fn completion_content(resp: &Json) -> (r: String)
        ensures
            r@ == completion_content(resp@),
    {
        let choices = index_key_exec(resp, "choices");
        let first = match choices {
            Some(c) => match c {
                Json::Array(v) => {
                    proof {
                        crate::json::lemma_view_array(*v);
                    }
                    if v.len() > 0 {
                        Some(&v[0])
                    } else {
                        None
                    }
                },
                _ => None,
            },
            None => None,
        };
        let message = match first {
            Some(f) => index_key_exec(f, "message"),
            None => None,
        };
        let content = match message {
            Some(m) => index_key_exec(m, "content"),
            None => None,
        };
        match content {
            Some(c) => match c.as_str() {
                Some(s) => s.to_string(),
                None => String::new(),
            },
            None => String::new(),
        }
    }

    /// The error for a response whose status is not success: `"{status}: {body}"`.
    pub fn response_error(status: &str, body: &str) -> (r: AiError)
        ensures
            r matches AiError::RequestFailed(m) && m@ == status@ + ": "@ + body@,
    {
        let mut m = status.to_string();
        m.append(": ");
        m.append(body);
        AiError::RequestFailed(m)
    }
}

} // verus!
