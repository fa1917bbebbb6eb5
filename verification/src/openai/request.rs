//! The JSON bodies of requests to the `/responses` and `/chat/completions`
//! endpoints.
use vstd::prelude::*;

use crate::json::{
    entries_view, lemma_seq_view, lemma_seq_view_push, obj_insert, seq_view, Json, JsonValue,
};
use crate::openai::base64::{base64, base64_encode};
use crate::openai::capabilities::{Gen3dAiSessionState, Gen3dChatHistoryMessage};
use crate::text::{chars_of, decimal, eq_str, owned, push_decimal, push_str, trim, trim_chars};

verus! {

/// The JSON schema a reply must follow: its name and the schema itself.
#[derive(Debug, PartialEq)]
pub struct JsonSchemaSpec {
    pub name: String,
    pub schema: JsonValue,
}

// ---------------------------------------------------------------------------
// Specifications
// ---------------------------------------------------------------------------

/// An object of two fields.
pub open spec fn obj2(k1: Seq<char>, v1: Json, k2: Seq<char>, v2: Json) -> Json {
    Json::Obj(Map::empty().insert(k1, v1).insert(k2, v2))
}

/// The label put before image `idx`: `Image <n>: <file name>`.
pub open spec fn image_label(idx: int, names: Seq<Option<String>>) -> Seq<char> {
    let name = if 0 <= idx < names.len() && names[idx] is Some {
        names[idx]->0@
    } else {
        "<unknown>"@
    };
    "Image "@ + decimal((idx + 1) as nat) + ": "@ + name
}

/// The data URL of an image: its MIME type and base64 content.
pub open spec fn data_url(mime: Seq<char>, bytes: Seq<u8>) -> Seq<char> {
    "data:"@ + mime + ";base64,"@ + base64(bytes)
}

/// The parts of a `/responses` user message that carry the images: for each
/// image, its label and then the image itself at low detail.
pub open spec fn responses_image_parts(images: Seq<(String, Vec<u8>)>, names: Seq<Option<String>>) -> Seq<
    Json,
>
    decreases images.len(),
{
    if images.len() == 0 {
        Seq::empty()
    } else {
        let i = images.len() - 1;
        responses_image_parts(images.drop_last(), names).push(
            obj2("type"@, Json::Str("input_text"@), "text"@, Json::Str(image_label(i, names))),
        ).push(
            Json::Obj(
                Map::empty().insert("type"@, Json::Str("input_image"@)).insert(
                    "image_url"@,
                    Json::Str(data_url(images[i].0@, images[i].1@)),
                ).insert("detail"@, Json::Str("low"@)),
            ),
        )
    }
}

/// The parts of a chat user message that carry the images: for each image,
/// its label and then the image URL.
pub open spec fn chat_image_parts(images: Seq<(String, Vec<u8>)>, names: Seq<Option<String>>) -> Seq<Json>
    decreases images.len(),
{
    if images.len() == 0 {
        Seq::empty()
    } else {
        let i = images.len() - 1;
        chat_image_parts(images.drop_last(), names).push(
            obj2("type"@, Json::Str("text"@), "text"@, Json::Str(image_label(i, names))),
        ).push(
            obj2(
                "type"@,
                Json::Str("image_url"@),
                "image_url"@,
                Json::Obj(Map::empty().insert("url"@, Json::Str(data_url(images[i].0@, images[i].1@)))),
            ),
        )
    }
}

/// Reasoning effort is sent unless it is `none`.
pub open spec fn sends_effort(effort: Seq<char>) -> bool {
    trim(effort) != "none"@
}

/// The body of a `/responses` request.
pub open spec fn responses_request(
    model: Seq<char>,
    stream: bool,
    effort: Seq<char>,
    schema: Option<(Seq<char>, Json)>,
    system: Seq<char>,
    user: Seq<char>,
    images: Seq<(String, Vec<u8>)>,
    names: Seq<Option<String>>,
    previous: Option<Seq<char>>,
    background: bool,
) -> Json {
    let sys_msg = obj2(
        "role"@,
        Json::Str("system"@),
        "content"@,
        Json::Arr(seq![obj2("type"@, Json::Str("input_text"@), "text"@, Json::Str(system))]),
    );
    let user_msg = obj2(
        "role"@,
        Json::Str("user"@),
        "content"@,
        Json::Arr(
            seq![obj2("type"@, Json::Str("input_text"@), "text"@, Json::Str(user))]
                + responses_image_parts(images, names),
        ),
    );
    let m0 = Map::empty().insert("model"@, Json::Str(model)).insert("stream"@, Json::Bool(stream)).insert(
        "input"@,
        Json::Arr(seq![sys_msg, user_msg]),
    );
    let m1 = if background {
        m0.insert("background"@, Json::Bool(true)).insert("store"@, Json::Bool(true))
    } else {
        m0
    };
    let m2 = match previous {
        Some(p) => m1.insert("previous_response_id"@, Json::Str(p)),
        None => m1,
    };
    let m3 = if sends_effort(effort) {
        m2.insert("reasoning"@, Json::Obj(Map::empty().insert("effort"@, Json::Str(effort))))
    } else {
        m2
    };
    let m4 = match schema {
        Some((name, s)) => m3.insert(
            "text"@,
            Json::Obj(
                Map::empty().insert(
                    "format"@,
                    Json::Obj(
                        Map::empty().insert("type"@, Json::Str("json_schema"@)).insert(
                            "name"@,
                            Json::Str(name),
                        ).insert("schema"@, s).insert("strict"@, Json::Bool(true)),
                    ),
                ),
            ),
        ),
        None => m3,
    };
    Json::Obj(m4)
}

/// The chat history as request messages.
pub open spec fn history_messages(h: Seq<Gen3dChatHistoryMessage>) -> Seq<Json> {
    Seq::new(
        h.len(),
        |i: int| obj2("role"@, Json::Str(h[i].role@), "content"@, Json::Str(h[i].content@)),
    )
}

/// The body of a `/chat/completions` request.
pub open spec fn chat_request(
    history: Seq<Gen3dChatHistoryMessage>,
    model: Seq<char>,
    stream: bool,
    effort: Seq<char>,
    schema: Option<(Seq<char>, Json)>,
    system: Seq<char>,
    user: Seq<char>,
    images: Seq<(String, Vec<u8>)>,
    names: Seq<Option<String>>,
) -> Json {
    let user_content = seq![obj2("type"@, Json::Str("text"@), "text"@, Json::Str(user))] + chat_image_parts(
        images,
        names,
    );
    let messages = history_messages(history).push(
        obj2("role"@, Json::Str("system"@), "content"@, Json::Str(system)),
    ).push(obj2("role"@, Json::Str("user"@), "content"@, Json::Arr(user_content)));
    let m0 = Map::empty().insert("model"@, Json::Str(model)).insert("stream"@, Json::Bool(stream)).insert(
        "messages"@,
        Json::Arr(messages),
    );
    let m1 = if sends_effort(effort) {
        m0.insert("reasoning_effort"@, Json::Str(effort))
    } else {
        m0
    };
    let m2 = match schema {
        Some((name, s)) => m1.insert(
            "response_format"@,
            obj2(
                "type"@,
                Json::Str("json_schema"@),
                "json_schema"@,
                Json::Obj(
                    Map::empty().insert("name"@, Json::Str(name)).insert("schema"@, s).insert(
                        "strict"@,
                        Json::Bool(true),
                    ),
                ),
            ),
        ),
        None => m1,
    };
    Json::Obj(m2)
}

/// The schema of a request as a view.
pub open spec fn schema_view(s: Option<JsonSchemaSpec>) -> Option<(Seq<char>, Json)> {
    match s {
        Some(spec) => Some((spec.name@, spec.schema.deep())),
        None => None,
    }
}

// ---------------------------------------------------------------------------
// Builders
// ---------------------------------------------------------------------------

/// A string value.
fn jstr(s: &str) -> (v: JsonValue)
    ensures
        v.deep() == Json::Str(s@),
{
    JsonValue::String(owned(s))
}

/// An object of two fields.
fn jobj2(k1: &str, v1: JsonValue, k2: &str, v2: JsonValue) -> (v: JsonValue)
    ensures
        v.deep() == obj2(k1@, v1.deep(), k2@, v2.deep()),
{
    let ghost d1 = v1.deep();
    let ghost d2 = v2.deep();
    let mut e: Vec<(String, JsonValue)> = Vec::new();
    obj_insert(&mut e, owned(k1), v1);
    obj_insert(&mut e, owned(k2), v2);
    proof {
        assert(entries_view(Seq::<(String, JsonValue)>::empty()) =~= Map::<Seq<char>, Json>::empty());
    }
    JsonValue::Object(e)
}

/// An array of values.
fn jarr_push(arr: &mut Vec<JsonValue>, v: JsonValue)
    ensures
        seq_view(final(arr)@) == seq_view(old(arr)@).push(v.deep()),
{
    let ghost a0 = arr@;
    arr.push(v);
    proof {
        lemma_seq_view_push(a0, v);
    }
}

/// The label of image `idx`.
fn image_label_text(idx: usize, names: &Vec<Option<String>>) -> (out: String)
    requires
        idx < usize::MAX,
    ensures
        out@ == image_label(idx as int, names@),
{
    let mut out = owned("Image ");
    push_decimal(&mut out, (idx + 1) as u64);
    push_str(&mut out, ": ");
    if idx < names.len() {
        match &names[idx] {
            Some(n) => push_str(&mut out, n.as_str()),
            None => push_str(&mut out, "<unknown>"),
        }
    } else {
        push_str(&mut out, "<unknown>");
    }
    out
}

/// The data URL of an image.
fn data_url_text(mime: &String, bytes: &Vec<u8>) -> (out: String)
    ensures
        out@ == data_url(mime@, bytes@),
{
    let mut out = owned("data:");
    push_str(&mut out, mime.as_str());
    push_str(&mut out, ";base64,");
    let b = base64_encode(bytes.as_slice());
    push_str(&mut out, b.as_str());
    out
}

/// Whether reasoning effort is sent.
fn sends_effort_exec(effort: &str) -> (b: bool)
    ensures
        b == sends_effort(effort@),
{
    !eq_str(&trim_chars(effort), "none")
}

/// The body of a `/responses` request: the system and user messages (the
/// user message followed, for each image, by its label and the image as a
/// base64 data URL at low detail); `background` and `store` when background
/// mode is asked for; the previous response id when continuing; the
/// reasoning effort unless it is `none`; and the JSON schema as a strict
/// text format when one is expected.
pub fn build_openai_responses_request_json(
    model: &str,
    stream: bool,
    reasoning_effort: &str,
    expected_schema: Option<JsonSchemaSpec>,
    system_instructions: &str,
    user_text: &str,
    images: &Vec<(String, Vec<u8>)>,
    image_names: &Vec<Option<String>>,
    previous_response_id: Option<&str>,
    background: bool,
) -> (out: JsonValue)
    requires
        images@.len() < usize::MAX,
    ensures
        out.deep() == responses_request(
            model@,
            stream,
            reasoning_effort@,
            schema_view(expected_schema),
            system_instructions@,
            user_text@,
            images@,
            image_names@,
            match previous_response_id {
                Some(p) => Some(p@),
                None => None,
            },
            background,
        ),
{
    let ghost sv = schema_view(expected_schema);
    proof {
        assert(entries_view(Seq::<(String, JsonValue)>::empty()) =~= Map::<Seq<char>, Json>::empty());
        assert(seq_view(Seq::<JsonValue>::empty()) =~= Seq::<Json>::empty());
    }
    // System message.
    let mut sys_content: Vec<JsonValue> = Vec::new();
    jarr_push(&mut sys_content, jobj2("type", jstr("input_text"), "text", jstr(system_instructions)));
    let sys_msg = jobj2("role", jstr("system"), "content", JsonValue::Array(sys_content));
    // User message with the images.
    let mut user_content: Vec<JsonValue> = Vec::new();
    jarr_push(&mut user_content, jobj2("type", jstr("input_text"), "text", jstr(user_text)));
    let ghost head = seq_view(user_content@);
    let mut idx: usize = 0;
    proof {
        assert(images@.take(0) =~= Seq::<(String, Vec<u8>)>::empty());
        assert(head + responses_image_parts(images@.take(0), image_names@) =~= head);
    }
    while idx < images.len()
        invariant
            idx <= images@.len() < usize::MAX,
            seq_view(user_content@) == head + responses_image_parts(images@.take(idx as int), image_names@),
        decreases images.len() - idx,
    {
        proof {
            assert(images@.take(idx + 1).drop_last() =~= images@.take(idx as int));
            assert(images@.take(idx + 1)[idx as int] == images@[idx as int]);
        }
        let label = jobj2("type", jstr("input_text"), "text", JsonValue::String(image_label_text(idx, image_names)));
        jarr_push(&mut user_content, label);
        let mut img: Vec<(String, JsonValue)> = Vec::new();
        obj_insert(&mut img, owned("type"), jstr("input_image"));
        obj_insert(&mut img, owned("image_url"), JsonValue::String(data_url_text(&images[idx].0, &images[idx].1)));
        obj_insert(&mut img, owned("detail"), jstr("low"));
        proof {
            assert(entries_view(Seq::<(String, JsonValue)>::empty()) =~= Map::<Seq<char>, Json>::empty());
        }
        jarr_push(&mut user_content, JsonValue::Object(img));
        proof {
            assert(seq_view(user_content@) =~= head + responses_image_parts(images@.take(idx + 1), image_names@));
        }
        idx = idx + 1;
    }
    proof {
        assert(images@.take(idx as int) =~= images@);
    }
    let user_msg = jobj2("role", jstr("user"), "content", JsonValue::Array(user_content));
    let mut input: Vec<JsonValue> = Vec::new();
    jarr_push(&mut input, sys_msg);
    jarr_push(&mut input, user_msg);
    // The request.
    let mut body: Vec<(String, JsonValue)> = Vec::new();
    obj_insert(&mut body, owned("model"), jstr(model));
    obj_insert(&mut body, owned("stream"), JsonValue::Bool(stream));
    obj_insert(&mut body, owned("input"), JsonValue::Array(input));
    let ghost prev = match previous_response_id {
        Some(p) => Some(p@),
        None => None,
    };
    let ghost full = responses_request(
        model@,
        stream,
        reasoning_effort@,
        sv,
        system_instructions@,
        user_text@,
        images@,
        image_names@,
        prev,
        background,
    );
    proof {
        let sys_msg = obj2(
            "role"@,
            Json::Str("system"@),
            "content"@,
            Json::Arr(seq![obj2("type"@, Json::Str("input_text"@), "text"@, Json::Str(system_instructions@))]),
        );
        let user_msg = obj2(
            "role"@,
            Json::Str("user"@),
            "content"@,
            Json::Arr(
                seq![obj2("type"@, Json::Str("input_text"@), "text"@, Json::Str(user_text@))]
                    + responses_image_parts(images@, image_names@),
            ),
        );
        assert(seq_view(input@) =~= seq![sys_msg, user_msg]);
    }
    if background {
        obj_insert(&mut body, owned("background"), JsonValue::Bool(true));
        obj_insert(&mut body, owned("store"), JsonValue::Bool(true));
    }
    if let Some(previous) = previous_response_id {
        obj_insert(&mut body, owned("previous_response_id"), jstr(previous));
    }
    if sends_effort_exec(reasoning_effort) {
        let mut r: Vec<(String, JsonValue)> = Vec::new();
        obj_insert(&mut r, owned("effort"), jstr(reasoning_effort));
        obj_insert(&mut body, owned("reasoning"), JsonValue::Object(r));
    }
    if let Some(spec) = expected_schema {
        let mut format: Vec<(String, JsonValue)> = Vec::new();
        obj_insert(&mut format, owned("type"), jstr("json_schema"));
        obj_insert(&mut format, owned("name"), JsonValue::String(spec.name));
        obj_insert(&mut format, owned("schema"), spec.schema);
        obj_insert(&mut format, owned("strict"), JsonValue::Bool(true));
        let mut text: Vec<(String, JsonValue)> = Vec::new();
        obj_insert(&mut text, owned("format"), JsonValue::Object(format));
        obj_insert(&mut body, owned("text"), JsonValue::Object(text));
    }
    proof {
        assert(entries_view(Seq::<(String, JsonValue)>::empty()) =~= Map::<Seq<char>, Json>::empty());
        assert(seq_view(Seq::<JsonValue>::empty()) =~= Seq::<Json>::empty());
    }
    JsonValue::Object(body)
}

/// The body of a `/chat/completions` request: the session's chat history,
/// then the system message and the user message (its text followed, for
/// each image, by its label and the image as a base64 data URL); the
/// reasoning effort unless it is `none`; and the JSON schema as a strict
/// response format when one is expected.
pub fn build_openai_chat_completions_request_json(
    session: &Gen3dAiSessionState,
    model: &str,
    stream: bool,
    reasoning_effort: &str,
    expected_schema: Option<JsonSchemaSpec>,
    system_instructions: &str,
    user_text: &str,
    images: &Vec<(String, Vec<u8>)>,
    image_names: &Vec<Option<String>>,
) -> (out: JsonValue)
    requires
        images@.len() < usize::MAX,
    ensures
        out.deep() == chat_request(
            session.chat_history@,
            model@,
            stream,
            reasoning_effort@,
            schema_view(expected_schema),
            system_instructions@,
            user_text@,
            images@,
            image_names@,
        ),
{
    let ghost hist = session.chat_history@;
    let mut messages: Vec<JsonValue> = Vec::new();
    let mut k: usize = 0;
    proof {
        assert(seq_view(messages@) =~= history_messages(hist.take(0)));
    }
    while k < session.chat_history.len()
        invariant
            k <= hist.len(),
            hist == session.chat_history@,
            seq_view(messages@) == history_messages(hist.take(k as int)),
        decreases session.chat_history.len() - k,
    {
        let m = &session.chat_history[k];
        let item = jobj2(
            "role",
            JsonValue::String(owned(m.role.as_str())),
            "content",
            JsonValue::String(owned(m.content.as_str())),
        );
        jarr_push(&mut messages, item);
        proof {
            assert(seq_view(messages@) =~= history_messages(hist.take(k + 1)));
        }
        k = k + 1;
    }
    proof {
        assert(hist.take(k as int) =~= hist);
    }
    jarr_push(&mut messages, jobj2("role", jstr("system"), "content", jstr(system_instructions)));
    let mut user_content: Vec<JsonValue> = Vec::new();
    jarr_push(&mut user_content, jobj2("type", jstr("text"), "text", jstr(user_text)));
    let ghost head = seq_view(user_content@);
    let mut idx: usize = 0;
    proof {
        assert(images@.take(0) =~= Seq::<(String, Vec<u8>)>::empty());
        assert(head + chat_image_parts(images@.take(0), image_names@) =~= head);
    }
    while idx < images.len()
        invariant
            idx <= images@.len() < usize::MAX,
            seq_view(user_content@) == head + chat_image_parts(images@.take(idx as int), image_names@),
        decreases images.len() - idx,
    {
        proof {
            assert(images@.take(idx + 1).drop_last() =~= images@.take(idx as int));
            assert(images@.take(idx + 1)[idx as int] == images@[idx as int]);
        }
        let label = jobj2("type", jstr("text"), "text", JsonValue::String(image_label_text(idx, image_names)));
        jarr_push(&mut user_content, label);
        let mut url: Vec<(String, JsonValue)> = Vec::new();
        obj_insert(&mut url, owned("url"), JsonValue::String(data_url_text(&images[idx].0, &images[idx].1)));
        proof {
            assert(entries_view(Seq::<(String, JsonValue)>::empty()) =~= Map::<Seq<char>, Json>::empty());
        }
        jarr_push(&mut user_content, jobj2("type", jstr("image_url"), "image_url", JsonValue::Object(url)));
        proof {
            assert(seq_view(user_content@) =~= head + chat_image_parts(images@.take(idx + 1), image_names@));
        }
        idx = idx + 1;
    }
    proof {
        assert(images@.take(idx as int) =~= images@);
    }
    jarr_push(&mut messages, jobj2("role", jstr("user"), "content", JsonValue::Array(user_content)));
    let mut body: Vec<(String, JsonValue)> = Vec::new();
    obj_insert(&mut body, owned("model"), jstr(model));
    obj_insert(&mut body, owned("stream"), JsonValue::Bool(stream));
    obj_insert(&mut body, owned("messages"), JsonValue::Array(messages));
    if sends_effort_exec(reasoning_effort) {
        obj_insert(&mut body, owned("reasoning_effort"), jstr(reasoning_effort));
    }
    if let Some(spec) = expected_schema {
        let mut js: Vec<(String, JsonValue)> = Vec::new();
        obj_insert(&mut js, owned("name"), JsonValue::String(spec.name));
        obj_insert(&mut js, owned("schema"), spec.schema);
        obj_insert(&mut js, owned("strict"), JsonValue::Bool(true));
        obj_insert(&mut body, owned("response_format"), jobj2("type", jstr("json_schema"), "json_schema", JsonValue::Object(js)));
    }
    proof {
        assert(entries_view(Seq::<(String, JsonValue)>::empty()) =~= Map::<Seq<char>, Json>::empty());
    }
    JsonValue::Object(body)
}

} // verus!
