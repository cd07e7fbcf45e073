//! Request bodies for the model providers: a conversation turned into the
//! JSON that each provider's API expects.
//!
//! Object members are written in key order (the order of `serde_json`'s map),
//! so each body is stated as a [`Json`] value built member by member.
use vstd::prelude::*;

use crate::json::{
    deep_merge_json, merge_json, items_view, json_array, json_object, json_string, json_text, json_to_text, json_view, members_view,
    Json, JsonValue,
};
use crate::message::{blocks_view, messages_view, Block, BlockView, ChatMessage, MessageView, Role};
use crate::hunks::lemma_find_from_bounds;
use crate::provider::{image_data_url, spec_image_data_url, ModelConfig};
use crate::runtime::block_texts;
use crate::text::{
    append_chars, chars_of, eq_chars, find_from, find_from_exec, join, join_exec, lines_view, strip_prefix,
    strip_prefix_exec, string_of,
};

verus! {

// ---------------------------------------------------------------------------
// Building JSON
// ---------------------------------------------------------------------------

pub open spec fn jstr(s: Seq<char>) -> Json {
    Json::Str(s)
}

fn str_json(s: &str) -> (v: JsonValue)
    ensures
        json_view(v) == Json::Str(s@),
{
    json_string(s.to_owned())
}

fn chars_json(s: &[char]) -> (v: JsonValue)
    ensures
        json_view(v) == Json::Str(s@),
{
    json_string(string_of(s))
}

fn obj1(k1: &str, v1: JsonValue) -> (v: JsonValue)
    ensures
        json_view(v) == Json::Obj(seq![(k1@, json_view(v1))]),
{
    let ghost x1 = json_view(v1);
    let mut m: Vec<(String, JsonValue)> = Vec::new();
    m.push((k1.to_owned(), v1));
    let v = json_object(m);
    assert(members_view(m@) =~= seq![(k1@, x1)]);
    v
}

fn obj2(k1: &str, v1: JsonValue, k2: &str, v2: JsonValue) -> (v: JsonValue)
    ensures
        json_view(v) == Json::Obj(seq![(k1@, json_view(v1)), (k2@, json_view(v2))]),
{
    let ghost x1 = json_view(v1);
    let ghost x2 = json_view(v2);
    let mut m: Vec<(String, JsonValue)> = Vec::new();
    m.push((k1.to_owned(), v1));
    m.push((k2.to_owned(), v2));
    let v = json_object(m);
    assert(members_view(m@) =~= seq![(k1@, x1), (k2@, x2)]);
    v
}

fn obj3(k1: &str, v1: JsonValue, k2: &str, v2: JsonValue, k3: &str, v3: JsonValue) -> (v: JsonValue)
    ensures
        json_view(v) == Json::Obj(seq![(k1@, json_view(v1)), (k2@, json_view(v2)), (k3@, json_view(v3))]),
{
    let ghost x1 = json_view(v1);
    let ghost x2 = json_view(v2);
    let ghost x3 = json_view(v3);
    let mut m: Vec<(String, JsonValue)> = Vec::new();
    m.push((k1.to_owned(), v1));
    m.push((k2.to_owned(), v2));
    m.push((k3.to_owned(), v3));
    let v = json_object(m);
    assert(members_view(m@) =~= seq![(k1@, x1), (k2@, x2), (k3@, x3)]);
    v
}

fn obj4(k1: &str, v1: JsonValue, k2: &str, v2: JsonValue, k3: &str, v3: JsonValue, k4: &str, v4: JsonValue) -> (v: JsonValue)
    ensures
        json_view(v) == Json::Obj(
            seq![(k1@, json_view(v1)), (k2@, json_view(v2)), (k3@, json_view(v3)), (k4@, json_view(v4))],
        ),
{
    let ghost x1 = json_view(v1);
    let ghost x2 = json_view(v2);
    let ghost x3 = json_view(v3);
    let ghost x4 = json_view(v4);
    let mut m: Vec<(String, JsonValue)> = Vec::new();
    m.push((k1.to_owned(), v1));
    m.push((k2.to_owned(), v2));
    m.push((k3.to_owned(), v3));
    m.push((k4.to_owned(), v4));
    let v = json_object(m);
    assert(members_view(m@) =~= seq![(k1@, x1), (k2@, x2), (k3@, x3), (k4@, x4)]);
    v
}

fn push_json(out: &mut Vec<JsonValue>, v: JsonValue)
    ensures
        items_view(final(out)@) == items_view(old(out)@).push(json_view(v)),
{
    let ghost before = items_view(out@);
    let ghost x = json_view(v);
    out.push(v);
    assert(items_view(out@) =~= before.push(x));
}

/// The texts of the text blocks.
fn block_texts_exec(bs: &Vec<Block>) -> (r: Vec<Vec<char>>)
    ensures
        lines_view(r@) == block_texts(blocks_view(bs@)),
{
    let ghost bv = blocks_view(bs@);
    let mut texts: Vec<Vec<char>> = Vec::new();
    let mut j: usize = 0;
    assert(bv.take(0) =~= Seq::<BlockView>::empty());
    while j < bs.len()
        invariant
            j <= bs@.len(),
            bv == blocks_view(bs@),
            lines_view(texts@) == block_texts(bv.take(j as int)),
        decreases bs@.len() - j,
    {
        assert(bv.take(j + 1).drop_last() =~= bv.take(j as int));
        assert(bv.take(j + 1).last() == bs@[j as int]@);
        match &bs[j] {
            Block::Text { text } => {
                let ghost before = lines_view(texts@);
                let t = chars_of(text.as_str());
                let ghost tv = t@;
                texts.push(t);
                assert(lines_view(texts@) =~= before.push(tv));
            },
            _ => {},
        }
        j = j + 1;
    }
    assert(bv.take(j as int) =~= bv);
    texts
}

/// The text blocks, one per line.
pub open spec fn text_lines_of(bs: Seq<BlockView>) -> Seq<char> {
    join(block_texts(bs), seq!['\n'])
}

pub(crate) fn text_lines_exec(bs: &Vec<Block>) -> (r: Vec<char>)
    ensures
        r@ == text_lines_of(blocks_view(bs@)),
{
    let texts = block_texts_exec(bs);
    let nl: Vec<char> = vec!['\n'];
    assert(nl@ =~= seq!['\n']);
    join_exec(&texts, nl.as_slice())
}

// ---------------------------------------------------------------------------
// OpenAI chat completions
// ---------------------------------------------------------------------------

/// `{"content": .., "role": ..}`.
pub open spec fn role_content(role: Seq<char>, content: Json) -> Json {
    Json::Obj(seq![("content"@, content), ("role"@, jstr(role))])
}

/// A tool call of an assistant message: its input sent as JSON text.
pub open spec fn tool_call_json(id: Seq<char>, name: Seq<char>, input: Json) -> Json {
    Json::Obj(
        seq![
            ("function"@, Json::Obj(seq![("arguments"@, jstr(json_text(input))), ("name"@, jstr(name))])),
            ("id"@, jstr(id)),
            ("type"@, jstr("function"@)),
        ],
    )
}

pub open spec fn tool_calls_of(bs: Seq<BlockView>) -> Seq<Json>
    decreases bs.len(),
{
    if bs.len() == 0 {
        Seq::empty()
    } else {
        let t = tool_calls_of(bs.drop_last());
        match bs.last() {
            BlockView::ToolUse(id, name, input) => t.push(tool_call_json(id, name, input)),
            _ => t,
        }
    }
}

/// An assistant message: its text (when it has any), its role, its tool
/// calls (when it made any).
pub open spec fn assistant_json(bs: Seq<BlockView>) -> Json {
    let texts = block_texts(bs);
    let calls = tool_calls_of(bs);
    let m0: Seq<(Seq<char>, Json)> = if texts.len() > 0 {
        seq![("content"@, jstr(join(texts, seq!['\n'])))]
    } else {
        Seq::empty()
    };
    let m1 = m0.push(("role"@, jstr("assistant"@)));
    Json::Obj(
        if calls.len() > 0 {
            m1.push(("tool_calls"@, Json::Arr(calls)))
        } else {
            m1
        },
    )
}

pub open spec fn all_tool_results(bs: Seq<BlockView>) -> bool {
    bs.len() > 0 && forall|j: int| 0 <= j < bs.len() ==> #[trigger] bs[j] is ToolResult
}

pub open spec fn has_image(bs: Seq<BlockView>) -> bool {
    exists|j: int| 0 <= j < bs.len() && #[trigger] bs[j] is Image
}

/// Tool results become messages of their own, with role `tool`.
pub open spec fn tool_result_jsons(bs: Seq<BlockView>) -> Seq<Json>
    decreases bs.len(),
{
    if bs.len() == 0 {
        Seq::empty()
    } else {
        let t = tool_result_jsons(bs.drop_last());
        match bs.last() {
            BlockView::ToolResult(id, c, _) => t.push(
                Json::Obj(seq![("content"@, jstr(c)), ("role"@, jstr("tool"@)), ("tool_call_id"@, jstr(id))]),
            ),
            _ => t,
        }
    }
}

/// The parts of a user message that carries an image: text parts and image
/// parts, in order.
pub open spec fn user_parts(bs: Seq<BlockView>) -> Seq<Json>
    decreases bs.len(),
{
    if bs.len() == 0 {
        Seq::empty()
    } else {
        let t = user_parts(bs.drop_last());
        match bs.last() {
            BlockView::Text(x) => t.push(Json::Obj(seq![("text"@, jstr(x)), ("type"@, jstr("text"@))])),
            BlockView::Image(m, d) => t.push(
                Json::Obj(
                    seq![
                        ("image_url"@, Json::Obj(seq![("url"@, jstr(spec_image_data_url(m, d)))])),
                        ("type"@, jstr("image_url"@)),
                    ],
                ),
            ),
            _ => t,
        }
    }
}

pub open spec fn user_jsons(bs: Seq<BlockView>) -> Seq<Json> {
    if all_tool_results(bs) {
        tool_result_jsons(bs)
    } else if has_image(bs) {
        seq![role_content("user"@, Json::Arr(user_parts(bs)))]
    } else {
        seq![role_content("user"@, jstr(text_lines_of(bs)))]
    }
}

pub open spec fn openai_message_jsons(m: MessageView) -> Seq<Json> {
    match m.role {
        Role::System => seq![role_content("system"@, jstr(text_lines_of(m.content)))],
        Role::Assistant => seq![assistant_json(m.content)],
        Role::User => user_jsons(m.content),
    }
}

pub open spec fn openai_jsons(ms: Seq<MessageView>) -> Seq<Json>
    decreases ms.len(),
{
    if ms.len() == 0 {
        Seq::empty()
    } else {
        openai_jsons(ms.drop_last()) + openai_message_jsons(ms.last())
    }
}

/// The `messages` of a chat-completions request: the system prompt first,
/// then each message in the provider's shape.
pub open spec fn spec_openai_messages(ms: Seq<MessageView>, system: Option<Seq<char>>) -> Seq<Json> {
    (match system {
        Some(s) => seq![role_content("system"@, jstr(s))],
        None => Seq::empty(),
    }) + openai_jsons(ms)
}

fn assistant_json_exec(m: &ChatMessage) -> (v: JsonValue)
    ensures
        json_view(v) == assistant_json(m@.content),
{
    let ghost bv = m@.content;
    let texts = block_texts_exec(&m.content);
    let mut calls: Vec<JsonValue> = Vec::new();
    let mut j: usize = 0;
    assert(bv.take(0) =~= Seq::<BlockView>::empty());
    while j < m.content.len()
        invariant
            j <= m.content@.len(),
            bv == m@.content,
            items_view(calls@) == tool_calls_of(bv.take(j as int)),
        decreases m.content@.len() - j,
    {
        assert(bv.take(j + 1).drop_last() =~= bv.take(j as int));
        assert(bv.take(j + 1).last() == m.content@[j as int]@);
        match &m.content[j] {
            Block::ToolUse { id, name, input } => {
                let args = json_to_text(input);
                let f = obj2("arguments", json_string(args), "name", str_json(name.as_str()));
                let c = obj3("function", f, "id", str_json(id.as_str()), "type", str_json("function"));
                push_json(&mut calls, c);
            },
            _ => {},
        }
        j = j + 1;
    }
    assert(bv.take(j as int) =~= bv);
    let mut members: Vec<(String, JsonValue)> = Vec::new();
    let ghost mut spec_members: Seq<(Seq<char>, Json)> = Seq::empty();
    assert(members_view(members@) =~= spec_members);
    if texts.len() > 0 {
        let nl: Vec<char> = vec!['\n'];
        assert(nl@ =~= seq!['\n']);
        let joined = join_exec(&texts, nl.as_slice());
        let x = chars_json(joined.as_slice());
        let ghost xv = json_view(x);
        members.push(("content".to_owned(), x));
        proof {
            spec_members = spec_members.push(("content"@, xv));
        }
        assert(members_view(members@) =~= spec_members);
    }
    let r = str_json("assistant");
    let ghost rv = json_view(r);
    members.push(("role".to_owned(), r));
    proof {
        spec_members = spec_members.push(("role"@, rv));
    }
    assert(members_view(members@) =~= spec_members);
    if calls.len() > 0 {
        let a = json_array(calls);
        let ghost av = json_view(a);
        members.push(("tool_calls".to_owned(), a));
        proof {
            spec_members = spec_members.push(("tool_calls"@, av));
        }
        assert(members_view(members@) =~= spec_members);
    }
    json_object(members)
}

fn user_jsons_exec(m: &ChatMessage, out: &mut Vec<JsonValue>)
    ensures
        items_view(final(out)@) == items_view(old(out)@) + user_jsons(m@.content),
{
    let ghost bv = m@.content;
    let ghost start = items_view(out@);
    let n = m.content.len();
    let mut all_results = n > 0;
    let mut any_image = false;
    let mut j: usize = 0;
    while j < n
        invariant
            j <= n,
            n == m.content@.len(),
            bv == m@.content,
            all_results <==> (n > 0 && forall|k: int| 0 <= k < j ==> #[trigger] bv[k] is ToolResult),
            any_image <==> exists|k: int| 0 <= k < j && #[trigger] bv[k] is Image,
        decreases n - j,
    {
        match &m.content[j] {
            Block::ToolResult { .. } => {},
            _ => {
                all_results = false;
            },
        }
        match &m.content[j] {
            Block::Image { .. } => {
                any_image = true;
                assert(bv[j as int] is Image);
            },
            _ => {},
        }
        j = j + 1;
    }
    if all_results {
        let mut j: usize = 0;
        assert(bv.take(0) =~= Seq::<BlockView>::empty());
        assert(start + Seq::<Json>::empty() =~= start);
        while j < n
            invariant
                j <= n,
                n == m.content@.len(),
                bv == m@.content,
                items_view(out@) == start + tool_result_jsons(bv.take(j as int)),
            decreases n - j,
        {
            assert(bv.take(j + 1).drop_last() =~= bv.take(j as int));
            assert(bv.take(j + 1).last() == m.content@[j as int]@);
            match &m.content[j] {
                Block::ToolResult { tool_use_id, content, .. } => {
                    let o = obj3(
                        "content",
                        str_json(content.as_str()),
                        "role",
                        str_json("tool"),
                        "tool_call_id",
                        str_json(tool_use_id.as_str()),
                    );
                    let ghost before = items_view(out@);
                    push_json(out, o);
                    assert(start + tool_result_jsons(bv.take(j + 1)) =~= before.push(json_view(o)));
                },
                _ => {},
            }
            j = j + 1;
        }
        assert(bv.take(j as int) =~= bv);
    } else if any_image {
        let mut parts: Vec<JsonValue> = Vec::new();
        let mut j: usize = 0;
        assert(bv.take(0) =~= Seq::<BlockView>::empty());
        while j < n
            invariant
                j <= n,
                n == m.content@.len(),
                bv == m@.content,
                items_view(parts@) == user_parts(bv.take(j as int)),
            decreases n - j,
        {
            assert(bv.take(j + 1).drop_last() =~= bv.take(j as int));
            assert(bv.take(j + 1).last() == m.content@[j as int]@);
            match &m.content[j] {
                Block::Text { text } => {
                    let p = obj2("text", str_json(text.as_str()), "type", str_json("text"));
                    push_json(&mut parts, p);
                },
                Block::Image { mime_type, data } => {
                    let url = image_data_url(mime_type.as_str(), data.as_str());
                    let p = obj2("image_url", obj1("url", json_string(url)), "type", str_json("image_url"));
                    push_json(&mut parts, p);
                },
                _ => {},
            }
            j = j + 1;
        }
        assert(bv.take(j as int) =~= bv);
        let o = obj2("content", json_array(parts), "role", str_json("user"));
        push_json(out, o);
        assert(items_view(out@) =~= start + seq![json_view(o)]);
    } else {
        let t = text_lines_exec(&m.content);
        let o = obj2("content", chars_json(t.as_slice()), "role", str_json("user"));
        push_json(out, o);
        assert(items_view(out@) =~= start + seq![json_view(o)]);
    }
}

/// The `messages` of a chat-completions request, as
/// [`spec_openai_messages`] says: tool results become `tool` messages, a
/// user message with an image is sent as parts, tool inputs as JSON text.
pub fn build_openai_messages(messages: &[ChatMessage], system_prompt: Option<&str>) -> (r: Vec<JsonValue>)
    ensures
        items_view(r@) == spec_openai_messages(
            messages_view(messages@),
            match system_prompt {
                Some(s) => Some(s@),
                None => None,
            },
        ),
{
    let ghost mv = messages_view(messages@);
    let mut out: Vec<JsonValue> = Vec::new();
    match system_prompt {
        Some(sys) => {
            let o = obj2("content", str_json(sys), "role", str_json("system"));
            push_json(&mut out, o);
        },
        None => {},
    }
    let ghost head = items_view(out@);
    let mut i: usize = 0;
    assert(mv.take(0) =~= Seq::<MessageView>::empty());
    assert(head + Seq::<Json>::empty() =~= head);
    while i < messages.len()
        invariant
            i <= messages@.len(),
            mv == messages_view(messages@),
            items_view(out@) == head + openai_jsons(mv.take(i as int)),
        decreases messages@.len() - i,
    {
        assert(mv.take(i + 1).drop_last() =~= mv.take(i as int));
        assert(mv.take(i + 1).last() == messages@[i as int]@);
        let m = &messages[i];
        let ghost before = items_view(out@);
        match m.role {
            Role::System => {
                let t = text_lines_exec(&m.content);
                let o = obj2("content", chars_json(t.as_slice()), "role", str_json("system"));
                push_json(&mut out, o);
                assert(before + seq![json_view(o)] =~= before.push(json_view(o)));
            },
            Role::Assistant => {
                let o = assistant_json_exec(m);
                push_json(&mut out, o);
                assert(before + seq![json_view(o)] =~= before.push(json_view(o)));
            },
            Role::User => {
                user_jsons_exec(m, &mut out);
            },
        }
        assert(head + openai_jsons(mv.take(i + 1)) =~= before + openai_message_jsons(m@));
        i = i + 1;
    }
    assert(mv.take(i as int) =~= mv);
    out
}

// ---------------------------------------------------------------------------
// Gemini generateContent
// ---------------------------------------------------------------------------

/// Every block of the conversation, message after message.
pub open spec fn all_blocks(ms: Seq<MessageView>) -> Seq<BlockView>
    decreases ms.len(),
{
    if ms.len() == 0 {
        Seq::empty()
    } else {
        all_blocks(ms.drop_last()) + ms.last().content
    }
}

/// The tool name of the last tool call with this id.
pub open spec fn last_tool_name(bs: Seq<BlockView>, id: Seq<char>) -> Option<Seq<char>>
    decreases bs.len(),
{
    if bs.len() == 0 {
        None
    } else {
        match bs.last() {
            BlockView::ToolUse(i, n, _) => if i == id {
                Some(n)
            } else {
                last_tool_name(bs.drop_last(), id)
            },
            _ => last_tool_name(bs.drop_last(), id),
        }
    }
}

/// The media type and data of an inline image: a `data:` URL is split at its
/// first `;base64,`; anything else is sent as it is.
pub open spec fn inline_image(mime: Seq<char>, data: Seq<char>) -> (Seq<char>, Seq<char>) {
    match strip_prefix(data, "data:"@) {
        Some(rest) => match find_from(rest, ";base64,"@, 0) {
            Some(k) => (rest.take(k), rest.skip(k + 8)),
            None => (mime, data),
        },
        None => (mime, data),
    }
}

/// A block as a Gemini part: non-empty text, an inline image, a function
/// call, or a function response named after its call (the id where no call
/// has it); thinking and empty text give none.
pub open spec fn gemini_part(b: BlockView, all: Seq<BlockView>) -> Option<Json> {
    match b {
        BlockView::Text(t) => if t.len() > 0 {
            Some(Json::Obj(seq![("text"@, jstr(t))]))
        } else {
            None
        },
        BlockView::Thinking(_) => None,
        BlockView::Image(m, d) => {
            let (mime, payload) = inline_image(m, d);
            Some(Json::Obj(seq![("inlineData"@, Json::Obj(seq![("data"@, jstr(payload)), ("mimeType"@, jstr(mime))]))]))
        },
        BlockView::ToolUse(_, name, input) => Some(
            Json::Obj(seq![("functionCall"@, Json::Obj(seq![("args"@, input), ("name"@, jstr(name))]))]),
        ),
        BlockView::ToolResult(id, c, err) => {
            let name = match last_tool_name(all, id) {
                Some(n) => n,
                None => id,
            };
            let key = if err {
                "error"@
            } else {
                "result"@
            };
            Some(
                Json::Obj(
                    seq![
                        (
                            "functionResponse"@,
                            Json::Obj(seq![("name"@, jstr(name)), ("response"@, Json::Obj(seq![(key, jstr(c))]))]),
                        ),
                    ],
                ),
            )
        },
    }
}

pub open spec fn gemini_parts(bs: Seq<BlockView>, all: Seq<BlockView>) -> Seq<Json>
    decreases bs.len(),
{
    if bs.len() == 0 {
        Seq::empty()
    } else {
        let t = gemini_parts(bs.drop_last(), all);
        match gemini_part(bs.last(), all) {
            Some(p) => t.push(p),
            None => t,
        }
    }
}

/// Who a Gemini content is from: `true` for the model; system messages are
/// sent as the system instruction instead.
pub open spec fn gemini_side(r: Role) -> Option<bool> {
    match r {
        Role::User => Some(false),
        Role::Assistant => Some(true),
        Role::System => None,
    }
}

pub open spec fn side_name(model: bool) -> Seq<char> {
    if model {
        "model"@
    } else {
        "user"@
    }
}

/// One content: its parts and its role.
pub open spec fn gemini_content(model: bool, parts: Seq<Json>) -> Json {
    Json::Obj(seq![("parts"@, Json::Arr(parts)), ("role"@, jstr(side_name(model)))])
}

/// The contents so far, the parts not yet closed into one, and whose they
/// are: parts of consecutive messages from the same side are merged.
pub open spec fn gemini_fold(ms: Seq<MessageView>, all: Seq<BlockView>) -> (Seq<Json>, Seq<Json>, bool)
    decreases ms.len(),
{
    if ms.len() == 0 {
        (Seq::empty(), Seq::empty(), false)
    } else {
        let (c, p, r) = gemini_fold(ms.drop_last(), all);
        match gemini_side(ms.last().role) {
            None => (c, p, r),
            Some(side) => {
                let parts = gemini_parts(ms.last().content, all);
                if parts.len() == 0 {
                    (c, p, r)
                } else if p.len() > 0 && side == r {
                    (c, p + parts, r)
                } else if p.len() > 0 {
                    (c.push(gemini_content(r, p)), parts, side)
                } else {
                    (c, parts, side)
                }
            },
        }
    }
}

pub open spec fn gemini_contents(ms: Seq<MessageView>) -> Seq<Json> {
    let (c, p, r) = gemini_fold(ms, all_blocks(ms));
    if p.len() > 0 {
        c.push(gemini_content(r, p))
    } else {
        c
    }
}

/// `value[key]`: the member, or null.
pub open spec fn member_or_null(v: JsonValue, key: Seq<char>) -> Json {
    match crate::json::json_get(v, key) {
        Some(x) => json_view(x),
        None => Json::Null,
    }
}

/// A tool as a Gemini function declaration.
pub open spec fn function_declaration(t: JsonValue) -> Json {
    Json::Obj(
        seq![
            ("description"@, member_or_null(t, "description"@)),
            ("name"@, member_or_null(t, "name"@)),
            ("parameters"@, member_or_null(t, "parameters"@)),
        ],
    )
}

/// The output limit, when the model has one.
pub open spec fn with_output_limit(m: Seq<(Seq<char>, Json)>, max_output: Option<usize>) -> Seq<(Seq<char>, Json)> {
    match max_output {
        Some(n) => m.push(("generationConfig"@, Json::Obj(seq![("maxOutputTokens"@, Json::PosInt(n as u64))]))),
        None => m,
    }
}

/// The system instruction, when there is a system prompt.
pub open spec fn with_system(m: Seq<(Seq<char>, Json)>, system: Option<Seq<char>>) -> Seq<(Seq<char>, Json)> {
    match system {
        Some(s) => m.push(
            ("systemInstruction"@, Json::Obj(seq![("parts"@, Json::Arr(seq![Json::Obj(seq![("text"@, jstr(s))])]))])),
        ),
        None => m,
    }
}

/// The function declarations, when there are tools.
pub open spec fn with_tools(m: Seq<(Seq<char>, Json)>, tools: Seq<JsonValue>) -> Seq<(Seq<char>, Json)> {
    let decls = Seq::new(tools.len(), |i: int| function_declaration(tools[i]));
    if tools.len() > 0 {
        m.push(("tools"@, Json::Arr(seq![Json::Obj(seq![("functionDeclarations"@, Json::Arr(decls))])])))
    } else {
        m
    }
}

/// The body of a Gemini request: the contents; the output limit when the
/// model has one; the system instruction when there is a system prompt; the
/// function declarations when there are tools.
pub open spec fn spec_gemini_body(
    ms: Seq<MessageView>,
    system: Option<Seq<char>>,
    tools: Seq<JsonValue>,
    max_output: Option<usize>,
) -> Json {
    Json::Obj(
        with_tools(with_system(with_output_limit(seq![("contents"@, Json::Arr(gemini_contents(ms)))], max_output), system), tools),
    )
}

pub open spec fn opt_chars(o: Option<String>) -> Option<Seq<char>> {
    match o {
        Some(s) => Some(s@),
        None => None,
    }
}

/// The tool name of the last call with this id anywhere in the conversation.
fn last_tool_name_exec(messages: &[ChatMessage], id: &str) -> (r: Option<String>)
    ensures
        opt_chars(r) == last_tool_name(all_blocks(messages_view(messages@)), id@),
{
    let ghost mv = messages_view(messages@);
    let k = chars_of(id);
    let mut found: Option<String> = None;
    let mut i: usize = 0;
    assert(mv.take(0) =~= Seq::<MessageView>::empty());
    while i < messages.len()
        invariant
            i <= messages@.len(),
            mv == messages_view(messages@),
            k@ == id@,
            opt_chars(found) == last_tool_name(all_blocks(mv.take(i as int)), id@),
        decreases messages@.len() - i,
    {
        let ghost head = all_blocks(mv.take(i as int));
        let ghost bv = mv[i as int].content;
        let bs = &messages[i].content;
        assert(bv == blocks_view(bs@));
        let mut j: usize = 0;
        assert(head + bv.take(0) =~= head);
        while j < bs.len()
            invariant
                j <= bs@.len(),
                bv == blocks_view(bs@),
                k@ == id@,
                opt_chars(found) == last_tool_name(head + bv.take(j as int), id@),
            decreases bs@.len() - j,
        {
            let ghost pre = head + bv.take(j as int);
            assert((head + bv.take(j + 1)).drop_last() =~= pre);
            assert((head + bv.take(j + 1)).last() == bs@[j as int]@);
            match &bs[j] {
                Block::ToolUse { id: call_id, name, .. } => {
                    let c = chars_of(call_id.as_str());
                    if eq_chars(c.as_slice(), k.as_slice()) {
                        found = Some(name.clone());
                    }
                },
                _ => {},
            }
            j = j + 1;
        }
        assert(mv.take(i + 1).drop_last() =~= mv.take(i as int));
        assert(bv.take(j as int) =~= bv);
        i = i + 1;
    }
    assert(mv.take(i as int) =~= mv);
    found
}

/// The media type and data of an inline image, as [`inline_image`] says.
fn inline_image_exec(mime_type: &str, data: &str) -> (r: (String, String))
    ensures
        (r.0@, r.1@) == inline_image(mime_type@, data@),
{
    let d = chars_of(data);
    let scheme = chars_of("data:");
    match strip_prefix_exec(d.as_slice(), scheme.as_slice()) {
        Some(rest) => {
            let sep = chars_of(";base64,");
            match find_from_exec(rest.as_slice(), sep.as_slice(), 0) {
                Some(k) => {
                    proof {
                        lemma_find_from_bounds(rest@, sep@, 0);
                        reveal_strlit(";base64,");
                        assert(sep@.len() == 8);
                        assert(find_from(rest@, sep@, 0) == Some(k as int));
                        assert(k + 8 <= rest@.len());
                    }
                    let m = vstd::slice::slice_to_vec(&rest.as_slice()[0..k]);
                    let n = rest.len();
                    let start: usize = k + 8;
                    let p = vstd::slice::slice_to_vec(&rest.as_slice()[start..n]);
                    assert(m@ =~= rest@.take(k as int));
                    assert(p@ =~= rest@.skip(k + 8));
                    (string_of(m.as_slice()), string_of(p.as_slice()))
                },
                None => (mime_type.to_owned(), data.to_owned()),
            }
        },
        None => (mime_type.to_owned(), data.to_owned()),
    }
}

fn gemini_part_exec(b: &Block, messages: &[ChatMessage]) -> (r: Option<JsonValue>)
    ensures
        match r {
            Some(v) => gemini_part(b@, all_blocks(messages_view(messages@))) == Some(json_view(v)),
            None => gemini_part(b@, all_blocks(messages_view(messages@))) is None,
        },
{
    match b {
        Block::Text { text } => {
            if text.as_str().is_empty() {
                None
            } else {
                Some(obj1("text", str_json(text.as_str())))
            }
        },
        Block::Thinking { .. } => None,
        Block::Image { mime_type, data } => {
            let (mime, payload) = inline_image_exec(mime_type.as_str(), data.as_str());
            let inner = obj2("data", json_string(payload), "mimeType", json_string(mime));
            Some(obj1("inlineData", inner))
        },
        Block::ToolUse { name, input, .. } => {
            let args = input.deep_clone();
            let inner = obj2("args", args, "name", str_json(name.as_str()));
            Some(obj1("functionCall", inner))
        },
        Block::ToolResult { tool_use_id, content, is_error } => {
            let name = match last_tool_name_exec(messages, tool_use_id.as_str()) {
                Some(n) => n,
                None => tool_use_id.clone(),
            };
            let response = if *is_error {
                obj1("error", str_json(content.as_str()))
            } else {
                obj1("result", str_json(content.as_str()))
            };
            let inner = obj2("name", json_string(name), "response", response);
            Some(obj1("functionResponse", inner))
        },
    }
}

fn gemini_parts_exec(bs: &Vec<Block>, messages: &[ChatMessage]) -> (r: Vec<JsonValue>)
    ensures
        items_view(r@) == gemini_parts(blocks_view(bs@), all_blocks(messages_view(messages@))),
{
    let ghost bv = blocks_view(bs@);
    let ghost all = all_blocks(messages_view(messages@));
    let mut parts: Vec<JsonValue> = Vec::new();
    let mut j: usize = 0;
    assert(bv.take(0) =~= Seq::<BlockView>::empty());
    while j < bs.len()
        invariant
            j <= bs@.len(),
            bv == blocks_view(bs@),
            all == all_blocks(messages_view(messages@)),
            items_view(parts@) == gemini_parts(bv.take(j as int), all),
        decreases bs@.len() - j,
    {
        assert(bv.take(j + 1).drop_last() =~= bv.take(j as int));
        assert(bv.take(j + 1).last() == bs@[j as int]@);
        match gemini_part_exec(&bs[j], messages) {
            Some(p) => push_json(&mut parts, p),
            None => {},
        }
        j = j + 1;
    }
    assert(bv.take(j as int) =~= bv);
    parts
}

/// Moves the items of `b` to the end of `a`.
fn append_json(a: &mut Vec<JsonValue>, b: Vec<JsonValue>)
    ensures
        items_view(final(a)@) == items_view(old(a)@) + items_view(b@),
{
    let ghost a0 = items_view(a@);
    let ghost bv = items_view(b@);
    let mut b = b;
    let mut rest = b.split_off(0);
    let ghost rv = rest@;
    assert(items_view(rest@) =~= bv);
    let mut i: usize = 0;
    let n = rest.len();
    let mut tail: Vec<JsonValue> = Vec::new();
    // Reverse once so that popping yields the items in order.
    while rest.len() > 0
        invariant
            rest@.len() + tail@.len() == n,
            n == rv.len(),
            forall|k: int| 0 <= k < rest@.len() ==> rest@[k] == rv[k],
            forall|k: int| 0 <= k < tail@.len() ==> tail@[k] == rv[n - 1 - k],
        decreases rest@.len(),
    {
        let x = rest.pop().unwrap();
        tail.push(x);
    }
    while i < n
        invariant
            i <= n,
            n == rv.len(),
            tail@.len() == n - i,
            forall|k: int| 0 <= k < tail@.len() ==> tail@[k] == rv[n - 1 - k],
            items_view(a@) == a0 + items_view(rv.take(i as int)),
        decreases n - i,
    {
        let x = tail.pop().unwrap();
        let ghost before = items_view(a@);
        a.push(x);
        assert(items_view(a@) =~= before.push(json_view(rv[i as int])));
        assert(items_view(rv.take(i + 1)) =~= items_view(rv.take(i as int)).push(json_view(rv[i as int])));
        i = i + 1;
    }
    assert(rv.take(n as int) =~= rv);
    assert(items_view(rv) =~= bv);
}

fn gemini_content_exec(model: bool, parts: Vec<JsonValue>) -> (v: JsonValue)
    ensures
        json_view(v) == gemini_content(model, items_view(parts@)),
{
    let role = if model {
        str_json("model")
    } else {
        str_json("user")
    };
    obj2("parts", json_array(parts), "role", role)
}

/// The Gemini contents of a conversation, as [`gemini_contents`] says.
fn gemini_contents_exec(messages: &[ChatMessage]) -> (r: Vec<JsonValue>)
    ensures
        items_view(r@) == gemini_contents(messages_view(messages@)),
{
    let ghost mv = messages_view(messages@);
    let ghost all = all_blocks(mv);
    let mut contents: Vec<JsonValue> = Vec::new();
    let mut pending: Vec<JsonValue> = Vec::new();
    let mut pending_model = false;
    let mut i: usize = 0;
    assert(mv.take(0) =~= Seq::<MessageView>::empty());
    assert(items_view(contents@) =~= Seq::<Json>::empty());
    assert(items_view(pending@) =~= Seq::<Json>::empty());
    while i < messages.len()
        invariant
            i <= messages@.len(),
            mv == messages_view(messages@),
            all == all_blocks(mv),
            gemini_fold(mv.take(i as int), all) == (items_view(contents@), items_view(pending@), pending_model),
        decreases messages@.len() - i,
    {
        assert(mv.take(i + 1).drop_last() =~= mv.take(i as int));
        assert(mv.take(i + 1).last() == messages@[i as int]@);
        let m = &messages[i];
        let side = match m.role {
            Role::User => Some(false),
            Role::Assistant => Some(true),
            Role::System => None,
        };
        match side {
            None => {},
            Some(model) => {
                let parts = gemini_parts_exec(&m.content, messages);
                if parts.len() == 0 {
                } else if pending.len() > 0 && model == pending_model {
                    append_json(&mut pending, parts);
                } else if pending.len() > 0 {
                    let mut done: Vec<JsonValue> = Vec::new();
                    std::mem::swap(&mut done, &mut pending);
                    let c = gemini_content_exec(pending_model, done);
                    push_json(&mut contents, c);
                    pending = parts;
                    pending_model = model;
                } else {
                    pending = parts;
                    pending_model = model;
                }
            },
        }
        i = i + 1;
    }
    assert(mv.take(i as int) =~= mv);
    if pending.len() > 0 {
        let c = gemini_content_exec(pending_model, pending);
        push_json(&mut contents, c);
    }
    contents
}

/// The body of a Gemini `streamGenerateContent` request, as
/// [`spec_gemini_body`] says: tool results answer under their call's tool
/// name, `data:` images are sent inline, consecutive messages of one side
/// share a content.
pub fn build_gemini_body(
    messages: &[ChatMessage],
    system_prompt: Option<&str>,
    tools: &[JsonValue],
    model: &ModelConfig,
) -> (r: JsonValue)
    ensures
        json_view(r) == spec_gemini_body(
            messages_view(messages@),
            match system_prompt {
                Some(s) => Some(s@),
                None => None,
            },
            tools@,
            model.max_output,
        ),
{
    let contents = gemini_contents_exec(messages);
    let mut members: Vec<(String, JsonValue)> = Vec::new();
    let ghost mut sm: Seq<(Seq<char>, Json)> = Seq::empty();
    let cj = json_array(contents);
    let ghost cv = json_view(cj);
    members.push(("contents".to_owned(), cj));
    proof {
        sm = sm.push(("contents"@, cv));
    }
    assert(members_view(members@) =~= sm);
    assert(sm =~= seq![("contents"@, Json::Arr(gemini_contents(messages_view(messages@))))]);
    let ghost s0 = sm;
    match model.max_output {
        Some(n) => {
            let g = obj1("maxOutputTokens", JsonValue::Number(crate::json::JsonNumber::PosInt(n as u64)));
            let ghost gv = json_view(g);
            members.push(("generationConfig".to_owned(), g));
            proof {
                sm = sm.push(("generationConfig"@, gv));
            }
            assert(members_view(members@) =~= sm);
        },
        None => {},
    }
    assert(sm == with_output_limit(s0, model.max_output));
    let ghost s1 = sm;
    match system_prompt {
        Some(sys) => {
            let mut ps: Vec<JsonValue> = Vec::new();
            assert(items_view(ps@) =~= Seq::<Json>::empty());
            push_json(&mut ps, obj1("text", str_json(sys)));
            assert(items_view(ps@) =~= seq![Json::Obj(seq![("text"@, jstr(sys@))])]);
            let g = obj1("parts", json_array(ps));
            let ghost gv = json_view(g);
            members.push(("systemInstruction".to_owned(), g));
            proof {
                sm = sm.push(("systemInstruction"@, gv));
            }
            assert(members_view(members@) =~= sm);
        },
        None => {},
    }
    let ghost sys = match system_prompt {
        Some(s) => Some(s@),
        None => None,
    };
    assert(sm == with_system(s1, sys));
    let ghost s2 = sm;
    if tools.len() > 0 {
        let mut decls: Vec<JsonValue> = Vec::new();
        let mut i: usize = 0;
        while i < tools.len()
            invariant
                i <= tools@.len(),
                decls@.len() == i,
                forall|k: int| 0 <= k < i ==> json_view(#[trigger] decls@[k]) == function_declaration(tools@[k]),
            decreases tools@.len() - i,
        {
            let t = &tools[i];
            let d = obj3(
                "description",
                member_or_null_exec(t, "description"),
                "name",
                member_or_null_exec(t, "name"),
                "parameters",
                member_or_null_exec(t, "parameters"),
            );
            decls.push(d);
            i = i + 1;
        }
        assert(items_view(decls@) =~= Seq::new(tools@.len(), |k: int| function_declaration(tools@[k])));
        let ghost dv = items_view(decls@);
        let mut fd: Vec<JsonValue> = Vec::new();
        assert(items_view(fd@) =~= Seq::<Json>::empty());
        push_json(&mut fd, obj1("functionDeclarations", json_array(decls)));
        assert(items_view(fd@) =~= seq![Json::Obj(seq![("functionDeclarations"@, Json::Arr(dv))])]);
        let g = json_array(fd);
        let ghost gv = json_view(g);
        members.push(("tools".to_owned(), g));
        proof {
            sm = sm.push(("tools"@, gv));
        }
        assert(members_view(members@) =~= sm);
    }
    assert(sm == with_tools(s2, tools@));
    json_object(members)
}

/// `value[key]`, copied: the member, or null.
fn member_or_null_exec(v: &JsonValue, key: &str) -> (r: JsonValue)
    ensures
        json_view(r) == member_or_null(*v, key@),
{
    match v.get(key) {
        Some(x) => x.deep_clone(),
        None => JsonValue::Null,
    }
}

// ---------------------------------------------------------------------------
// Tool declarations and body members shared by the protocols
// ---------------------------------------------------------------------------

/// A size as a JSON number.
pub open spec fn num(n: usize) -> Json {
    Json::PosInt(n as u64)
}

fn num_json(n: usize) -> (v: JsonValue)
    ensures
        json_view(v) == num(n),
{
    JsonValue::Number(crate::json::JsonNumber::PosInt(n as u64))
}

/// Appends one member to an object's member list.
fn push_member(members: &mut Vec<(String, JsonValue)>, key: &str, v: JsonValue)
    ensures
        members_view(final(members)@) == members_view(old(members)@).push((key@, json_view(v))),
{
    let ghost before = members_view(members@);
    let ghost x = json_view(v);
    members.push((key.to_owned(), v));
    assert(members_view(members@) =~= before.push((key@, x)));
}

// ---------------------------------------------------------------------------
// Anthropic messages
// ---------------------------------------------------------------------------

/// A block as an Anthropic content block.
pub open spec fn anthropic_block(b: BlockView) -> Json {
    match b {
        BlockView::Text(t) => Json::Obj(seq![("text"@, jstr(t)), ("type"@, jstr("text"@))]),
        BlockView::Thinking(t) => Json::Obj(seq![("thinking"@, jstr(t)), ("type"@, jstr("thinking"@))]),
        BlockView::Image(m, d) => Json::Obj(
            seq![
                ("source"@, Json::Obj(seq![("data"@, jstr(d)), ("media_type"@, jstr(m)), ("type"@, jstr("base64"@))])),
                ("type"@, jstr("image"@)),
            ],
        ),
        BlockView::ToolUse(id, name, input) => Json::Obj(
            seq![("id"@, jstr(id)), ("input"@, input), ("name"@, jstr(name)), ("type"@, jstr("tool_use"@))],
        ),
        BlockView::ToolResult(id, c, err) => Json::Obj(
            seq![
                ("content"@, jstr(c)),
                ("is_error"@, Json::Bool(err)),
                ("tool_use_id"@, jstr(id)),
                ("type"@, jstr("tool_result"@)),
            ],
        ),
    }
}

/// A message as an Anthropic message; system messages are left out (the
/// system prompt is a member of its own), and so are messages without blocks.
pub open spec fn anthropic_message(m: MessageView) -> Option<Json> {
    if m.role is System || m.content.len() == 0 {
        None
    } else {
        let role = if m.role is User {
            "user"@
        } else {
            "assistant"@
        };
        Some(
            Json::Obj(
                seq![
                    ("content"@, Json::Arr(Seq::new(m.content.len(), |i: int| anthropic_block(m.content[i])))),
                    ("role"@, jstr(role)),
                ],
            ),
        )
    }
}

pub open spec fn anthropic_messages(ms: Seq<MessageView>) -> Seq<Json>
    decreases ms.len(),
{
    if ms.len() == 0 {
        Seq::empty()
    } else {
        let t = anthropic_messages(ms.drop_last());
        match anthropic_message(ms.last()) {
            Some(x) => t.push(x),
            None => t,
        }
    }
}

/// A tool as an Anthropic tool.
pub open spec fn anthropic_tool(t: JsonValue) -> Json {
    Json::Obj(
        seq![
            ("description"@, member_or_null(t, "description"@)),
            ("input_schema"@, member_or_null(t, "parameters"@)),
            ("name"@, member_or_null(t, "name"@)),
        ],
    )
}

/// The Anthropic request before the presets: the output limit (4096 where
/// the model sets none), the messages, the model, streaming, the system
/// prompt and the tools where there are any.
pub open spec fn anthropic_base(
    ms: Seq<MessageView>,
    system: Option<Seq<char>>,
    tools: Seq<JsonValue>,
    model_id: Seq<char>,
    max_output: Option<usize>,
) -> Json {
    let limit: usize = match max_output {
        Some(n) => n,
        None => 4096,
    };
    let m0 = seq![
        ("max_tokens"@, num(limit)),
        ("messages"@, Json::Arr(anthropic_messages(ms))),
        ("model"@, jstr(model_id)),
        ("stream"@, Json::Bool(true)),
    ];
    let m1 = match system {
        Some(s) => m0.push(("system"@, jstr(s))),
        None => m0,
    };
    Json::Obj(
        if tools.len() > 0 {
            m1.push(("tools"@, Json::Arr(Seq::new(tools.len(), |i: int| anthropic_tool(tools[i])))))
        } else {
            m1
        },
    )
}

/// A request body with the provider's preset merged in, then the model's.
pub open spec fn with_presets(base: Json, provider_body: JsonValue, model_body: JsonValue) -> Json {
    merge_json(merge_json(base, json_view(provider_body)), json_view(model_body))
}

fn anthropic_message_exec(m: &ChatMessage) -> (r: Option<JsonValue>)
    ensures
        match r {
            Some(v) => anthropic_message(m@) == Some(json_view(v)),
            None => anthropic_message(m@) is None,
        },
{
    let role = match m.role {
        Role::User => "user",
        Role::Assistant => "assistant",
        Role::System => {
            return None;
        },
    };
    if m.content.len() == 0 {
        return None;
    }
    let mut blocks: Vec<JsonValue> = Vec::new();
    let mut j: usize = 0;
    while j < m.content.len()
        invariant
            j <= m.content@.len(),
            blocks@.len() == j,
            forall|k: int| 0 <= k < j ==> json_view(#[trigger] blocks@[k]) == anthropic_block(m.content@[k]@),
        decreases m.content@.len() - j,
    {
        let b = match &m.content[j] {
            Block::Text { text } => obj2("text", str_json(text.as_str()), "type", str_json("text")),
            Block::Thinking { thinking } => obj2("thinking", str_json(thinking.as_str()), "type", str_json("thinking")),
            Block::Image { mime_type, data } => obj2(
                "source",
                obj3("data", str_json(data.as_str()), "media_type", str_json(mime_type.as_str()), "type", str_json("base64")),
                "type",
                str_json("image"),
            ),
            Block::ToolUse { id, name, input } => obj4(
                "id",
                str_json(id.as_str()),
                "input",
                input.deep_clone(),
                "name",
                str_json(name.as_str()),
                "type",
                str_json("tool_use"),
            ),
            Block::ToolResult { tool_use_id, content, is_error } => obj4(
                "content",
                str_json(content.as_str()),
                "is_error",
                JsonValue::Bool(*is_error),
                "tool_use_id",
                str_json(tool_use_id.as_str()),
                "type",
                str_json("tool_result"),
            ),
        };
        blocks.push(b);
        j = j + 1;
    }
    assert(items_view(blocks@) =~= Seq::new(m@.content.len(), |i: int| anthropic_block(m@.content[i])));
    Some(obj2("content", json_array(blocks), "role", str_json(role)))
}

/// The body of an Anthropic messages request, as [`anthropic_base`] and
/// [`with_presets`] say.
pub fn build_anthropic_body(
    messages: &[ChatMessage],
    system_prompt: Option<&str>,
    tools: &[JsonValue],
    model: &ModelConfig,
    provider_body: &JsonValue,
) -> (r: JsonValue)
    ensures
        json_view(r) == with_presets(
            anthropic_base(
                messages_view(messages@),
                match system_prompt {
                    Some(s) => Some(s@),
                    None => None,
                },
                tools@,
                model.id@,
                model.max_output,
            ),
            *provider_body,
            model.body,
        ),
{
    let ghost mv = messages_view(messages@);
    let mut list: Vec<JsonValue> = Vec::new();
    let mut i: usize = 0;
    assert(mv.take(0) =~= Seq::<MessageView>::empty());
    assert(items_view(list@) =~= Seq::<Json>::empty());
    while i < messages.len()
        invariant
            i <= messages@.len(),
            mv == messages_view(messages@),
            items_view(list@) == anthropic_messages(mv.take(i as int)),
        decreases messages@.len() - i,
    {
        assert(mv.take(i + 1).drop_last() =~= mv.take(i as int));
        assert(mv.take(i + 1).last() == messages@[i as int]@);
        match anthropic_message_exec(&messages[i]) {
            Some(v) => push_json(&mut list, v),
            None => {},
        }
        i = i + 1;
    }
    assert(mv.take(i as int) =~= mv);
    let limit: usize = match model.max_output {
        Some(n) => n,
        None => 4096,
    };
    let mut mm: Vec<(String, JsonValue)> = Vec::new();
    assert(members_view(mm@) =~= Seq::<(Seq<char>, Json)>::empty());
    let ghost lv = items_view(list@);
    push_member(&mut mm, "max_tokens", num_json(limit));
    push_member(&mut mm, "messages", json_array(list));
    push_member(&mut mm, "model", str_json(model.id.as_str()));
    push_member(&mut mm, "stream", JsonValue::Bool(true));
    let ghost m0 = seq![
        ("max_tokens"@, num(limit)),
        ("messages"@, Json::Arr(lv)),
        ("model"@, jstr(model.id@)),
        ("stream"@, Json::Bool(true)),
    ];
    assert(members_view(mm@) =~= m0);
    match system_prompt {
        Some(sys) => push_member(&mut mm, "system", str_json(sys)),
        None => {},
    }
    let ghost m1 = match system_prompt {
        Some(sys) => m0.push(("system"@, jstr(sys@))),
        None => m0,
    };
    assert(members_view(mm@) == m1);
    if tools.len() > 0 {
        let mut ts: Vec<JsonValue> = Vec::new();
        let mut k: usize = 0;
        while k < tools.len()
            invariant
                k <= tools@.len(),
                ts@.len() == k,
                forall|q: int| 0 <= q < k ==> json_view(#[trigger] ts@[q]) == anthropic_tool(tools@[q]),
            decreases tools@.len() - k,
        {
            let t = &tools[k];
            ts.push(
                obj3(
                    "description",
                    member_or_null_exec(t, "description"),
                    "input_schema",
                    member_or_null_exec(t, "parameters"),
                    "name",
                    member_or_null_exec(t, "name"),
                ),
            );
            k = k + 1;
        }
        assert(items_view(ts@) =~= Seq::new(tools@.len(), |q: int| anthropic_tool(tools@[q])));
        push_member(&mut mm, "tools", json_array(ts));
    }
    let mut body = json_object(mm);
    deep_merge_json(&mut body, provider_body);
    deep_merge_json(&mut body, &model.body);
    body
}

// ---------------------------------------------------------------------------
// OpenAI chat completions body
// ---------------------------------------------------------------------------

/// A tool as a chat-completions function tool.
pub open spec fn completion_tool(t: JsonValue) -> Json {
    Json::Obj(
        seq![
            (
                "function"@,
                Json::Obj(
                    seq![
                        ("description"@, member_or_null(t, "description"@)),
                        ("name"@, member_or_null(t, "name"@)),
                        ("parameters"@, member_or_null(t, "parameters"@)),
                    ],
                ),
            ),
            ("type"@, jstr("function"@)),
        ],
    )
}

/// The chat-completions request before the presets: the output limit where
/// the model sets one, the messages, the model, the reasoning effort where
/// there is one, streaming, and the tools where there are any.
pub open spec fn completion_base(
    ms: Seq<MessageView>,
    system: Option<Seq<char>>,
    tools: Seq<JsonValue>,
    model_id: Seq<char>,
    max_output: Option<usize>,
    effort: Seq<char>,
) -> Json {
    let m0 = match max_output {
        Some(n) => seq![("max_tokens"@, num(n))],
        None => Seq::empty(),
    };
    let m1 = m0.push(("messages"@, Json::Arr(spec_openai_messages(ms, system)))).push(("model"@, jstr(model_id)));
    let m2 = if effort.len() > 0 {
        m1.push(("reasoning_effort"@, jstr(effort)))
    } else {
        m1
    };
    let m3 = m2.push(("stream"@, Json::Bool(true)));
    Json::Obj(
        if tools.len() > 0 {
            m3.push(("tools"@, Json::Arr(Seq::new(tools.len(), |i: int| completion_tool(tools[i])))))
        } else {
            m3
        },
    )
}

/// The body of a chat-completions request, as [`completion_base`] and
/// [`with_presets`] say.
pub fn build_completion_body(
    messages: &[ChatMessage],
    system_prompt: Option<&str>,
    tools: &[JsonValue],
    model: &ModelConfig,
    provider_body: &JsonValue,
) -> (r: JsonValue)
    ensures
        json_view(r) == with_presets(
            completion_base(
                messages_view(messages@),
                match system_prompt {
                    Some(s) => Some(s@),
                    None => None,
                },
                tools@,
                model.id@,
                model.max_output,
                model.reasoning_effort@,
            ),
            *provider_body,
            model.body,
        ),
{
    let list = build_openai_messages(messages, system_prompt);
    let mut mm: Vec<(String, JsonValue)> = Vec::new();
    assert(members_view(mm@) =~= Seq::<(Seq<char>, Json)>::empty());
    match model.max_output {
        Some(n) => push_member(&mut mm, "max_tokens", num_json(n)),
        None => {},
    }
    push_member(&mut mm, "messages", json_array(list));
    push_member(&mut mm, "model", str_json(model.id.as_str()));
    if !model.reasoning_effort.as_str().is_empty() {
        push_member(&mut mm, "reasoning_effort", str_json(model.reasoning_effort.as_str()));
    }
    push_member(&mut mm, "stream", JsonValue::Bool(true));
    if tools.len() > 0 {
        let mut ts: Vec<JsonValue> = Vec::new();
        let mut k: usize = 0;
        while k < tools.len()
            invariant
                k <= tools@.len(),
                ts@.len() == k,
                forall|q: int| 0 <= q < k ==> json_view(#[trigger] ts@[q]) == completion_tool(tools@[q]),
            decreases tools@.len() - k,
        {
            let t = &tools[k];
            let f = obj3(
                "description",
                member_or_null_exec(t, "description"),
                "name",
                member_or_null_exec(t, "name"),
                "parameters",
                member_or_null_exec(t, "parameters"),
            );
            ts.push(obj2("function", f, "type", str_json("function")));
            k = k + 1;
        }
        assert(items_view(ts@) =~= Seq::new(tools@.len(), |q: int| completion_tool(tools@[q])));
        push_member(&mut mm, "tools", json_array(ts));
    }
    let mut body = json_object(mm);
    deep_merge_json(&mut body, provider_body);
    deep_merge_json(&mut body, &model.body);
    body
}

// ---------------------------------------------------------------------------
// OpenAI responses body
// ---------------------------------------------------------------------------

/// An `input_text` content part.
pub open spec fn input_text(t: Seq<char>) -> Json {
    Json::Obj(seq![("text"@, jstr(t)), ("type"@, jstr("input_text"@))])
}

/// A system input item.
pub open spec fn system_item(t: Seq<char>) -> Json {
    Json::Obj(seq![("content"@, Json::Arr(seq![input_text(t)])), ("role"@, jstr("system"@))])
}

/// The function calls of an assistant message, its inputs sent as JSON text.
pub open spec fn function_calls(bs: Seq<BlockView>) -> Seq<Json>
    decreases bs.len(),
{
    if bs.len() == 0 {
        Seq::empty()
    } else {
        let t = function_calls(bs.drop_last());
        match bs.last() {
            BlockView::ToolUse(id, name, input) => t.push(
                Json::Obj(
                    seq![
                        ("arguments"@, jstr(json_text(input))),
                        ("call_id"@, jstr(id)),
                        ("name"@, jstr(name)),
                        ("type"@, jstr("function_call"@)),
                    ],
                ),
            ),
            _ => t,
        }
    }
}

/// An assistant message: its function calls, then its text (when it has
/// any) as one output text.
pub open spec fn assistant_items(bs: Seq<BlockView>) -> Seq<Json> {
    let texts = block_texts(bs);
    if texts.len() > 0 {
        function_calls(bs).push(
            Json::Obj(
                seq![
                    ("content"@, Json::Arr(seq![Json::Obj(seq![("text"@, jstr(join(texts, seq!['\n']))), ("type"@, jstr("output_text"@))])])),
                    ("role"@, jstr("assistant"@)),
                ],
            ),
        )
    } else {
        function_calls(bs)
    }
}

/// What a failed tool result is sent as: the JSON text of `{"error": ..}`.
pub open spec fn error_output(c: Seq<char>) -> Seq<char> {
    json_text(Json::Obj(seq![("error"@, jstr(c))]))
}

/// Tool results as function call outputs.
pub open spec fn call_outputs(bs: Seq<BlockView>) -> Seq<Json>
    decreases bs.len(),
{
    if bs.len() == 0 {
        Seq::empty()
    } else {
        let t = call_outputs(bs.drop_last());
        match bs.last() {
            BlockView::ToolResult(id, c, err) => t.push(
                Json::Obj(
                    seq![
                        ("call_id"@, jstr(id)),
                        (
                            "output"@,
                            jstr(
                                if err {
                                    error_output(c)
                                } else {
                                    c
                                },
                            ),
                        ),
                        ("type"@, jstr("function_call_output"@)),
                    ],
                ),
            ),
            _ => t,
        }
    }
}

/// The content parts of a user message: its texts and its images.
pub open spec fn input_parts(bs: Seq<BlockView>) -> Seq<Json>
    decreases bs.len(),
{
    if bs.len() == 0 {
        Seq::empty()
    } else {
        let t = input_parts(bs.drop_last());
        match bs.last() {
            BlockView::Text(x) => t.push(input_text(x)),
            BlockView::Image(m, d) => t.push(
                Json::Obj(seq![("image_url"@, jstr(spec_image_data_url(m, d))), ("type"@, jstr("input_image"@))]),
            ),
            _ => t,
        }
    }
}

/// A user message: tool results (when it holds nothing else) as function
/// call outputs, else one item of its parts (one empty text when it has
/// none).
pub open spec fn user_items(bs: Seq<BlockView>) -> Seq<Json> {
    if all_tool_results(bs) {
        call_outputs(bs)
    } else {
        let parts = input_parts(bs);
        let parts = if parts.len() == 0 {
            seq![input_text(Seq::empty())]
        } else {
            parts
        };
        seq![Json::Obj(seq![("content"@, Json::Arr(parts)), ("role"@, jstr("user"@))])]
    }
}

pub open spec fn response_items(m: MessageView) -> Seq<Json> {
    match m.role {
        Role::System => seq![system_item(text_lines_of(m.content))],
        Role::Assistant => assistant_items(m.content),
        Role::User => user_items(m.content),
    }
}

pub open spec fn responses_input_of(ms: Seq<MessageView>) -> Seq<Json>
    decreases ms.len(),
{
    if ms.len() == 0 {
        Seq::empty()
    } else {
        responses_input_of(ms.drop_last()) + response_items(ms.last())
    }
}

/// The `input` of a responses request: the system prompt first, then each
/// message's items.
pub open spec fn spec_responses_input(ms: Seq<MessageView>, system: Option<Seq<char>>) -> Seq<Json> {
    (match system {
        Some(s) => seq![system_item(s)],
        None => Seq::empty(),
    }) + responses_input_of(ms)
}

/// A tool as a responses function tool.
pub open spec fn responses_tool(t: JsonValue) -> Json {
    Json::Obj(
        seq![
            ("description"@, member_or_null(t, "description"@)),
            ("name"@, member_or_null(t, "name"@)),
            ("parameters"@, member_or_null(t, "parameters"@)),
            ("type"@, jstr("function"@)),
        ],
    )
}

/// The responses request before the presets: the input, the output limit
/// where the model sets one, the model, the reasoning effort where there is
/// one, streaming, and the tools where there are any.
pub open spec fn responses_base(
    ms: Seq<MessageView>,
    system: Option<Seq<char>>,
    tools: Seq<JsonValue>,
    model_id: Seq<char>,
    max_output: Option<usize>,
    effort: Seq<char>,
) -> Json {
    let m0 = seq![("input"@, Json::Arr(spec_responses_input(ms, system)))];
    let m1 = match max_output {
        Some(n) => m0.push(("max_output_tokens"@, num(n))),
        None => m0,
    };
    let m2 = m1.push(("model"@, jstr(model_id)));
    let m3 = if effort.len() > 0 {
        m2.push(("reasoning"@, Json::Obj(seq![("effort"@, jstr(effort))])))
    } else {
        m2
    };
    let m4 = m3.push(("stream"@, Json::Bool(true)));
    Json::Obj(
        if tools.len() > 0 {
            m4.push(("tools"@, Json::Arr(Seq::new(tools.len(), |i: int| responses_tool(tools[i])))))
        } else {
            m4
        },
    )
}

fn system_item_exec(t: &[char]) -> (v: JsonValue)
    ensures
        json_view(v) == system_item(t@),
{
    let mut parts: Vec<JsonValue> = Vec::new();
    assert(items_view(parts@) =~= Seq::<Json>::empty());
    push_json(&mut parts, obj2("text", chars_json(t), "type", str_json("input_text")));
    assert(items_view(parts@) =~= seq![input_text(t@)]);
    obj2("content", json_array(parts), "role", str_json("system"))
}

fn assistant_items_exec(m: &ChatMessage, out: &mut Vec<JsonValue>)
    ensures
        items_view(final(out)@) == items_view(old(out)@) + assistant_items(m@.content),
{
    let ghost bv = m@.content;
    let ghost start = items_view(out@);
    let texts = block_texts_exec(&m.content);
    let mut j: usize = 0;
    assert(bv.take(0) =~= Seq::<BlockView>::empty());
    assert(start + Seq::<Json>::empty() =~= start);
    while j < m.content.len()
        invariant
            j <= m.content@.len(),
            bv == m@.content,
            items_view(out@) == start + function_calls(bv.take(j as int)),
        decreases m.content@.len() - j,
    {
        assert(bv.take(j + 1).drop_last() =~= bv.take(j as int));
        assert(bv.take(j + 1).last() == m.content@[j as int]@);
        match &m.content[j] {
            Block::ToolUse { id, name, input } => {
                let args = json_to_text(input);
                let c = obj4(
                    "arguments",
                    json_string(args),
                    "call_id",
                    str_json(id.as_str()),
                    "name",
                    str_json(name.as_str()),
                    "type",
                    str_json("function_call"),
                );
                let ghost before = items_view(out@);
                push_json(out, c);
                assert(start + function_calls(bv.take(j + 1)) =~= before.push(json_view(c)));
            },
            _ => {},
        }
        j = j + 1;
    }
    assert(bv.take(j as int) =~= bv);
    if texts.len() > 0 {
        let nl: Vec<char> = vec!['\n'];
        assert(nl@ =~= seq!['\n']);
        let joined = join_exec(&texts, nl.as_slice());
        let mut parts: Vec<JsonValue> = Vec::new();
        assert(items_view(parts@) =~= Seq::<Json>::empty());
        push_json(&mut parts, obj2("text", chars_json(joined.as_slice()), "type", str_json("output_text")));
        let ghost pv = items_view(parts@);
        assert(pv =~= seq![Json::Obj(seq![("text"@, jstr(joined@)), ("type"@, jstr("output_text"@))])]);
        let o = obj2("content", json_array(parts), "role", str_json("assistant"));
        let ghost before = items_view(out@);
        push_json(out, o);
        assert(items_view(out@) =~= start + assistant_items(bv));
    }
}

fn user_items_exec(m: &ChatMessage, out: &mut Vec<JsonValue>)
    ensures
        items_view(final(out)@) == items_view(old(out)@) + user_items(m@.content),
{
    let ghost bv = m@.content;
    let ghost start = items_view(out@);
    let n = m.content.len();
    let mut all_results = n > 0;
    let mut j: usize = 0;
    while j < n
        invariant
            j <= n,
            n == m.content@.len(),
            bv == m@.content,
            all_results <==> (n > 0 && forall|k: int| 0 <= k < j ==> #[trigger] bv[k] is ToolResult),
        decreases n - j,
    {
        assert(bv[j as int] == m.content@[j as int]@);
        match &m.content[j] {
            Block::ToolResult { .. } => {},
            _ => {
                all_results = false;
            },
        }
        j = j + 1;
    }
    if all_results {
        let mut j: usize = 0;
        assert(bv.take(0) =~= Seq::<BlockView>::empty());
        assert(start + Seq::<Json>::empty() =~= start);
        while j < n
            invariant
                j <= n,
                n == m.content@.len(),
                bv == m@.content,
                items_view(out@) == start + call_outputs(bv.take(j as int)),
            decreases n - j,
        {
            assert(bv.take(j + 1).drop_last() =~= bv.take(j as int));
            assert(bv.take(j + 1).last() == m.content@[j as int]@);
            match &m.content[j] {
                Block::ToolResult { tool_use_id, content, is_error } => {
                    let output = if *is_error {
                        let e = obj1("error", str_json(content.as_str()));
                        json_to_text(&e)
                    } else {
                        content.clone()
                    };
                    let o = obj3(
                        "call_id",
                        str_json(tool_use_id.as_str()),
                        "output",
                        json_string(output),
                        "type",
                        str_json("function_call_output"),
                    );
                    let ghost before = items_view(out@);
                    push_json(out, o);
                    assert(start + call_outputs(bv.take(j + 1)) =~= before.push(json_view(o)));
                },
                _ => {},
            }
            j = j + 1;
        }
        assert(bv.take(j as int) =~= bv);
    } else {
        let mut parts: Vec<JsonValue> = Vec::new();
        let mut j: usize = 0;
        assert(bv.take(0) =~= Seq::<BlockView>::empty());
        assert(items_view(parts@) =~= Seq::<Json>::empty());
        while j < n
            invariant
                j <= n,
                n == m.content@.len(),
                bv == m@.content,
                items_view(parts@) == input_parts(bv.take(j as int)),
            decreases n - j,
        {
            assert(bv.take(j + 1).drop_last() =~= bv.take(j as int));
            assert(bv.take(j + 1).last() == m.content@[j as int]@);
            match &m.content[j] {
                Block::Text { text } => {
                    let p = obj2("text", str_json(text.as_str()), "type", str_json("input_text"));
                    push_json(&mut parts, p);
                },
                Block::Image { mime_type, data } => {
                    let url = image_data_url(mime_type.as_str(), data.as_str());
                    let p = obj2("image_url", json_string(url), "type", str_json("input_image"));
                    push_json(&mut parts, p);
                },
                _ => {},
            }
            j = j + 1;
        }
        assert(bv.take(j as int) =~= bv);
        if parts.len() == 0 {
            let e: Vec<char> = Vec::new();
            push_json(&mut parts, obj2("text", chars_json(e.as_slice()), "type", str_json("input_text")));
            assert(items_view(parts@) =~= seq![input_text(Seq::empty())]);
        }
        let o = obj2("content", json_array(parts), "role", str_json("user"));
        push_json(out, o);
        assert(items_view(out@) =~= start + user_items(bv));
    }
}

/// The `input` of a responses request, as [`spec_responses_input`] says:
/// tool results become function call outputs (a failure as the JSON text
/// of `{"error": ..}`), tool calls become function calls.
pub fn build_responses_input(messages: &[ChatMessage], system_prompt: Option<&str>) -> (r: Vec<JsonValue>)
    ensures
        items_view(r@) == spec_responses_input(
            messages_view(messages@),
            match system_prompt {
                Some(s) => Some(s@),
                None => None,
            },
        ),
{
    let ghost mv = messages_view(messages@);
    let mut out: Vec<JsonValue> = Vec::new();
    assert(items_view(out@) =~= Seq::<Json>::empty());
    match system_prompt {
        Some(sys) => {
            let sc = chars_of(sys);
            push_json(&mut out, system_item_exec(sc.as_slice()));
        },
        None => {},
    }
    let ghost head = items_view(out@);
    assert(head =~= match system_prompt {
        Some(s) => seq![system_item(s@)],
        None => Seq::<Json>::empty(),
    });
    let mut i: usize = 0;
    assert(mv.take(0) =~= Seq::<MessageView>::empty());
    assert(head + Seq::<Json>::empty() =~= head);
    while i < messages.len()
        invariant
            i <= messages@.len(),
            mv == messages_view(messages@),
            items_view(out@) == head + responses_input_of(mv.take(i as int)),
        decreases messages@.len() - i,
    {
        assert(mv.take(i + 1).drop_last() =~= mv.take(i as int));
        assert(mv.take(i + 1).last() == messages@[i as int]@);
        let m = &messages[i];
        let ghost before = items_view(out@);
        match m.role {
            Role::System => {
                let t = text_lines_exec(&m.content);
                let o = system_item_exec(t.as_slice());
                push_json(&mut out, o);
                assert(before + seq![json_view(o)] =~= before.push(json_view(o)));
            },
            Role::Assistant => {
                assistant_items_exec(m, &mut out);
            },
            Role::User => {
                user_items_exec(m, &mut out);
            },
        }
        assert(head + responses_input_of(mv.take(i + 1)) =~= before + response_items(m@));
        i = i + 1;
    }
    assert(mv.take(i as int) =~= mv);
    out
}

/// The body of a responses request, as [`responses_base`] and
/// [`with_presets`] say.
pub fn build_responses_body(
    messages: &[ChatMessage],
    system_prompt: Option<&str>,
    tools: &[JsonValue],
    model: &ModelConfig,
    provider_body: &JsonValue,
) -> (r: JsonValue)
    ensures
        json_view(r) == with_presets(
            responses_base(
                messages_view(messages@),
                match system_prompt {
                    Some(s) => Some(s@),
                    None => None,
                },
                tools@,
                model.id@,
                model.max_output,
                model.reasoning_effort@,
            ),
            *provider_body,
            model.body,
        ),
{
    let input = build_responses_input(messages, system_prompt);
    let mut mm: Vec<(String, JsonValue)> = Vec::new();
    assert(members_view(mm@) =~= Seq::<(Seq<char>, Json)>::empty());
    push_member(&mut mm, "input", json_array(input));
    match model.max_output {
        Some(n) => push_member(&mut mm, "max_output_tokens", num_json(n)),
        None => {},
    }
    push_member(&mut mm, "model", str_json(model.id.as_str()));
    if !model.reasoning_effort.as_str().is_empty() {
        push_member(&mut mm, "reasoning", obj1("effort", str_json(model.reasoning_effort.as_str())));
    }
    push_member(&mut mm, "stream", JsonValue::Bool(true));
    if tools.len() > 0 {
        let mut ts: Vec<JsonValue> = Vec::new();
        let mut k: usize = 0;
        while k < tools.len()
            invariant
                k <= tools@.len(),
                ts@.len() == k,
                forall|q: int| 0 <= q < k ==> json_view(#[trigger] ts@[q]) == responses_tool(tools@[q]),
            decreases tools@.len() - k,
        {
            let t = &tools[k];
            ts.push(
                obj4(
                    "description",
                    member_or_null_exec(t, "description"),
                    "name",
                    member_or_null_exec(t, "name"),
                    "parameters",
                    member_or_null_exec(t, "parameters"),
                    "type",
                    str_json("function"),
                ),
            );
            k = k + 1;
        }
        assert(items_view(ts@) =~= Seq::new(tools@.len(), |q: int| responses_tool(tools@[q])));
        push_member(&mut mm, "tools", json_array(ts));
    }
    let mut body = json_object(mm);
    deep_merge_json(&mut body, provider_body);
    deep_merge_json(&mut body, &model.body);
    body
}

} // verus!
