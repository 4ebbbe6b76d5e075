//! Routing of requests by their JSON body: image generation goes to the image service where
//! one is set up, and a request that goes to the text service advertises no image generation.

use crate::json;
use crate::json::{Json, JsonTree};
use crate::text;
use vstd::prelude::*;
use vstd::slice::slice_to_vec;

verus! {

/// The service that a request goes to.
#[derive(Debug, Clone, Copy, PartialEq, Eq)]
pub enum RelayRoute {
    Text,
    Image,
}

impl RelayRoute {
    /// The name of the service.
    pub fn as_str(self) -> (name: &'static str)
        ensures
            name@ == match self {
                RelayRoute::Text => "text"@,
                RelayRoute::Image => "image"@,
            },
    {
        match self {
            RelayRoute::Text => "text",
            RelayRoute::Image => "image",
        }
    }
}

/// A request body and the service that it goes to.
#[derive(Debug, Clone, PartialEq, Eq)]
pub struct RoutedRequest {
    pub route: RelayRoute,
    pub body: Vec<u8>,
}

/// Whether a value names image generation, as a text or as a key, at any depth.
pub open spec fn mentions_image_generation(value: JsonTree) -> bool
    decreases value,
{
    match value {
        JsonTree::Text(text) => text == "image_generation"@,
        JsonTree::Array(items) => exists|i: int|
            0 <= i < items.len() && mentions_image_generation(#[trigger] items[i]),
        JsonTree::Object(entries) => exists|i: int|
            0 <= i < entries.len() && ((#[trigger] entries[i]).0 == "image_generation"@
                || mentions_image_generation(entries[i].1)),
        _ => false,
    }
}

/// Whether the key of an entry says that its value is part of a prompt.
pub open spec fn is_prompt_key(key: Seq<char>) -> bool {
    ||| key == "text"@
    ||| key == "content"@
    ||| key == "input_text"@
    ||| key == "input"@
    ||| key == "messages"@
}

/// The texts of a prompt, each followed by a line feed. In an object only the entries of the
/// prompt count.
pub open spec fn prompt_text(value: JsonTree) -> Seq<char>
    decreases value,
{
    match value {
        JsonTree::Text(text) => text.push('\n'),
        JsonTree::Array(items) => prompt_text_of_items(items),
        JsonTree::Object(entries) => prompt_text_of_entries(entries),
        _ => seq![],
    }
}

/// The prompt texts of the items of an array, one after the other.
pub open spec fn prompt_text_of_items(items: Seq<JsonTree>) -> Seq<char>
    decreases items,
{
    if items.len() == 0 {
        seq![]
    } else {
        prompt_text_of_items(items.drop_last()) + prompt_text(items.last())
    }
}

/// The prompt texts of the entries of an object, one after the other.
pub open spec fn prompt_text_of_entries(entries: Seq<(Seq<char>, JsonTree)>) -> Seq<char>
    decreases entries,
{
    if entries.len() == 0 {
        seq![]
    } else {
        prompt_text_of_entries(entries.drop_last()) + if is_prompt_key(entries.last().0) {
            prompt_text(entries.last().1)
        } else {
            seq![]
        }
    }
}

/// Whether a request forces the choice of the image generation tool.
pub open spec fn forces_image_tool(value: JsonTree) -> bool {
    value.field("tool_choice"@) matches Some(choice) && mentions_image_generation(choice)
}

/// Whether a text asks for an image.
pub open spec fn asks_for_image(text: Seq<char>) -> bool {
    let lower = text::ascii_lower(text);
    ||| text::occurs_in("generate image"@, lower)
    ||| text::occurs_in("create image"@, lower)
    ||| text::occurs_in("draw "@, lower)
    ||| text::occurs_in("生成图片"@, lower)
    ||| text::occurs_in("创建图片"@, lower)
    ||| text::occurs_in("画一张"@, lower)
    ||| text::occurs_in("绘制"@, lower)
}

/// The part of a request that holds its prompt: its input, or all of it if it has none.
pub open spec fn prompt_of(value: JsonTree) -> JsonTree {
    match value.field("input"@) {
        Some(input) => input,
        None => value,
    }
}

/// Whether a request needs the image service.
pub open spec fn needs_image_service(value: JsonTree) -> bool {
    forces_image_tool(value) || asks_for_image(prompt_text(prompt_of(value)))
}

/// Whether a text is the name of the image generation tool, in one of its two spellings.
pub open spec fn is_image_tool_name(name: Seq<char>) -> bool {
    name == "image_generation"@ || name == "imageGeneration"@
}

/// Whether a tool of a request is the image generation tool.
pub open spec fn is_image_tool(tool: JsonTree) -> bool {
    tool.field("type"@) matches Some(JsonTree::Text(kind)) && is_image_tool_name(kind)
}

/// Whether an item asks for results of image generation to be part of the response.
pub open spec fn is_image_include(item: JsonTree) -> bool {
    item matches JsonTree::Text(part) && "image_generation_call."@.is_prefix_of(part)
}

/// Whether a value names image generation, as a text or as a key, at any depth.
pub fn value_mentions_image_generation(value: &Json) -> (found: bool)
    ensures
        found == mentions_image_generation(value@),
    decreases value@,
{
    let ghost tree = value@;
    match value {
        Json::Text(text) => text::same_text(text.as_str(), "image_generation"),
        Json::Array(items) => {
            proof {
                json::lemma_array_view(*items);
            }
            let mut i: usize = 0;
            while i < items.len()
                invariant
                    i <= items@.len(),
                    tree == value@,
                    tree == JsonTree::Array(json::item_trees(items@)),
                    json::item_trees(items@).len() == items@.len(),
                    forall|j: int|
                        0 <= j < items@.len() ==> json::item_trees(items@)[j] == (#[trigger] items@[j])@,
                    forall|j: int|
                        0 <= j < i ==> !mentions_image_generation(
                            #[trigger] json::item_trees(items@)[j],
                        ),
                decreases items@.len() - i,
            {
                assert(items@[i as int]@ == json::item_trees(items@)[i as int]);
                assert(decreases_to!(tree => tree->Array_0[i as int]));
                if value_mentions_image_generation(&items[i]) {
                    return true;
                }
                i = i + 1;
            }
            false
        },
        Json::Object(entries) => {
            proof {
                json::lemma_object_view(*entries);
            }
            let mut i: usize = 0;
            while i < entries.len()
                invariant
                    i <= entries@.len(),
                    tree == value@,
                    tree == JsonTree::Object(json::entry_trees(entries@)),
                    json::entry_trees(entries@).len() == entries@.len(),
                    forall|j: int|
                        0 <= j < entries@.len() ==> json::entry_trees(entries@)[j] == (
                            (#[trigger] entries@[j]).0@,
                            entries@[j].1@,
                        ),
                    forall|j: int|
                        0 <= j < i ==> (#[trigger] json::entry_trees(entries@)[j]).0
                            != "image_generation"@ && !mentions_image_generation(
                            json::entry_trees(entries@)[j].1,
                        ),
                decreases entries@.len() - i,
            {
                let entry = &entries[i];
                assert(json::entry_trees(entries@)[i as int] == (entry.0@, entry.1@));
                assert(decreases_to!(tree => tree->Object_0[i as int].1));
                if text::same_text(entry.0.as_str(), "image_generation")
                    || value_mentions_image_generation(&entry.1) {
                    return true;
                }
                i = i + 1;
            }
            false
        },
        _ => false,
    }
}

/// Appends the texts of a prompt to `output`, each followed by a line feed.
pub fn collect_text_content(value: &Json, output: &mut String)
    ensures
        final(output)@ == old(output)@ + prompt_text(value@),
    decreases value@,
{
    let ghost tree = value@;
    let ghost before = output@;
    match value {
        Json::Text(part) => {
            output.append(part.as_str());
            output.push('\n');
            assert(output@ =~= before + prompt_text(tree));
        },
        Json::Array(items) => {
            let ghost trees = json::item_trees(items@);
            proof {
                json::lemma_array_view(*items);
            }
            let mut i: usize = 0;
            assert(output@ =~= before + prompt_text_of_items(trees.take(0)));
            while i < items.len()
                invariant
                    i <= items@.len(),
                    tree == value@,
                    tree == JsonTree::Array(trees),
                    trees.len() == items@.len(),
                    forall|j: int| 0 <= j < items@.len() ==> trees[j] == (#[trigger] items@[j])@,
                    output@ == before + prompt_text_of_items(trees.take(i as int)),
                decreases items@.len() - i,
            {
                assert(items@[i as int]@ == trees[i as int]);
                assert(decreases_to!(tree => tree->Array_0[i as int]));
                collect_text_content(&items[i], output);
                assert(trees.take(i + 1).drop_last() == trees.take(i as int));
                assert(output@ =~= before + prompt_text_of_items(trees.take(i + 1)));
                i = i + 1;
            }
            assert(trees.take(i as int) == trees);
        },
        Json::Object(entries) => {
            let ghost trees = json::entry_trees(entries@);
            proof {
                json::lemma_object_view(*entries);
            }
            let mut i: usize = 0;
            assert(output@ =~= before + prompt_text_of_entries(trees.take(0)));
            while i < entries.len()
                invariant
                    i <= entries@.len(),
                    tree == value@,
                    tree == JsonTree::Object(trees),
                    trees.len() == entries@.len(),
                    forall|j: int|
                        0 <= j < entries@.len() ==> trees[j] == (
                            (#[trigger] entries@[j]).0@,
                            entries@[j].1@,
                        ),
                    output@ == before + prompt_text_of_entries(trees.take(i as int)),
                decreases entries@.len() - i,
            {
                let entry = &entries[i];
                assert(trees[i as int] == (entry.0@, entry.1@));
                assert(decreases_to!(tree => tree->Object_0[i as int].1));
                if prompt_key(entry.0.as_str()) {
                    collect_text_content(&entry.1, output);
                }
                assert(trees.take(i + 1).drop_last() == trees.take(i as int));
                assert(output@ =~= before + prompt_text_of_entries(trees.take(i + 1)));
                i = i + 1;
            }
            assert(trees.take(i as int) == trees);
        },
        _ => {
            assert(output@ =~= before + prompt_text(tree));
        },
    }
}

/// Whether the key of an entry says that its value is part of a prompt.
pub fn prompt_key(key: &str) -> (found: bool)
    ensures
        found == is_prompt_key(key@),
{
    text::same_text(key, "text") || text::same_text(key, "content") || text::same_text(
        key,
        "input_text",
    ) || text::same_text(key, "input") || text::same_text(key, "messages")
}

/// Whether a request forces the choice of the image generation tool.
pub fn tool_choice_is_image_generation(value: &Json) -> (found: bool)
    ensures
        found == forces_image_tool(value@),
{
    match value.get("tool_choice") {
        Some(choice) => value_mentions_image_generation(choice),
        None => false,
    }
}

/// Whether the prompt of a request asks for an image.
pub fn prompt_asks_for_image_generation(value: &Json) -> (found: bool)
    ensures
        found == asks_for_image(prompt_text(prompt_of(value@))),
{
    let mut prompt: String = String::new();
    match value.get("input") {
        Some(input) => collect_text_content(input, &mut prompt),
        None => collect_text_content(value, &mut prompt),
    }
    assert(prompt@ =~= prompt_text(prompt_of(value@)));
    let lower = text::to_ascii_lowercase(prompt.as_str());
    let lower = lower.as_str();
    text::contains(lower, "generate image") || text::contains(lower, "create image")
        || text::contains(lower, "draw ") || text::contains(lower, "生成图片") || text::contains(
        lower,
        "创建图片",
    ) || text::contains(lower, "画一张") || text::contains(lower, "绘制")
}

/// Whether a request needs the image service.
pub fn request_requires_image_generation(value: &Json) -> (found: bool)
    ensures
        found == needs_image_service(value@),
{
    tool_choice_is_image_generation(value) || prompt_asks_for_image_generation(value)
}

/// Whether a tool of a request is the image generation tool.
pub fn tool_is_image_generation(value: &Json) -> (found: bool)
    ensures
        found == is_image_tool(value@),
{
    match value.get("type") {
        Some(Json::Text(kind)) => text::same_text(kind.as_str(), "image_generation")
            || text::same_text(kind.as_str(), "imageGeneration"),
        _ => false,
    }
}

/// The lists of a request that may hold image generation: its tools, and what is to be part of
/// the response.
#[derive(Debug, Clone, Copy, PartialEq, Eq)]
pub enum ListKind {
    Tools,
    Include,
}

/// Whether an item of a list is about image generation.
pub open spec fn is_image_item(kind: ListKind, item: JsonTree) -> bool {
    match kind {
        ListKind::Tools => is_image_tool(item),
        ListKind::Include => is_image_include(item),
    }
}

/// Which items of a list go to the text service.
pub open spec fn is_text_item(kind: ListKind) -> spec_fn(JsonTree) -> bool {
    |item| !is_image_item(kind, item)
}

/// A list of a request without what is about image generation.
pub open spec fn text_items(kind: ListKind, list: JsonTree) -> JsonTree {
    match list {
        JsonTree::Array(items) => JsonTree::Array(items.filter(is_text_item(kind))),
        _ => list,
    }
}

/// Whether a choice of tool is a list of the tools that are allowed.
pub open spec fn is_allowed_tools(choice: JsonTree) -> bool {
    &&& choice.field("type"@) == Some(JsonTree::Text("allowed_tools"@))
    &&& choice.field("tools"@) matches Some(tools)
    &&& tools is Array
}

/// Whether a choice of tool names the image generation tool.
pub open spec fn names_image_tool(choice: JsonTree) -> bool {
    ||| mentions_image_generation(choice)
    ||| is_image_tool(choice)
    ||| choice == JsonTree::Text("imageGeneration"@)
}

/// An entry of a list of allowed tools as it goes to the text service.
pub open spec fn choice_entry(entry: (Seq<char>, JsonTree)) -> (Seq<char>, JsonTree) {
    if entry.0 == "tools"@ {
        (entry.0, text_items(ListKind::Tools, entry.1))
    } else {
        entry
    }
}

/// A list of allowed tools without the image generation tool.
pub open spec fn text_choice(choice: JsonTree) -> JsonTree {
    match choice {
        JsonTree::Object(entries) => JsonTree::Object(
            entries.map_values(|entry| choice_entry(entry)),
        ),
        _ => choice,
    }
}

/// Whether an entry of a request stays when the request goes to the text service. A choice of
/// tool that names the image generation tool goes, but a list of allowed tools stays.
pub open spec fn stays(entry: (Seq<char>, JsonTree)) -> bool {
    !(entry.0 == "tool_choice"@ && !is_allowed_tools(entry.1) && names_image_tool(entry.1))
}

/// The value of an entry of a request as it goes to the text service.
pub open spec fn text_value(key: Seq<char>, value: JsonTree) -> JsonTree {
    if key == "tools"@ {
        text_items(ListKind::Tools, value)
    } else if key == "include"@ {
        text_items(ListKind::Include, value)
    } else if key == "tool_choice"@ && is_allowed_tools(value) {
        text_choice(value)
    } else {
        value
    }
}

/// An entry of a request as it goes to the text service.
pub open spec fn text_entry(entry: (Seq<char>, JsonTree)) -> (Seq<char>, JsonTree) {
    (entry.0, text_value(entry.0, entry.1))
}

/// A request as it goes to the text service: without the image generation tool, without what asks
/// for its results, and without a choice of tool that names it.
pub open spec fn sanitized(value: JsonTree) -> JsonTree {
    match value {
        JsonTree::Object(entries) => JsonTree::Object(
            entries.filter(|entry| stays(entry)).map_values(|entry| text_entry(entry)),
        ),
        _ => value,
    }
}

fn image_item(kind: ListKind, item: &Json) -> (found: bool)
    ensures
        found == is_image_item(kind, item@),
{
    match kind {
        ListKind::Tools => tool_is_image_generation(item),
        ListKind::Include => match item {
            Json::Text(part) => text::starts_with(part.as_str(), "image_generation_call."),
            _ => false,
        },
    }
}

fn remove_image_items(kind: ListKind, list: Json) -> (kept: Json)
    ensures
        kept@ == text_items(kind, list@),
{
    match list {
        Json::Array(items) => {
            let ghost trees = json::item_trees(items@);
            let ghost keep = is_text_item(kind);
            proof {
                json::lemma_array_view(items);
            }
            let mut kept: Vec<Json> = Vec::new();
            proof {
                json::lemma_array_view(kept);
                reveal(Seq::filter);
                assert(json::item_trees(kept@) =~= trees.take(0).filter(keep));
            }
            for item in it: items
                invariant
                    it.seq() == items@,
                    trees.len() == items@.len(),
                    forall|j: int| 0 <= j < items@.len() ==> trees[j] == (#[trigger] items@[j])@,
                    keep == is_text_item(kind),
                    json::item_trees(kept@) == trees.take(it.index() as int).filter(keep),
            {
                let ghost n = it.index() as int;
                let ghost before = kept;
                assert(trees[n] == item@);
                if !image_item(kind, &item) {
                    kept.push(item);
                }
                proof {
                    reveal(Seq::filter);
                    json::lemma_array_view(before);
                    json::lemma_array_view(kept);
                    assert(trees.take(n + 1).drop_last() == trees.take(n));
                    assert(json::item_trees(kept@) =~= trees.take(n + 1).filter(keep));
                }
            }
            proof {
                assert(trees.take(trees.len() as int) == trees);
                json::lemma_array_view(kept);
            }
            Json::Array(kept)
        },
        other => other,
    }
}

fn allowed_tools(choice: &Json) -> (found: bool)
    ensures
        found == is_allowed_tools(choice@),
{
    match (choice.get("type"), choice.get("tools")) {
        (Some(Json::Text(kind)), Some(Json::Array(_))) => text::same_text(
            kind.as_str(),
            "allowed_tools",
        ),
        _ => false,
    }
}

fn choice_names_image_tool(choice: &Json) -> (found: bool)
    ensures
        found == names_image_tool(choice@),
{
    value_mentions_image_generation(choice) || tool_is_image_generation(choice) || match choice {
        Json::Text(name) => text::same_text(name.as_str(), "imageGeneration"),
        _ => false,
    }
}

fn remove_from_choice(choice: Json) -> (kept: Json)
    ensures
        kept@ == text_choice(choice@),
{
    match choice {
        Json::Object(entries) => {
            let ghost trees = json::entry_trees(entries@);
            proof {
                json::lemma_object_view(entries);
            }
            let mut kept: Vec<(String, Json)> = Vec::new();
            for entry in it: entries
                invariant
                    it.seq() == entries@,
                    trees.len() == entries@.len(),
                    forall|j: int|
                        0 <= j < entries@.len() ==> trees[j] == (
                            (#[trigger] entries@[j]).0@,
                            entries@[j].1@,
                        ),
                    kept@.len() == it.index(),
                    forall|j: int|
                        0 <= j < kept@.len() ==> ((#[trigger] kept@[j]).0@, kept@[j].1@)
                            == choice_entry(trees[j]),
            {
                assert(entry == entries@[it.index() as int]);
                let (key, value) = entry;
                if text::same_text(key.as_str(), "tools") {
                    kept.push((key, remove_image_items(ListKind::Tools, value)));
                } else {
                    kept.push((key, value));
                }
            }
            proof {
                json::lemma_object_view(kept);
                assert(json::entry_trees(kept@) =~= trees.map_values(|entry| choice_entry(entry)));
            }
            Json::Object(kept)
        },
        other => other,
    }
}

fn remove_from_entry(key: &str, value: Json) -> (kept: Json)
    ensures
        kept@ == text_value(key@, value@),
{
    if text::same_text(key, "tools") {
        remove_image_items(ListKind::Tools, value)
    } else if text::same_text(key, "include") {
        remove_image_items(ListKind::Include, value)
    } else if text::same_text(key, "tool_choice") && allowed_tools(&value) {
        remove_from_choice(value)
    } else {
        value
    }
}

/// The request without the image generation tool, without what asks for its results, and without
/// a choice of tool that names it.
pub fn remove_image_generation_tools(value: Json) -> (kept: Json)
    ensures
        kept@ == sanitized(value@),
{
    match value {
        Json::Object(entries) => {
            let ghost trees = json::entry_trees(entries@);
            let ghost keep = |entry| stays(entry);
            let ghost change = |entry| text_entry(entry);
            proof {
                json::lemma_object_view(entries);
            }
            let mut kept: Vec<(String, Json)> = Vec::new();
            proof {
                json::lemma_object_view(kept);
                reveal(Seq::filter);
                assert(json::entry_trees(kept@) =~= trees.take(0).filter(keep).map_values(change));
            }
            for entry in it: entries
                invariant
                    it.seq() == entries@,
                    trees.len() == entries@.len(),
                    forall|j: int|
                        0 <= j < entries@.len() ==> trees[j] == (
                            (#[trigger] entries@[j]).0@,
                            entries@[j].1@,
                        ),
                    keep == (|entry| stays(entry)),
                    change == (|entry| text_entry(entry)),
                    json::entry_trees(kept@) == trees.take(it.index() as int).filter(
                        keep,
                    ).map_values(change),
            {
                let ghost n = it.index() as int;
                let ghost before = kept;
                let (key, value) = entry;
                assert(trees[n] == (key@, value@));
                if !(text::same_text(key.as_str(), "tool_choice") && !allowed_tools(&value)
                    && choice_names_image_tool(&value)) {
                    let cleaned = remove_from_entry(key.as_str(), value);
                    kept.push((key, cleaned));
                }
                proof {
                    reveal(Seq::filter);
                    json::lemma_object_view(before);
                    json::lemma_object_view(kept);
                    assert(trees.take(n + 1).drop_last() == trees.take(n));
                    assert(json::entry_trees(kept@) =~= trees.take(n + 1).filter(keep).map_values(
                        change,
                    ));
                }
            }
            proof {
                assert(trees.take(trees.len() as int) == trees);
                json::lemma_object_view(kept);
            }
            Json::Object(kept)
        },
        other => other,
    }
}

/// What becomes of a request body.
pub enum RouteDecision {
    /// The body goes to the service as it is.
    Unchanged(RelayRoute),
    /// The value, written as a text, goes to the text service.
    Rewritten(Json),
}

/// The service that a body goes to, by the value that it holds, if it holds one.
pub open spec fn route_of(value: Option<JsonTree>, allow_image_route: bool) -> RelayRoute {
    match value {
        Some(value) => if allow_image_route && needs_image_service(value) {
            RelayRoute::Image
        } else {
            RelayRoute::Text
        },
        None => RelayRoute::Text,
    }
}

/// The body that is sent, by the body that came in and the value that it holds, if it holds one.
pub open spec fn routed_body(
    body: Seq<u8>,
    value: Option<JsonTree>,
    allow_image_route: bool,
) -> Seq<u8> {
    match value {
        Some(value) => if allow_image_route && needs_image_service(value) {
            body
        } else {
            match json::rendered_json(sanitized(value)) {
                Some(bytes) => bytes,
                None => body,
            }
        },
        None => body,
    }
}

/// Decides what becomes of a request body, by the value that it holds, if it holds one.
pub fn decide_route(value: Option<Json>, allow_image_route: bool) -> (decision: RouteDecision)
    ensures
        match (decision, value) {
            (RouteDecision::Rewritten(rewritten), Some(value)) => !(allow_image_route
                && needs_image_service(value@)) && rewritten@ == sanitized(value@),
            (RouteDecision::Unchanged(route), Some(value)) => allow_image_route
                && needs_image_service(value@) && route == RelayRoute::Image,
            (RouteDecision::Unchanged(route), None) => route == RelayRoute::Text,
            (RouteDecision::Rewritten(_), None) => false,
        },
{
    match value {
        Some(value) => if allow_image_route && request_requires_image_generation(&value) {
            RouteDecision::Unchanged(RelayRoute::Image)
        } else {
            RouteDecision::Rewritten(remove_image_generation_tools(value))
        },
        None => RouteDecision::Unchanged(RelayRoute::Text),
    }
}

/// Whether a list of a request holds something about image generation.
pub open spec fn holds_image_item(kind: ListKind, list: JsonTree) -> bool {
    list matches JsonTree::Array(items) && exists|i: int|
        0 <= i < items.len() && is_image_item(kind, #[trigger] items[i])
}

/// Whether a choice of tool leaves the image generation tool to be chosen.
pub open spec fn offers_image_tool(choice: JsonTree) -> bool {
    if is_allowed_tools(choice) {
        holds_image_item(ListKind::Tools, choice.field("tools"@)->0)
    } else {
        names_image_tool(choice)
    }
}

/// Whether a request advertises image generation: as one of its tools, in what is to be part of
/// the response, or as the choice of tool.
pub open spec fn advertises_image_generation(value: JsonTree) -> bool {
    ||| value.field("tools"@) matches Some(tools) && holds_image_item(ListKind::Tools, tools)
    ||| value.field("include"@) matches Some(wanted) && holds_image_item(
        ListKind::Include,
        wanted,
    )
    ||| value.field("tool_choice"@) matches Some(choice) && offers_image_tool(choice)
}

proof fn lemma_field_is_an_entry(value: JsonTree, key: Seq<char>)
    ensures
        value.field(key) matches Some(found) ==> value matches JsonTree::Object(entries)
            && entries.contains((key, found)),
{
    if let JsonTree::Object(entries) = value {
        lemma_entry_value(entries, key);
    }
}

proof fn lemma_entry_value(entries: Seq<(Seq<char>, JsonTree)>, key: Seq<char>)
    ensures
        json::entry_value(entries, key) matches Some(found) ==> entries.contains((key, found)),
    decreases entries.len(),
{
    if entries.len() > 0 {
        if entries[0].0 == key {
            assert(entries[0] == (key, entries[0].1));
        } else {
            lemma_entry_value(entries.drop_first(), key);
            if let Some(found) = json::entry_value(entries, key) {
                let i = entries.drop_first().index_of((key, found));
                assert(entries[i + 1] == (key, found));
            }
        }
    }
}

/// Two elements that a filter keeps stand in the same order before it.
proof fn lemma_filter_keeps_order<A>(s: Seq<A>, keep: spec_fn(A) -> bool, i: int, j: int)
    requires
        0 <= i < j < s.filter(keep).len(),
    ensures
        exists|a: int, b: int|
            0 <= a < b < s.len() && #[trigger] s[a] == s.filter(keep)[i] && #[trigger] s[b]
                == s.filter(keep)[j],
    decreases s.len(),
{
    reveal(Seq::filter);
    let rest = s.drop_last();
    if j < rest.filter(keep).len() {
        lemma_filter_keeps_order(rest, keep, i, j);
        let (a, b) = choose|a: int, b: int|
            0 <= a < b < rest.len() && #[trigger] rest[a] == rest.filter(keep)[i] && #[trigger]
                rest[b] == rest.filter(keep)[j];
        assert(s[a] == s.filter(keep)[i] && s[b] == s.filter(keep)[j]);
    } else {
        assert(rest.filter(keep).contains(s.filter(keep)[i]));
        rest.lemma_filter_contains_rev(keep, s.filter(keep)[i]);
        let a = rest.index_of(s.filter(keep)[i]);
        assert(s[a] == s.filter(keep)[i] && s[s.len() - 1] == s.filter(keep)[j]);
    }
}

/// An entry of a sanitized request is made from an entry that stays.
proof fn lemma_sanitized_entry(entries: Seq<(Seq<char>, JsonTree)>, i: int)
    requires
        0 <= i < sanitized(JsonTree::Object(entries))->Object_0.len(),
    ensures
        exists|a: int|
            0 <= a < entries.len() && stays(entries[a]) && sanitized(
                JsonTree::Object(entries),
            )->Object_0[i] == text_entry(#[trigger] entries[a]),
{
    let keep = |entry| stays(entry);
    let kept = entries.filter(keep);
    entries.lemma_filter_pred(keep, i);
    assert(kept.contains(kept[i]));
    entries.lemma_filter_contains_rev(keep, kept[i]);
    let a = entries.index_of(kept[i]);
    assert(sanitized(JsonTree::Object(entries))->Object_0[i] == text_entry(entries[a]));
}

proof fn lemma_entry_keys()
    ensures
        "tools"@ != "include"@,
        "tools"@ != "tool_choice"@,
        "tools"@ != "type"@,
        "include"@ != "tool_choice"@,
{
    reveal_strlit("tools");
    reveal_strlit("include");
    reveal_strlit("tool_choice");
    reveal_strlit("type");
    assert("tools"@.len() == 5);
    assert("include"@.len() == 7);
    assert("tool_choice"@.len() == 11);
    assert("type"@.len() == 4);
}

proof fn lemma_text_items_hold_no_image(kind: ListKind, list: JsonTree)
    ensures
        !holds_image_item(kind, text_items(kind, list)),
{
    if let JsonTree::Array(items) = list {
        let kept = items.filter(is_text_item(kind));
        assert forall|j: int| 0 <= j < kept.len() implies !is_image_item(
            kind,
            #[trigger] kept[j],
        ) by {
            items.lemma_filter_pred(is_text_item(kind), j);
        }
    }
}

proof fn lemma_choice_entry_value(entries: Seq<(Seq<char>, JsonTree)>, key: Seq<char>)
    ensures
        json::entry_value(entries.map_values(|entry| choice_entry(entry)), key)
            == match json::entry_value(entries, key) {
            Some(found) => Some(choice_entry((key, found)).1),
            None => None,
        },
    decreases entries.len(),
{
    let out = entries.map_values(|entry| choice_entry(entry));
    if entries.len() > 0 {
        let rest = entries.drop_first();
        lemma_choice_entry_value(rest, key);
        assert(out[0] == choice_entry(entries[0]));
        assert(out.drop_first() =~= rest.map_values(|entry| choice_entry(entry)));
    }
}

/// A list of allowed tools stays one, and offers no image generation tool.
proof fn lemma_text_choice(choice: JsonTree)
    requires
        is_allowed_tools(choice),
    ensures
        is_allowed_tools(text_choice(choice)),
        !offers_image_tool(text_choice(choice)),
{
    lemma_entry_keys();
    let entries = choice->Object_0;
    lemma_choice_entry_value(entries, "type"@);
    lemma_choice_entry_value(entries, "tools"@);
    lemma_text_items_hold_no_image(ListKind::Tools, choice.field("tools"@)->0);
}

/// A request that goes to the text service advertises no image generation.
pub proof fn law_sanitized_advertises_no_image_generation(value: JsonTree)
    ensures
        !advertises_image_generation(sanitized(value)),
{
    lemma_entry_keys();
    let result = sanitized(value);
    lemma_field_is_an_entry(result, "tool_choice"@);
    lemma_field_is_an_entry(result, "tools"@);
    lemma_field_is_an_entry(result, "include"@);
    if let JsonTree::Object(entries) = value {
        if let Some(tools) = result.field("tools"@) {
            let a = lemma_sanitized_source(entries, ("tools"@, tools));
            lemma_text_items_hold_no_image(ListKind::Tools, entries[a].1);
        }
        if let Some(wanted) = result.field("include"@) {
            let a = lemma_sanitized_source(entries, ("include"@, wanted));
            lemma_text_items_hold_no_image(ListKind::Include, entries[a].1);
        }
        if let Some(choice) = result.field("tool_choice"@) {
            let a = lemma_sanitized_source(entries, ("tool_choice"@, choice));
            if is_allowed_tools(entries[a].1) {
                lemma_text_choice(entries[a].1);
            }
        }
    }
}

/// The place of the entry that an entry of a sanitized request is made from.
proof fn lemma_sanitized_source(
    entries: Seq<(Seq<char>, JsonTree)>,
    entry: (Seq<char>, JsonTree),
) -> (a: int)
    requires
        sanitized(JsonTree::Object(entries))->Object_0.contains(entry),
    ensures
        0 <= a < entries.len(),
        stays(entries[a]),
        entry == text_entry(entries[a]),
{
    let kept = sanitized(JsonTree::Object(entries))->Object_0;
    let i = kept.index_of(entry);
    lemma_sanitized_entry(entries, i);
    choose|a: int|
        0 <= a < entries.len() && stays(entries[a]) && kept[i] == text_entry(
            #[trigger] entries[a],
        )
}

proof fn lemma_sanitized_first(entries: Seq<(Seq<char>, JsonTree)>)
    requires
        entries.len() > 0,
    ensures
        sanitized(JsonTree::Object(entries))->Object_0 == (if stays(entries[0]) {
            seq![text_entry(entries[0])]
        } else {
            seq![]
        }) + sanitized(JsonTree::Object(entries.drop_first()))->Object_0,
{
    let keep = |entry| stays(entry);
    let head = seq![entries[0]];
    let rest = entries.drop_first();
    assert(entries == head + rest);
    Seq::filter_distributes_over_add(head, rest, keep);
    reveal(Seq::filter);
    assert(head.drop_last().filter(keep) =~= Seq::empty());
    assert(head.filter(keep) =~= if stays(entries[0]) {
        head
    } else {
        seq![]
    });
    assert(sanitized(JsonTree::Object(entries))->Object_0 =~= (if stays(entries[0]) {
        seq![text_entry(entries[0])]
    } else {
        seq![]
    }) + sanitized(JsonTree::Object(rest))->Object_0);
}

proof fn lemma_sanitized_field(entries: Seq<(Seq<char>, JsonTree)>, key: Seq<char>)
    requires
        forall|i: int|
            0 <= i < entries.len() && (#[trigger] entries[i]).0 == key ==> stays(entries[i]),
    ensures
        sanitized(JsonTree::Object(entries)).field(key) == match json::entry_value(entries, key) {
            Some(found) => Some(text_entry((key, found)).1),
            None => None,
        },
    decreases entries.len(),
{
    let out = sanitized(JsonTree::Object(entries))->Object_0;
    if entries.len() == 0 {
        reveal(Seq::filter);
        assert(out.len() == 0);
    } else {
        let rest = entries.drop_first();
        let rest_out = sanitized(JsonTree::Object(rest))->Object_0;
        lemma_sanitized_first(entries);
        lemma_sanitized_field(rest, key);
        if stays(entries[0]) {
            assert(out[0] == text_entry(entries[0]));
            assert(out.drop_first() =~= rest_out);
        } else {
            assert(out =~= rest_out);
        }
    }
}

/// Sanitizing a request changes nothing but its tools, what is to be part of the response, and its
/// choice of tool. The first two lose what is about image generation, as do the tools of a list
/// of allowed ones, and any other choice of tool is dropped if it names image generation.
pub proof fn law_sanitized_fields(value: JsonTree, key: Seq<char>)
    requires
        value.ordered(),
    ensures
        value !is Object ==> sanitized(value) == value,
        value is Object ==> sanitized(value) is Object,
        sanitized(value).field(key) == match value.field(key) {
            Some(found) => if key == "tools"@ {
                Some(text_items(ListKind::Tools, found))
            } else if key == "include"@ {
                Some(text_items(ListKind::Include, found))
            } else if key == "tool_choice"@ {
                if is_allowed_tools(found) {
                    Some(text_choice(found))
                } else if names_image_tool(found) {
                    None
                } else {
                    Some(found)
                }
            } else {
                Some(found)
            },
            None => None,
        },
{
    lemma_entry_keys();
    if let JsonTree::Object(entries) = value {
        lemma_entry_value(entries, key);
        if value.field(key) is Some && !stays((key, value.field(key)->0)) {
            lemma_field_is_an_entry(sanitized(value), key);
            if let Some(left) = sanitized(value).field(key) {
                let a = lemma_sanitized_source(entries, (key, left));
                let b = entries.index_of((key, value.field(key)->0));
                lemma_keys_differ(entries, a, b);
                assert(false);
            }
        } else {
            assert forall|i: int|
                0 <= i < entries.len() && (#[trigger] entries[i]).0 == key implies stays(
                entries[i],
            ) by {
                if !stays(entries[i]) {
                    lemma_entry_value_at(entries, i);
                }
            }
            lemma_sanitized_field(entries, key);
        }
    }
}

proof fn lemma_text_before_irreflexive(a: Seq<char>)
    ensures
        !json::text_before(a, a),
    decreases a.len(),
{
    if a.len() > 0 {
        lemma_text_before_irreflexive(a.drop_first());
    }
}

proof fn lemma_keys_differ(entries: Seq<(Seq<char>, JsonTree)>, a: int, b: int)
    requires
        json::keys_ascend(entries),
        0 <= a < entries.len(),
        0 <= b < entries.len(),
        entries[a].0 == entries[b].0,
    ensures
        a == b,
{
    lemma_text_before_irreflexive(entries[a].0);
}

proof fn lemma_entry_value_at(entries: Seq<(Seq<char>, JsonTree)>, i: int)
    requires
        json::keys_ascend(entries),
        0 <= i < entries.len(),
    ensures
        json::entry_value(entries, entries[i].0) == Some(entries[i].1),
    decreases entries.len(),
{
    if i > 0 {
        if entries[0].0 == entries[i].0 {
            lemma_keys_differ(entries, 0, i);
        }
        let rest = entries.drop_first();
        assert(json::keys_ascend(rest));
        lemma_entry_value_at(rest, i - 1);
    }
}

proof fn lemma_text_items_again(kind: ListKind, list: JsonTree)
    ensures
        text_items(kind, text_items(kind, list)) == text_items(kind, list),
{
    if let JsonTree::Array(items) = list {
        let keep = is_text_item(kind);
        let kept = items.filter(keep);
        assert forall|j: int| 0 <= j < kept.len() implies keep(#[trigger] kept[j]) by {
            items.lemma_filter_pred(keep, j);
        }
        lemma_filter_keeps_all(kept, keep);
    }
}

proof fn lemma_text_choice_again(choice: JsonTree)
    ensures
        text_choice(text_choice(choice)) == text_choice(choice),
{
    if let JsonTree::Object(entries) = choice {
        let change = |entry| choice_entry(entry);
        let once = entries.map_values(change);
        assert forall|i: int| 0 <= i < once.len() implies choice_entry(#[trigger] once[i])
            == once[i] by {
            lemma_text_items_again(ListKind::Tools, entries[i].1);
        }
        assert(once.map_values(change) =~= once);
    }
}

/// Sanitizing a request twice does no more than sanitizing it once.
pub proof fn law_sanitizing_is_idempotent(value: JsonTree)
    ensures
        sanitized(sanitized(value)) == sanitized(value),
{
    lemma_entry_keys();
    if let JsonTree::Object(entries) = value {
        let keep = |entry| stays(entry);
        let change = |entry| text_entry(entry);
        let once = sanitized(value)->Object_0;
        assert forall|i: int| 0 <= i < once.len() implies keep(#[trigger] once[i]) && text_entry(
            once[i],
        ) == once[i] by {
            assert(once.contains(once[i]));
            let a = lemma_sanitized_source(entries, once[i]);
            let found = entries[a].1;
            lemma_text_items_again(ListKind::Tools, found);
            lemma_text_items_again(ListKind::Include, found);
            if is_allowed_tools(found) {
                lemma_text_choice(found);
                lemma_text_choice_again(found);
            }
        }
        lemma_filter_keeps_all(once, keep);
        assert(once.map_values(change) =~= once);
    }
}

proof fn lemma_filter_keeps_all<A>(s: Seq<A>, keep: spec_fn(A) -> bool)
    requires
        forall|i: int| 0 <= i < s.len() ==> keep(#[trigger] s[i]),
    ensures
        s.filter(keep) == s,
    decreases s.len(),
{
    reveal(Seq::filter);
    if s.len() > 0 {
        let rest = s.drop_last();
        assert forall|i: int| 0 <= i < rest.len() implies keep(#[trigger] rest[i]) by {
            assert(rest[i] == s[i]);
        }
        lemma_filter_keeps_all(rest, keep);
        assert(s =~= rest.push(s.last()));
    }
}

proof fn lemma_text_items_readable(kind: ListKind, list: JsonTree, levels: nat)
    requires
        list.ordered(),
        list.nests_within(levels),
    ensures
        text_items(kind, list).ordered(),
        text_items(kind, list).nests_within(levels),
{
    if let JsonTree::Array(items) = list {
        let keep = is_text_item(kind);
        let kept = items.filter(keep);
        assert forall|i: int| 0 <= i < kept.len() implies (#[trigger] kept[i]).ordered()
            && kept[i].nests_within((levels - 1) as nat) by {
            assert(kept.contains(kept[i]));
            items.lemma_filter_contains_rev(keep, kept[i]);
        }
    }
}

proof fn lemma_text_choice_readable(choice: JsonTree, levels: nat)
    requires
        choice.ordered(),
        choice.nests_within(levels),
    ensures
        text_choice(choice).ordered(),
        text_choice(choice).nests_within(levels),
{
    if let JsonTree::Object(entries) = choice {
        let out = text_choice(choice)->Object_0;
        assert forall|i: int| 0 <= i < out.len() implies (#[trigger] out[i]).1.ordered()
            && out[i].1.nests_within((levels - 1) as nat) && out[i].0 == entries[i].0 by {
            assert(entries[i].1.ordered());
            lemma_text_items_readable(ListKind::Tools, entries[i].1, (levels - 1) as nat);
        }
        assert forall|i: int, j: int| 0 <= i < j < out.len() implies json::text_before(
            (#[trigger] out[i]).0,
            (#[trigger] out[j]).0,
        ) by {
            assert(json::text_before(entries[i].0, entries[j].0));
        }
    }
}

/// A sanitized request can be written and read back if the request could.
pub proof fn law_sanitized_is_readable(value: JsonTree)
    requires
        value.readable(),
    ensures
        sanitized(value).readable(),
{
    if let JsonTree::Object(entries) = value {
        let out = sanitized(value)->Object_0;
        let keep = |entry| stays(entry);
        assert forall|i: int| 0 <= i < out.len() implies (#[trigger] out[i]).1.ordered()
            && out[i].1.nests_within(126) by {
            assert(out.contains(out[i]));
            let a = lemma_sanitized_source(entries, out[i]);
            let found = entries[a].1;
            assert(found.ordered() && found.nests_within(126));
            lemma_text_items_readable(ListKind::Tools, found, 126);
            lemma_text_items_readable(ListKind::Include, found, 126);
            lemma_text_choice_readable(found, 126);
        }
        assert forall|i: int, j: int| 0 <= i < j < out.len() implies json::text_before(
            (#[trigger] out[i]).0,
            (#[trigger] out[j]).0,
        ) by {
            lemma_filter_keeps_order(entries, keep, i, j);
        }
    }
}

proof fn lemma_same_mentions(a: JsonTree, b: JsonTree)
    requires
        a.same_but_fractions(b),
    ensures
        mentions_image_generation(a) == mentions_image_generation(b),
    decreases a,
{
    match (a, b) {
        (JsonTree::Array(left), JsonTree::Array(right)) => {
            assert forall|i: int| 0 <= i < left.len() implies mentions_image_generation(
                #[trigger] left[i],
            ) == mentions_image_generation(right[i]) by {
                lemma_same_mentions(left[i], right[i]);
            }
            if mentions_image_generation(a) {
                let i = choose|i: int|
                    0 <= i < left.len() && mentions_image_generation(#[trigger] left[i]);
                assert(mentions_image_generation(right[i]));
            }
            if mentions_image_generation(b) {
                let i = choose|i: int|
                    0 <= i < right.len() && mentions_image_generation(#[trigger] right[i]);
                assert(mentions_image_generation(left[i]));
            }
        },
        (JsonTree::Object(left), JsonTree::Object(right)) => {
            assert forall|i: int| 0 <= i < left.len() implies (#[trigger] left[i]).0 == right[i].0
                && mentions_image_generation(left[i].1) == mentions_image_generation(
                right[i].1,
            ) by {
                lemma_same_mentions(left[i].1, right[i].1);
            }
            let key = "image_generation"@;
            if mentions_image_generation(a) {
                let i = choose|i: int|
                    0 <= i < left.len() && ((#[trigger] left[i]).0 == key
                        || mentions_image_generation(left[i].1));
                assert(right[i].0 == key || mentions_image_generation(right[i].1));
            }
            if mentions_image_generation(b) {
                let i = choose|i: int|
                    0 <= i < right.len() && ((#[trigger] right[i]).0 == key
                        || mentions_image_generation(right[i].1));
                assert(left[i].0 == right[i].0);
            }
        },
        _ => {},
    }
}

proof fn lemma_same_field(a: JsonTree, b: JsonTree, key: Seq<char>)
    requires
        a.same_but_fractions(b),
    ensures
        match (a.field(key), b.field(key)) {
            (Some(left), Some(right)) => left.same_but_fractions(right),
            (None, None) => true,
            _ => false,
        },
{
    if let (JsonTree::Object(left), JsonTree::Object(right)) = (a, b) {
        lemma_same_entry_value(left, right, key);
    }
}

proof fn lemma_same_entry_value(
    left: Seq<(Seq<char>, JsonTree)>,
    right: Seq<(Seq<char>, JsonTree)>,
    key: Seq<char>,
)
    requires
        left.len() == right.len(),
        forall|i: int|
            0 <= i < left.len() ==> (#[trigger] left[i]).0 == right[i].0
                && left[i].1.same_but_fractions(right[i].1),
    ensures
        match (json::entry_value(left, key), json::entry_value(right, key)) {
            (Some(left), Some(right)) => left.same_but_fractions(right),
            (None, None) => true,
            _ => false,
        },
    decreases left.len(),
{
    if left.len() > 0 {
        assert(left[0].0 == right[0].0);
        let left_rest = left.drop_first();
        let right_rest = right.drop_first();
        assert forall|i: int| 0 <= i < left_rest.len() implies (#[trigger] left_rest[i]).0
            == right_rest[i].0 && left_rest[i].1.same_but_fractions(right_rest[i].1) by {
            assert(left_rest[i] == left[i + 1]);
        }
        lemma_same_entry_value(left_rest, right_rest, key);
    }
}

proof fn lemma_same_image_tool(a: JsonTree, b: JsonTree)
    requires
        a.same_but_fractions(b),
    ensures
        is_image_tool(a) == is_image_tool(b),
{
    lemma_same_field(a, b, "type"@);
}

proof fn lemma_same_holds(kind: ListKind, a: JsonTree, b: JsonTree)
    requires
        a.same_but_fractions(b),
        holds_image_item(kind, b),
    ensures
        holds_image_item(kind, a),
{
    let left = a->Array_0;
    let right = b->Array_0;
    let i = choose|i: int| 0 <= i < right.len() && is_image_item(kind, #[trigger] right[i]);
    assert(left[i].same_but_fractions(right[i]));
    lemma_same_image_tool(left[i], right[i]);
    assert(is_image_item(kind, left[i]));
}

proof fn lemma_same_advertises(a: JsonTree, b: JsonTree)
    requires
        a.same_but_fractions(b),
        advertises_image_generation(b),
    ensures
        advertises_image_generation(a),
{
    lemma_same_field(a, b, "tool_choice"@);
    lemma_same_field(a, b, "tools"@);
    lemma_same_field(a, b, "include"@);
    if b.field("tools"@) matches Some(tools) && holds_image_item(ListKind::Tools, tools) {
        lemma_same_holds(ListKind::Tools, a.field("tools"@)->0, b.field("tools"@)->0);
    } else if b.field("include"@) matches Some(wanted) && holds_image_item(
        ListKind::Include,
        wanted,
    ) {
        lemma_same_holds(ListKind::Include, a.field("include"@)->0, b.field("include"@)->0);
    } else {
        let left = a.field("tool_choice"@)->0;
        let right = b.field("tool_choice"@)->0;
        lemma_same_field(left, right, "type"@);
        lemma_same_field(left, right, "tools"@);
        lemma_same_mentions(left, right);
        lemma_same_image_tool(left, right);
        assert(is_allowed_tools(left) == is_allowed_tools(right));
        if is_allowed_tools(right) {
            lemma_same_holds(ListKind::Tools, left.field("tools"@)->0, right.field("tools"@)->0);
        }
    }
}

/// Whether the body, if it holds a value, advertises no image generation.
pub open spec fn sends_no_image_tool(body: Seq<u8>) -> bool {
    json::parsed_json(body) matches Some(value) ==> !advertises_image_generation(value)
}

proof fn lemma_integral_same(a: JsonTree, b: JsonTree)
    requires
        a.same_but_fractions(b),
        a.integral(),
    ensures
        a == b,
    decreases a,
{
    match (a, b) {
        (JsonTree::Array(left), JsonTree::Array(right)) => {
            assert forall|i: int| 0 <= i < left.len() implies #[trigger] left[i] == right[i] by {
                lemma_integral_same(left[i], right[i]);
            }
            assert(left =~= right);
        },
        (JsonTree::Object(left), JsonTree::Object(right)) => {
            assert forall|i: int| 0 <= i < left.len() implies #[trigger] left[i] == right[i] by {
                lemma_integral_same(left[i].1, right[i].1);
            }
            assert(left =~= right);
        },
        _ => {},
    }
}

proof fn lemma_text_items_integral(kind: ListKind, list: JsonTree)
    requires
        list.integral(),
    ensures
        text_items(kind, list).integral(),
{
    if let JsonTree::Array(items) = list {
        let keep = is_text_item(kind);
        let kept = items.filter(keep);
        assert forall|j: int| 0 <= j < kept.len() implies (#[trigger] kept[j]).integral() by {
            assert(kept.contains(kept[j]));
            items.lemma_filter_contains_rev(keep, kept[j]);
        }
    }
}

proof fn lemma_text_choice_integral(choice: JsonTree)
    requires
        choice.integral(),
    ensures
        text_choice(choice).integral(),
{
    if let JsonTree::Object(entries) = choice {
        let out = text_choice(choice)->Object_0;
        assert forall|i: int| 0 <= i < out.len() implies (#[trigger] out[i]).1.integral() by {
            assert(entries[i].1.integral());
            lemma_text_items_integral(ListKind::Tools, entries[i].1);
        }
    }
}

proof fn lemma_sanitized_integral(value: JsonTree)
    requires
        value.integral(),
    ensures
        sanitized(value).integral(),
{
    if let JsonTree::Object(entries) = value {
        let out = sanitized(value)->Object_0;
        assert forall|i: int| 0 <= i < out.len() implies (#[trigger] out[i]).1.integral() by {
            assert(out.contains(out[i]));
            let a = lemma_sanitized_source(entries, out[i]);
            let found = entries[a].1;
            assert(found.integral());
            lemma_text_items_integral(ListKind::Tools, found);
            lemma_text_items_integral(ListKind::Include, found);
            lemma_text_choice_integral(found);
        }
    }
}

proof fn lemma_prompt_keys()
    ensures
        !is_prompt_key("tools"@),
        !is_prompt_key("include"@),
        !is_prompt_key("tool_choice"@),
{
    reveal_strlit("tools");
    reveal_strlit("include");
    reveal_strlit("tool_choice");
    reveal_strlit("text");
    reveal_strlit("content");
    reveal_strlit("input_text");
    reveal_strlit("input");
    reveal_strlit("messages");
    assert("text"@.len() == 4);
    assert("content"@.len() == 7);
    assert("input_text"@.len() == 10);
    assert("input"@.len() == 5);
    assert("messages"@.len() == 8);
    assert("tools"@.len() == 5);
    assert("include"@.len() == 7);
    assert("tool_choice"@.len() == 11);
    assert("tools"@[0] != "input"@[0]);
    assert("include"@[0] != "content"@[0]);
}

/// What is left of a choice of tool mentions image generation only if the choice did.
proof fn lemma_text_choice_mentions(choice: JsonTree)
    requires
        mentions_image_generation(text_choice(choice)),
    ensures
        mentions_image_generation(choice),
{
    if let JsonTree::Object(entries) = choice {
        let out = text_choice(choice)->Object_0;
        let i = choose|i: int|
            0 <= i < out.len() && ((#[trigger] out[i]).0 == "image_generation"@
                || mentions_image_generation(out[i].1));
        assert(out[i] == choice_entry(entries[i]));
        if mentions_image_generation(out[i].1) && entries[i].0 == "tools"@ {
            if let JsonTree::Array(items) = entries[i].1 {
                let keep = is_text_item(ListKind::Tools);
                let kept = items.filter(keep);
                let j = choose|j: int|
                    0 <= j < kept.len() && mentions_image_generation(#[trigger] kept[j]);
                assert(kept.contains(kept[j]));
                items.lemma_filter_contains_rev(keep, kept[j]);
                let k = items.index_of(kept[j]);
                assert(mentions_image_generation(items[k]));
            }
        }
        assert(entries[i].0 == "image_generation"@ || mentions_image_generation(entries[i].1));
    }
}

proof fn lemma_sanitized_entries_prompt(entries: Seq<(Seq<char>, JsonTree)>)
    ensures
        prompt_text_of_entries(sanitized(JsonTree::Object(entries))->Object_0)
            == prompt_text_of_entries(entries),
    decreases entries.len(),
{
    reveal(Seq::filter);
    let out = sanitized(JsonTree::Object(entries))->Object_0;
    if entries.len() == 0 {
        assert(out =~= entries);
    } else {
        let rest = entries.drop_last();
        let rest_out = sanitized(JsonTree::Object(rest))->Object_0;
        lemma_sanitized_entries_prompt(rest);
        lemma_prompt_keys();
        if stays(entries.last()) {
            assert(out =~= rest_out.push(text_entry(entries.last())));
            assert(out.drop_last() =~= rest_out);
        } else {
            assert(out =~= rest_out);
            assert(prompt_text_of_entries(entries) =~= prompt_text_of_entries(rest));
        }
    }
}

proof fn lemma_sanitized_prompt(value: JsonTree)
    ensures
        prompt_text(prompt_of(sanitized(value))) == prompt_text(prompt_of(value)),
{
    if let JsonTree::Object(entries) = value {
        lemma_prompt_keys();
        assert(is_prompt_key("input"@));
        lemma_sanitized_field(entries, "input"@);
        lemma_sanitized_entries_prompt(entries);
    }
}

/// What is sent to the text service goes there unchanged if it is routed once more, if it holds
/// no numbers but integers: these are written as they were read, and others may be written with
/// another last digit.
pub proof fn law_routing_twice_changes_nothing(
    body: Seq<u8>,
    allow_image_route: bool,
    sent: Seq<u8>,
)
    requires
        route_of(json::parsed_json(body), allow_image_route) == RelayRoute::Text,
        sent == routed_body(body, json::parsed_json(body), allow_image_route),
        json::parsed_json(body) matches Some(value) ==> value.ordered() && value.integral()
            && json::reads_back(sanitized(value), sent),
    ensures
        route_of(json::parsed_json(sent), allow_image_route) == RelayRoute::Text,
        routed_body(sent, json::parsed_json(sent), allow_image_route) == sent,
{
    if let Some(value) = json::parsed_json(body) {
        let read = json::parsed_json(sent)->0;
        lemma_sanitized_integral(value);
        lemma_integral_same(sanitized(value), read);
        law_sanitized_advertises_no_image_generation(value);
        law_sanitizing_is_idempotent(value);
        lemma_sanitized_prompt(value);
        law_sanitized_fields(value, "tool_choice"@);
        lemma_entry_keys();
        if forces_image_tool(read) {
            let choice = value.field("tool_choice"@)->0;
            if is_allowed_tools(choice) {
                lemma_text_choice_mentions(choice);
            }
        }
    }
}

/// Decides which service a request body goes to, and what is sent there. A body that is not
/// JSON goes to the text service as it is. A request that needs the image service goes there as
/// it is, if `allow_image_route` is set. Every other request goes to the text service, rid of
/// what advertises image generation.
pub fn route_request(body: &[u8], allow_image_route: bool) -> (routed: RoutedRequest)
    ensures
        routed.route == route_of(json::parsed_json(body@), allow_image_route),
        routed.body@ == routed_body(body@, json::parsed_json(body@), allow_image_route),
        !allow_image_route ==> routed.route == RelayRoute::Text,
        routed.route == RelayRoute::Text ==> sends_no_image_tool(routed.body@),
        json::parsed_json(body@) matches Some(value) ==> value.readable(),
        routed.route == RelayRoute::Text ==> match json::parsed_json(body@) {
            Some(value) => json::reads_back(sanitized(value), routed.body@),
            None => routed.body@ == body@,
        },
{
    let value = json::parse_json(body);
    let ghost tree = json::parsed_json(body@);
    match decide_route(value, allow_image_route) {
        RouteDecision::Unchanged(route) => RoutedRequest {
            route,
            body: slice_to_vec(body),
        },
        RouteDecision::Rewritten(rewritten) => {
            proof {
                law_sanitized_is_readable(tree->0);
                law_sanitized_advertises_no_image_generation(tree->0);
            }
            let ghost sent = rewritten@;
            let rewritten_body = match json::render_json(rewritten) {
                Some(bytes) => bytes,
                None => slice_to_vec(body),
            };
            proof {
                let read = json::parsed_json(rewritten_body@)->0;
                if advertises_image_generation(read) {
                    lemma_same_advertises(sent, read);
                }
            }
            RoutedRequest { route: RelayRoute::Text, body: rewritten_body }
        },
    }
}

/// The prompt of a request is put together from its texts, each with a line feed behind it. All
/// items of an array count. Of an object those entries count whose key is `text`, `content`,
/// `input_text`, `input` or `messages`.
pub proof fn law_prompt_is_put_together(
    items: Seq<JsonTree>,
    item: JsonTree,
    entries: Seq<(Seq<char>, JsonTree)>,
    key: Seq<char>,
    value: JsonTree,
    t: Seq<char>,
)
    ensures
        prompt_text(JsonTree::Text(t)) == t.push('\n'),
        prompt_text(JsonTree::Null).len() == 0,
        prompt_text(JsonTree::Bool(true)).len() == 0,
        prompt_text(JsonTree::Bool(false)).len() == 0,
        forall|number: serde_json::Number|
            (#[trigger] prompt_text(JsonTree::Number(number))).len() == 0,
        prompt_text(JsonTree::Array(seq![])).len() == 0,
        prompt_text(JsonTree::Object(seq![])).len() == 0,
        prompt_text(JsonTree::Array(items.push(item))) == prompt_text(JsonTree::Array(items))
            + prompt_text(item),
        key == "text"@ || key == "content"@ || key == "input_text"@ || key == "input"@ || key
            == "messages"@ ==> prompt_text(JsonTree::Object(entries.push((key, value))))
            == prompt_text(JsonTree::Object(entries)) + prompt_text(value),
        key != "text"@ && key != "content"@ && key != "input_text"@ && key != "input"@ && key
            != "messages"@ ==> prompt_text(JsonTree::Object(entries.push((key, value))))
            == prompt_text(JsonTree::Object(entries)),
{
    assert(items.push(item).drop_last() =~= items);
    assert(entries.push((key, value)).drop_last() =~= entries);
    let prompt = prompt_text_of_entries(entries);
    let none: Seq<char> = seq![];
    assert(prompt + none =~= prompt);
}

/// Whether a text in lower case is one of those that ask for an image.
pub open spec fn is_image_phrase(phrase: Seq<char>) -> bool {
    ||| phrase == "generate image"@
    ||| phrase == "create image"@
    ||| phrase == "draw "@
    ||| phrase == "生成图片"@
    ||| phrase == "创建图片"@
    ||| phrase == "画一张"@
    ||| phrase == "绘制"@
}

proof fn lemma_phrase_occurs(before: Seq<char>, part: Seq<char>, after: Seq<char>)
    ensures
        text::occurs_in(text::ascii_lower(part), text::ascii_lower(before + part + after)),
{
    let whole = text::ascii_lower(before + part + after);
    assert(text::ascii_lower(before) + text::ascii_lower(part) + text::ascii_lower(after)
        =~= whole);
    text::law_occurrence_splits_text(text::ascii_lower(part), whole);
}

proof fn lemma_phrase_found(phrase: Seq<char>, t: Seq<char>)
    requires
        text::occurs_in(phrase, text::ascii_lower(t)),
        is_image_phrase(phrase),
    ensures
        exists|before: Seq<char>, part: Seq<char>, after: Seq<char>|
            #[trigger] (before + part + after) == t && is_image_phrase(text::ascii_lower(part)),
{
    let at = choose|at: int| text::occurs_at(phrase, text::ascii_lower(t), at);
    let part = t.subrange(at, at + phrase.len());
    assert(text::ascii_lower(part) =~= phrase);
    assert(t.take(at) + part + t.skip(at + phrase.len()) =~= t);
}

/// A text asks for an image if and only if it holds one of the phrases that do, with its ASCII
/// letters in any case, and with anything before and behind it.
pub proof fn law_phrases_ask_for_images(t: Seq<char>)
    ensures
        asks_for_image(t) <==> exists|before: Seq<char>, part: Seq<char>, after: Seq<char>|
            #[trigger] (before + part + after) == t && is_image_phrase(text::ascii_lower(part)),
{
    if exists|before: Seq<char>, part: Seq<char>, after: Seq<char>|
        #[trigger] (before + part + after) == t && is_image_phrase(text::ascii_lower(part)) {
        let (before, part, after) = choose|before: Seq<char>, part: Seq<char>, after: Seq<char>|
            #[trigger] (before + part + after) == t && is_image_phrase(text::ascii_lower(part));
        lemma_phrase_occurs(before, part, after);
    }
    if asks_for_image(t) {
        let lower = text::ascii_lower(t);
        if text::occurs_in("generate image"@, lower) {
            lemma_phrase_found("generate image"@, t);
        } else if text::occurs_in("create image"@, lower) {
            lemma_phrase_found("create image"@, t);
        } else if text::occurs_in("draw "@, lower) {
            lemma_phrase_found("draw "@, t);
        } else if text::occurs_in("生成图片"@, lower) {
            lemma_phrase_found("生成图片"@, t);
        } else if text::occurs_in("创建图片"@, lower) {
            lemma_phrase_found("创建图片"@, t);
        } else if text::occurs_in("画一张"@, lower) {
            lemma_phrase_found("画一张"@, t);
        } else {
            lemma_phrase_found("绘制"@, t);
        }
    }
}

/// A text asks for an image if a part of it does.
pub proof fn law_part_asks_for_image(part: Seq<char>, whole: Seq<char>)
    requires
        text::occurs_in(part, whole),
        asks_for_image(part),
    ensures
        asks_for_image(whole),
{
    law_phrases_ask_for_images(part);
    law_phrases_ask_for_images(whole);
    text::law_occurrence_splits_text(part, whole);
    let (first, last) = choose|first: Seq<char>, last: Seq<char>|
        #[trigger] (first + part + last) == whole;
    let (before, phrase, after) = choose|before: Seq<char>, phrase: Seq<char>, after: Seq<char>|
        #[trigger] (before + phrase + after) == part && is_image_phrase(text::ascii_lower(phrase));
    assert((first + before) + phrase + (after + last) =~= whole);
}

proof fn lemma_item_in_prompt(items: Seq<JsonTree>, i: int)
    requires
        0 <= i < items.len(),
    ensures
        text::occurs_in(prompt_text(items[i]), prompt_text_of_items(items)),
    decreases items.len(),
{
    let rest = items.drop_last();
    let whole = prompt_text_of_items(items);
    let none: Seq<char> = seq![];
    if i == items.len() - 1 {
        assert(prompt_text_of_items(rest) + prompt_text(items[i]) + none =~= whole);
        text::law_occurrence_splits_text(prompt_text(items[i]), whole);
    } else {
        lemma_item_in_prompt(rest, i);
        let part = prompt_text(rest[i]);
        text::law_occurrence_splits_text(part, prompt_text_of_items(rest));
        let (before, after) = choose|before: Seq<char>, after: Seq<char>|
            #[trigger] (before + part + after) == prompt_text_of_items(rest);
        assert(before + part + (after + prompt_text(items.last())) =~= whole);
        text::law_occurrence_splits_text(part, whole);
    }
}

proof fn lemma_entry_in_prompt(entries: Seq<(Seq<char>, JsonTree)>, i: int)
    requires
        0 <= i < entries.len(),
        is_prompt_key(entries[i].0),
    ensures
        text::occurs_in(prompt_text(entries[i].1), prompt_text_of_entries(entries)),
    decreases entries.len(),
{
    let rest = entries.drop_last();
    let whole = prompt_text_of_entries(entries);
    let none: Seq<char> = seq![];
    if i == entries.len() - 1 {
        assert(prompt_text_of_entries(rest) + prompt_text(entries[i].1) + none =~= whole);
        text::law_occurrence_splits_text(prompt_text(entries[i].1), whole);
    } else {
        lemma_entry_in_prompt(rest, i);
        let part = prompt_text(rest[i].1);
        text::law_occurrence_splits_text(part, prompt_text_of_entries(rest));
        let (before, after) = choose|before: Seq<char>, after: Seq<char>|
            #[trigger] (before + part + after) == prompt_text_of_entries(rest);
        let last = if is_prompt_key(entries.last().0) {
            prompt_text(entries.last().1)
        } else {
            none
        };
        assert(before + part + (after + last) =~= whole);
        text::law_occurrence_splits_text(part, whole);
    }
}

/// An image that one part of a prompt asks for is asked for by all of it: an item of an array, or
/// the value of an entry with one of the keys of a prompt.
pub proof fn law_part_of_prompt_asks_for_image(
    items: Seq<JsonTree>,
    entries: Seq<(Seq<char>, JsonTree)>,
    i: int,
)
    ensures
        0 <= i < items.len() && asks_for_image(prompt_text(items[i])) ==> asks_for_image(
            prompt_text(JsonTree::Array(items)),
        ),
        0 <= i < entries.len() && (entries[i].0 == "text"@ || entries[i].0 == "content"@
            || entries[i].0 == "input_text"@ || entries[i].0 == "input"@ || entries[i].0
            == "messages"@) && asks_for_image(prompt_text(entries[i].1)) ==> asks_for_image(
            prompt_text(JsonTree::Object(entries)),
        ),
{
    if 0 <= i < items.len() && asks_for_image(prompt_text(items[i])) {
        lemma_item_in_prompt(items, i);
        law_part_asks_for_image(prompt_text(items[i]), prompt_text_of_items(items));
    }
    if 0 <= i < entries.len() && is_prompt_key(entries[i].0) && asks_for_image(
        prompt_text(entries[i].1),
    ) {
        lemma_entry_in_prompt(entries, i);
        law_part_asks_for_image(prompt_text(entries[i].1), prompt_text_of_entries(entries));
    }
}

/// A conversation goes to the image service if a message in it asks for an image: a request
/// without input of its own, whose `messages` hold an object whose `content` holds one of the
/// phrases that ask for images.
pub proof fn law_conversation_asks_for_image(
    entries: Seq<(Seq<char>, JsonTree)>,
    at: int,
    messages: Seq<JsonTree>,
    number: int,
    message: Seq<(Seq<char>, JsonTree)>,
    place: int,
    before: Seq<char>,
    phrase: Seq<char>,
    after: Seq<char>,
)
    requires
        JsonTree::Object(entries).field("input"@) is None,
        0 <= at < entries.len(),
        entries[at] == ("messages"@, JsonTree::Array(messages)),
        0 <= number < messages.len(),
        messages[number] == JsonTree::Object(message),
        0 <= place < message.len(),
        message[place] == ("content"@, JsonTree::Text(before + phrase + after)),
        is_image_phrase(text::ascii_lower(phrase)),
    ensures
        route_of(Some(JsonTree::Object(entries)), true) == RelayRoute::Image,
        route_of(Some(JsonTree::Object(entries)), false) == RelayRoute::Text,
{
    let content = before + phrase + after;
    let value = JsonTree::Object(entries);
    assert(asks_for_image(content.push('\n'))) by {
        assert(before + phrase + after.push('\n') =~= content.push('\n'));
        law_phrases_ask_for_images(content.push('\n'));
    }
    assert(prompt_text(message[place].1) == content.push('\n'));
    law_part_of_prompt_asks_for_image(seq![], message, place);
    assert(prompt_text(messages[number]) == prompt_text(JsonTree::Object(message)));
    law_part_of_prompt_asks_for_image(messages, seq![], number);
    law_part_of_prompt_asks_for_image(seq![], entries, at);
    assert(prompt_of(value) == value);
}

/// A request with input of its own goes to the image service if and only if the input asks for an
/// image or the choice of tool mentions image generation, and nothing goes there if that is not
/// allowed. Without input, all of the request is its prompt.
pub proof fn law_route_of_request(value: JsonTree, allow_image_route: bool)
    ensures
        ({
            let prompt = match value.field("input"@) {
                Some(input) => prompt_text(input),
                None => prompt_text(value),
            };
            let forced = match value.field("tool_choice"@) {
                Some(choice) => mentions_image_generation(choice),
                None => false,
            };
            route_of(Some(value), allow_image_route) is Image <==> allow_image_route && (forced
                || asks_for_image(prompt))
        }),
        route_of(None, allow_image_route) is Text,
{
}

/// A body goes out byte for byte if it holds no value or goes to the image service. Otherwise it
/// goes out as the cleaned value is written.
pub proof fn law_body_of_route(body: Seq<u8>, value: JsonTree, allow_image_route: bool)
    ensures
        routed_body(body, None, allow_image_route) == body,
        route_of(Some(value), allow_image_route) is Image ==> routed_body(
            body,
            Some(value),
            allow_image_route,
        ) == body,
        route_of(Some(value), allow_image_route) is Text ==> (json::rendered_json(
            sanitized(value),
        ) matches Some(written) ==> routed_body(body, Some(value), allow_image_route) == written),
{
}

proof fn lemma_item_mentions(list: JsonTree, i: int)
    requires
        list is Array,
        0 <= i < list->Array_0.len(),
        mentions_image_generation(list->Array_0[i]),
    ensures
        mentions_image_generation(list),
{
}

proof fn lemma_entry_mentions(object: JsonTree, i: int)
    requires
        object is Object,
        0 <= i < object->Object_0.len(),
        object->Object_0[i].0 == "image_generation"@ || mentions_image_generation(
            object->Object_0[i].1,
        ),
    ensures
        mentions_image_generation(object),
{
}

/// A value mentions image generation if and only if the text `image_generation` stands in it, as a
/// value or as a key, at any depth.
pub proof fn law_mentions_of_image_generation(
    items: Seq<JsonTree>,
    item: JsonTree,
    entries: Seq<(Seq<char>, JsonTree)>,
    key: Seq<char>,
    value: JsonTree,
    t: Seq<char>,
)
    ensures
        mentions_image_generation(JsonTree::Text(t)) <==> t == "image_generation"@,
        !mentions_image_generation(JsonTree::Null),
        !mentions_image_generation(JsonTree::Bool(true)),
        !mentions_image_generation(JsonTree::Bool(false)),
        forall|number: serde_json::Number| !#[trigger]
            mentions_image_generation(JsonTree::Number(number)),
        !mentions_image_generation(JsonTree::Array(seq![])),
        !mentions_image_generation(JsonTree::Object(seq![])),
        mentions_image_generation(JsonTree::Array(items.push(item))) <==>
            mentions_image_generation(JsonTree::Array(items)) || mentions_image_generation(item),
        mentions_image_generation(JsonTree::Object(entries.push((key, value)))) <==>
            mentions_image_generation(JsonTree::Object(entries)) || key == "image_generation"@
            || mentions_image_generation(value),
{
    let more = items.push(item);
    if mentions_image_generation(JsonTree::Array(items)) {
        let i = choose|i: int|
            0 <= i < items.len() && mentions_image_generation(#[trigger] items[i]);
        lemma_item_mentions(JsonTree::Array(more), i);
    }
    if mentions_image_generation(item) {
        lemma_item_mentions(JsonTree::Array(more), items.len() as int);
    }
    if mentions_image_generation(JsonTree::Array(more)) {
        let i = choose|i: int|
            0 <= i < more.len() && mentions_image_generation(#[trigger] more[i]);
        if i < items.len() {
            lemma_item_mentions(JsonTree::Array(items), i);
        } else {
            assert(more[i] == item);
        }
    }
    let longer = entries.push((key, value));
    if mentions_image_generation(JsonTree::Object(entries)) {
        let i = choose|i: int|
            0 <= i < entries.len() && ((#[trigger] entries[i]).0 == "image_generation"@
                || mentions_image_generation(entries[i].1));
        lemma_entry_mentions(JsonTree::Object(longer), i);
    }
    if key == "image_generation"@ || mentions_image_generation(value) {
        let i = entries.len() as int;
        lemma_entry_mentions(JsonTree::Object(longer), i);
    }
    if mentions_image_generation(JsonTree::Object(longer)) {
        let i = choose|i: int|
            0 <= i < longer.len() && ((#[trigger] longer[i]).0 == "image_generation"@
                || mentions_image_generation(longer[i].1));
        if i < entries.len() {
            lemma_entry_mentions(JsonTree::Object(entries), i);
        } else {
            assert(longer[i] == (key, value));
        }
    }
}

/// The lists of a request are cleaned item by item. A tool goes if its type is `image_generation`
/// or `imageGeneration`. What is to be part of the response goes if it is a text that begins with
/// `image_generation_call.`. All else stays, in its order.
pub proof fn law_lists_are_cleaned_item_by_item(items: Seq<JsonTree>, item: JsonTree)
    ensures
        ({
            let kept = text_items(ListKind::Tools, JsonTree::Array(items))->Array_0;
            text_items(ListKind::Tools, JsonTree::Array(items.push(item))) == JsonTree::Array(
                if item.field("type"@) == Some(JsonTree::Text("image_generation"@)) || item.field(
                    "type"@,
                ) == Some(JsonTree::Text("imageGeneration"@)) {
                    kept
                } else {
                    kept.push(item)
                },
            )
        }),
        ({
            let kept = text_items(ListKind::Include, JsonTree::Array(items))->Array_0;
            text_items(ListKind::Include, JsonTree::Array(items.push(item))) == JsonTree::Array(
                if exists|rest: Seq<char>|
                    item == JsonTree::Text(#[trigger] ("image_generation_call."@ + rest)) {
                    kept
                } else {
                    kept.push(item)
                },
            )
        }),
        text_items(ListKind::Tools, JsonTree::Array(seq![])) == JsonTree::Array(seq![]),
        text_items(ListKind::Include, JsonTree::Array(seq![])) == JsonTree::Array(seq![]),
        item !is Array ==> text_items(ListKind::Tools, item) == item && text_items(
            ListKind::Include,
            item,
        ) == item,
{
    reveal(Seq::filter);
    assert(items.push(item).drop_last() =~= items);
    let none: Seq<JsonTree> = seq![];
    assert(none.filter(is_text_item(ListKind::Tools)) =~= none);
    assert(none.filter(is_text_item(ListKind::Include)) =~= none);
    let start = "image_generation_call."@;
    if is_image_include(item) {
        let part = item->Text_0;
        assert(start + part.skip(start.len() as int) =~= part);
    }
    if exists|rest: Seq<char>| item == JsonTree::Text(#[trigger] (start + rest)) {
        let rest = choose|rest: Seq<char>| item == JsonTree::Text(#[trigger] (start + rest));
        assert(start.is_prefix_of(start + rest));
    }
}

/// A list of allowed tools is cleaned entry by entry: its tools are cleaned, and all else stays.
pub proof fn law_allowed_tools_are_cleaned(
    entries: Seq<(Seq<char>, JsonTree)>,
    key: Seq<char>,
    value: JsonTree,
)
    ensures
        text_choice(JsonTree::Object(entries.push((key, value)))) == JsonTree::Object(
            text_choice(JsonTree::Object(entries))->Object_0.push(
                (
                    key,
                    if key == "tools"@ {
                        text_items(ListKind::Tools, value)
                    } else {
                        value
                    },
                ),
            ),
        ),
{
    let change = |entry| choice_entry(entry);
    assert(entries.push((key, value)).map_values(change) =~= entries.map_values(change).push(
        choice_entry((key, value)),
    ));
}

/// A request is cleaned entry by entry. Its tools and what is to be part of the response are
/// cleaned as lists. A choice of tool that is a list of allowed tools is cleaned, any other one
/// goes if it names the image generation tool, and all else stays, in its order.
pub proof fn law_request_is_cleaned_entry_by_entry(
    entries: Seq<(Seq<char>, JsonTree)>,
    key: Seq<char>,
    value: JsonTree,
)
    ensures
        ({
            let kept = sanitized(JsonTree::Object(entries))->Object_0;
            let cleaned = sanitized(JsonTree::Object(entries.push((key, value))));
            let allowed = value.field("type"@) == Some(JsonTree::Text("allowed_tools"@)) && (
            value.field("tools"@) matches Some(tools) && tools is Array);
            let image = mentions_image_generation(value) || value.field("type"@) == Some(
                JsonTree::Text("image_generation"@),
            ) || value.field("type"@) == Some(JsonTree::Text("imageGeneration"@)) || value
                == JsonTree::Text("imageGeneration"@);
            &&& key == "tools"@ ==> cleaned == JsonTree::Object(
                kept.push((key, text_items(ListKind::Tools, value))),
            )
            &&& key == "include"@ ==> cleaned == JsonTree::Object(
                kept.push((key, text_items(ListKind::Include, value))),
            )
            &&& key == "tool_choice"@ && allowed ==> cleaned == JsonTree::Object(
                kept.push((key, text_choice(value))),
            )
            &&& key == "tool_choice"@ && !allowed && image ==> cleaned == JsonTree::Object(kept)
            &&& key == "tool_choice"@ && !allowed && !image ==> cleaned == JsonTree::Object(
                kept.push((key, value)),
            )
            &&& key != "tools"@ && key != "include"@ && key != "tool_choice"@ ==> cleaned
                == JsonTree::Object(kept.push((key, value)))
        }),
        sanitized(JsonTree::Object(seq![])) == JsonTree::Object(seq![]),
        value !is Object ==> sanitized(value) == value,
{
    reveal(Seq::filter);
    lemma_entry_keys();
    let keep = |entry| stays(entry);
    let change = |entry| text_entry(entry);
    let longer = entries.push((key, value));
    assert(longer.drop_last() =~= entries);
    assert(longer.filter(keep).map_values(change) =~= if stays((key, value)) {
        entries.filter(keep).map_values(change).push(text_entry((key, value)))
    } else {
        entries.filter(keep).map_values(change)
    });
    let none: Seq<(Seq<char>, JsonTree)> = seq![];
    assert(none.filter(keep).map_values(change) =~= none);
}

} // verus!
