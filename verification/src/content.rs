//! Message content: the text and the blocks that a content value stands for.

use crate::json::{items_view, lemma_items_view_push, Json, JsonObject, JsonView};
use crate::json_text::{json_text, to_text};
use crate::text::{join, joined, views};
use vstd::prelude::*;

verus! {

/// The text of a text block; other blocks, and text blocks whose text is not a
/// string, have none.
pub open spec fn block_text(block: JsonView) -> Option<Seq<char>> {
    if block.text_at("type"@) == Some("text"@) {
        block.text_at("text"@)
    } else {
        None
    }
}

/// The texts of the text blocks, in order.
pub open spec fn text_parts(blocks: Seq<JsonView>) -> Seq<Seq<char>>
    decreases blocks.len(),
{
    if blocks.len() == 0 {
        seq![]
    } else {
        let before = text_parts(blocks.drop_last());
        match block_text(blocks.last()) {
            Some(text) => before.push(text),
            None => before,
        }
    }
}

/// The texts of the text blocks, one to a line.
pub open spec fn blocks_text(blocks: Seq<JsonView>) -> Seq<char> {
    joined(text_parts(blocks), "\n"@)
}

/// The text of a content value: a string itself, or the texts of the text blocks
/// of an array. Any other value has none.
pub open spec fn flat_text(value: JsonView) -> Seq<char> {
    match value {
        JsonView::String(s) => s,
        JsonView::Array(blocks) => blocks_text(blocks),
        _ => seq![],
    }
}

/// The text of a tool result. Unlike other content, a value that is neither
/// string, array nor null is written out as JSON.
pub open spec fn tool_result_text(value: JsonView) -> Seq<char> {
    match value {
        JsonView::String(s) => s,
        JsonView::Array(blocks) => blocks_text(blocks),
        JsonView::Null => seq![],
        other => json_text(other),
    }
}

/// The block that a plain text stands for.
pub open spec fn text_block(text: Seq<char>) -> JsonView {
    JsonView::Object(
        Map::<Seq<char>, JsonView>::empty().insert("type"@, JsonView::String("text"@)).insert(
            "text"@,
            JsonView::String(text),
        ),
    )
}

/// The blocks of a content value: a string is one text block, an array its own
/// elements, and any other value has none.
pub open spec fn blocks_of(value: JsonView) -> Seq<JsonView> {
    match value {
        JsonView::String(s) => seq![text_block(s)],
        JsonView::Array(blocks) => blocks,
        _ => seq![],
    }
}

/// The texts of the text blocks, in order.
pub fn collect_text(blocks: &[Json]) -> (parts: Vec<String>)
    ensures
        views(parts@) == text_parts(items_view(blocks@)),
{
    let mut parts: Vec<String> = Vec::new();
    let mut i: usize = 0;
    assert(blocks@.take(0) =~= seq![]);
    assert(views(parts@) =~= seq![]);
    while i < blocks.len()
        invariant
            i <= blocks@.len(),
            views(parts@) == text_parts(items_view(blocks@.take(i as int))),
        decreases blocks@.len() - i,
    {
        let ghost before = parts@;
        proof {
            lemma_items_view_push(blocks@.take(i as int), blocks@[i as int]);
            assert(blocks@.take(i + 1) =~= blocks@.take(i as int).push(blocks@[i as int]));
            let seen = items_view(blocks@.take(i as int));
            assert(seen.push(blocks@[i as int]@).drop_last() =~= seen);
        }
        if blocks[i].has_text("type", "text") {
            if let Some(text) = blocks[i].get_str("text") {
                parts.push(text.to_owned());
                assert(views(parts@) =~= views(before).push(text@));
            }
        }
        i += 1;
    }
    assert(blocks@.take(blocks@.len() as int) =~= blocks@);
    parts
}

/// The text of a content value. Used for system prompts.
pub fn flatten_text(value: &Json) -> (text: String)
    ensures
        text@ == flat_text(value@),
{
    match value {
        Json::String(s) => s.clone(),
        Json::Array(blocks) => join(&collect_text(blocks.as_slice()), "\n"),
        _ => String::new(),
    }
}

/// The text of the content of a tool result.
pub fn flatten_tool_result_content(value: &Json) -> (text: String)
    ensures
        text@ == tool_result_text(value@),
{
    match value {
        Json::String(s) => s.clone(),
        Json::Array(blocks) => join(&collect_text(blocks.as_slice()), "\n"),
        Json::Null => String::new(),
        other => to_text(other),
    }
}

/// The blocks of a content value.
pub fn content_blocks(value: &Json) -> (blocks: Vec<Json>)
    ensures
        items_view(blocks@) == blocks_of(value@),
{
    match value {
        Json::String(s) => {
            let block = Json::Object(
                JsonObject::new().with("type", Json::string("text")).with(
                    "text",
                    Json::string(s.as_str()),
                ),
            );
            let mut blocks: Vec<Json> = Vec::new();
            proof {
                lemma_items_view_push(blocks@, block);
            }
            blocks.push(block);
            assert(items_view(blocks@) =~= seq![text_block(s@)]);
            blocks
        },
        Json::Array(items) => match value.clone() {
            Json::Array(copies) => copies,
            _ => Vec::new(),
        },
        _ => Vec::new(),
    }
}

} // verus!
