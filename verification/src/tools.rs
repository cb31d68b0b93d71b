//! Tool definitions and the choice among them.

use crate::json::{
    items_view, lemma_items_view_push, text_or_empty, Json, JsonObject, JsonView,
};
use vstd::prelude::*;

verus! {

/// The parameters of a tool: its input schema, or the schema of any object.
pub open spec fn tool_parameters(tool: JsonView) -> JsonView {
    match tool.get("input_schema"@) {
        Some(schema) => schema,
        None => JsonView::Object(
            Map::<Seq<char>, JsonView>::empty().insert("type"@, JsonView::String("object"@)),
        ),
    }
}

/// The function definition for a tool; a tool whose name is not a string has none.
pub open spec fn function_definition(tool: JsonView) -> Option<JsonView> {
    match tool.text_at("name"@) {
        Some(name) => Some(
            JsonView::Object(
                Map::<Seq<char>, JsonView>::empty().insert(
                    "type"@,
                    JsonView::String("function"@),
                ).insert(
                    "function"@,
                    JsonView::Object(
                        Map::<Seq<char>, JsonView>::empty().insert(
                            "name"@,
                            JsonView::String(name),
                        ).insert(
                            "description"@,
                            JsonView::String(text_or_empty(tool, "description"@)),
                        ).insert("parameters"@, tool_parameters(tool)),
                    ),
                ),
            ),
        ),
        None => None,
    }
}

/// The function definitions for the tools, in order.
pub open spec fn function_definitions(tools: Seq<JsonView>) -> Seq<JsonView>
    decreases tools.len(),
{
    if tools.len() == 0 {
        seq![]
    } else {
        let before = function_definitions(tools.drop_last());
        match function_definition(tools.last()) {
            Some(definition) => before.push(definition),
            None => before,
        }
    }
}

/// The tool choice for the upstream endpoint. What is not understood leaves the
/// choice to the model.
pub open spec fn function_choice(choice: JsonView) -> JsonView {
    let kind = choice.text_at("type"@);
    if kind == Some("none"@) {
        JsonView::String("none"@)
    } else if kind == Some("any"@) {
        JsonView::String("required"@)
    } else if kind == Some("tool"@) && choice.text_at("name"@) is Some {
        JsonView::Object(
            Map::<Seq<char>, JsonView>::empty().insert(
                "type"@,
                JsonView::String("function"@),
            ).insert(
                "function"@,
                JsonView::Object(
                    Map::<Seq<char>, JsonView>::empty().insert(
                        "name"@,
                        JsonView::String(choice.text_at("name"@)->0),
                    ),
                ),
            ),
        )
    } else {
        JsonView::String("auto"@)
    }
}

fn translate_tool(tool: &Json) -> (definition: Option<Json>)
    ensures
        match definition {
            Some(d) => function_definition(tool@) == Some(d@),
            None => function_definition(tool@) is None,
        },
{
    let name = match tool.get_str("name") {
        Some(name) => name,
        None => return None,
    };
    let description = tool.get_str_or_empty("description");
    let parameters = match tool.get("input_schema") {
        Some(schema) => schema.clone(),
        None => Json::Object(JsonObject::new().with("type", Json::string("object"))),
    };
    let function = JsonObject::new().with("name", Json::string(name)).with(
        "description",
        Json::String(description),
    ).with("parameters", parameters);
    Some(
        Json::Object(
            JsonObject::new().with("type", Json::string("function")).with(
                "function",
                Json::Object(function),
            ),
        ),
    )
}

/// The function definitions for the tools. A tool without a name is dropped.
pub fn translate_tools(tools: &[Json]) -> (definitions: Vec<Json>)
    ensures
        items_view(definitions@) == function_definitions(items_view(tools@)),
{
    let mut definitions: Vec<Json> = Vec::new();
    let mut i: usize = 0;
    assert(tools@.take(0) =~= seq![]);
    while i < tools.len()
        invariant
            i <= tools@.len(),
            items_view(definitions@) == function_definitions(items_view(tools@.take(i as int))),
        decreases tools@.len() - i,
    {
        proof {
            lemma_items_view_push(tools@.take(i as int), tools@[i as int]);
            assert(tools@.take(i + 1) =~= tools@.take(i as int).push(tools@[i as int]));
            let seen = items_view(tools@.take(i as int));
            assert(seen.push(tools@[i as int]@).drop_last() =~= seen);
        }
        if let Some(definition) = translate_tool(&tools[i]) {
            proof {
                lemma_items_view_push(definitions@, definition);
            }
            definitions.push(definition);
        }
        i += 1;
    }
    assert(tools@.take(tools@.len() as int) =~= tools@);
    definitions
}

/// The tool choice for the upstream endpoint.
pub fn translate_tool_choice(tc: &Json) -> (choice: Json)
    ensures
        choice@ == function_choice(tc@),
{
    if tc.has_text("type", "none") {
        return Json::string("none");
    }
    if tc.has_text("type", "any") {
        return Json::string("required");
    }
    if tc.has_text("type", "tool") {
        if let Some(name) = tc.get_str("name") {
            let function = JsonObject::new().with("name", Json::string(name));
            return Json::Object(
                JsonObject::new().with("type", Json::string("function")).with(
                    "function",
                    Json::Object(function),
                ),
            );
        }
    }
    Json::string("auto")
}

} // verus!
