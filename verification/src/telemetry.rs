//! The names of spans in a telemetry schema.

use vstd::prelude::*;

use crate::json::{lemma_member_views, member_views, parse_json, parsed_json, Json, JsonView};
use crate::text::texts;

verus! {

/// The attributes that a request to a model starts with.
pub const AI_REQUEST_START_ATTRIBUTES: [&'static str; 5] = [
    "pi.ai.operation",
    "pi.ai.provider",
    "pi.ai.model",
    "pi.ai.api",
    "pi.ai.streaming",
];

/// The names of the members of an object, in order.
pub open spec fn keys_of(members: Seq<(Seq<char>, JsonView)>) -> Seq<Seq<char>> {
    Seq::new(members.len(), |i: int| members[i].0)
}

/// The names of the spans of one of the schemas, in the order in which they are
/// written.
pub open spec fn span_names(schemas: JsonView, schema: Seq<char>) -> Option<Seq<Seq<char>>> {
    match schemas.get(schema) {
        Some(definition) => match definition.get("spans"@) {
            Some(JsonView::Object(members)) => Some(keys_of(members)),
            _ => None,
        },
        None => None,
    }
}

/// The names of the spans of one of the schemas; none where the schemas do not
/// hold it.
pub fn span_names_of(schemas: &Json, schema: &str) -> (r: Option<Vec<String>>)
    ensures
        match r {
            Some(names) => span_names(schemas@, schema@) == Some(texts(names@)),
            None => span_names(schemas@, schema@) is None,
        },
{
    let definition: &Json = match schemas.get(schema) {
        Some(definition) => definition,
        None => {
            return None;
        },
    };
    match definition.get("spans") {
        Some(Json::Object(members)) => {
            let ghost all = keys_of(member_views(members@));
            let mut names: Vec<String> = Vec::new();
            let mut i: usize = 0;
            proof {
                lemma_member_views(members@);
                assert(texts(names@) =~= all.take(0));
            }
            while i < members.len()
                invariant
                    i <= members@.len() == all.len(),
                    forall|k: int| 0 <= k < all.len() ==> #[trigger] all[k] == members@[k].0@,
                    texts(names@) == all.take(i as int),
                decreases members@.len() - i,
            {
                let ghost before = names@;
                let name: String = members[i].0.clone();
                names.push(name);
                i = i + 1;
                proof {
                    assert(texts(names@) =~= texts(before).push(name@));
                    assert(texts(names@) =~= all.take(i as int));
                }
            }
            proof {
                assert(all.take(all.len() as int) =~= all);
            }
            Some(names)
        },
        _ => None,
    }
}

/// The names of the spans of one of the schemas that a text holds; none where
/// it does not hold it.
pub fn span_names_in_order(payload: &str, schema: &str) -> (r: Option<Vec<String>>)
    ensures
        match parsed_json(payload@) {
            Ok(schemas) => match r {
                Some(names) => span_names(schemas, schema@) == Some(texts(names@)),
                None => span_names(schemas, schema@) is None,
            },
            Err(_) => r is None,
        },
{
    match parse_json(payload) {
        Ok(schemas) => span_names_of(&schemas, schema),
        Err(_) => None,
    }
}

/// The names of the spans of the harness.
pub fn harness_span_names(payload: &str) -> (r: Option<Vec<String>>)
    ensures
        match parsed_json(payload@) {
            Ok(schemas) => match r {
                Some(names) => span_names(schemas, "harness"@) == Some(texts(names@)),
                None => span_names(schemas, "harness"@) is None,
            },
            Err(_) => r is None,
        },
{
    span_names_in_order(payload, "harness")
}

/// The names of the spans of requests to models.
pub fn ai_span_names(payload: &str) -> (r: Option<Vec<String>>)
    ensures
        match parsed_json(payload@) {
            Ok(schemas) => match r {
                Some(names) => span_names(schemas, "ai"@) == Some(texts(names@)),
                None => span_names(schemas, "ai"@) is None,
            },
            Err(_) => r is None,
        },
{
    span_names_in_order(payload, "ai")
}

/// The version of one of the schemas.
pub open spec fn schema_version(schemas: JsonView, schema: Seq<char>) -> Option<nat> {
    match schemas.get(schema) {
        Some(definition) => match definition.get("version"@) {
            Some(JsonView::Unsigned(version)) => Some(version),
            _ => None,
        },
        None => None,
    }
}

fn version_of(schemas: &Json, schema: &str) -> (r: Option<u64>)
    ensures
        match r {
            Some(version) => schema_version(schemas@, schema@) == Some(version as nat),
            None => schema_version(schemas@, schema@) is None,
        },
{
    match schemas.get(schema) {
        Some(definition) => match definition.get("version") {
            Some(Json::Unsigned(version)) => Some(*version),
            _ => None,
        },
        None => None,
    }
}

/// The versions of the schemas for models and for the harness; none where the
/// schemas do not hold them.
pub fn schema_versions_of(schemas: &Json) -> (r: Option<Vec<u64>>)
    ensures
        match r {
            Some(versions) => versions@.len() == 2 && schema_version(schemas@, "ai"@) == Some(
                versions@[0] as nat,
            ) && schema_version(schemas@, "harness"@) == Some(versions@[1] as nat),
            None => schema_version(schemas@, "ai"@) is None || schema_version(
                schemas@,
                "harness"@,
            ) is None,
        },
{
    match (version_of(schemas, "ai"), version_of(schemas, "harness")) {
        (Some(ai), Some(harness)) => {
            let mut versions: Vec<u64> = Vec::new();
            versions.push(ai);
            versions.push(harness);
            Some(versions)
        },
        _ => None,
    }
}

/// The versions of the schemas that a text holds, for models and for the harness;
/// none where it does not hold them.
pub fn agent_schema_versions(payload: &str) -> (r: Option<Vec<u64>>)
    ensures
        match parsed_json(payload@) {
            Ok(schemas) => match r {
                Some(versions) => versions@.len() == 2 && schema_version(schemas, "ai"@) == Some(
                    versions@[0] as nat,
                ) && schema_version(schemas, "harness"@) == Some(versions@[1] as nat),
                None => schema_version(schemas, "ai"@) is None || schema_version(
                    schemas,
                    "harness"@,
                ) is None,
            },
            Err(_) => r is None,
        },
{
    match parse_json(payload) {
        Ok(schemas) => schema_versions_of(&schemas),
        Err(_) => None,
    }
}

} // verus!
