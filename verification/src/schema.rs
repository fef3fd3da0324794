use vstd::pervasive::unreached;
use vstd::prelude::*;

use crate::error::{diagnostic_views, Diagnostic, DiagnosticView, Location, LocationView, Rule, Severity};
use crate::json::{has_member, json_content, json_text_value, read_json, JsonModel};
use crate::text::texts;

verus! {

/// The baseline structural schema: what every tree document has to hold,
/// whatever its tier.
pub const BASELINE_SCHEMA: &'static str =
    r#"{
  "$schema": "https://json-schema.org/draft/2020-12/schema",
  "title": "Tree document (tier 0)",
  "type": "object",
  "required": ["formatVersion", "nodes", "edges"],
  "properties": {
    "formatVersion": { "type": "string" },
    "rootNodeId": { "type": "string" },
    "nodes": {
      "type": "array",
      "items": {
        "type": "object",
        "required": ["id", "content"],
        "properties": {
          "id": { "type": "string" },
          "content": { "type": "string" }
        }
      }
    },
    "edges": {
      "type": "array",
      "items": {
        "type": "object",
        "required": ["source", "target"],
        "properties": {
          "source": { "type": "string" },
          "target": { "type": "string" },
          "isTrunk": { "type": "boolean" }
        }
      }
    }
  }
}"#;

/// The schema of the first tier above the baseline: the baseline with a reader
/// version, a list of features and metadata. It is kept ready and is not
/// applied by the validation.
pub const TIER1_SCHEMA: &'static str =
    r#"{
  "$schema": "https://json-schema.org/draft/2020-12/schema",
  "title": "Tree document (tier 1)",
  "type": "object",
  "required": ["formatVersion", "nodes", "edges"],
  "properties": {
    "formatVersion": { "type": "string" },
    "minReaderVersion": { "type": "string" },
    "features": { "type": "array", "items": { "type": "string" } },
    "metadata": { "type": "object" },
    "rootNodeId": { "type": "string" },
    "nodes": {
      "type": "array",
      "items": {
        "type": "object",
        "required": ["id", "content"],
        "properties": {
          "id": { "type": "string" },
          "content": { "type": "string" },
          "metadata": { "type": "object" },
          "status": { "type": "string" }
        }
      }
    },
    "edges": {
      "type": "array",
      "items": {
        "type": "object",
        "required": ["source", "target"],
        "properties": {
          "source": { "type": "string" },
          "target": { "type": "string" },
          "isTrunk": { "type": "boolean" },
          "label": { "type": "string" },
          "type": { "type": "string" },
          "status": { "type": "string" },
          "description": { "type": "string" }
        }
      }
    }
  }
}"#;

/// Whether `jsonschema::validator_for` accepts `schema` as a schema.
pub uninterp spec fn schema_accepted(schema: JsonModel) -> bool;

/// The messages of the violations that `Validator::iter_errors` reports for
/// `instance` under the validator that `jsonschema::validator_for` makes of
/// `schema`, in the order in which it reports them.
pub uninterp spec fn schema_messages(schema: JsonModel, instance: JsonModel) -> Seq<Seq<char>>;

/// Whether the text of a schema can be used: it is well-formed JSON that is
/// accepted as a schema.
pub open spec fn schema_loads(text: Seq<char>) -> bool {
    match json_text_value(text) {
        Some(schema) => schema_accepted(schema),
        None => false,
    }
}

/// Whether the baseline schema can be used. Where it cannot, nothing can be
/// validated.
pub open spec fn baseline_schema_loads() -> bool {
    schema_loads(BASELINE_SCHEMA@)
}

/// `jsonschema::validator_for` on `schema`, then `Validator::iter_errors` on
/// `instance`: the message of each violation that it reports, or `None` where
/// `schema` is not accepted as a schema. It is taken on trust that whether a
/// schema is accepted depends on the schema alone, and that the violations and
/// their order depend on the schema and the instance alone: the validator
/// goes through its keywords and through the members and items of the
/// instance as they stand, and uses its hash tables for lookups only.
#[verifier::external_body]
fn schema_violations(schema: &serde_json::Value, instance: &serde_json::Value) -> (r: Option<
    Vec<String>,
>)
    ensures
        r is Some <==> schema_accepted(json_content(*schema)),
        r matches Some(m) ==> texts(m@) == schema_messages(
            json_content(*schema),
            json_content(*instance),
        ),
{
    match jsonschema::validator_for(schema) {
        Ok(validator) => Some(validator.iter_errors(instance).map(|e| e.to_string()).collect()),
        Err(_) => None,
    }
}

/// What is reported for a violation of the schema with the message `message`.
pub open spec fn schema_diagnostic(message: Seq<char>) -> DiagnosticView {
    DiagnosticView {
        rule: Rule::SchemaValidation,
        message,
        location: LocationView::Root,
        severity: Severity::Error,
    }
}

/// The schema findings for violations with the messages `messages`.
pub open spec fn schema_diagnostics(messages: Seq<Seq<char>>) -> Seq<DiagnosticView> {
    messages.map_values(|m: Seq<char>| schema_diagnostic(m))
}

/// The findings of the baseline schema for a JSON value: one error at the
/// document root for each violation that the validator reports, in its order.
pub open spec fn baseline_findings(instance: JsonModel) -> Seq<DiagnosticView> {
    schema_diagnostics(schema_messages(json_text_value(BASELINE_SCHEMA@)->Some_0, instance))
}

/// Whether `diagnostics` are schema findings: errors at the document root.
pub open spec fn are_schema_findings(diagnostics: Seq<DiagnosticView>) -> bool {
    exists|messages: Seq<Seq<char>>| diagnostics == #[trigger] schema_diagnostics(messages)
}

/// Turns the messages of schema violations into diagnostics: one error at the
/// document root for each.
pub fn report_violations(messages: Vec<String>) -> (r: Vec<Diagnostic>)
    ensures
        diagnostic_views(r@) == schema_diagnostics(texts(messages@)),
{
    let mut diagnostics: Vec<Diagnostic> = Vec::new();
    let mut i: usize = 0;
    while i < messages.len()
        invariant
            i <= messages.len(),
            diagnostic_views(diagnostics@) == schema_diagnostics(texts(messages@).take(i as int)),
        decreases messages.len() - i,
    {
        let ghost shown = diagnostic_views(diagnostics@);
        diagnostics.push(
            Diagnostic {
                rule: Rule::SchemaValidation,
                message: messages[i].clone(),
                location: Location::Root,
                severity: Severity::Error,
            },
        );
        assert(diagnostic_views(diagnostics@) =~= shown.push(schema_diagnostic(messages@[i as int]@)));
        assert(schema_diagnostics(texts(messages@).take(i + 1)) =~= schema_diagnostics(
            texts(messages@).take(i as int),
        ).push(schema_diagnostic(messages@[i as int]@)));
        i = i + 1;
    }
    assert(texts(messages@).take(messages.len() as int) =~= texts(messages@));
    diagnostics
}

/// Whether the text of a schema can be used.
fn schema_ready(text: &str) -> (b: bool)
    ensures
        b == schema_loads(text@),
{
    match read_json(text) {
        Ok(schema) => schema_violations(&schema, &schema).is_some(),
        Err(_) => false,
    }
}

/// Whether the baseline schema can be used.
pub fn baseline_schema_ready() -> (b: bool)
    ensures
        b == baseline_schema_loads(),
{
    schema_ready(BASELINE_SCHEMA)
}

/// Whether the schema of the first tier above the baseline can be used.
pub fn tier1_schema_ready() -> (b: bool)
    ensures
        b == schema_loads(TIER1_SCHEMA@),
{
    schema_ready(TIER1_SCHEMA)
}

/// Checks a JSON value against the baseline schema and reports each violation
/// as an error at the document root.
pub fn validate_schema(value: &serde_json::Value) -> (r: Vec<Diagnostic>)
    requires
        baseline_schema_loads(),
    ensures
        diagnostic_views(r@) == baseline_findings(json_content(*value)),
        are_schema_findings(diagnostic_views(r@)),
{
    let schema = match read_json(BASELINE_SCHEMA) {
        Ok(schema) => schema,
        Err(_) => unreached(),
    };
    let messages = match schema_violations(&schema, value) {
        Some(messages) => messages,
        None => unreached(),
    };
    report_violations(messages)
}

/// Checks a JSON value against the baseline schema where that schema can be
/// used, and returns `None` where it cannot.
pub fn try_validate_schema(value: &serde_json::Value) -> (r: Option<Vec<Diagnostic>>)
    ensures
        r is Some <==> baseline_schema_loads(),
        r matches Some(found) ==> diagnostic_views(found@) == baseline_findings(
            json_content(*value),
        ),
{
    if baseline_schema_ready() {
        Some(validate_schema(value))
    } else {
        None
    }
}

/// The tier of a JSON value: 2 with a member `trees`; otherwise 1 with one of
/// the members `minReaderVersion`, `features` and `metadata`; otherwise 0.
pub open spec fn tier_of(v: JsonModel) -> u8 {
    if v.member("trees"@) is Some {
        2
    } else if v.member("minReaderVersion"@) is Some || v.member("features"@) is Some || v.member(
        "metadata"@,
    ) is Some {
        1
    } else {
        0
    }
}

/// Detects the tier of a JSON value by the members that it has. Any value has
/// a tier, whether or not it is a document.
pub fn detect_tier(value: &serde_json::Value) -> (tier: u8)
    ensures
        tier == tier_of(json_content(*value)),
{
    if has_member(value, "trees") {
        2
    } else if has_member(value, "minReaderVersion") || has_member(value, "features")
        || has_member(value, "metadata") {
        1
    } else {
        0
    }
}

} // verus!
