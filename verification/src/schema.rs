//! The schemas that guards running as components publish for the user
//! interface.
//!
//! Such a guard describes its settings by a JSON schema and offers a default
//! configuration. The host asks the guests; this module finds the guards to
//! ask in a configuration document, and files what they answered.
use crate::json::{array_values, lemma_object_view, object_fields, Json, JsonValue};
use crate::text::text_eq;
use vstd::prelude::*;

verus! {

/// What a guard that runs as a component publishes.
#[derive(Debug, PartialEq, Eq)]
pub struct WasmGuardSchema {
    /// The JSON schema of the guard's settings.
    pub settings_schema: Json,
    /// The guard's default configuration.
    pub default_config: Json,
}

impl WasmGuardSchema {
    /// What a guard publishes, given what parsing its two answers gave:
    /// `None` stands for an answer that is missing or is not JSON. A missing
    /// schema is `null`; a missing default configuration is the empty
    /// object.
    pub fn new(settings_schema: Option<Json>, default_config: Option<Json>) -> (res:
        WasmGuardSchema)
        ensures
            res.settings_schema@ == match settings_schema {
                Some(s) => s@,
                None => JsonValue::Null,
            },
            res.default_config@ == match default_config {
                Some(c) => c@,
                None => JsonValue::Object(Seq::empty()),
            },
    {
        let settings_schema = match settings_schema {
            Some(s) => s,
            None => Json::Null,
        };
        let default_config = match default_config {
            Some(c) => c,
            None => {
                let fields: Vec<(String, Json)> = Vec::new();
                proof {
                    lemma_object_view(fields);
                    assert(object_fields(fields@) =~= Seq::empty());
                }
                Json::Object(fields)
            },
        };
        WasmGuardSchema { settings_schema, default_config }
    }
}

/// Whether a document configures a guard that runs as a component, and
/// names it: its `type` is `wasm` and its `id` is a text.
pub open spec fn is_wasm_guard(guard: JsonValue) -> bool {
    guard.field("type"@) == Some(JsonValue::Str("wasm"@)) && guard.field("id"@) matches Some(
        JsonValue::Str(_),
    )
}

/// Among the first `n` of `guards`, the identifiers of those that run as
/// components, each with its configuration.
pub open spec fn wasm_guards(guards: Seq<JsonValue>, n: nat) -> Seq<(Seq<char>, JsonValue)>
    decreases n,
{
    if n == 0 || n > guards.len() {
        Seq::empty()
    } else {
        let head = wasm_guards(guards, (n - 1) as nat);
        if is_wasm_guard(guards[n - 1]) {
            head.push((guards[n - 1].field("id"@)->Some_0->Str_0, guards[n - 1]))
        } else {
            head
        }
    }
}

/// The guards of one backend that run as components: those among the
/// documents of `mcp.security_guards`.
pub open spec fn backend_wasm_guards(backend: JsonValue) -> Seq<(Seq<char>, JsonValue)> {
    match backend.field("mcp"@) {
        Some(mcp) => match mcp.field("security_guards"@) {
            Some(JsonValue::Array(guards)) => wasm_guards(guards, guards.len()),
            _ => Seq::empty(),
        },
        None => Seq::empty(),
    }
}

/// The guards of the first `n` backends that run as components.
pub open spec fn backends_wasm_guards(backends: Seq<JsonValue>, n: nat) -> Seq<
    (Seq<char>, JsonValue),
>
    decreases n,
{
    if n == 0 || n > backends.len() {
        Seq::empty()
    } else {
        backends_wasm_guards(backends, (n - 1) as nat) + backend_wasm_guards(backends[n - 1])
    }
}

/// The guards of a configuration document that run as components: those of
/// the backends under `backends`, backend by backend.
pub open spec fn config_wasm_guards(config: JsonValue) -> Seq<(Seq<char>, JsonValue)> {
    match config.field("backends"@) {
        Some(JsonValue::Array(backends)) => backends_wasm_guards(backends, backends.len()),
        _ => Seq::empty(),
    }
}

/// The values of a list of named documents.
pub open spec fn named_view(items: Seq<(String, Json)>) -> Seq<(Seq<char>, JsonValue)> {
    Seq::new(items.len(), |i: int| (items[i].0@, items[i].1@))
}

/// The guards of a configuration document that run as components, each with
/// its identifier and its configuration.
pub fn collect_wasm_schemas_from_config(config: &Json) -> (res: Vec<(String, Json)>)
    ensures
        named_view(res@) == config_wasm_guards(config@),
{
    let mut found: Vec<(String, Json)> = Vec::new();
    proof {
        assert(named_view(found@) =~= Seq::<(Seq<char>, JsonValue)>::empty());
    }
    let backends = match config.get("backends") {
        Some(b) => match b.as_array() {
            Some(items) => items,
            None => {
                return found;
            },
        },
        None => {
            return found;
        },
    };
    let ghost bv = array_values(backends@);
    let mut i: usize = 0;
    while i < backends.len()
        invariant
            i <= backends@.len(),
            bv == array_values(backends@),
            named_view(found@) == backends_wasm_guards(bv, i as nat),
        decreases backends@.len() - i,
    {
        proof {
            assert(bv[i as int] == backends@[i as int]@);
        }
        let ghost before = named_view(found@);
        let guards = match backends[i].get("mcp") {
            Some(mcp) => match mcp.get("security_guards") {
                Some(g) => g.as_array(),
                None => None,
            },
            None => None,
        };
        match guards {
            Some(guards) => {
                let ghost gv = array_values(guards@);
                let mut k: usize = 0;
                proof {
                    assert(named_view(found@) =~= before + wasm_guards(gv, 0));
                }
                while k < guards.len()
                    invariant
                        k <= guards@.len(),
                        gv == array_values(guards@),
                        named_view(found@) == before + wasm_guards(gv, k as nat),
                    decreases guards@.len() - k,
                {
                    proof {
                        assert(gv[k as int] == guards@[k as int]@);
                    }
                    let guard = &guards[k];
                    let is_wasm = match guard.get("type") {
                        Some(t) => match t.as_str() {
                            Some(s) => text_eq(s, "wasm"),
                            None => false,
                        },
                        None => false,
                    };
                    if is_wasm {
                        match guard.get("id") {
                            Some(id) => match id.as_str() {
                                Some(id) => {
                                    let ghost mid = named_view(found@);
                                    let item = (id.to_owned(), guard.clone());
                                    let ghost iv = (item.0@, item.1@);
                                    found.push(item);
                                    proof {
                                        assert(named_view(found@) =~= mid.push(iv));
                                        let prev = wasm_guards(gv, k as nat);
                                        assert(before + prev.push(iv) =~= (before + prev).push(iv));
                                    }
                                },
                                None => {},
                            },
                            None => {},
                        }
                    }
                    k += 1;
                }
            },
            None => {
                proof {
                    assert(before + Seq::<(Seq<char>, JsonValue)>::empty() =~= before);
                }
            },
        }
        i += 1;
    }
    found
}

/// The key under which the schema of the guard `guard_id` is filed: the
/// text of `x-guard-meta.guardType` in the schema, or else the identifier of
/// the guard.
pub open spec fn schema_key(schema: JsonValue, guard_id: Seq<char>) -> Seq<char> {
    match schema.field("x-guard-meta"@) {
        Some(meta) => match meta.field("guardType"@) {
            Some(JsonValue::Str(t)) => t,
            _ => guard_id,
        },
        None => guard_id,
    }
}

/// Whether a filed schema has the given key.
pub open spec fn filed_under(key: Seq<char>) -> spec_fn((Seq<char>, JsonValue)) -> bool {
    |e: (Seq<char>, JsonValue)| e.0 == key
}

/// Files the schema of a guard under its key: in the place of a schema
/// filed under the same key, or else at the end.
pub fn file_schema(schemas: &mut Vec<(String, Json)>, guard_id: &str, schema: Json)
    ensures
        ({
            let before = named_view(old(schemas)@);
            let key = schema_key(schema@, guard_id@);
            let at = crate::order::first_where(before, filed_under(key));
            named_view(final(schemas)@) == if at < before.len() {
                before.update(at, (key, schema@))
            } else {
                before.push((key, schema@))
            }
        }),
{
    let key = match schema.get("x-guard-meta") {
        Some(meta) => match meta.get("guardType") {
            Some(t) => match t.as_str() {
                Some(s) => s.to_owned(),
                None => guard_id.to_owned(),
            },
            None => guard_id.to_owned(),
        },
        None => guard_id.to_owned(),
    };
    let ghost before = named_view(schemas@);
    let ghost keyed = filed_under(key@);
    let ghost sv = schema@;
    let mut i: usize = 0;
    while i < schemas.len()
        invariant
            i <= schemas@.len(),
            schemas@ == old(schemas)@,
            before == named_view(schemas@),
            keyed == filed_under(key@),
            forall|k: int| 0 <= k < i ==> !keyed(#[trigger] before[k]),
        decreases schemas@.len() - i,
    {
        proof {
            assert(before[i as int] == (schemas@[i as int].0@, schemas@[i as int].1@));
        }
        if text_eq(schemas[i].0.as_str(), key.as_str()) {
            proof {
                crate::order::lemma_first_where_is(before, keyed, i as int);
            }
            schemas[i] = (key, schema);
            proof {
                assert(named_view(schemas@) =~= before.update(i as int, (key@, sv)));
            }
            return ;
        }
        i += 1;
    }
    proof {
        crate::order::lemma_first_where_is(before, keyed, before.len() as int);
    }
    schemas.push((key, schema));
    proof {
        assert(named_view(schemas@) =~= before.push((key@, sv)));
    }
}

} // verus!
