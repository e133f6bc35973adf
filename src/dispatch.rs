//! Run-time dispatch: resolution of a handler identifier through a routing
//! table, schema lookup in the bundle, and normalization of outcomes into
//! the boundary's error shape.
use vstd::prelude::*;
use crate::bundle::{input_key, map_of, output_key, SchemaBundle};
use crate::discovery::insert_sorted;
use crate::error::{app_error, AppError, ErrorCode};
use crate::text::{compare, lemma_lex_irreflexive, lemma_lex_transitive, lex_lt, strictly_sorted, views_of};

verus! {

#[verifier::external_type_specification]
#[verifier::external_body]
pub struct ExValue(serde_json::Value);

/// Whether the text is one well-formed JSON document that nests no deeper
/// than the parser's recursion limit of 128.
pub uninterp spec fn json_valid(text: Seq<char>) -> bool;

/// The value that a well-formed JSON text denotes.
pub uninterp spec fn parsed_value(text: Seq<char>) -> serde_json::Value;

/// The pretty-printed JSON text of a value.
pub uninterp spec fn pretty_text(v: serde_json::Value) -> Seq<char>;

/// The compact JSON text of a value.
pub uninterp spec fn compact_text(v: serde_json::Value) -> Seq<char>;

/// Relies on `serde_json::from_str::<Value>`: it succeeds exactly on
/// well-formed JSON text within the nesting limit, and the value it gives
/// depends on the text alone.
#[verifier::external_body]
pub(crate) fn parse_json(text: &str) -> (r: Result<serde_json::Value, serde_json::Error>)
    ensures
        r is Ok <==> json_valid(text@),
        r matches Ok(v) ==> v == parsed_value(text@),
{
    serde_json::from_str(text)
}

/// Relies on `serde_json::to_string_pretty` on a `Value`: a `Value`'s
/// serialization has no failing path (its map keys are strings) and the
/// output goes to a `Vec`, so it always succeeds.
#[verifier::external_body]
fn pretty_json(v: &serde_json::Value) -> (r: Result<String, serde_json::Error>)
    ensures
        r is Ok,
        r matches Ok(s) ==> s@ == pretty_text(*v),
{
    serde_json::to_string_pretty(v)
}

/// Relies on `serde_json::to_string` on a `Value`: as for the pretty form,
/// it always succeeds.
#[verifier::external_body]
pub(crate) fn compact_json(v: &serde_json::Value) -> (r: Result<String, serde_json::Error>)
    ensures
        r is Ok,
        r matches Ok(s) ==> s@ == compact_text(*v),
{
    serde_json::to_string(v)
}

/// The registered names of one kind, strictly sorted.
pub struct RoutingTable {
    names: Vec<String>,
}

impl View for RoutingTable {
    type V = Seq<Seq<char>>;

    closed spec fn view(&self) -> Seq<Seq<char>> {
        views_of(self.names@)
    }
}

impl RoutingTable {
    pub open spec fn wf(&self) -> bool {
        strictly_sorted(self@)
    }

    /// The table of the given names, sorted, each once.
    pub fn new(names: Vec<String>) -> (r: RoutingTable)
        ensures
            r.wf(),
            forall|n: Seq<char>| r@.contains(n) <==> views_of(names@).contains(n),
    {
        let mut sorted: Vec<String> = Vec::new();
        let mut i: usize = 0;
        while i < names.len()
            invariant
                i <= names@.len(),
                strictly_sorted(views_of(sorted@)),
                forall|n: Seq<char>|
                    views_of(sorted@).contains(n) <==> views_of(names@).subrange(0, i as int).contains(n),
            decreases names@.len() - i,
        {
            let ghost pre = views_of(names@).subrange(0, i as int);
            let ghost post = views_of(names@).subrange(0, i as int + 1);
            assert(post =~= pre.push(names@[i as int]@));
            insert_sorted(&mut sorted, names[i].clone());
            assert forall|n: Seq<char>| views_of(sorted@).contains(n) <==> post.contains(n) by {
                if pre.contains(n) {
                    let k = choose|k: int| 0 <= k < pre.len() && pre[k] == n;
                    assert(post[k] == n);
                }
                if post.contains(n) {
                    let k = choose|k: int| 0 <= k < post.len() && post[k] == n;
                    if k < i {
                        assert(pre[k] == n);
                    }
                }
                if n == names@[i as int]@ {
                    assert(post[i as int] == n);
                }
            }
            i = i + 1;
        }
        assert(views_of(names@).subrange(0, i as int) =~= views_of(names@));
        RoutingTable { names: sorted }
    }

    /// Every identifier of the table, in table order.
    pub fn identifiers(&self) -> (r: Vec<String>)
        ensures
            views_of(r@) == self@,
    {
        let mut out: Vec<String> = Vec::new();
        let mut i: usize = 0;
        while i < self.names.len()
            invariant
                i <= self.names@.len(),
                self@ == views_of(self.names@),
                out@.len() == i,
                views_of(out@) == self@.subrange(0, i as int),
            decreases self.names@.len() - i,
        {
            let s = self.names[i].clone();
            out.push(s);
            assert(self@[i as int] == self.names@[i as int]@);
            assert(out@[i as int]@ == self@[i as int]);
            assert(views_of(out@) =~= self@.subrange(0, i as int + 1));
            i = i + 1;
        }
        assert(self@.subrange(0, i as int) =~= self@);
        out
    }

    /// The position of `id` in the table; `NotFound` when it is absent.
    pub fn resolve(&self, id: &str) -> (r: Result<usize, AppError>)
        requires
            self.wf(),
        ensures
            r is Ok <==> self@.contains(id@),
            r matches Ok(i) ==> i < self@.len() && self@[i as int] == id@,
            r matches Err(e) ==> e.code == ErrorCode::NotFound,
    {
        let mut lo: usize = 0;
        let mut hi: usize = self.names.len();
        while lo < hi
            invariant
                self.wf(),
                lo <= hi <= self@.len(),
                self@.len() == self.names@.len(),
                forall|k: int| 0 <= k < lo ==> lex_lt(#[trigger] self@[k], id@),
                forall|k: int| hi <= k < self@.len() ==> lex_lt(id@, #[trigger] self@[k]),
            decreases hi - lo,
        {
            let mid = lo + (hi - lo) / 2;
            let c = compare(self.names[mid].as_str(), id);
            if c == 0 {
                assert(self@[mid as int] == id@);
                return Ok(mid);
            } else if c < 0 {
                proof {
                    assert forall|k: int| 0 <= k < mid + 1 implies lex_lt(#[trigger] self@[k], id@) by {
                        if k < mid {
                            lemma_lex_transitive(self@[k], self@[mid as int], id@);
                        }
                    }
                }
                lo = mid + 1;
            } else {
                proof {
                    assert forall|k: int| mid <= k < self@.len() implies lex_lt(id@, #[trigger] self@[k]) by {
                        if k > mid {
                            lemma_lex_transitive(id@, self@[mid as int], self@[k]);
                        }
                    }
                }
                hi = mid;
            }
        }
        proof {
            if self@.contains(id@) {
                let k = choose|k: int| 0 <= k < self@.len() && self@[k] == id@;
                lemma_lex_irreflexive(id@);
            }
        }
        let mut message = String::new();
        message.append("unknown identifier: ");
        message.append(id);
        Err(AppError { code: ErrorCode::NotFound, message })
    }
}

/// Which of a unit's two schemas is asked for.
#[derive(Debug, Clone, Copy, PartialEq, Eq, Structural)]
pub enum SchemaDirection {
    Input,
    Output,
}

pub open spec fn schema_key(id: Seq<char>, dir: SchemaDirection) -> Seq<char> {
    match dir {
        SchemaDirection::Input => input_key(id),
        SchemaDirection::Output => output_key(id),
    }
}

/// The identifier is in the table and the bundle holds the asked schema.
pub open spec fn schema_found(table: Seq<Seq<char>>, bundle: Seq<(Seq<char>, Seq<char>)>, id: Seq<char>, dir: SchemaDirection) -> bool {
    table.contains(id) && map_of(bundle).contains_key(schema_key(id, dir))
}

fn schema_key_exec(id: &str, dir: SchemaDirection) -> (r: String)
    ensures
        r@ == schema_key(id@, dir),
{
    proof {
        reveal_strlit("_input");
        reveal_strlit("_output");
        assert("_input"@ =~= crate::bundle::input_suffix());
        assert("_output"@ =~= crate::bundle::output_suffix());
    }
    let mut key = String::from_str(id);
    match dir {
        SchemaDirection::Input => key.append("_input"),
        SchemaDirection::Output => key.append("_output"),
    }
    key
}

/// Resolves `id` and returns the asked schema of that unit, re-serialized
/// in pretty form. `NotFound` when the identifier is not in the table or
/// the unit has no such schema file; `Other` when the stored text is not
/// well-formed JSON.
pub fn schema(table: &RoutingTable, bundle: &SchemaBundle, id: &str, dir: SchemaDirection) -> (r: Result<String, AppError>)
    requires
        table.wf(),
    ensures
        !schema_found(table@, bundle@, id@, dir) <==> (r matches Err(e) && e.code == ErrorCode::NotFound),
        schema_found(table@, bundle@, id@, dir) ==> (r is Ok <==> json_valid(
            map_of(bundle@)[schema_key(id@, dir)],
        )),
        r matches Ok(s) ==> s@ == pretty_text(parsed_value(map_of(bundle@)[schema_key(id@, dir)])),
        r matches Err(e) ==> e.code == ErrorCode::NotFound || e.code == ErrorCode::Other,
{
    table.resolve(id)?;
    let key = schema_key_exec(id, dir);
    match bundle.get(key.as_str()) {
        None => {
            let mut message = String::new();
            message.append("no schema for: ");
            message.append(id);
            Err(AppError { code: ErrorCode::NotFound, message })
        },
        Some(text) => match parse_json(text.as_str()) {
            Err(_) => Err(app_error(ErrorCode::Other, "Failed to parse schema")),
            Ok(v) => match pretty_json(&v) {
                Ok(s) => Ok(s),
                Err(_) => Err(app_error(ErrorCode::Other, "Failed to serialize schema")),
            },
        },
    }
}

/// The input schema of the unit `id`; see [`schema`].
pub fn input_schema(table: &RoutingTable, bundle: &SchemaBundle, id: &str) -> (r: Result<String, AppError>)
    requires
        table.wf(),
    ensures
        !schema_found(table@, bundle@, id@, SchemaDirection::Input) <==> (r matches Err(e) && e.code
            == ErrorCode::NotFound),
        schema_found(table@, bundle@, id@, SchemaDirection::Input) ==> (r is Ok <==> json_valid(
            map_of(bundle@)[input_key(id@)],
        )),
        r matches Ok(s) ==> s@ == pretty_text(parsed_value(map_of(bundle@)[input_key(id@)])),
{
    schema(table, bundle, id, SchemaDirection::Input)
}

/// The output schema of the unit `id`; see [`schema`].
pub fn output_schema(table: &RoutingTable, bundle: &SchemaBundle, id: &str) -> (r: Result<String, AppError>)
    requires
        table.wf(),
    ensures
        !schema_found(table@, bundle@, id@, SchemaDirection::Output) <==> (r matches Err(e) && e.code
            == ErrorCode::NotFound),
        schema_found(table@, bundle@, id@, SchemaDirection::Output) ==> (r is Ok <==> json_valid(
            map_of(bundle@)[output_key(id@)],
        )),
        r matches Ok(s) ==> s@ == pretty_text(parsed_value(map_of(bundle@)[output_key(id@)])),
{
    schema(table, bundle, id, SchemaDirection::Output)
}

/// Normalizes a handler's outcome for the boundary: an error passes
/// through unchanged; a result is serialized as compact JSON, a failure
/// of which becomes an `Other` error.
pub fn finish_call(outcome: Result<serde_json::Value, AppError>) -> (r: Result<String, AppError>)
    ensures
        outcome matches Ok(v) ==> (r matches Ok(s) && s@ == compact_text(v)),
        outcome matches Err(e) ==> r == Err::<String, AppError>(e),
{
    match outcome {
        Err(e) => Err(e),
        Ok(v) => match compact_json(&v) {
            Ok(s) => Ok(s),
            Err(_) => Err(app_error(ErrorCode::Other, "Failed to serialize response")),
        },
    }
}

} // verus!
