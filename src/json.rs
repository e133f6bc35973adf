//! A JSON document tree, and the removal of empty values from request
//! data.
use vstd::prelude::*;

verus! {

#[verifier::external_type_specification]
#[verifier::external_body]
pub struct ExNumber(serde_json::Number);

/// Relies on `Number`'s derived `Clone`: the copy is the same number.
pub assume_specification[ <serde_json::Number as Clone>::clone ](n: &serde_json::Number) -> (r:
    serde_json::Number)
    ensures
        r == *n,
;

/// A JSON value; object members keep their order. Values read from JSON
/// text have distinct keys in each object (`json_wf`), and cleaning and
/// request-body building keep that so.
#[derive(Debug)]
pub enum Json {
    Null,
    Bool(bool),
    Number(serde_json::Number),
    Str(String),
    Array(Vec<Json>),
    Object(Vec<(String, Json)>),
}

/// The mathematical form of a JSON value.
pub enum JsonView {
    Null,
    Bool(bool),
    Number(serde_json::Number),
    Str(Seq<char>),
    Array(Seq<JsonView>),
    Object(Seq<(Seq<char>, JsonView)>),
}

pub open spec fn json_view(v: Json) -> JsonView
    decreases v,
{
    match v {
        Json::Null => JsonView::Null,
        Json::Bool(b) => JsonView::Bool(b),
        Json::Number(n) => JsonView::Number(n),
        Json::Str(s) => JsonView::Str(s@),
        Json::Array(a) => JsonView::Array(
            Seq::new(
                a.len() as nat,
                |i: int|
                    if 0 <= i < a.len() {
                        json_view(a[i])
                    } else {
                        JsonView::Null
                    },
            ),
        ),
        Json::Object(o) => JsonView::Object(
            Seq::new(
                o.len() as nat,
                |i: int|
                    if 0 <= i < o.len() {
                        (o[i].0@, json_view(o[i].1))
                    } else {
                        (Seq::empty(), JsonView::Null)
                    },
            ),
        ),
    }
}

/// `v` with empty strings turned to null, then nulls dropped from arrays
/// and objects, all the way down; an array or object left empty is null.
pub open spec fn cleaned(v: JsonView) -> JsonView
    decreases v, 2int,
{
    match v {
        JsonView::Str(s) => if s.len() == 0 {
            JsonView::Null
        } else {
            JsonView::Str(s)
        },
        JsonView::Array(a) => {
            let kept = cleaned_items(a);
            if kept.len() == 0 {
                JsonView::Null
            } else {
                JsonView::Array(kept)
            }
        },
        JsonView::Object(o) => {
            let kept = cleaned_members(o);
            if kept.len() == 0 {
                JsonView::Null
            } else {
                JsonView::Object(kept)
            }
        },
        _ => v,
    }
}

/// The items that are not null, in order.
pub open spec fn drop_nulls(s: Seq<JsonView>) -> Seq<JsonView>
    decreases s.len(),
{
    if s.len() == 0 {
        s
    } else if s.last() is Null {
        drop_nulls(s.drop_last())
    } else {
        drop_nulls(s.drop_last()).push(s.last())
    }
}

/// The members whose value is not null, in order.
pub open spec fn drop_null_members(s: Seq<(Seq<char>, JsonView)>) -> Seq<(Seq<char>, JsonView)>
    decreases s.len(),
{
    if s.len() == 0 {
        s
    } else if s.last().1 is Null {
        drop_null_members(s.drop_last())
    } else {
        drop_null_members(s.drop_last()).push(s.last())
    }
}

/// Each item cleaned, those that end up null left out.
pub open spec fn cleaned_items(a: Seq<JsonView>) -> Seq<JsonView>
    decreases a, 1int,
{
    drop_nulls(cleaned_all(a))
}

/// Each item cleaned.
pub open spec fn cleaned_all(a: Seq<JsonView>) -> Seq<JsonView>
    decreases a, 0int,
{
    (Seq::new(
        a.len(),
        |i: int|
            if 0 <= i < a.len() {
                cleaned(a[i])
            } else {
                JsonView::Null
            },
    ))
}

/// Each member's value cleaned, those that end up null left out.
pub open spec fn cleaned_members(o: Seq<(Seq<char>, JsonView)>) -> Seq<(Seq<char>, JsonView)>
    decreases o, 1int,
{
    drop_null_members(cleaned_all_members(o))
}

/// Each member's value cleaned.
pub open spec fn cleaned_all_members(o: Seq<(Seq<char>, JsonView)>) -> Seq<(Seq<char>, JsonView)>
    decreases o, 0int,
{
    (Seq::new(
        o.len(),
        |i: int|
            if 0 <= i < o.len() {
                (o[i].0, cleaned(o[i].1))
            } else {
                (Seq::empty(), JsonView::Null)
            },
    ))
}

pub open spec fn item_views(a: Seq<Json>) -> Seq<JsonView> {
    Seq::new(a.len(), |i: int| json_view(a[i]))
}

pub open spec fn member_views(o: Seq<(String, Json)>) -> Seq<(Seq<char>, JsonView)> {
    Seq::new(o.len(), |i: int| (o[i].0@, json_view(o[i].1)))
}

proof fn lemma_array_view(a: Vec<Json>)
    ensures
        json_view(Json::Array(a)) == JsonView::Array(item_views(a@)),
{
    assert(json_view(Json::Array(a))->Array_0 =~= item_views(a@));
}

proof fn lemma_object_view(o: Vec<(String, Json)>)
    ensures
        json_view(Json::Object(o)) == JsonView::Object(member_views(o@)),
{
    assert(json_view(Json::Object(o))->Object_0 =~= member_views(o@));
}

fn clean_items(a: &Vec<Json>) -> (r: Vec<Json>)
    ensures
        item_views(r@) == cleaned_items(item_views(a@)),
    decreases a, 0int,
{
    let ghost av = item_views(a@);
    let ghost full = Seq::new(av.len(), |i: int| if 0 <= i < av.len() { cleaned(av[i]) } else { JsonView::Null });
    let mut out: Vec<Json> = Vec::new();
    let mut i: usize = 0;
    proof {
        assert(full.subrange(0, 0) =~= Seq::<JsonView>::empty());
        assert(item_views(out@) =~= Seq::<JsonView>::empty());
    }
    while i < a.len()
        invariant
            i <= a@.len(),
            av == item_views(a@),
            full == Seq::new(av.len(), |i: int| if 0 <= i < av.len() { cleaned(av[i]) } else { JsonView::Null }),
            item_views(out@) == drop_nulls(full.subrange(0, i as int)),
        decreases a@.len() - i,
    {
        proof {
            assert(decreases_to!(a => a@[i as int]));
        }
        let c = clean_empty_values(&a[i]);
        let ghost before = out@;
        let keep = match c {
            Json::Null => false,
            _ => true,
        };
        if keep {
            out.push(c);
        }
        proof {
            let pre = full.subrange(0, i as int);
            let post = full.subrange(0, i as int + 1);
            assert(post.drop_last() =~= pre);
            assert(post.last() == full[i as int]);
            assert(full[i as int] == json_view(c));
            if keep {
                assert(item_views(out@) =~= item_views(before).push(json_view(c)));
            } else {
                assert(item_views(out@) =~= item_views(before));
            }
        }
        i = i + 1;
    }
    proof {
        assert(full.subrange(0, i as int) =~= full);
        assert(cleaned_all(av) =~= full);
    }
    out
}

fn clean_members(o: &Vec<(String, Json)>) -> (r: Vec<(String, Json)>)
    ensures
        member_views(r@) == cleaned_members(member_views(o@)),
    decreases o, 0int,
{
    let ghost ov = member_views(o@);
    let ghost full = Seq::new(ov.len(), |i: int| if 0 <= i < ov.len() { (ov[i].0, cleaned(ov[i].1)) } else { (Seq::empty(), JsonView::Null) });
    let mut out: Vec<(String, Json)> = Vec::new();
    let mut i: usize = 0;
    proof {
        assert(full.subrange(0, 0) =~= Seq::<(Seq<char>, JsonView)>::empty());
        assert(member_views(out@) =~= Seq::<(Seq<char>, JsonView)>::empty());
    }
    while i < o.len()
        invariant
            i <= o@.len(),
            ov == member_views(o@),
            full == Seq::new(ov.len(), |i: int| if 0 <= i < ov.len() { (ov[i].0, cleaned(ov[i].1)) } else { (Seq::empty(), JsonView::Null) }),
            member_views(out@) == drop_null_members(full.subrange(0, i as int)),
        decreases o@.len() - i,
    {
        proof {
            assert(decreases_to!(o => o@[i as int]));
            assert(decreases_to!(o@[i as int] => o@[i as int].1));
        }
        let c = clean_empty_values(&o[i].1);
        let ghost before = out@;
        let keep = match c {
            Json::Null => false,
            _ => true,
        };
        if keep {
            out.push((o[i].0.clone(), c));
        }
        proof {
            let pre = full.subrange(0, i as int);
            let post = full.subrange(0, i as int + 1);
            assert(post.drop_last() =~= pre);
            assert(post.last() == full[i as int]);
            assert(full[i as int] == (o@[i as int].0@, json_view(c)));
            if keep {
                assert(member_views(out@) =~= member_views(before).push(full[i as int]));
            } else {
                assert(member_views(out@) =~= member_views(before));
            }
        }
        i = i + 1;
    }
    proof {
        assert(full.subrange(0, i as int) =~= full);
        assert(cleaned_all_members(ov) =~= full);
    }
    out
}

/// Recursively removes empty values: nulls, empty strings, and arrays and
/// objects that end up empty, which become null themselves.
pub fn clean_empty_values(value: &Json) -> (r: Json)
    ensures
        json_view(r) == cleaned(json_view(*value)),
        json_wf(json_view(*value)) ==> json_wf(json_view(r)),
    decreases value, 1int,
{
    proof {
        if json_wf(json_view(*value)) {
            lemma_cleaned_wf(json_view(*value));
        }
    }
    match value {
        Json::Null => Json::Null,
        Json::Bool(b) => Json::Bool(*b),
        Json::Number(n) => Json::Number(n.clone()),
        Json::Str(s) => {
            if s.as_str().unicode_len() == 0 {
                Json::Null
            } else {
                Json::Str(s.clone())
            }
        },
        Json::Array(a) => {
            let kept = clean_items(a);
            proof {
                lemma_array_view(*a);
            }
            if kept.len() == 0 {
                Json::Null
            } else {
                proof {
                    lemma_array_view(kept);
                }
                Json::Array(kept)
            }
        },
        Json::Object(o) => {
            let kept = clean_members(o);
            proof {
                lemma_object_view(*o);
            }
            if kept.len() == 0 {
                Json::Null
            } else {
                proof {
                    lemma_object_view(kept);
                }
                Json::Object(kept)
            }
        },
    }
}

/// The request body made from input data: the members of an object that
/// are not path parameters, each cleaned, those that end up null left
/// out; an empty object for input that is no object.
pub open spec fn request_body(v: JsonView, params: Seq<Seq<char>>) -> JsonView {
    match v {
        JsonView::Object(o) => JsonView::Object(
            drop_null_members(
                Seq::new(
                    o.len(),
                    |i: int|
                        (
                            o[i].0,
                            if params.contains(o[i].0) {
                                JsonView::Null
                            } else {
                                cleaned(o[i].1)
                            },
                        ),
                ),
            ),
        ),
        _ => JsonView::Object(Seq::empty()),
    }
}

pub open spec fn param_views(p: Seq<&str>) -> Seq<Seq<char>> {
    p.map_values(|s: &str| s@)
}

fn is_param(key: &str, params: &[&str]) -> (r: bool)
    ensures
        r == param_views(params@).contains(key@),
{
    let mut i: usize = 0;
    while i < params.len()
        invariant
            i <= params@.len(),
            forall|k: int| 0 <= k < i ==> param_views(params@)[k] != key@,
        decreases params@.len() - i,
    {
        if crate::text::compare(params[i], key) == 0 {
            assert(param_views(params@)[i as int] == key@);
            return true;
        }
        i = i + 1;
    }
    false
}

/// Builds a request body from input data: every member of the object but
/// the path parameters, with empty values removed recursively; members
/// that end up empty are left out.
pub fn request_body_without_empty_values(input_data: &Json, path_parameters: &[&str]) -> (r: Result<
    Json,
    crate::error::AppError,
>)
    ensures
        r matches Ok(b) && json_view(b) == request_body(json_view(*input_data), param_views(
            path_parameters@,
        )),
        json_wf(json_view(*input_data)) ==> (r matches Ok(b) && json_wf(json_view(b))),
{
    let ghost pv = param_views(path_parameters@);
    proof {
        if json_wf(json_view(*input_data)) {
            lemma_request_body_wf(json_view(*input_data), pv);
        }
    }
    match input_data {
        Json::Object(o) => {
            proof {
                lemma_object_view(*o);
            }
            let ghost ov = member_views(o@);
            let ghost full = Seq::new(ov.len(), |i: int| (ov[i].0, if pv.contains(ov[i].0) { JsonView::Null } else { cleaned(ov[i].1) }));
            let mut out: Vec<(String, Json)> = Vec::new();
            let mut i: usize = 0;
            proof {
                assert(full.subrange(0, 0) =~= Seq::<(Seq<char>, JsonView)>::empty());
                assert(member_views(out@) =~= Seq::<(Seq<char>, JsonView)>::empty());
            }
            while i < o.len()
                invariant
                    i <= o@.len(),
                    ov == member_views(o@),
                    pv == param_views(path_parameters@),
                    full == Seq::new(ov.len(), |i: int| (ov[i].0, if pv.contains(ov[i].0) { JsonView::Null } else { cleaned(ov[i].1) })),
                    member_views(out@) == drop_null_members(full.subrange(0, i as int)),
                decreases o@.len() - i,
            {
                let ghost before = out@;
                let ghost pre = full.subrange(0, i as int);
                let ghost post = full.subrange(0, i as int + 1);
                assert(post.drop_last() =~= pre);
                assert(post.last() == full[i as int]);
                if !is_param(o[i].0.as_str(), path_parameters) {
                    let c = clean_empty_values(&o[i].1);
                    let keep = match c {
                        Json::Null => false,
                        _ => true,
                    };
                    if keep {
                        out.push((o[i].0.clone(), c));
                        assert(member_views(out@) =~= member_views(before).push(full[i as int]));
                    } else {
                        assert(member_views(out@) =~= member_views(before));
                    }
                } else {
                    assert(member_views(out@) =~= member_views(before));
                }
                i = i + 1;
            }
            proof {
                assert(full.subrange(0, i as int) =~= full);
                lemma_object_view(out);
                assert(full =~= Seq::new(ov.len(), |i: int| (ov[i].0, if pv.contains(ov[i].0) { JsonView::Null } else { cleaned(ov[i].1) })));
            }
            Ok(Json::Object(out))
        },
        _ => {
            let out: Vec<(String, Json)> = Vec::new();
            proof {
                lemma_object_view(out);
                assert(member_views(out@) =~= Seq::<(Seq<char>, JsonView)>::empty());
            }
            Ok(Json::Object(out))
        },
    }
}

/// No two members share a key.
pub open spec fn member_keys_unique(o: Seq<(Seq<char>, JsonView)>) -> bool {
    forall|i: int, j: int| 0 <= i < j < o.len() ==> (#[trigger] o[i]).0 != (#[trigger] o[j]).0
}

/// A well-formed JSON value: the members of every object, at any depth,
/// have distinct keys.
pub open spec fn json_wf(v: JsonView) -> bool
    decreases v,
{
    match v {
        JsonView::Array(a) => forall|i: int| 0 <= i < a.len() ==> json_wf(#[trigger] a[i]),
        JsonView::Object(o) => member_keys_unique(o) && forall|i: int|
            0 <= i < o.len() ==> json_wf(#[trigger] o[i].1),
        _ => true,
    }
}

proof fn lemma_drop_nulls_from(s: Seq<JsonView>, x: JsonView)
    ensures
        drop_nulls(s).contains(x) ==> s.contains(x),
    decreases s.len(),
{
    if s.len() > 0 {
        let t = s.drop_last();
        lemma_drop_nulls_from(t, x);
        if drop_nulls(t).contains(x) {
            let i = choose|i: int| 0 <= i < t.len() && t[i] == x;
            assert(s[i] == x);
        }
        if x == s.last() {
            assert(s[s.len() - 1] == x);
        }
    }
}

proof fn lemma_drop_null_members_from(s: Seq<(Seq<char>, JsonView)>, x: (Seq<char>, JsonView))
    ensures
        drop_null_members(s).contains(x) ==> s.contains(x),
    decreases s.len(),
{
    if s.len() > 0 {
        let t = s.drop_last();
        lemma_drop_null_members_from(t, x);
        if drop_null_members(t).contains(x) {
            let i = choose|i: int| 0 <= i < t.len() && t[i] == x;
            assert(s[i] == x);
        }
        if x == s.last() {
            assert(s[s.len() - 1] == x);
        }
    }
}

proof fn lemma_drop_null_members_unique(s: Seq<(Seq<char>, JsonView)>)
    requires
        member_keys_unique(s),
    ensures
        member_keys_unique(drop_null_members(s)),
    decreases s.len(),
{
    if s.len() > 0 {
        let t = s.drop_last();
        assert(member_keys_unique(t)) by {
            assert forall|i: int, j: int| 0 <= i < j < t.len() implies (#[trigger] t[i]).0 != (#[trigger] t[j]).0 by {
                assert(t[i] == s[i] && t[j] == s[j]);
            }
        }
        lemma_drop_null_members_unique(t);
        let d = drop_null_members(t);
        if !(s.last().1 is Null) {
            let r = d.push(s.last());
            assert forall|i: int, j: int| 0 <= i < j < r.len() implies (#[trigger] r[i]).0 != (#[trigger] r[j]).0 by {
                if j == r.len() - 1 {
                    assert(d.contains(r[i]));
                    lemma_drop_null_members_from(t, r[i]);
                    let k = choose|k: int| 0 <= k < t.len() && t[k] == r[i];
                    assert(s[k] == t[k]);
                } else {
                    assert(r[i] == d[i] && r[j] == d[j]);
                }
            }
        }
    }
}

/// Cleaning keeps a value well formed.
pub proof fn lemma_cleaned_wf(v: JsonView)
    requires
        json_wf(v),
    ensures
        json_wf(cleaned(v)),
    decreases v,
{
    match v {
        JsonView::Array(a) => {
            let all = cleaned_all(a);
            let kept = drop_nulls(all);
            assert forall|i: int| 0 <= i < kept.len() implies json_wf(#[trigger] kept[i]) by {
                assert(kept.contains(kept[i]));
                lemma_drop_nulls_from(all, kept[i]);
                let k = choose|k: int| 0 <= k < all.len() && all[k] == kept[i];
                lemma_cleaned_wf(a[k]);
            }
        },
        JsonView::Object(o) => {
            let all = cleaned_all_members(o);
            let kept = drop_null_members(all);
            assert(member_keys_unique(all)) by {
                assert forall|i: int, j: int| 0 <= i < j < all.len() implies (#[trigger] all[i]).0 != (#[trigger] all[j]).0 by {
                    assert(all[i].0 == o[i].0 && all[j].0 == o[j].0);
                }
            }
            lemma_drop_null_members_unique(all);
            assert forall|i: int| 0 <= i < kept.len() implies json_wf(#[trigger] kept[i].1) by {
                assert(kept.contains(kept[i]));
                lemma_drop_null_members_from(all, kept[i]);
                let k = choose|k: int| 0 <= k < all.len() && all[k] == kept[i];
                lemma_cleaned_wf(o[k].1);
            }
        },
        _ => {},
    }
}

/// Building a request body keeps a value well formed.
pub proof fn lemma_request_body_wf(v: JsonView, params: Seq<Seq<char>>)
    requires
        json_wf(v),
    ensures
        json_wf(request_body(v, params)),
{
    if let JsonView::Object(o) = v {
        let all = Seq::new(
            o.len(),
            |i: int|
                (
                    o[i].0,
                    if params.contains(o[i].0) {
                        JsonView::Null
                    } else {
                        cleaned(o[i].1)
                    },
                ),
        );
        let kept = drop_null_members(all);
        assert(request_body(v, params) == JsonView::Object(kept));
        assert(member_keys_unique(all)) by {
            assert forall|i: int, j: int| 0 <= i < j < all.len() implies (#[trigger] all[i]).0 != (#[trigger] all[j]).0 by {
                assert(all[i].0 == o[i].0 && all[j].0 == o[j].0);
            }
        }
        lemma_drop_null_members_unique(all);
        assert forall|i: int| 0 <= i < kept.len() implies json_wf(#[trigger] kept[i].1) by {
            assert(kept.contains(kept[i]));
            lemma_drop_null_members_from(all, kept[i]);
            let k = choose|k: int| 0 <= k < all.len() && all[k] == kept[i];
            lemma_cleaned_wf(o[k].1);
        }
    } else {
        assert(request_body(v, params) == JsonView::Object(Seq::empty()));
    }
}

} // verus!
