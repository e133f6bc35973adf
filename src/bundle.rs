//! The schema bundle: every registered unit's schema text under the key
//! `{name}_input` or `{name}_output`, serialized once for embedding.
use vstd::prelude::*;
use crate::discovery::{all_entries_ok, registers, UnitDir};
use crate::error::BuildError;
use crate::text::compare;

verus! {

pub open spec fn input_suffix() -> Seq<char> {
    seq!['_', 'i', 'n', 'p', 'u', 't']
}

pub open spec fn output_suffix() -> Seq<char> {
    seq!['_', 'o', 'u', 't', 'p', 'u', 't']
}

pub open spec fn input_key(name: Seq<char>) -> Seq<char> {
    name + input_suffix()
}

pub open spec fn output_key(name: Seq<char>) -> Seq<char> {
    name + output_suffix()
}

/// The bundle entries that one directory entry contributes: one per schema
/// file present, and none when the entry does not register.
pub open spec fn unit_pairs(e: UnitDir) -> Seq<(Seq<char>, Seq<char>)> {
    if registers(e) {
        let n = e.name->Some_0@;
        let ins = match e.input_schema {
            Some(t) => seq![(input_key(n), t@)],
            None => Seq::empty(),
        };
        let outs = match e.output_schema {
            Some(t) => seq![(output_key(n), t@)],
            None => Seq::empty(),
        };
        ins + outs
    } else {
        Seq::empty()
    }
}

/// The bundle entries of a whole listing, in listing order.
pub open spec fn bundle_pairs(es: Seq<UnitDir>) -> Seq<(Seq<char>, Seq<char>)>
    decreases es.len(),
{
    if es.len() == 0 {
        Seq::empty()
    } else {
        bundle_pairs(es.drop_last()) + unit_pairs(es.last())
    }
}

/// The key-to-text mapping that a list of entries denotes, a later entry
/// taking the place of an earlier one under the same key.
pub open spec fn map_of(pairs: Seq<(Seq<char>, Seq<char>)>) -> Map<Seq<char>, Seq<char>>
    decreases pairs.len(),
{
    if pairs.len() == 0 {
        Map::empty()
    } else {
        map_of(pairs.drop_last()).insert(pairs.last().0, pairs.last().1)
    }
}

/// The JSON text of an object whose members are the map's keys and string
/// values.
pub uninterp spec fn json_object_text(m: Map<Seq<char>, Seq<char>>) -> Seq<char>;

pub open spec fn pair_views(v: Seq<(String, String)>) -> Seq<(Seq<char>, Seq<char>)> {
    v.map_values(|p: (String, String)| (p.0@, p.1@))
}

/// No two entries share a key.
pub open spec fn keys_unique(s: Seq<(Seq<char>, Seq<char>)>) -> bool {
    forall|i: int, j: int| 0 <= i < j < s.len() ==> (#[trigger] s[i]).0 != (#[trigger] s[j]).0
}

/// Relies on `serde_json::to_string` on a `BTreeMap<&String, &String>` of
/// the entries, whose keys are distinct: a map with string keys serializes
/// as one JSON object with its members in key order, written to a `Vec`,
/// which cannot fail, and the text depends on the mapping alone.
#[verifier::external_body]
fn serialize_string_map(pairs: &Vec<(String, String)>) -> (r: Result<String, serde_json::Error>)
    requires
        keys_unique(pair_views(pairs@)),
    ensures
        r is Ok,
        r matches Ok(s) ==> s@ == json_object_text(map_of(pair_views(pairs@))),
{
    let m: std::collections::BTreeMap<&String, &String> = pairs.iter().map(|p| (&p.0, &p.1)).collect();
    serde_json::to_string(&m)
}

/// Relies on `serde_json::from_str::<BTreeMap<String, String>>`: it reads
/// the text that `serde_json::to_string` wrote for a string map back into
/// that map, and a `BTreeMap`'s keys are distinct.
#[verifier::external_body]
fn parse_string_map(text: &str) -> (r: Result<Vec<(String, String)>, serde_json::Error>)
    ensures
        r matches Ok(v) ==> keys_unique(pair_views(v@)),
        r is Ok || !exists|m: Map<Seq<char>, Seq<char>>|
            m.dom().finite() && text@ == #[trigger] json_object_text(m),
        r matches Ok(v) ==> forall|m: Map<Seq<char>, Seq<char>>|
            m.dom().finite() && text@ == #[trigger] json_object_text(m) ==> map_of(pair_views(v@)) == m,
{
    serde_json::from_str::<std::collections::BTreeMap<String, String>>(text).map(|m| m.into_iter().collect())
}

/// The mapping of a list of entries is finite.
pub proof fn lemma_map_of_finite(s: Seq<(Seq<char>, Seq<char>)>)
    ensures
        map_of(s).dom().finite(),
    decreases s.len(),
{
    if s.len() > 0 {
        lemma_map_of_finite(s.drop_last());
    }
}

/// A key is in the mapping exactly when some entry carries it.
pub proof fn lemma_map_of_keys(s: Seq<(Seq<char>, Seq<char>)>, k: Seq<char>)
    ensures
        map_of(s).contains_key(k) <==> exists|i: int| 0 <= i < s.len() && (#[trigger] s[i]).0 == k,
    decreases s.len(),
{
    if s.len() > 0 {
        let t = s.drop_last();
        lemma_map_of_keys(t, k);
        if exists|i: int| 0 <= i < t.len() && (#[trigger] t[i]).0 == k {
            let i = choose|i: int| 0 <= i < t.len() && (#[trigger] t[i]).0 == k;
            assert(s[i] == t[i]);
        }
        if exists|i: int| 0 <= i < s.len() && (#[trigger] s[i]).0 == k {
            let i = choose|i: int| 0 <= i < s.len() && (#[trigger] s[i]).0 == k;
            if i < s.len() - 1 {
                assert(t[i] == s[i]);
            }
        }
    }
}

/// With distinct keys, each entry's text is what the mapping holds.
pub proof fn lemma_map_of_value(s: Seq<(Seq<char>, Seq<char>)>, i: int)
    requires
        keys_unique(s),
        0 <= i < s.len(),
    ensures
        map_of(s).contains_key(s[i].0),
        map_of(s)[s[i].0] == s[i].1,
    decreases s.len(),
{
    if i < s.len() - 1 {
        let t = s.drop_last();
        assert(t[i] == s[i]);
        assert(keys_unique(t)) by {
            assert forall|a: int, b: int| 0 <= a < b < t.len() implies (#[trigger] t[a]).0 != (#[trigger] t[b]).0 by {
                assert(t[a] == s[a] && t[b] == s[b]);
            }
        }
        lemma_map_of_value(t, i);
        assert(s[i].0 != s[s.len() - 1].0);
    }
}

fn find_key(out: &Vec<(String, String)>, k: &str) -> (r: Option<usize>)
    ensures
        r matches Some(j) ==> j < out@.len() && pair_views(out@)[j as int].0 == k@,
        r is None ==> forall|i: int| 0 <= i < out@.len() ==> (#[trigger] pair_views(out@)[i]).0 != k@,
{
    let mut j: usize = 0;
    while j < out.len()
        invariant
            j <= out@.len(),
            forall|i: int| 0 <= i < j ==> (#[trigger] pair_views(out@)[i]).0 != k@,
        decreases out@.len() - j,
    {
        if compare(out[j].0.as_str(), k) == 0 {
            return Some(j);
        }
        j = j + 1;
    }
    None
}

fn put_entry(out: &mut Vec<(String, String)>, k: String, v: String)
    requires
        keys_unique(pair_views(old(out)@)),
    ensures
        keys_unique(pair_views(final(out)@)),
        map_of(pair_views(final(out)@)) == map_of(pair_views(old(out)@)).insert(k@, v@),
{
    let ghost old_v = pair_views(out@);
    let ghost kv = k@;
    let ghost vv = v@;
    match find_key(out, k.as_str()) {
        Some(j) => {
            out.set(j, (k, v));
            proof {
                let nv = pair_views(out@);
                assert(nv =~= old_v.update(j as int, (kv, vv)));
                assert forall|a: int, b: int| 0 <= a < b < nv.len() implies (#[trigger] nv[a]).0 != (#[trigger] nv[b]).0 by {
                    if a != j && b != j {
                        assert(nv[a] == old_v[a] && nv[b] == old_v[b]);
                    } else if a == j {
                        assert(nv[b] == old_v[b]);
                        assert(old_v[a].0 != old_v[b].0);
                    } else {
                        assert(nv[a] == old_v[a]);
                        assert(old_v[a].0 != old_v[b].0);
                    }
                }
                let nm = map_of(old_v).insert(kv, vv);
                assert forall|key: Seq<char>| #[trigger] map_of(nv).contains_key(key) == nm.contains_key(key) by {
                    lemma_map_of_keys(nv, key);
                    lemma_map_of_keys(old_v, key);
                    if exists|i: int| 0 <= i < nv.len() && (#[trigger] nv[i]).0 == key {
                        let i = choose|i: int| 0 <= i < nv.len() && (#[trigger] nv[i]).0 == key;
                        if i != j {
                            assert(old_v[i] == nv[i]);
                        }
                    }
                    if exists|i: int| 0 <= i < old_v.len() && (#[trigger] old_v[i]).0 == key {
                        let i = choose|i: int| 0 <= i < old_v.len() && (#[trigger] old_v[i]).0 == key;
                        if i != j {
                            assert(old_v[i] == nv[i]);
                        } else {
                            assert(nv[j as int].0 == key);
                        }
                    }
                    if key == kv {
                        assert(nv[j as int].0 == key);
                    }
                }
                assert forall|key: Seq<char>| map_of(nv).contains_key(key) implies #[trigger] map_of(nv)[key] == nm[key] by {
                    lemma_map_of_keys(nv, key);
                    let i = choose|i: int| 0 <= i < nv.len() && (#[trigger] nv[i]).0 == key;
                    lemma_map_of_value(nv, i);
                    if i != j {
                        assert(old_v[i] == nv[i]);
                        lemma_map_of_value(old_v, i);
                    }
                }
                assert(map_of(nv) =~= nm);
            }
        },
        None => {
            out.push((k, v));
            proof {
                let nv = pair_views(out@);
                assert(nv =~= old_v.push((kv, vv)));
                assert(nv.drop_last() =~= old_v);
            }
        },
    }
}

/// Every schema text of a generation run, keyed by unit name and
/// direction.
pub struct SchemaBundle {
    entries: Vec<(String, String)>,
}

impl View for SchemaBundle {
    type V = Seq<(Seq<char>, Seq<char>)>;

    closed spec fn view(&self) -> Seq<(Seq<char>, Seq<char>)> {
        pair_views(self.entries@)
    }
}

fn push_unit(out: &mut Vec<(String, String)>, e: &UnitDir)
    requires
        registers(*e),
    ensures
        pair_views(final(out)@) == pair_views(old(out)@) + unit_pairs(*e),
{
    let name = e.name.as_ref().unwrap();
    proof {
        reveal_strlit("_input");
        reveal_strlit("_output");
        assert("_input"@ =~= input_suffix());
        assert("_output"@ =~= output_suffix());
    }
    let ghost before = pair_views(out@);
    if let Some(t) = &e.input_schema {
        out.push((name.clone().concat("_input"), t.clone()));
    }
    if let Some(t) = &e.output_schema {
        out.push((name.clone().concat("_output"), t.clone()));
    }
    assert(pair_views(out@) =~= before + unit_pairs(*e));
}

fn push_listing(out: &mut Vec<(String, String)>, entries: &Vec<UnitDir>) -> (ok: bool)
    ensures
        ok == all_entries_ok(entries@),
        ok ==> pair_views(final(out)@) == pair_views(old(out)@) + bundle_pairs(entries@),
{
    let ghost start = pair_views(out@);
    let mut i: usize = 0;
    assert(entries@.subrange(0, 0) =~= Seq::<UnitDir>::empty());
    assert(start + bundle_pairs(entries@.subrange(0, 0)) =~= start);
    while i < entries.len()
        invariant
            i <= entries@.len(),
            forall|k: int| 0 <= k < i ==> crate::discovery::entry_ok(#[trigger] entries@[k]),
            pair_views(out@) == start + bundle_pairs(entries@.subrange(0, i as int)),
        decreases entries@.len() - i,
    {
        let e = &entries[i];
        let ghost pre = entries@.subrange(0, i as int);
        assert(entries@.subrange(0, i as int + 1).drop_last() =~= pre);
        if e.is_dir {
            match &e.name {
                None => {
                    return false;
                },
                Some(name) => {
                    if e.has_impl && !crate::discovery::is_valid_identifier(name.as_str()) {
                        return false;
                    }
                },
            }
        }
        if e.is_dir && e.has_impl {
            push_unit(out, e);
        } else {
            assert(unit_pairs(*e) =~= Seq::<(Seq<char>, Seq<char>)>::empty());
        }
        assert(pair_views(out@) =~= start + bundle_pairs(entries@.subrange(0, i as int + 1)));
        i = i + 1;
    }
    assert(entries@.subrange(0, i as int) =~= entries@);
    true
}

/// Collects the schema texts of both kinds' listings into one bundle: for
/// each registered unit, one entry per schema file present. Fails with
/// `InvalidName` where discovery of either listing fails.
pub fn collect_schema_files(actions: &Vec<UnitDir>, triggers: &Vec<UnitDir>) -> (r: Result<
    SchemaBundle,
    BuildError,
>)
    ensures
        r is Ok <==> all_entries_ok(actions@) && all_entries_ok(triggers@),
        r matches Err(e) ==> e is InvalidName,
        r matches Ok(b) ==> b.wf() && map_of(b@) == map_of(bundle_pairs(actions@) + bundle_pairs(
            triggers@,
        )),
{
    let mut raw: Vec<(String, String)> = Vec::new();
    if !push_listing(&mut raw, actions) {
        return Err(BuildError::InvalidName(String::new()));
    }
    if !push_listing(&mut raw, triggers) {
        return Err(BuildError::InvalidName(String::new()));
    }
    let ghost rv = pair_views(raw@);
    assert(rv =~= bundle_pairs(actions@) + bundle_pairs(triggers@));
    let mut entries: Vec<(String, String)> = Vec::new();
    let mut i: usize = 0;
    assert(rv.subrange(0, 0) =~= Seq::<(Seq<char>, Seq<char>)>::empty());
    assert(pair_views(entries@) =~= Seq::<(Seq<char>, Seq<char>)>::empty());
    while i < raw.len()
        invariant
            rv == pair_views(raw@),
            i <= raw@.len(),
            keys_unique(pair_views(entries@)),
            map_of(pair_views(entries@)) == map_of(rv.subrange(0, i as int)),
        decreases raw@.len() - i,
    {
        assert(rv.subrange(0, i as int + 1).drop_last() =~= rv.subrange(0, i as int));
        put_entry(&mut entries, raw[i].0.clone(), raw[i].1.clone());
        i = i + 1;
    }
    assert(rv.subrange(0, i as int) =~= rv);
    Ok(SchemaBundle { entries })
}

impl SchemaBundle {
    /// No two entries share a key.
    pub closed spec fn wf(&self) -> bool {
        keys_unique(self@)
    }

    /// Rebuilds a bundle from its JSON text, as embedded at generation time.
    /// Text that `to_json` wrote for a bundle gives back that bundle's
    /// mapping; text that is no JSON object of strings is a `Json` error.
    pub fn from_json(text: &str) -> (r: Result<SchemaBundle, BuildError>)
        ensures
            r matches Ok(b) ==> b.wf(),
            r matches Err(e) ==> e is Json,
            forall|m: Map<Seq<char>, Seq<char>>|
                m.dom().finite() && text@ == #[trigger] json_object_text(m) ==> (r matches Ok(b)
                    && map_of(b@) == m),
    {
        match parse_string_map(text) {
            Ok(entries) => Ok(SchemaBundle { entries }),
            Err(e) => Err(BuildError::Json(e)),
        }
    }

    /// The number of entries, one per key.
    pub fn len(&self) -> (r: usize)
        ensures
            r == self@.len(),
    {
        self.entries.len()
    }

    /// The text stored under `key`, if any; where two entries share the
    /// key, the later one.
    pub fn get(&self, key: &str) -> (r: Option<&String>)
        ensures
            r matches Some(s) ==> map_of(self@).contains_key(key@) && map_of(self@)[key@] == s@,
            r is None ==> !map_of(self@).contains_key(key@),
    {
        let mut i: usize = self.entries.len();
        assert(self@.subrange(0, i as int) =~= self@);
        while i > 0
            invariant
                i <= self@.len(),
                self@.len() == self.entries@.len(),
                map_of(self@).contains_key(key@) == map_of(self@.subrange(0, i as int)).contains_key(key@),
                map_of(self@)[key@] == map_of(self@.subrange(0, i as int))[key@],
            decreases i,
        {
            let ghost pre = self@.subrange(0, i as int);
            assert(pre.drop_last() =~= self@.subrange(0, i as int - 1));
            if compare(self.entries[i - 1].0.as_str(), key) == 0 {
                return Some(&self.entries[i - 1].1);
            }
            i = i - 1;
        }
        assert(self@.subrange(0, 0) =~= Seq::<(Seq<char>, Seq<char>)>::empty());
        None
    }

    /// The bundle as one JSON object from key to text. A serialization
    /// failure is a `Json` error.
    pub fn to_json(&self) -> (r: Result<String, BuildError>)
        requires
            self.wf(),
        ensures
            r is Ok,
            map_of(self@).dom().finite(),
            r matches Ok(s) ==> s@ == json_object_text(map_of(self@)),
            r matches Err(e) ==> e is Json,
    {
        proof {
            lemma_map_of_finite(self@);
        }
        match serialize_string_map(&self.entries) {
            Ok(s) => Ok(s),
            Err(e) => Err(BuildError::Json(e)),
        }
    }
}

/// No two registered entries of the listing share a name.
pub open spec fn registered_names_unique(es: Seq<UnitDir>) -> bool {
    forall|i: int, j: int|
        0 <= i < j < es.len() && registers(#[trigger] es[i]) && registers(#[trigger] es[j])
            ==> es[i].name->Some_0@ != es[j].name->Some_0@
}

proof fn lemma_keys_distinct(a: Seq<char>, b: Seq<char>)
    ensures
        input_key(a) == input_key(b) ==> a == b,
        output_key(a) == output_key(b) ==> a == b,
        input_key(a) != output_key(b),
{
    let x = input_key(a);
    let y = output_key(b);
    assert(x[x.len() - 4] == 'n');
    assert(y[y.len() - 4] == 't');
    if input_key(a) == input_key(b) {
        assert(a =~= input_key(a).subrange(0, a.len() as int));
        assert(b =~= input_key(b).subrange(0, b.len() as int));
    }
    if output_key(a) == output_key(b) {
        assert(a =~= output_key(a).subrange(0, a.len() as int));
        assert(b =~= output_key(b).subrange(0, b.len() as int));
    }
}

proof fn lemma_map_of_concat(a: Seq<(Seq<char>, Seq<char>)>, b: Seq<(Seq<char>, Seq<char>)>, k: Seq<char>)
    ensures
        map_of(a + b).contains_key(k) == (map_of(a).contains_key(k) || map_of(b).contains_key(k)),
        map_of(b).contains_key(k) ==> map_of(a + b)[k] == map_of(b)[k],
        !map_of(b).contains_key(k) ==> map_of(a + b)[k] == map_of(a)[k],
    decreases b.len(),
{
    if b.len() == 0 {
        assert(a + b =~= a);
    } else {
        assert((a + b).drop_last() =~= a + b.drop_last());
        lemma_map_of_concat(a, b.drop_last(), k);
    }
}

proof fn lemma_unit_map(e: UnitDir, k: Seq<char>)
    requires
        registers(e),
    ensures
        ({
            let n = e.name->Some_0@;
            let m = map_of(unit_pairs(e));
            &&& m.contains_key(k) <==> ((k == input_key(n) && e.input_schema is Some) || (k
                == output_key(n) && e.output_schema is Some))
            &&& (k == input_key(n) && e.input_schema is Some) ==> m[k] == e.input_schema->Some_0@
            &&& (k == output_key(n) && e.output_schema is Some) ==> m[k] == e.output_schema->Some_0@
        }),
{
    let n = e.name->Some_0@;
    lemma_keys_distinct(n, n);
    let u = unit_pairs(e);
    let e0 = Seq::<(Seq<char>, Seq<char>)>::empty();
    reveal_with_fuel(map_of, 3);
    match (e.input_schema, e.output_schema) {
        (Some(a), Some(b)) => {
            assert(u =~= seq![(input_key(n), a@), (output_key(n), b@)]);
            assert(u.drop_last() =~= seq![(input_key(n), a@)]);
            assert(u.drop_last().drop_last() =~= e0);
        },
        (Some(a), None) => {
            assert(u =~= seq![(input_key(n), a@)]);
            assert(u.drop_last() =~= e0);
        },
        (None, Some(b)) => {
            assert(u =~= seq![(output_key(n), b@)]);
            assert(u.drop_last() =~= e0);
        },
        (None, None) => {
            assert(u =~= e0);
        },
    }
}

/// Schema bundle completeness: for each registered unit of a listing whose
/// registered names are unique, the bundle holds `{name}_input` exactly when
/// the unit has an input schema file, with that file's text, and likewise
/// `{name}_output`.
pub proof fn lemma_bundle_complete(es: Seq<UnitDir>, i: int)
    requires
        registered_names_unique(es),
        0 <= i < es.len(),
        registers(es[i]),
    ensures
        ({
            let n = es[i].name->Some_0@;
            let m = map_of(bundle_pairs(es));
            &&& m.contains_key(input_key(n)) <==> es[i].input_schema is Some
            &&& m.contains_key(output_key(n)) <==> es[i].output_schema is Some
            &&& es[i].input_schema matches Some(t) ==> m[input_key(n)] == t@
            &&& es[i].output_schema matches Some(t) ==> m[output_key(n)] == t@
        }),
    decreases es.len(),
{
    let n = es[i].name->Some_0@;
    let pre = es.drop_last();
    let last = es.last();
    lemma_map_of_concat(bundle_pairs(pre), unit_pairs(last), input_key(n));
    lemma_map_of_concat(bundle_pairs(pre), unit_pairs(last), output_key(n));
    if i == es.len() - 1 {
        lemma_unit_map(last, input_key(n));
        lemma_unit_map(last, output_key(n));
        lemma_keys_distinct(n, n);
        lemma_bundle_keys_registered(pre, input_key(n), n);
        lemma_bundle_keys_registered(pre, output_key(n), n);
        if map_of(bundle_pairs(pre)).contains_key(input_key(n)) {
            let j = choose|j: int| 0 <= j < pre.len() && registers(#[trigger] pre[j]) && (input_key(n)
                == input_key(pre[j].name->Some_0@) || input_key(n) == output_key(pre[j].name->Some_0@));
            lemma_keys_distinct(n, pre[j].name->Some_0@);
            assert(es[j] == pre[j]);
        }
        if map_of(bundle_pairs(pre)).contains_key(output_key(n)) {
            let j = choose|j: int| 0 <= j < pre.len() && registers(#[trigger] pre[j]) && (output_key(n)
                == input_key(pre[j].name->Some_0@) || output_key(n) == output_key(pre[j].name->Some_0@));
            lemma_keys_distinct(n, pre[j].name->Some_0@);
            lemma_keys_distinct(pre[j].name->Some_0@, n);
            assert(es[j] == pre[j]);
        }
    } else {
        assert(pre[i] == es[i]);
        assert(registered_names_unique(pre)) by {
            assert forall|a: int, b: int|
                0 <= a < b < pre.len() && registers(#[trigger] pre[a]) && registers(#[trigger] pre[b])
                implies pre[a].name->Some_0@ != pre[b].name->Some_0@ by {
                assert(pre[a] == es[a] && pre[b] == es[b]);
            }
        }
        lemma_bundle_complete(pre, i);
        if registers(last) {
            let ln = last.name->Some_0@;
            assert(ln != n);
            lemma_keys_distinct(n, ln);
            lemma_keys_distinct(ln, n);
            lemma_unit_map(last, input_key(n));
            lemma_unit_map(last, output_key(n));
        } else {
            assert(unit_pairs(last) =~= Seq::<(Seq<char>, Seq<char>)>::empty());
        }
    }
}

/// Every key of the bundle belongs to a registered unit: it is
/// `{name}_input` or `{name}_output` for the name of an entry that
/// registers.
pub proof fn lemma_bundle_keys_registered(es: Seq<UnitDir>, k: Seq<char>, n: Seq<char>)
    ensures
        map_of(bundle_pairs(es)).contains_key(k) ==> exists|j: int|
            0 <= j < es.len() && registers(#[trigger] es[j]) && (k == input_key(es[j].name->Some_0@)
                || k == output_key(es[j].name->Some_0@)),
    decreases es.len(),
{
    if es.len() > 0 {
        let pre = es.drop_last();
        let last = es.last();
        lemma_map_of_concat(bundle_pairs(pre), unit_pairs(last), k);
        lemma_bundle_keys_registered(pre, k, n);
        if map_of(bundle_pairs(pre)).contains_key(k) {
            let j = choose|j: int| 0 <= j < pre.len() && registers(#[trigger] pre[j]) && (k
                == input_key(pre[j].name->Some_0@) || k == output_key(pre[j].name->Some_0@));
            assert(es[j] == pre[j]);
        }
        if registers(last) {
            lemma_unit_map(last, k);
            assert(es[es.len() - 1] == last);
        } else {
            assert(unit_pairs(last) =~= Seq::<(Seq<char>, Seq<char>)>::empty());
        }
    }
}

/// No registered action shares its name with a registered trigger.
pub open spec fn kinds_disjoint(actions: Seq<UnitDir>, triggers: Seq<UnitDir>) -> bool {
    forall|i: int, j: int|
        0 <= i < actions.len() && 0 <= j < triggers.len() && registers(#[trigger] actions[i])
            && registers(#[trigger] triggers[j]) ==> actions[i].name->Some_0@ != triggers[j].name->Some_0@
}

/// Schema bundle completeness for the bundle of both kinds: where names are
/// unique within each kind and no action shares a name with a trigger,
/// each registered unit `u` of either listing has `{name}_input` in the
/// collected bundle exactly when it has an input schema file, with that
/// file's text, and likewise `{name}_output`.
pub proof fn lemma_collected_bundle_complete(actions: Seq<UnitDir>, triggers: Seq<UnitDir>, u: UnitDir)
    requires
        registered_names_unique(actions),
        registered_names_unique(triggers),
        kinds_disjoint(actions, triggers),
        actions.contains(u) || triggers.contains(u),
        registers(u),
    ensures
        ({
            let n = u.name->Some_0@;
            let m = map_of(bundle_pairs(actions) + bundle_pairs(triggers));
            &&& m.contains_key(input_key(n)) <==> u.input_schema is Some
            &&& m.contains_key(output_key(n)) <==> u.output_schema is Some
            &&& u.input_schema matches Some(t) ==> m[input_key(n)] == t@
            &&& u.output_schema matches Some(t) ==> m[output_key(n)] == t@
        }),
{
    let n = u.name->Some_0@;
    let ba = bundle_pairs(actions);
    let bt = bundle_pairs(triggers);
    lemma_map_of_concat(ba, bt, input_key(n));
    lemma_map_of_concat(ba, bt, output_key(n));
    if actions.contains(u) {
        let i = choose|i: int| 0 <= i < actions.len() && actions[i] == u;
        lemma_bundle_complete(actions, i);
        lemma_bundle_keys_registered(triggers, input_key(n), n);
        lemma_bundle_keys_registered(triggers, output_key(n), n);
        if map_of(bt).contains_key(input_key(n)) {
            let j = choose|j: int| 0 <= j < triggers.len() && registers(#[trigger] triggers[j]) && (input_key(n)
                == input_key(triggers[j].name->Some_0@) || input_key(n) == output_key(triggers[j].name->Some_0@));
            lemma_keys_distinct(n, triggers[j].name->Some_0@);
        }
        if map_of(bt).contains_key(output_key(n)) {
            let j = choose|j: int| 0 <= j < triggers.len() && registers(#[trigger] triggers[j]) && (output_key(n)
                == input_key(triggers[j].name->Some_0@) || output_key(n) == output_key(triggers[j].name->Some_0@));
            lemma_keys_distinct(n, triggers[j].name->Some_0@);
            lemma_keys_distinct(triggers[j].name->Some_0@, n);
        }
    } else {
        let j = choose|j: int| 0 <= j < triggers.len() && triggers[j] == u;
        lemma_bundle_complete(triggers, j);
        lemma_bundle_keys_registered(actions, input_key(n), n);
        lemma_bundle_keys_registered(actions, output_key(n), n);
        if map_of(ba).contains_key(input_key(n)) {
            let i = choose|i: int| 0 <= i < actions.len() && registers(#[trigger] actions[i]) && (input_key(n)
                == input_key(actions[i].name->Some_0@) || input_key(n) == output_key(actions[i].name->Some_0@));
            lemma_keys_distinct(n, actions[i].name->Some_0@);
        }
        if map_of(ba).contains_key(output_key(n)) {
            let i = choose|i: int| 0 <= i < actions.len() && registers(#[trigger] actions[i]) && (output_key(n)
                == input_key(actions[i].name->Some_0@) || output_key(n) == output_key(actions[i].name->Some_0@));
            lemma_keys_distinct(n, actions[i].name->Some_0@);
            lemma_keys_distinct(actions[i].name->Some_0@, n);
        }
    }
}

} // verus!
