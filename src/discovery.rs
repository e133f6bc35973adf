//! Discovery of handler units from a listing of one kind's root directory.
use vstd::prelude::*;
use crate::error::BuildError;
use crate::text::{chars_of, compare, lemma_lex_transitive, lemma_sorted_unique, lex_lt, strictly_sorted, views_of};

verus! {

/// The two categories of handler unit.
#[derive(Debug, Clone, Copy, PartialEq, Eq, Structural)]
pub enum HandlerKind {
    Action,
    Trigger,
}

impl HandlerKind {
    /// The file whose presence registers a unit of this kind.
    pub fn implementation_file(&self) -> (r: &'static str)
        ensures
            *self == HandlerKind::Action ==> r@ == "action.rs"@,
            *self == HandlerKind::Trigger ==> r@ == "fetch_events.rs"@,
    {
        proof {
            reveal_strlit("action.rs");
            reveal_strlit("fetch_events.rs");
        }
        match self {
            HandlerKind::Action => "action.rs",
            HandlerKind::Trigger => "fetch_events.rs",
        }
    }

    /// The file that holds a unit's input schema.
    pub fn input_schema_file(&self) -> (r: &'static str)
        ensures
            *self == HandlerKind::Action ==> r@ == "base_input_schema.json"@,
            *self == HandlerKind::Trigger ==> r@ == "input_schema.json"@,
    {
        proof {
            reveal_strlit("base_input_schema.json");
            reveal_strlit("input_schema.json");
        }
        match self {
            HandlerKind::Action => "base_input_schema.json",
            HandlerKind::Trigger => "input_schema.json",
        }
    }

    /// The file that holds a unit's output schema.
    pub fn output_schema_file(&self) -> (r: &'static str)
        ensures
            *self == HandlerKind::Action ==> r@ == "base_output_schema.json"@,
            *self == HandlerKind::Trigger ==> r@ == "output_schema.json"@,
    {
        proof {
            reveal_strlit("base_output_schema.json");
            reveal_strlit("output_schema.json");
        }
        match self {
            HandlerKind::Action => "base_output_schema.json",
            HandlerKind::Trigger => "output_schema.json",
        }
    }
}

/// One entry of a kind's root directory, as read from disk.
#[derive(Debug, Clone)]
pub struct UnitDir {
    /// The entry's base name, or `None` when it cannot be decoded as text.
    pub name: Option<String>,
    /// The entry is a directory.
    pub is_dir: bool,
    /// The directory holds the kind's implementation file.
    pub has_impl: bool,
    /// Raw text of the input schema file, when it exists.
    pub input_schema: Option<String>,
    /// Raw text of the output schema file, when it exists.
    pub output_schema: Option<String>,
}

pub open spec fn is_ident_start(c: char) -> bool {
    let k = c as u32;
    (65 <= k <= 90) || (97 <= k <= 122) || k == 95
}

pub open spec fn is_ident_continue(c: char) -> bool {
    is_ident_start(c) || (48 <= c as u32 <= 57)
}

/// An ASCII identifier: a letter or underscore, then letters, digits and
/// underscores, and not the lone underscore.
pub open spec fn valid_identifier(s: Seq<char>) -> bool {
    &&& s.len() > 0
    &&& is_ident_start(s[0])
    &&& forall|i: int| 0 <= i < s.len() ==> is_ident_continue(#[trigger] s[i])
    &&& s != seq!['_']
}

/// The entry would be registered as a unit.
pub open spec fn registers(e: UnitDir) -> bool {
    e.is_dir && e.has_impl && e.name is Some
}

/// The entry does not make discovery fail: it is no directory, or its name
/// is text and, when it registers, a valid identifier.
pub open spec fn entry_ok(e: UnitDir) -> bool {
    e.is_dir ==> (e.name is Some && (e.has_impl ==> valid_identifier(e.name->Some_0@)))
}

pub open spec fn all_entries_ok(es: Seq<UnitDir>) -> bool {
    forall|i: int| 0 <= i < es.len() ==> entry_ok(#[trigger] es[i])
}

/// `n` is the name of a unit that the listing registers.
pub open spec fn is_registered_name(es: Seq<UnitDir>, n: Seq<char>) -> bool {
    exists|i: int| 0 <= i < es.len() && registers(#[trigger] es[i]) && es[i].name->Some_0@ == n
}

/// `t` is the routing table of the listing: its registered names, each
/// once, in strictly increasing order.
pub open spec fn is_table_of(es: Seq<UnitDir>, t: Seq<Seq<char>>) -> bool {
    &&& strictly_sorted(t)
    &&& forall|n: Seq<char>| t.contains(n) <==> is_registered_name(es, n)
}

pub(crate) fn is_valid_identifier(s: &str) -> (r: bool)
    ensures
        r == valid_identifier(s@),
{
    let cs = chars_of(s);
    let n = cs.len();
    if n == 0 {
        return false;
    }
    let c0 = cs[0] as u32;
    if !((65 <= c0 && c0 <= 90) || (97 <= c0 && c0 <= 122) || c0 == 95) {
        return false;
    }
    let mut i: usize = 0;
    while i < n
        invariant
            cs@ == s@,
            n == s@.len(),
            i <= n,
            forall|j: int| 0 <= j < i ==> is_ident_continue(#[trigger] s@[j]),
        decreases n - i,
    {
        let c = cs[i] as u32;
        if !((65 <= c && c <= 90) || (97 <= c && c <= 122) || c == 95 || (48 <= c && c <= 57)) {
            assert(!is_ident_continue(s@[i as int]));
            return false;
        }
        i = i + 1;
    }
    if n == 1 && cs[0] == '_' {
        assert(s@ =~= seq!['_']);
        return false;
    }
    proof {
        if s@ == seq!['_'] {
            assert(s@.len() == 1);
        }
    }
    true
}

/// Adds `s` to a strictly sorted vector of names, keeping it strictly
/// sorted; a name already present is not added twice.
pub fn insert_sorted(v: &mut Vec<String>, s: String)
    requires
        strictly_sorted(views_of(old(v)@)),
    ensures
        strictly_sorted(views_of(final(v)@)),
        forall|n: Seq<char>|
            views_of(final(v)@).contains(n) <==> (views_of(old(v)@).contains(n) || n == s@),
{
    let ghost old_views = views_of(v@);
    let mut j: usize = 0;
    let mut stop = false;
    while j < v.len() && !stop
        invariant
            views_of(v@) == old_views,
            strictly_sorted(old_views),
            j <= v@.len(),
            stop ==> j < v@.len() && lex_lt(s@, old_views[j as int]),
            forall|k: int| 0 <= k < j ==> lex_lt(#[trigger] old_views[k], s@),
        decreases v@.len() - j + (if stop { 0int } else { 1int }),
    {
        let c = compare(v[j].as_str(), s.as_str());
        if c == 0 {
            proof {
                assert(old_views[j as int] == s@);
                assert forall|n: Seq<char>| old_views.contains(n) || n == s@ implies old_views.contains(n) by {
                    if n == s@ {
                        assert(old_views[j as int] == n);
                    }
                }
            }
            return;
        }
        if c > 0 {
            stop = true;
        } else {
            j = j + 1;
        }
    }
    v.insert(j, s);
    proof {
        let nv = views_of(v@);
        assert(nv =~= old_views.insert(j as int, s@));
        assert forall|b: int| j < b < nv.len() implies lex_lt(s@, #[trigger] nv[b]) by {
            if b > j + 1 {
                lemma_lex_transitive(s@, old_views[j as int], old_views[b - 1]);
            }
        }
        assert forall|a: int, b: int| 0 <= a < b < nv.len() implies lex_lt(#[trigger] nv[a], #[trigger] nv[b]) by {
            if b == j {
            } else if a == j {
            } else if a < j && b > j {
                lemma_lex_transitive(old_views[a], s@, nv[b]);
            }
        }
        assert forall|n: Seq<char>| nv.contains(n) <==> (old_views.contains(n) || n == s@) by {
            if nv.contains(n) {
                let k = choose|k: int| 0 <= k < nv.len() && nv[k] == n;
                if k < j {
                    assert(old_views[k] == n);
                } else if k > j {
                    assert(old_views[k - 1] == n);
                }
            }
            if old_views.contains(n) {
                let k = choose|k: int| 0 <= k < old_views.len() && old_views[k] == n;
                if k < j {
                    assert(nv[k] == n);
                } else {
                    assert(nv[k + 1] == n);
                }
            }
            if n == s@ {
                assert(nv[j as int] == n);
            }
        }
    }
}

/// Discovers the units of one kind's root directory: the names of the
/// directories that hold the implementation file, sorted and without
/// repetition. Fails with `InvalidName` when a directory's name is not
/// text, or a registered unit's name is not a valid identifier.
pub fn discover(entries: &Vec<UnitDir>) -> (r: Result<Vec<String>, BuildError>)
    ensures
        r is Ok <==> all_entries_ok(entries@),
        r matches Err(e) ==> e is InvalidName,
        r matches Ok(t) ==> is_table_of(entries@, views_of(t@)),
{
    let mut table: Vec<String> = Vec::new();
    let mut i: usize = 0;
    while i < entries.len()
        invariant
            i <= entries@.len(),
            forall|k: int| 0 <= k < i ==> entry_ok(#[trigger] entries@[k]),
            strictly_sorted(views_of(table@)),
            forall|n: Seq<char>|
                views_of(table@).contains(n) <==> is_registered_name(entries@.subrange(0, i as int), n),
        decreases entries@.len() - i,
    {
        let e = &entries[i];
        let ghost pre = entries@.subrange(0, i as int);
        let ghost post = entries@.subrange(0, i as int + 1);
        assert(post =~= pre.push(entries@[i as int]));
        if e.is_dir {
            match &e.name {
                None => {
                    return Err(BuildError::InvalidName(String::new()));
                },
                Some(name) => {
                    if e.has_impl {
                        if !is_valid_identifier(name.as_str()) {
                            return Err(BuildError::InvalidName(name.clone()));
                        }
                        insert_sorted(&mut table, name.clone());
                    }
                },
            }
        }
        assert forall|n: Seq<char>|
            views_of(table@).contains(n) <==> is_registered_name(post, n) by {
            if is_registered_name(pre, n) {
                let k = choose|k: int| 0 <= k < pre.len() && registers(#[trigger] pre[k]) && pre[k].name->Some_0@ == n;
                assert(post[k] == pre[k]);
            }
            if is_registered_name(post, n) {
                let k = choose|k: int| 0 <= k < post.len() && registers(#[trigger] post[k]) && post[k].name->Some_0@ == n;
                if k < i {
                    assert(pre[k] == post[k]);
                }
            }
            if registers(post[i as int]) && n == post[i as int].name->Some_0@ {
                assert(is_registered_name(post, n));
            }
        }
        i = i + 1;
    }
    assert(entries@.subrange(0, i as int) =~= entries@);
    Ok(table)
}

} // verus!

verus! {

/// Discovery is deterministic: two listings that register the same names,
/// in whatever order the filesystem enumerates them, give the same table.
pub proof fn lemma_discovery_deterministic(
    e1: Seq<UnitDir>,
    e2: Seq<UnitDir>,
    t1: Seq<Seq<char>>,
    t2: Seq<Seq<char>>,
)
    requires
        is_table_of(e1, t1),
        is_table_of(e2, t2),
        forall|n: Seq<char>| is_registered_name(e1, n) <==> is_registered_name(e2, n),
    ensures
        t1 == t2,
{
    lemma_sorted_unique(t1, t2);
}

/// Every table is strictly increasing by name.
pub proof fn lemma_table_sorted(es: Seq<UnitDir>, t: Seq<Seq<char>>, i: int, j: int)
    requires
        is_table_of(es, t),
        0 <= i < j < t.len(),
    ensures
        lex_lt(t[i], t[j]),
{
}

/// A directory without the implementation file is never in the table,
/// whatever schema files it holds, unless another entry of the same name
/// registers.
pub proof fn lemma_unregistered_absent(es: Seq<UnitDir>, t: Seq<Seq<char>>, i: int)
    requires
        is_table_of(es, t),
        0 <= i < es.len(),
        !es[i].has_impl,
        es[i].name is Some,
        forall|j: int|
            0 <= j < es.len() && j != i && (#[trigger] es[j]).name is Some ==> es[j].name->Some_0@
                != es[i].name->Some_0@,
    ensures
        !t.contains(es[i].name->Some_0@),
{
    let n = es[i].name->Some_0@;
    if t.contains(n) {
        let j = choose|j: int| 0 <= j < es.len() && registers(#[trigger] es[j]) && es[j].name->Some_0@ == n;
        assert(j != i);
    }
}

} // verus!
