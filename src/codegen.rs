//! Generation of aggregation and routing source from a routing table and
//! a template. A template carries placeholders; each is replaced by one
//! snippet per unit, in table order, where `{NAME}` in the snippet stands
//! for the unit's name.
use vstd::prelude::*;
use crate::discovery::HandlerKind;
use crate::dispatch::RoutingTable;
use crate::error::BuildError;
use crate::text::{occurs_in, replace_all, replace_all_exec, views_of};

verus! {

/// The marker that stands for a unit's name inside a snippet.
pub open spec fn name_marker() -> Seq<char> {
    seq!['{', 'N', 'A', 'M', 'E', '}']
}

/// One copy of `snippet` per name, in order, each with the name marker
/// replaced by that name.
pub open spec fn expand_units(names: Seq<Seq<char>>, snippet: Seq<char>) -> Seq<char>
    decreases names.len(),
{
    if names.len() == 0 {
        Seq::empty()
    } else {
        expand_units(names.drop_last(), snippet) + replace_all(snippet, name_marker(), names.last())
    }
}

/// The character views of a list of (placeholder, snippet) pairs.
pub open spec fn section_views(s: Seq<(String, String)>) -> Seq<(Seq<char>, Seq<char>)> {
    s.map_values(|p: (String, String)| (p.0@, p.1@))
}

/// The text generated from `template`: each section's placeholder, in
/// turn, replaced by the section's snippet expanded over `names`; `None`
/// when a placeholder is missing at its turn.
pub open spec fn render(
    template: Seq<char>,
    names: Seq<Seq<char>>,
    sections: Seq<(Seq<char>, Seq<char>)>,
) -> Option<Seq<char>>
    decreases sections.len(),
{
    if sections.len() == 0 {
        Some(template)
    } else {
        match render(template, names, sections.drop_last()) {
            None => None,
            Some(u) => {
                let (p, snippet) = sections.last();
                if occurs_in(u, p) {
                    Some(replace_all(u, p, expand_units(names, snippet)))
                } else {
                    None
                }
            },
        }
    }
}

pub open spec fn placeholders_nonempty(sections: Seq<(Seq<char>, Seq<char>)>) -> bool {
    forall|i: int| 0 <= i < sections.len() ==> (#[trigger] sections[i]).0.len() > 0
}

proof fn lemma_render_stays_none(
    t: Seq<char>,
    names: Seq<Seq<char>>,
    sv: Seq<(Seq<char>, Seq<char>)>,
    k: int,
)
    requires
        0 <= k <= sv.len(),
        render(t, names, sv.subrange(0, k)) is None,
    ensures
        render(t, names, sv) is None,
    decreases sv.len() - k,
{
    if k < sv.len() {
        assert(sv.subrange(0, k + 1).drop_last() =~= sv.subrange(0, k));
        lemma_render_stays_none(t, names, sv, k + 1);
    } else {
        assert(sv.subrange(0, k) =~= sv);
    }
}

/// Replaces every occurrence of `placeholder` in `template` by `value`.
/// A template without the placeholder is a `Template` error.
pub fn fill_template(template: &str, placeholder: &str, value: &str) -> (r: Result<String, BuildError>)
    requires
        placeholder@.len() > 0,
    ensures
        r is Ok <==> occurs_in(template@, placeholder@),
        r matches Ok(s) ==> s@ == replace_all(template@, placeholder@, value@),
        r matches Err(e) ==> e is Template,
{
    let (filled, found) = replace_all_exec(template, placeholder, value);
    if found {
        Ok(filled)
    } else {
        let mut message = String::new();
        message.append("placeholder not found: ");
        message.append(placeholder);
        Err(BuildError::Template(message))
    }
}

/// One copy of `snippet` per name, with `{NAME}` replaced by the name.
pub fn expand_snippet(names: &Vec<String>, snippet: &str) -> (r: String)
    ensures
        r@ == expand_units(views_of(names@), snippet@),
{
    let marker = "{NAME}";
    proof {
        reveal_strlit("{NAME}");
        assert(marker@ =~= name_marker());
    }
    let mut out = String::new();
    let mut i: usize = 0;
    while i < names.len()
        invariant
            marker@ == name_marker(),
            i <= names@.len(),
            out@ == expand_units(views_of(names@).subrange(0, i as int), snippet@),
        decreases names@.len() - i,
    {
        let (one, _) = replace_all_exec(snippet, marker, names[i].as_str());
        out.append(one.as_str());
        proof {
            let vs = views_of(names@);
            assert(vs.subrange(0, i as int + 1).drop_last() =~= vs.subrange(0, i as int));
        }
        i = i + 1;
    }
    assert(views_of(names@).subrange(0, i as int) =~= views_of(names@));
    out
}

/// Generates a file from `template`, replacing each section's placeholder,
/// in turn, by its snippet expanded over the table `names`.
pub fn render_sections(template: &str, names: &Vec<String>, sections: &Vec<(String, String)>) -> (r:
    Result<String, BuildError>)
    requires
        placeholders_nonempty(section_views(sections@)),
    ensures
        r is Ok <==> render(template@, views_of(names@), section_views(sections@)) is Some,
        r matches Ok(s) ==> render(template@, views_of(names@), section_views(sections@)) == Some(
            s@,
        ),
        r matches Err(e) ==> e is Template,
{
    let ghost sv = section_views(sections@);
    let mut text = String::from_str(template);
    let mut i: usize = 0;
    while i < sections.len()
        invariant
            sv == section_views(sections@),
            placeholders_nonempty(sv),
            i <= sections@.len(),
            render(template@, views_of(names@), sv.subrange(0, i as int)) == Some(text@),
        decreases sections@.len() - i,
    {
        assert(sv.subrange(0, i as int + 1).drop_last() =~= sv.subrange(0, i as int));
        assert(sv[i as int].0.len() > 0);
        let units = expand_snippet(names, sections[i].1.as_str());
        let filled = fill_template(text.as_str(), sections[i].0.as_str(), units.as_str());
        match filled {
            Ok(t) => {
                text = t;
            },
            Err(e) => {
                proof {
                    lemma_render_stays_none(template@, views_of(names@), sv, i as int + 1);
                }
                return Err(e);
            },
        }
        i = i + 1;
    }
    assert(sv.subrange(0, i as int) =~= sv);
    Ok(text)
}

/// The routing sections of a kind: the entry-point dispatcher, the two
/// schema dispatchers, and the list of available identifiers.
pub open spec fn routing_sections(kind: HandlerKind) -> Seq<(Seq<char>, Seq<char>)> {
    match kind {
        HandlerKind::Action => seq![
            ("{EXECUTE_MATCH_ARMS}"@, "        \"{NAME}\" => actions::{NAME}::execute(context),\n"@),
            ("{INPUT_SCHEMA_MATCH_ARMS}"@, "        \"{NAME}\" => actions::{NAME}::input_schema(context),\n"@),
            ("{OUTPUT_SCHEMA_MATCH_ARMS}"@, "        \"{NAME}\" => actions::{NAME}::output_schema(context),\n"@),
            ("{AVAILABLE_ACTIONS_LIST}"@, "        \"{NAME}\".to_string(),\n"@),
        ],
        HandlerKind::Trigger => seq![
            ("{FETCH_EVENTS_MATCH_ARMS}"@, "        \"{NAME}\" => triggers::{NAME}::fetch_events(context),\n"@),
            ("{INPUT_SCHEMA_MATCH_ARMS}"@, "        \"{NAME}\" => triggers::{NAME}::input_schema(context),\n"@),
            ("{OUTPUT_SCHEMA_MATCH_ARMS}"@, "        \"{NAME}\" => triggers::{NAME}::output_schema(context),\n"@),
            ("{AVAILABLE_TRIGGERS_LIST}"@, "        \"{NAME}\".to_string(),\n"@),
        ],
    }
}

fn section(placeholder: &str, snippet: &str) -> (r: (String, String))
    ensures
        r.0@ == placeholder@,
        r.1@ == snippet@,
{
    (placeholder.to_owned(), snippet.to_owned())
}

fn routing_sections_exec(kind: HandlerKind) -> (r: Vec<(String, String)>)
    ensures
        section_views(r@) == routing_sections(kind),
        placeholders_nonempty(section_views(r@)),
{
    proof {
        reveal_strlit("{EXECUTE_MATCH_ARMS}");
        reveal_strlit("{FETCH_EVENTS_MATCH_ARMS}");
        reveal_strlit("{INPUT_SCHEMA_MATCH_ARMS}");
        reveal_strlit("{OUTPUT_SCHEMA_MATCH_ARMS}");
        reveal_strlit("{AVAILABLE_ACTIONS_LIST}");
        reveal_strlit("{AVAILABLE_TRIGGERS_LIST}");
    }
    let r = match kind {
        HandlerKind::Action => vec![
            section("{EXECUTE_MATCH_ARMS}", "        \"{NAME}\" => actions::{NAME}::execute(context),\n"),
            section("{INPUT_SCHEMA_MATCH_ARMS}", "        \"{NAME}\" => actions::{NAME}::input_schema(context),\n"),
            section("{OUTPUT_SCHEMA_MATCH_ARMS}", "        \"{NAME}\" => actions::{NAME}::output_schema(context),\n"),
            section("{AVAILABLE_ACTIONS_LIST}", "        \"{NAME}\".to_string(),\n"),
        ],
        HandlerKind::Trigger => vec![
            section("{FETCH_EVENTS_MATCH_ARMS}", "        \"{NAME}\" => triggers::{NAME}::fetch_events(context),\n"),
            section("{INPUT_SCHEMA_MATCH_ARMS}", "        \"{NAME}\" => triggers::{NAME}::input_schema(context),\n"),
            section("{OUTPUT_SCHEMA_MATCH_ARMS}", "        \"{NAME}\" => triggers::{NAME}::output_schema(context),\n"),
            section("{AVAILABLE_TRIGGERS_LIST}", "        \"{NAME}\".to_string(),\n"),
        ],
    };
    assert(section_views(r@) =~= routing_sections(kind));
    r
}

/// The aggregation section of a kind, with the per-unit snippet given.
pub open spec fn module_sections(kind: HandlerKind, unit_snippet: Seq<char>) -> Seq<(Seq<char>, Seq<char>)> {
    match kind {
        HandlerKind::Action => seq![("{ACTION_MODULES}"@, unit_snippet)],
        HandlerKind::Trigger => seq![("{TRIGGER_MODULES}"@, unit_snippet)],
    }
}

fn generate_routing(kind: HandlerKind, template: &str, table: &RoutingTable) -> (r: Result<String, BuildError>)
    requires
        table.wf(),
    ensures
        r is Ok <==> render(template@, table@, routing_sections(kind)) is Some,
        r matches Ok(s) ==> render(template@, table@, routing_sections(kind)) == Some(s@),
        r matches Err(e) ==> e is Template,
{
    let sections = routing_sections_exec(kind);
    let names = table.identifiers();
    render_sections(template, &names, &sections)
}

fn generate_modules(kind: HandlerKind, template: &str, table: &RoutingTable, unit_snippet: &str) -> (r:
    Result<String, BuildError>)
    requires
        table.wf(),
    ensures
        r is Ok <==> render(template@, table@, module_sections(kind, unit_snippet@)) is Some,
        r matches Ok(s) ==> render(template@, table@, module_sections(kind, unit_snippet@))
            == Some(s@),
        r matches Err(e) ==> e is Template,
{
    proof {
        reveal_strlit("{ACTION_MODULES}");
        reveal_strlit("{TRIGGER_MODULES}");
    }
    let placeholder = match kind {
        HandlerKind::Action => "{ACTION_MODULES}",
        HandlerKind::Trigger => "{TRIGGER_MODULES}",
    };
    let sections = vec![section(placeholder, unit_snippet)];
    assert(section_views(sections@) =~= module_sections(kind, unit_snippet@));
    let names = table.identifiers();
    render_sections(template, &names, &sections)
}

/// Generates the action routing source from its template and the action
/// table, sorted by construction: one arm per action in each dispatcher, and the list of actions.
pub fn generate_action_routing(template: &str, table: &RoutingTable) -> (r: Result<String, BuildError>)
    requires
        table.wf(),
    ensures
        r is Ok <==> render(template@, table@, routing_sections(HandlerKind::Action)) is Some,
        r matches Ok(s) ==> render(template@, table@, routing_sections(HandlerKind::Action))
            == Some(s@),
        r matches Err(e) ==> e is Template,
{
    generate_routing(HandlerKind::Action, template, table)
}

/// Generates the trigger routing source from its template and the trigger
/// table: one arm per trigger in each dispatcher, and the list of triggers.
pub fn generate_trigger_routing(template: &str, table: &RoutingTable) -> (r: Result<String, BuildError>)
    requires
        table.wf(),
    ensures
        r is Ok <==> render(template@, table@, routing_sections(HandlerKind::Trigger)) is Some,
        r matches Ok(s) ==> render(template@, table@, routing_sections(HandlerKind::Trigger))
            == Some(s@),
        r matches Err(e) ==> e is Template,
{
    generate_routing(HandlerKind::Trigger, template, table)
}

/// Generates the action aggregation unit: `unit_snippet`, in which `{NAME}`
/// stands for the unit's name, once per action in place of
/// `{ACTION_MODULES}`.
pub fn generate_actions_mod_rs(template: &str, table: &RoutingTable, unit_snippet: &str) -> (r:
    Result<String, BuildError>)
    requires
        table.wf(),
    ensures
        r is Ok <==> render(template@, table@, module_sections(HandlerKind::Action, unit_snippet@))
            is Some,
        r matches Ok(s) ==> render(
            template@,
            table@,
            module_sections(HandlerKind::Action, unit_snippet@),
        ) == Some(s@),
        r matches Err(e) ==> e is Template,
{
    generate_modules(HandlerKind::Action, template, table, unit_snippet)
}

/// Generates the trigger aggregation unit: `unit_snippet`, in which
/// `{NAME}` stands for the unit's name, once per trigger in place of
/// `{TRIGGER_MODULES}`.
pub fn generate_triggers_mod_rs(template: &str, table: &RoutingTable, unit_snippet: &str) -> (r:
    Result<String, BuildError>)
    requires
        table.wf(),
    ensures
        r is Ok <==> render(template@, table@, module_sections(HandlerKind::Trigger, unit_snippet@))
            is Some,
        r matches Ok(s) ==> render(
            template@,
            table@,
            module_sections(HandlerKind::Trigger, unit_snippet@),
        ) == Some(s@),
        r matches Err(e) ==> e is Template,
{
    generate_modules(HandlerKind::Trigger, template, table, unit_snippet)
}

} // verus!

verus! {

/// Generation is deterministic: listings that register the same names, in
/// whatever order they were enumerated, give tables from which a template
/// renders to the same text.
pub proof fn lemma_generation_deterministic(
    e1: Seq<crate::discovery::UnitDir>,
    e2: Seq<crate::discovery::UnitDir>,
    t1: Seq<Seq<char>>,
    t2: Seq<Seq<char>>,
    template: Seq<char>,
    sections: Seq<(Seq<char>, Seq<char>)>,
)
    requires
        crate::discovery::is_table_of(e1, t1),
        crate::discovery::is_table_of(e2, t2),
        forall|n: Seq<char>|
            crate::discovery::is_registered_name(e1, n) <==> crate::discovery::is_registered_name(e2, n),
    ensures
        render(template, t1, sections) == render(template, t2, sections),
{
    crate::discovery::lemma_discovery_deterministic(e1, e2, t1, t2);
}

} // verus!
