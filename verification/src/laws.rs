use vstd::prelude::*;

use crate::error::{DiagnosticView, LocationView, Rule, Severity};
use crate::schema::{are_schema_findings, schema_diagnostics};
use crate::scc::are_components;
use crate::trunk::{lemma_trunk_stop_unique, trunk_length, trunk_stops_at};
use crate::types::{DocumentModel, EdgeModel};
use crate::validate::{
    cycle_diagnostics, dangling_diagnostics, dangling_ends, duplicate_diagnostics, first_ids,
    general_cycle_diagnostics, members, orphan_diagnostics, orphans_among, semantic_diagnostics,
    sorted_result, trunk_cycle_diagnostics, with_severity,
};

verus! {

/// Whether every finding among `found` has the rule `rule` and the severity
/// `severity`.
pub open spec fn all_of(found: Seq<DiagnosticView>, rule: Rule, severity: Severity) -> bool {
    forall|i: int|
        0 <= i < found.len() ==> (#[trigger] found[i]).rule == rule && found[i].severity
            == severity
}

/// Findings of duplicate ids are errors of that rule.
pub proof fn lemma_duplicate_findings(ids: Seq<Seq<char>>)
    ensures
        all_of(duplicate_diagnostics(ids), Rule::DuplicateNodeId, Severity::Error),
    decreases ids.len(),
{
    if ids.len() > 0 {
        lemma_duplicate_findings(ids.drop_last());
    }
}

/// Findings of dangling edges are errors of that rule.
pub proof fn lemma_dangling_findings(ids: Seq<Seq<char>>, edges: Seq<EdgeModel>)
    ensures
        all_of(dangling_diagnostics(ids, edges), Rule::DanglingEdge, Severity::Error),
    decreases edges.len(),
{
    if edges.len() > 0 {
        lemma_dangling_findings(ids, edges.drop_last());
    }
}

/// Findings of cycles among the nodes are warnings of that rule.
pub proof fn lemma_cycle_findings(vertices: Seq<Seq<char>>, components: Seq<Seq<usize>>)
    ensures
        all_of(
            general_cycle_diagnostics(vertices, components),
            Rule::GeneralCycle,
            Severity::Warning,
        ),
    decreases components.len(),
{
    if components.len() > 0 {
        lemma_cycle_findings(vertices, components.drop_last());
    }
}

/// Findings of orphans are advisories of that rule.
pub proof fn lemma_orphan_findings(ids: Seq<Seq<char>>, edges: Seq<EdgeModel>, root: Seq<char>)
    ensures
        all_of(orphans_among(ids, edges, root), Rule::OrphanNode, Severity::Advisory),
    decreases ids.len(),
{
    if ids.len() > 0 {
        lemma_orphan_findings(ids.drop_last(), edges, root);
    }
}

/// In a document whose node ids are all different and whose edges all lead
/// from a node to a node, no duplicate id and no dangling edge is found: no
/// finding of the five rules has one of these two rules.
pub proof fn lemma_clean_graph(d: DocumentModel)
    requires
        d.node_ids().no_duplicates(),
        forall|i: int|
            0 <= i < d.edges.len() ==> d.node_ids().contains((#[trigger] d.edges[i]).source)
                && d.node_ids().contains(d.edges[i].target),
    ensures
        duplicate_diagnostics(d.node_ids()).len() == 0,
        dangling_diagnostics(d.node_ids(), d.edges).len() == 0,
        forall|i: int|
            0 <= i < semantic_diagnostics(d).len() ==> (#[trigger] semantic_diagnostics(d)[i]).rule
                != Rule::DuplicateNodeId && semantic_diagnostics(d)[i].rule != Rule::DanglingEdge,
{
    let ids = d.node_ids();
    lemma_no_duplicates_found(ids);
    lemma_no_dangling_found(ids, d.edges);
    lemma_cycle_findings(
        first_ids(ids),
        crate::scc::scc_order(
            first_ids(ids).len(),
            crate::validate::links_of(first_ids(ids), d.edges),
        ),
    );
    match crate::validate::known_root(d) {
        Some(root) => {
            lemma_orphan_findings(ids, d.edges, root);
        },
        None => {},
    }
}

/// Among ids that are all different no duplicate is found.
pub proof fn lemma_no_duplicates_found(ids: Seq<Seq<char>>)
    requires
        ids.no_duplicates(),
    ensures
        duplicate_diagnostics(ids).len() == 0,
    decreases ids.len(),
{
    if ids.len() > 0 {
        let rest = ids.drop_last();
        lemma_no_duplicates_found(rest);
        if rest.contains(ids.last()) {
            let j = choose|j: int| 0 <= j < rest.len() && rest[j] == ids.last();
            assert(ids[j] == ids[ids.len() - 1]);
        }
    }
}

/// Among edges that all lead from a node to a node no dangling edge is found.
pub proof fn lemma_no_dangling_found(ids: Seq<Seq<char>>, edges: Seq<EdgeModel>)
    requires
        forall|i: int|
            0 <= i < edges.len() ==> ids.contains((#[trigger] edges[i]).source) && ids.contains(
                edges[i].target,
            ),
    ensures
        dangling_diagnostics(ids, edges).len() == 0,
    decreases edges.len(),
{
    if edges.len() > 0 {
        let rest = edges.drop_last();
        assert forall|i: int| 0 <= i < rest.len() implies ids.contains((#[trigger] rest[i]).source)
            && ids.contains(rest[i].target) by {
            assert(rest[i] == edges[i]);
        }
        lemma_no_dangling_found(ids, rest);
        assert(edges.last() == edges[edges.len() - 1]);
        assert(dangling_ends(ids, edges.last()) =~= Seq::<DiagnosticView>::empty());
    }
}

/// A document is valid exactly where none of its findings is an error.
/// Warnings and advisories play no part.
pub proof fn lemma_valid_without_errors(all: Seq<DiagnosticView>, stats: crate::error::DocumentStats)
    ensures
        sorted_result(all, stats).is_valid <==> sorted_result(all, stats).errors.len() == 0,
        sorted_result(all, stats).is_valid <==> forall|i: int|
            0 <= i < all.len() ==> (#[trigger] all[i]).severity != Severity::Error,
{
    lemma_with_severity(all, Severity::Error);
    let errors = with_severity(all, Severity::Error);
    if errors.len() == 0 {
        assert forall|i: int| 0 <= i < all.len() implies (#[trigger] all[i]).severity
            != Severity::Error by {
            if all[i].severity == Severity::Error {
                assert(errors.contains(all[i]));
            }
        }
    } else {
        assert(errors.contains(errors[0]));
        assert(all.contains(errors[0]));
    }
}

/// The findings of one severity are the findings that have it.
pub proof fn lemma_with_severity(all: Seq<DiagnosticView>, severity: Severity)
    ensures
        forall|d: DiagnosticView|
            #[trigger] with_severity(all, severity).contains(d) <==> all.contains(d) && d.severity
                == severity,
    decreases all.len(),
{
    let picked = with_severity(all, severity);
    if all.len() > 0 {
        let rest = all.drop_last();
        let last = all.last();
        lemma_with_severity(rest, severity);
        let before = with_severity(rest, severity);
        assert forall|d: DiagnosticView| #[trigger]
            picked.contains(d) <==> all.contains(d) && d.severity == severity by {
            if picked.contains(d) {
                let i = choose|i: int| 0 <= i < picked.len() && picked[i] == d;
                if last.severity == severity && i == picked.len() - 1 {
                    assert(all[all.len() - 1] == d);
                } else {
                    assert(before[i] == d);
                    assert(before.contains(d));
                    let j = choose|j: int| 0 <= j < rest.len() && rest[j] == d;
                    assert(all[j] == d);
                }
            }
            if all.contains(d) && d.severity == severity {
                let j = choose|j: int| 0 <= j < all.len() && all[j] == d;
                if j == all.len() - 1 {
                    assert(picked[picked.len() - 1] == d);
                } else {
                    assert(rest[j] == d);
                    assert(before.contains(d));
                    let i = choose|i: int| 0 <= i < before.len() && before[i] == d;
                    assert(picked[i] == d);
                }
            }
        }
    }
}

/// The findings of one severity among two lists of findings are those among
/// the first followed by those among the second.
pub proof fn lemma_with_severity_concat(
    a: Seq<DiagnosticView>,
    b: Seq<DiagnosticView>,
    severity: Severity,
)
    ensures
        with_severity(a + b, severity) == with_severity(a, severity) + with_severity(b, severity),
    decreases b.len(),
{
    if b.len() == 0 {
        assert(a + b =~= a);
        assert(with_severity(a, severity) + with_severity(b, severity) =~= with_severity(
            a,
            severity,
        ));
    } else {
        lemma_with_severity_concat(a, b.drop_last(), severity);
        assert((a + b).drop_last() =~= a + b.drop_last());
        assert((a + b).last() == b.last());
        assert(with_severity(a + b, severity) =~= with_severity(a, severity) + with_severity(
            b,
            severity,
        ));
    }
}

/// Schema findings are errors, all of them.
pub proof fn lemma_schema_findings_are_errors(messages: Seq<Seq<char>>)
    ensures
        with_severity(schema_diagnostics(messages), Severity::Error) == schema_diagnostics(
            messages,
        ),
        with_severity(schema_diagnostics(messages), Severity::Warning).len() == 0,
        with_severity(schema_diagnostics(messages), Severity::Advisory).len() == 0,
    decreases messages.len(),
{
    let found = schema_diagnostics(messages);
    if messages.len() > 0 {
        lemma_schema_findings_are_errors(messages.drop_last());
        assert(found.drop_last() =~= schema_diagnostics(messages.drop_last()));
        assert(with_severity(found, Severity::Error) =~= found);
    } else {
        assert(with_severity(found, Severity::Error) =~= found);
    }
}

/// The trunk length is the number of trunk edges that the walk from the root
/// takes before it comes to a node without trunk edge or to a node that it has
/// visited: wherever such a walk ends, it has taken that many edges.
pub proof fn lemma_trunk_length(edges: Seq<EdgeModel>, root: Seq<char>, k: nat)
    requires
        trunk_stops_at(edges, root, k),
    ensures
        trunk_length(edges, root) == k,
{
    lemma_trunk_stop_unique(edges, root, k, trunk_length(edges, root));
}

/// Whether every general-cycle finding among `found` names at least two
/// nodes, all of them different.
pub open spec fn cycles_are_plural(found: Seq<DiagnosticView>) -> bool {
    forall|i: int|
        0 <= i < found.len() && (#[trigger] found[i]).rule == Rule::GeneralCycle ==> (
        found[i].location matches LocationView::Path(ids) && ids.len() >= 2
            && ids.no_duplicates())
}

/// The ids of a component without repeats whose numbers are vertices are as
/// many as the component has members, and all different.
pub proof fn lemma_members(vertices: Seq<Seq<char>>, component: Seq<usize>)
    requires
        vertices.no_duplicates(),
        component.no_duplicates(),
        forall|i: int| 0 <= i < component.len() ==> component[i] < vertices.len(),
    ensures
        members(vertices, component).len() == component.len(),
        forall|i: int|
            0 <= i < component.len() ==> (#[trigger] members(vertices, component)[i])
                == vertices[component[i] as int],
        members(vertices, component).no_duplicates(),
    decreases component.len(),
{
    if component.len() > 0 {
        let rest = component.drop_last();
        lemma_members(vertices, rest);
        let ids = members(vertices, component);
        assert forall|i: int, j: int| 0 <= i < ids.len() && 0 <= j < ids.len() && i != j implies ids[i]
            != ids[j] by {
            assert(ids[i] == vertices[component[i] as int]);
            assert(ids[j] == vertices[component[j] as int]);
            assert(component[i] != component[j]);
        }
    }
}

/// No cycle is found in a single node, whether or not an edge leads from the
/// node to itself: every cycle that is reported for the strongly connected
/// components of a graph names at least two nodes, all of them different.
pub proof fn lemma_cycles_are_plural(
    vertices: Seq<Seq<char>>,
    links: Seq<(usize, usize)>,
    components: Seq<Seq<usize>>,
)
    requires
        vertices.no_duplicates(),
        are_components(vertices.len(), links, components),
    ensures
        cycles_are_plural(general_cycle_diagnostics(vertices, components)),
{
    lemma_plural_prefix(vertices, links, components, components.len() as int);
    assert(components.take(components.len() as int) =~= components);
}

/// The step of [`lemma_cycles_are_plural`]: the claim for the first `n`
/// components.
proof fn lemma_plural_prefix(
    vertices: Seq<Seq<char>>,
    links: Seq<(usize, usize)>,
    components: Seq<Seq<usize>>,
    n: int,
)
    requires
        vertices.no_duplicates(),
        are_components(vertices.len(), links, components),
        0 <= n <= components.len(),
    ensures
        cycles_are_plural(general_cycle_diagnostics(vertices, components.take(n))),
    decreases n,
{
    if n > 0 {
        lemma_plural_prefix(vertices, links, components, n - 1);
        let prefix = components.take(n);
        assert(prefix.drop_last() =~= components.take(n - 1));
        let component = prefix.last();
        assert(component == components[n - 1]);
        assert forall|i: int, j: int|
            0 <= i < component.len() && 0 <= j < component.len() && i != j implies component[i]
            != component[j] by {
            if components[n - 1][i] == components[n - 1][j] {
                assert(i == j);
            }
        }
        assert forall|i: int| 0 <= i < component.len() implies component[i] < vertices.len() by {
            assert(components[n - 1][i] < vertices.len());
        }
        lemma_members(vertices, component);
    }
}

/// Where the cycles found among the nodes of a document name several nodes
/// each, so do those among all findings of the five rules.
pub proof fn lemma_plural_semantics(d: DocumentModel)
    requires
        cycles_are_plural(cycle_diagnostics(d)),
    ensures
        cycles_are_plural(semantic_diagnostics(d)),
{
    let ids = d.node_ids();
    lemma_duplicate_findings(ids);
    lemma_dangling_findings(ids, d.edges);
    match crate::validate::known_root(d) {
        Some(root) => {
            lemma_orphan_findings(ids, d.edges, root);
        },
        None => {},
    }
    let a = duplicate_diagnostics(ids);
    let b = dangling_diagnostics(ids, d.edges);
    let c = trunk_cycle_diagnostics(d);
    let e = cycle_diagnostics(d);
    let f = orphan_diagnostics(d);
    let all = semantic_diagnostics(d);
    assert forall|i: int| 0 <= i < all.len() && (#[trigger] all[i]).rule
        == Rule::GeneralCycle implies (all[i].location matches LocationView::Path(ids)
        && ids.len() >= 2 && ids.no_duplicates()) by {
        if i < a.len() {
            assert(all[i] == a[i]);
        } else if i < a.len() + b.len() {
            assert(all[i] == b[i - a.len()]);
        } else if i < a.len() + b.len() + c.len() {
            assert(all[i] == c[i - a.len() - b.len()]);
        } else if i < a.len() + b.len() + c.len() + e.len() {
            assert(all[i] == e[i - a.len() - b.len() - c.len()]);
        } else {
            assert(all[i] == f[i - a.len() - b.len() - c.len() - e.len()]);
        }
    }
}

/// Where the cycles among the findings `found` name several nodes each, so do
/// those among the warnings of a result made of schema findings and `found`.
pub proof fn lemma_plural_result(
    schema: Seq<DiagnosticView>,
    found: Seq<DiagnosticView>,
    stats: crate::error::DocumentStats,
)
    requires
        are_schema_findings(schema),
        cycles_are_plural(found),
    ensures
        cycles_are_plural(sorted_result(schema + found, stats).warnings),
{
    let all = schema + found;
    let warnings = with_severity(all, Severity::Warning);
    lemma_with_severity(all, Severity::Warning);
    assert forall|i: int| 0 <= i < warnings.len() && (#[trigger] warnings[i]).rule
        == Rule::GeneralCycle implies (warnings[i].location matches LocationView::Path(ids)
        && ids.len() >= 2 && ids.no_duplicates()) by {
        assert(warnings.contains(warnings[i]));
        assert(all.contains(warnings[i]));
        let j = choose|j: int| 0 <= j < all.len() && all[j] == warnings[i];
        if j < schema.len() {
            assert(all[j] == schema[j]);
        } else {
            assert(all[j] == found[j - schema.len()]);
        }
    }
}

/// The distinct ids among `ids` are all different, and they are the ids that
/// occur among `ids`.
pub proof fn lemma_first_ids(ids: Seq<Seq<char>>)
    ensures
        first_ids(ids).no_duplicates(),
        forall|id: Seq<char>| #[trigger] first_ids(ids).contains(id) <==> ids.contains(id),
    decreases ids.len(),
{
    if ids.len() > 0 {
        let rest = ids.drop_last();
        let last = ids.last();
        lemma_first_ids(rest);
        let firsts = first_ids(ids);
        let before = first_ids(rest);
        assert forall|id: Seq<char>| #[trigger] firsts.contains(id) <==> ids.contains(id) by {
            if firsts.contains(id) {
                let i = choose|i: int| 0 <= i < firsts.len() && firsts[i] == id;
                if !rest.contains(last) && i == firsts.len() - 1 {
                    assert(ids[ids.len() - 1] == id);
                } else {
                    assert(before[i] == id);
                    assert(before.contains(id));
                    let j = choose|j: int| 0 <= j < rest.len() && rest[j] == id;
                    assert(ids[j] == id);
                }
            }
            if ids.contains(id) {
                let j = choose|j: int| 0 <= j < ids.len() && ids[j] == id;
                if j < ids.len() - 1 {
                    assert(rest[j] == id);
                    assert(rest.contains(id));
                }
                if rest.contains(id) {
                    assert(before.contains(id));
                    let i = choose|i: int| 0 <= i < before.len() && before[i] == id;
                    assert(firsts[i] == id);
                } else {
                    assert(id == last);
                    assert(firsts[firsts.len() - 1] == id);
                }
            }
        }
        if !rest.contains(last) {
            assert forall|i: int, j: int|
                0 <= i < firsts.len() && 0 <= j < firsts.len() && i != j implies firsts[i]
                != firsts[j] by {
                if i == firsts.len() - 1 {
                    assert(before[j] == firsts[j]);
                    assert(before.contains(firsts[j]));
                } else if j == firsts.len() - 1 {
                    assert(before[i] == firsts[i]);
                    assert(before.contains(firsts[i]));
                } else {
                    assert(before[i] == firsts[i] && before[j] == firsts[j]);
                }
            }
        }
    }
}

} // verus!
