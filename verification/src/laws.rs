//! What holds of the library as a whole: statements that relate several of
//! its functions, each proved from the models that the functions' own
//! contracts use.

use vstd::prelude::*;

use crate::constants::is_allowed_status;
use crate::dependencies::{
    edge, edges_into, edges_of, graph_of, indexed_names, indexed_numbers, nodes_of, resolved,
    EdgeView, NodeView,
};
use crate::frontmatter::{parsed_body, parsed_frontmatter, FrontmatterView};
use crate::numbers::{
    all_digits, decimal, is_digit, lemma_decimal, lemma_leading_zeros, lemma_parse_numeral,
    padded_decimal, signed_decimal, zeros,
};
use crate::order::{
    insertion_point, lemma_filter_none, lemma_insertion_point, lemma_stable_sort, stable_sort,
};
use crate::reader::{
    answers_to, by_number, dependents, is_dependent, is_last_of_name, listed_path, load_result,
    loaded_from, loaded_spec, loaded_tree, names_target, qualifies, reference_matches,
    reference_number, with_dependents, SpecDirectoryView, SpecTreeView, SpecView,
};
use crate::text::{
    before_first, is_whitespace, lemma_before_first_unchanged, lemma_trim_unchanged, trim,
};
use crate::stats::{by_count_descending, counted, histogram, name_position, tally, CountView};
use crate::timestamp::Timestamp;
use crate::validation::{
    empty_dependency_issues, length_issues, no_errors, overview_issues, priority_issues,
    special_count, status_issues, title_issues, token_estimate, token_issues, validation_of,
    word_count, IssueSeverity,
};

verus! {

// ---------------------------------------------------------------------------
// References
// ---------------------------------------------------------------------------

/// A numeral made of digits reads as itself when taken as a reference: it has
/// no white space to trim and no hyphen to stop at.
proof fn lemma_digits_are_plain(d: Seq<char>)
    requires
        d.len() > 0,
        all_digits(d),
    ensures
        trim(d) == d,
        before_first(d, '-') == d,
{
    assert forall|k: int| 0 <= k < d.len() implies d[k] != '-' && !is_whitespace(d[k]) by {
        assert(is_digit(d[k]));
    }
    lemma_trim_unchanged(d);
    lemma_before_first_unchanged(d, '-');
}

/// The number of a spec, written bare or padded with zeros, is a reference
/// that names that number.
pub proof fn lemma_numeral_names_number(n: i32)
    requires
        n >= 0,
    ensures
        reference_number(signed_decimal(n as int)) == Some(n),
        reference_number(padded_decimal(n as int)) == Some(n),
{
    let d = decimal(n as nat);
    lemma_decimal(n as nat);
    lemma_leading_zeros(3 - d.len(), d);
    lemma_parse_numeral(n as int);
    lemma_digits_are_plain(d);
    lemma_digits_are_plain(padded_decimal(n as int));
}

/// A spec is named alike by its full name, by its number padded with zeros
/// and by its bare number: each of the three is a reference that matches it.
pub proof fn law_reference_forms_match(name: Seq<char>, n: i32)
    requires
        n >= 0,
    ensures
        reference_matches(name, name, Some(n)),
        reference_matches(padded_decimal(n as int), name, Some(n)),
        reference_matches(signed_decimal(n as int), name, Some(n)),
{
    lemma_numeral_names_number(n);
}

/// The name index holds, under a key, the identifier of the last spec with a
/// number that answers to the key.
proof fn lemma_last_answering_is_indexed(specs: Seq<SpecView>, key: Seq<char>, i: int)
    requires
        0 <= i < specs.len(),
        specs[i].spec_number is Some,
        answers_to(specs[i], key),
        forall|j: int|
            i < j < specs.len() && (#[trigger] specs[j]).spec_number is Some ==> !answers_to(
                specs[j],
                key,
            ),
    ensures
        indexed_names(specs).contains_key(key),
        indexed_names(specs)[key] == specs[i].id,
    decreases specs.len(),
{
    let front = specs.drop_last();
    if i == specs.len() - 1 {
    } else {
        assert(front[i] == specs[i]);
        assert forall|j: int| i < j < front.len() && (#[trigger] front[j]).spec_number
            is Some implies !answers_to(front[j], key) by {
            assert(front[j] == specs[j]);
        }
        lemma_last_answering_is_indexed(front, key, i);
        let last = specs[specs.len() - 1];
        if last.spec_number is Some {
            assert(!answers_to(last, key));
        }
    }
}

/// Resolution takes the full name of a spec, its number padded with zeros and
/// its bare number alike: where a spec with a number is the only one that
/// answers to these three references, and its name has no white space at its
/// ends, each of them resolves to its identifier.
pub proof fn law_resolution_forms_agree(specs: Seq<SpecView>, i: int)
    requires
        0 <= i < specs.len(),
        specs[i].spec_number is Some,
        trim(specs[i].spec_name) == specs[i].spec_name,
        forall|j: int, key: Seq<char>|
            0 <= j < specs.len() && j != i && (#[trigger] specs[j]).spec_number is Some
                && #[trigger] answers_to(specs[i], key) ==> !answers_to(specs[j], key),
    ensures
        ({
            let by_name = indexed_names(specs);
            let by_number = indexed_numbers(specs);
            let n = specs[i].spec_number->0 as int;
            &&& resolved(specs[i].spec_name, by_name, by_number) == Some(specs[i].id)
            &&& resolved(padded_decimal(n), by_name, by_number) == Some(specs[i].id)
            &&& resolved(signed_decimal(n), by_name, by_number) == Some(specs[i].id)
        }),
{
    let n = specs[i].spec_number->0 as int;
    let name = specs[i].spec_name;
    let padded = padded_decimal(n);
    let bare = signed_decimal(n);
    assert(answers_to(specs[i], name));
    assert(answers_to(specs[i], padded));
    assert(answers_to(specs[i], bare));
    lemma_last_answering_is_indexed(specs, name, i);
    lemma_last_answering_is_indexed(specs, padded, i);
    lemma_last_answering_is_indexed(specs, bare, i);
    lemma_numeral_is_trimmed(n);
}

/// A numeral, bare or padded, has no white space at its ends.
proof fn lemma_numeral_is_trimmed(n: int)
    ensures
        trim(signed_decimal(n)) == signed_decimal(n),
        trim(padded_decimal(n)) == padded_decimal(n),
{
    let m: nat = if n < 0 {
        (-n) as nat
    } else {
        n as nat
    };
    let d = decimal(m);
    lemma_decimal(m);
    assert(is_digit(d[0]) && is_digit(d[d.len() - 1]));
    let bare = signed_decimal(n);
    let padded = padded_decimal(n);
    assert(!is_whitespace('-'));
    assert(!is_whitespace('0'));
    assert(bare[bare.len() - 1] == d[d.len() - 1]);
    assert(padded[padded.len() - 1] == d[d.len() - 1]);
    if n < 0 {
        assert(bare[0] == '-');
        assert(padded[0] == '-');
    } else {
        assert(bare[0] == d[0]);
        if 3 - d.len() > 0 {
            assert(padded[0] == '0');
        } else {
            assert(zeros(3 - d.len()) =~= Seq::<char>::empty());
            assert(padded =~= d);
        }
    }
    lemma_trim_unchanged(bare);
    lemma_trim_unchanged(padded);
}

// ---------------------------------------------------------------------------
// Dependents
// ---------------------------------------------------------------------------

/// A name is among the dependents found in the first `n` specs exactly when
/// one of those specs has that name and counts as a dependent.
proof fn lemma_dependents_hold(specs: Seq<SpecView>, target: SpecView, n: int, name: Seq<char>)
    requires
        0 <= n <= specs.len(),
    ensures
        dependents(specs, target, n).contains(name) <==> exists|k: int|
            0 <= k < n && is_dependent(specs, k, target) && (#[trigger] specs[k]).spec_name == name,
    decreases n,
{
    if n > 0 {
        lemma_dependents_hold(specs, target, n - 1, name);
        let rest = dependents(specs, target, n - 1);
        let all = dependents(specs, target, n);
        if is_dependent(specs, n - 1, target) {
            assert(all == rest.push(specs[n - 1].spec_name));
            if all.contains(name) {
                let p = choose|p: int| 0 <= p < all.len() && all[p] == name;
                if p < rest.len() {
                    assert(rest[p] == name);
                    assert(rest.contains(name));
                } else {
                    assert(specs[n - 1].spec_name == name);
                }
            }
            if rest.contains(name) {
                let p = choose|p: int| 0 <= p < rest.len() && rest[p] == name;
                assert(all[p] == name);
            }
            if specs[n - 1].spec_name == name {
                assert(all[all.len() - 1] == name);
            }
        }
    }
}

/// `required_by` is the exact inverse of `depends_on`: in a set of specs with
/// distinct names, the name of one spec is among the dependents of another
/// exactly when one of its references names that other spec.
pub proof fn law_required_by_inverts_depends_on(specs: Seq<SpecView>, a: int, b: int)
    requires
        0 <= a < specs.len(),
        0 <= b < specs.len(),
        a != b,
        forall|i: int, j: int|
            0 <= i < specs.len() && 0 <= j < specs.len() && i != j ==> (#[trigger] specs[i]).spec_name
                != (#[trigger] specs[j]).spec_name,
    ensures
        with_dependents(specs)[a].required_by.contains(specs[b].spec_name) <==> names_target(
            specs[b].depends_on,
            specs[a].spec_name,
            specs[a].spec_number,
        ),
{
    let name = specs[b].spec_name;
    lemma_dependents_hold(specs, specs[a], specs.len() as int, name);
    assert(is_last_of_name(specs, b));
    if names_target(specs[b].depends_on, specs[a].spec_name, specs[a].spec_number) {
        assert(is_dependent(specs, b, specs[a]));
    }
    if with_dependents(specs)[a].required_by.contains(name) {
        let k = choose|k: int|
            0 <= k < specs.len() && is_dependent(specs, k, specs[a]) && (#[trigger] specs[k]).spec_name
                == name;
        assert(k == b);
    }
}

/// No spec is among its own dependents.
pub proof fn law_no_spec_requires_itself(specs: Seq<SpecView>, a: int)
    requires
        0 <= a < specs.len(),
    ensures
        !with_dependents(specs)[a].required_by.contains(specs[a].spec_name),
{
    lemma_dependents_hold(specs, specs[a], specs.len() as int, specs[a].spec_name);
}

// ---------------------------------------------------------------------------
// The graph
// ---------------------------------------------------------------------------

/// Whether a node with this identifier is among `nodes`.
pub open spec fn has_node(nodes: Seq<NodeView>, id: Seq<char>) -> bool {
    exists|m: int| 0 <= m < nodes.len() && (#[trigger] nodes[m]).id == id
}

/// Every spec with a number has its node.
proof fn lemma_numbered_spec_has_node(specs: Seq<SpecView>, j: int)
    requires
        0 <= j < specs.len(),
        specs[j].spec_number is Some,
    ensures
        has_node(nodes_of(specs), specs[j].id),
    decreases specs.len(),
{
    let front = specs.drop_last();
    let nodes = nodes_of(specs);
    if j == specs.len() - 1 {
        assert(nodes[nodes.len() - 1].id == specs[j].id);
    } else {
        assert(front[j] == specs[j]);
        lemma_numbered_spec_has_node(front, j);
        let m = choose|m: int|
            0 <= m < nodes_of(front).len() && (#[trigger] nodes_of(front)[m]).id == specs[j].id;
        assert(nodes[m].id == specs[j].id);
    }
}

/// Every identifier in the indexes is that of a spec with a number.
proof fn lemma_indexed_ids_are_specs(specs: Seq<SpecView>)
    ensures
        forall|k: Seq<char>| #[trigger]
            indexed_names(specs).contains_key(k) ==> exists|j: int|
                0 <= j < specs.len() && (#[trigger] specs[j]).spec_number is Some && specs[j].id
                    == indexed_names(specs)[k],
        forall|n: i32| #[trigger]
            indexed_numbers(specs).contains_key(n) ==> exists|j: int|
                0 <= j < specs.len() && (#[trigger] specs[j]).spec_number is Some && specs[j].id
                    == indexed_numbers(specs)[n],
    decreases specs.len(),
{
    if specs.len() > 0 {
        let front = specs.drop_last();
        let last = specs[specs.len() - 1];
        lemma_indexed_ids_are_specs(front);
        assert forall|k: Seq<char>| #[trigger]
            indexed_names(specs).contains_key(k) implies exists|j: int|
            0 <= j < specs.len() && (#[trigger] specs[j]).spec_number is Some && specs[j].id
                == indexed_names(specs)[k] by {
            if last.spec_number is Some && answers_to(last, k) {
                assert(specs[specs.len() - 1].id == indexed_names(specs)[k]);
            } else {
                assert(indexed_names(front).contains_key(k));
                let j = choose|j: int|
                    0 <= j < front.len() && (#[trigger] front[j]).spec_number is Some
                        && front[j].id == indexed_names(front)[k];
                assert(specs[j] == front[j]);
            }
        }
        assert forall|n: i32| #[trigger]
            indexed_numbers(specs).contains_key(n) implies exists|j: int|
            0 <= j < specs.len() && (#[trigger] specs[j]).spec_number is Some && specs[j].id
                == indexed_numbers(specs)[n] by {
            if last.spec_number == Some(n) {
                assert(specs[specs.len() - 1].id == indexed_numbers(specs)[n]);
            } else {
                assert(indexed_numbers(front).contains_key(n));
                let j = choose|j: int|
                    0 <= j < front.len() && (#[trigger] front[j]).spec_number is Some
                        && front[j].id == indexed_numbers(front)[n];
                assert(specs[j] == front[j]);
            }
        }
    }
}

/// Whether an edge is sound within a set of specs: it joins two different
/// identifiers, and each is that of a spec with a number.
pub open spec fn edge_is_sound(specs: Seq<SpecView>, e: EdgeView) -> bool {
    &&& e.source != e.target
    &&& exists|j: int|
        0 <= j < specs.len() && (#[trigger] specs[j]).spec_number is Some && specs[j].id
            == e.source
    &&& exists|j: int|
        0 <= j < specs.len() && (#[trigger] specs[j]).spec_number is Some && specs[j].id
            == e.target
}

/// The edges of one spec are sound.
proof fn lemma_edges_into_are_sound(specs: Seq<SpecView>, p: int, k: int)
    requires
        0 <= p < specs.len(),
        specs[p].spec_number is Some,
        0 <= k <= specs[p].depends_on.len(),
    ensures
        forall|m: int|
            0 <= m < edges_into(specs[p], indexed_names(specs), indexed_numbers(specs), k).len()
                ==> edge_is_sound(
                specs,
                #[trigger] edges_into(specs[p], indexed_names(specs), indexed_numbers(specs), k)[m],
            ),
    decreases k,
{
    if k > 0 {
        lemma_edges_into_are_sound(specs, p, k - 1);
        lemma_indexed_ids_are_specs(specs);
        let by_name = indexed_names(specs);
        let by_number = indexed_numbers(specs);
        let s = specs[p];
        let rest = edges_into(s, by_name, by_number, k - 1);
        let all = edges_into(s, by_name, by_number, k);
        assert forall|m: int| 0 <= m < all.len() implies edge_is_sound(specs, #[trigger] all[m]) by {
            if m < rest.len() {
                assert(all[m] == rest[m]);
            } else {
                let t = resolved(s.depends_on[k - 1], by_name, by_number)->0;
                assert(all[m] == edge(t, s.id));
                let key = trim(s.depends_on[k - 1]);
                if by_name.contains_key(key) {
                    assert(t == by_name[key]);
                } else {
                    let n = reference_number(s.depends_on[k - 1])->0;
                    assert(by_number.contains_key(n));
                    assert(t == by_number[n]);
                }
            }
        }
    }
}

/// The edges of the first `n` specs are sound.
proof fn lemma_edges_of_are_sound(specs: Seq<SpecView>, n: int)
    requires
        0 <= n <= specs.len(),
    ensures
        forall|m: int|
            0 <= m < edges_of(specs, indexed_names(specs), indexed_numbers(specs), n).len()
                ==> edge_is_sound(
                specs,
                #[trigger] edges_of(specs, indexed_names(specs), indexed_numbers(specs), n)[m],
            ),
    decreases n,
{
    if n > 0 {
        lemma_edges_of_are_sound(specs, n - 1);
        let by_name = indexed_names(specs);
        let by_number = indexed_numbers(specs);
        let s = specs[n - 1];
        let rest = edges_of(specs, by_name, by_number, n - 1);
        let all = edges_of(specs, by_name, by_number, n);
        if s.spec_number is Some {
            let own = edges_into(s, by_name, by_number, s.depends_on.len() as int);
            lemma_edges_into_are_sound(specs, n - 1, s.depends_on.len() as int);
            assert forall|m: int| 0 <= m < all.len() implies edge_is_sound(
                specs,
                #[trigger] all[m],
            ) by {
                if m < rest.len() {
                    assert(all[m] == rest[m]);
                } else {
                    assert(all[m] == own[m - rest.len()]);
                }
            }
        }
    }
}

/// The edges of a dependency graph hold no loop and no stranger: every edge
/// joins two different nodes of the graph.
pub proof fn law_graph_edges_join_nodes(specs: Seq<SpecView>, m: int)
    requires
        0 <= m < graph_of(specs).edges.len(),
    ensures
        graph_of(specs).edges[m].source != graph_of(specs).edges[m].target,
        has_node(graph_of(specs).nodes, graph_of(specs).edges[m].source),
        has_node(graph_of(specs).nodes, graph_of(specs).edges[m].target),
{
    lemma_edges_of_are_sound(specs, specs.len() as int);
    let e = graph_of(specs).edges[m];
    assert(edge_is_sound(specs, e));
    let a = choose|j: int|
        0 <= j < specs.len() && (#[trigger] specs[j]).spec_number is Some && specs[j].id
            == e.source;
    lemma_numbered_spec_has_node(specs, a);
    let b = choose|j: int|
        0 <= j < specs.len() && (#[trigger] specs[j]).spec_number is Some && specs[j].id
            == e.target;
    lemma_numbered_spec_has_node(specs, b);
}

// ---------------------------------------------------------------------------
// Loading
// ---------------------------------------------------------------------------

/// A spec loaded from the `archived` directory is archived whatever its
/// frontmatter declares, and is listed under the path of that directory.
pub proof fn law_archived_specs_are_archived(
    project_id: Seq<char>,
    entry: SpecDirectoryView,
    now: Timestamp,
)
    ensures
        match loaded_spec(project_id, entry, true, now) {
            Some(spec) => spec.status == "archived"@ && spec.file_path == "specs/archived/"@
                + entry.name + "/README.md"@,
            None => true,
        },
{
}

/// Every spec that one directory yields stems from one of its entries: a
/// candidate that holds a spec. Entries that are no candidates, and
/// candidates that hold none, are passed over: there are never more specs
/// than entries.
pub proof fn law_loaded_specs_stem_from_entries(
    project_id: Seq<char>,
    entries: Seq<SpecDirectoryView>,
    archived: bool,
    now: Timestamp,
)
    ensures
        loaded_from(project_id, entries, archived, now).len() <= entries.len(),
        forall|m: int|
            0 <= m < loaded_from(project_id, entries, archived, now).len() ==> exists|e: int|
                0 <= e < entries.len() && qualifies(#[trigger] entries[e], archived) && loaded_spec(
                    project_id,
                    entries[e],
                    archived,
                    now,
                ) == Some(#[trigger] loaded_from(project_id, entries, archived, now)[m]),
    decreases entries.len(),
{
    if entries.len() > 0 {
        let front = entries.drop_last();
        law_loaded_specs_stem_from_entries(project_id, front, archived, now);
        let rest = loaded_from(project_id, front, archived, now);
        let all = loaded_from(project_id, entries, archived, now);
        assert forall|m: int| 0 <= m < all.len() implies exists|e: int|
            0 <= e < entries.len() && qualifies(#[trigger] entries[e], archived) && loaded_spec(
                project_id,
                entries[e],
                archived,
                now,
            ) == Some(#[trigger] all[m]) by {
            if m < rest.len() {
                assert(all[m] == rest[m]);
                let e = choose|e: int|
                    0 <= e < front.len() && qualifies(#[trigger] front[e], archived)
                        && loaded_spec(project_id, front[e], archived, now) == Some(rest[m]);
                assert(entries[e] == front[e]);
                assert(qualifies(entries[e], archived) && loaded_spec(
                    project_id,
                    entries[e],
                    archived,
                    now,
                ) == Some(all[m]));
            } else {
                let e = entries.len() - 1;
                let last = loaded_spec(project_id, entries[e], archived, now);
                assert(last is Some);
                assert(all == rest.push(last->0));
                assert(all[m] == last->0);
                assert(qualifies(entries[e], archived) && loaded_spec(
                    project_id,
                    entries[e],
                    archived,
                    now,
                ) == Some(all[m]));
            }
        }
    }
}

/// Sorting is stable: keeping only the items of one key leaves the same
/// sequence, whether it is done before sorting or after.
pub proof fn law_sort_is_stable<T>(s: Seq<T>, key: spec_fn(T) -> int, k: int)
    ensures
        stable_sort(s, key).filter(|x: T| key(x) == k) == s.filter(|x: T| key(x) == k),
    decreases s.len(),
{
    let keep = |x: T| key(x) == k;
    if s.len() == 0 {
        assert(stable_sort(s, key) =~= s);
    } else {
        let front = s.drop_last();
        let x = s.last();
        law_sort_is_stable(front, key, k);
        lemma_stable_sort(front, key);
        let sorted = stable_sort(front, key);
        lemma_insertion_point(sorted, key, key(x));
        let p = insertion_point(sorted, key, key(x));
        let r = sorted.insert(p, x);
        let head = sorted.take(p);
        let tail = sorted.skip(p);
        assert(sorted =~= head + tail);
        assert(r =~= head + seq![x] + tail);
        assert(s =~= front + seq![x]);
        Seq::filter_distributes_over_add(head, tail, keep);
        Seq::filter_distributes_over_add(head + seq![x], tail, keep);
        Seq::filter_distributes_over_add(head, seq![x], keep);
        Seq::filter_distributes_over_add(front, seq![x], keep);
        if key(x) == k {
            // Everything behind the insertion point has a larger key.
            assert(tail.filter(keep) =~= Seq::<T>::empty()) by {
                lemma_filter_none(tail, keep);
            }
            assert(sorted.filter(keep) =~= head.filter(keep));
        } else {
            assert(seq![x].filter(keep) =~= Seq::<T>::empty()) by {
                lemma_filter_none(seq![x], keep);
            }
        }
    }
}

/// Loading keeps what it found: the specs of a loaded tree are those of its
/// entries, each once, in the order of their numbers, and loading changes
/// nothing in them but the list of dependents.
pub proof fn law_load_keeps_specs(project_id: Seq<char>, tree: SpecTreeView, now: Timestamp)
    ensures
        ({
            let found = loaded_tree(project_id, tree, now);
            let sorted = stable_sort(found, by_number());
            let loaded = load_result(project_id, tree, now);
            &&& loaded.len() == found.len()
            &&& sorted.to_multiset() == found.to_multiset()
            &&& forall|i: int|
                0 <= i < loaded.len() ==> #[trigger] loaded[i] == (SpecView {
                    required_by: loaded[i].required_by,
                    ..sorted[i]
                })
            &&& forall|i: int, j: int|
                0 <= i <= j < loaded.len() ==> by_number()(#[trigger] loaded[i]) <= by_number()(
                    #[trigger] loaded[j],
                )
        }),
{
    let found = loaded_tree(project_id, tree, now);
    lemma_stable_sort(found, by_number());
}

/// What was loaded from the `archived` directory is still archived, and still
/// listed under that directory, in the loaded set.
pub proof fn law_load_keeps_archived_specs(
    project_id: Seq<char>,
    tree: SpecTreeView,
    now: Timestamp,
    a: int,
)
    requires
        tree.exists,
        0 <= a < loaded_from(project_id, tree.archived, true, now).len(),
    ensures
        ({
            let kept = loaded_from(project_id, tree.archived, true, now)[a];
            let loaded = load_result(project_id, tree, now);
            &&& kept.status == "archived"@
            &&& kept.file_path == listed_path(kept.spec_name, true)
            &&& exists|j: int|
                0 <= j < loaded.len() && #[trigger] loaded[j] == (SpecView {
                    required_by: loaded[j].required_by,
                    ..kept
                })
        }),
{
    let live = loaded_from(project_id, tree.entries, false, now);
    let archived = loaded_from(project_id, tree.archived, true, now);
    let kept = archived[a];
    law_loaded_specs_stem_from_entries(project_id, tree.archived, true, now);
    let found = loaded_tree(project_id, tree, now);
    assert(found[live.len() + a] == kept);
    assert(found.contains(kept));
    lemma_stable_sort(found, by_number());
    let sorted = stable_sort(found, by_number());
    vstd::seq_lib::to_multiset_contains(found, kept);
    vstd::seq_lib::to_multiset_contains(sorted, kept);
    assert(sorted.contains(kept));
    let j = choose|j: int| 0 <= j < sorted.len() && sorted[j] == kept;
    let loaded = load_result(project_id, tree, now);
    assert(loaded[j] == (SpecView { required_by: loaded[j].required_by, ..kept }));
}

// ---------------------------------------------------------------------------
// Validation
// ---------------------------------------------------------------------------

/// Empty dependency references are warned about, never more.
proof fn lemma_empty_dependencies_are_warnings(deps: Seq<Seq<char>>)
    ensures
        no_errors(empty_dependency_issues(deps)),
    decreases deps.len(),
{
    if deps.len() > 0 {
        lemma_empty_dependencies_are_warnings(deps.drop_last());
    }
}

/// A spec is valid exactly when its re-parsed frontmatter declares a status,
/// and an allowed one: no other rule raises an error.
pub proof fn law_valid_means_status_allowed(spec: SpecView, decoded: Option<FrontmatterView>)
    ensures
        validation_of(spec, decoded).valid <==> (match parsed_frontmatter(
            spec.content_md,
            decoded,
        ).status {
            Some(s) => is_allowed_status(s),
            None => false,
        }),
{
    let fm = parsed_frontmatter(spec.content_md, decoded);
    let result = validation_of(spec, decoded);
    let issues = result.issues;
    let first = status_issues(fm.status);
    lemma_empty_dependencies_are_warnings(fm.depends_on);
    let good = match fm.status {
        Some(s) => is_allowed_status(s),
        None => false,
    };
    if good {
        assert(first.len() == 0);
        assert forall|i: int| 0 <= i < issues.len() implies (#[trigger] issues[i]).severity
            != IssueSeverity::Error by {
            lemma_later_rules_raise_no_error(spec, decoded, i);
        }
    } else {
        assert(first.len() == 1);
        assert(issues[0] == first[0]);
        assert(issues[0].severity == IssueSeverity::Error);
    }
}

/// Behind the issues of the status rule no issue is an error.
proof fn lemma_later_rules_raise_no_error(
    spec: SpecView,
    decoded: Option<FrontmatterView>,
    i: int,
)
    requires
        status_issues(parsed_frontmatter(spec.content_md, decoded).status).len() <= i
            < validation_of(spec, decoded).issues.len(),
    ensures
        validation_of(spec, decoded).issues[i].severity != IssueSeverity::Error,
{
    let fm = parsed_frontmatter(spec.content_md, decoded);
    let body = parsed_body(spec.content_md, decoded is Some);
    let a = status_issues(fm.status);
    let b = priority_issues(fm.priority);
    let c = title_issues(spec.title);
    let d = length_issues(spec.content_md);
    let e = overview_issues(body);
    let f = empty_dependency_issues(fm.depends_on);
    let g = token_issues(spec.content_md);
    lemma_empty_dependencies_are_warnings(fm.depends_on);
    let all = a + b + c + d + e + f + g;
    assert(validation_of(spec, decoded).issues == all);
    let at = i - a.len();
    if at < b.len() {
        assert(all[i] == b[at]);
    } else if at - b.len() < c.len() {
        assert(all[i] == c[at - b.len()]);
    } else if at - b.len() - c.len() < d.len() {
        assert(all[i] == d[at - b.len() - c.len()]);
    } else if at - b.len() - c.len() - d.len() < e.len() {
        assert(all[i] == e[at - b.len() - c.len() - d.len()]);
    } else if at - b.len() - c.len() - d.len() - e.len() < f.len() {
        assert(all[i] == f[at - b.len() - c.len() - d.len() - e.len()]);
    } else {
        assert(all[i] == g[at - b.len() - c.len() - d.len() - e.len() - f.len()]);
    }
}

/// More text never lowers the counts behind the token estimate.
proof fn lemma_counts_grow(a: Seq<char>, b: Seq<char>)
    ensures
        word_count(a) <= word_count(a + b),
        special_count(a) <= special_count(a + b),
    decreases b.len(),
{
    if b.len() == 0 {
        assert(a + b =~= a);
    } else {
        lemma_counts_grow(a, b.drop_last());
        assert((a + b).drop_last() =~= a + b.drop_last());
    }
}

/// The token estimate is a function of the text alone, and more text never
/// lowers it.
pub proof fn law_token_estimate_grows(text: Seq<char>, more: Seq<char>)
    ensures
        token_estimate(text) <= token_estimate(text + more),
{
    lemma_counts_grow(text, more);
}

// ---------------------------------------------------------------------------
// Histograms
// ---------------------------------------------------------------------------

/// How often `name` occurs in `names`.
pub open spec fn occurrences(names: Seq<Seq<char>>, name: Seq<char>) -> nat
    decreases names.len(),
{
    if names.len() == 0 {
        0
    } else {
        occurrences(names.drop_last(), name) + if names.last() == name {
            1nat
        } else {
            0nat
        }
    }
}

/// Whether `counts` is a faithful count of `names`: every entry counts the
/// occurrences of its name, of which there is at least one; no name has two
/// entries; and every name that occurs has its entry.
pub open spec fn counts_names(counts: Seq<CountView>, names: Seq<Seq<char>>) -> bool {
    &&& forall|i: int|
        0 <= i < counts.len() ==> (#[trigger] counts[i]).count == occurrences(
            names,
            counts[i].name,
        ) && counts[i].count >= 1
    &&& forall|i: int, j: int|
        0 <= i < counts.len() && 0 <= j < counts.len() && i != j ==> (#[trigger] counts[i]).name
            != (#[trigger] counts[j]).name
    &&& forall|name: Seq<char>|
        occurrences(names, name) > 0 ==> exists|i: int|
            0 <= i < counts.len() && (#[trigger] counts[i]).name == name
}

/// The position of a name is that of its first entry, or the length where it
/// has none.
proof fn lemma_name_position(t: Seq<CountView>, name: Seq<char>, i: int)
    requires
        0 <= i <= t.len(),
    ensures
        i <= name_position(t, name, i) <= t.len(),
        name_position(t, name, i) < t.len() ==> t[name_position(t, name, i)].name == name,
        forall|j: int| i <= j < name_position(t, name, i) ==> (#[trigger] t[j]).name != name,
    decreases t.len() - i,
{
    if i < t.len() && t[i].name != name {
        lemma_name_position(t, name, i + 1);
    }
}

/// A tally is a faithful count.
proof fn lemma_tally_counts(names: Seq<Seq<char>>)
    ensures
        counts_names(tally(names), names),
    decreases names.len(),
{
    if names.len() > 0 {
        let front = names.drop_last();
        let x = names.last();
        lemma_tally_counts(front);
        let t = tally(front);
        let all = tally(names);
        let p = name_position(t, x, 0);
        lemma_name_position(t, x, 0);
        assert(all == counted(t, x));
        if p < t.len() {
            assert forall|i: int| 0 <= i < all.len() implies (#[trigger] all[i]).count
                == occurrences(names, all[i].name) && all[i].count >= 1 by {
                if i != p {
                    assert(all[i] == t[i]);
                    assert(t[i].name != t[p].name);
                }
            }
            assert forall|i: int, j: int|
                0 <= i < all.len() && 0 <= j < all.len() && i != j implies (#[trigger] all[i]).name
                != (#[trigger] all[j]).name by {
                assert(all[i].name == t[i].name && all[j].name == t[j].name);
            }
            assert forall|name: Seq<char>| occurrences(names, name) > 0 implies exists|i: int|
                0 <= i < all.len() && (#[trigger] all[i]).name == name by {
                if name == x {
                    assert(all[p].name == name);
                } else {
                    assert(occurrences(front, name) > 0);
                    let i = choose|i: int| 0 <= i < t.len() && (#[trigger] t[i]).name == name;
                    assert(all[i].name == name);
                }
            }
        } else {
            assert(occurrences(front, x) == 0) by {
                if occurrences(front, x) > 0 {
                    let i = choose|i: int| 0 <= i < t.len() && (#[trigger] t[i]).name == x;
                    assert(false);
                }
            }
            assert forall|i: int| 0 <= i < all.len() implies (#[trigger] all[i]).count
                == occurrences(names, all[i].name) && all[i].count >= 1 by {
                if i < t.len() {
                    assert(all[i] == t[i]);
                    assert(t[i].name != x);
                }
            }
            assert forall|i: int, j: int|
                0 <= i < all.len() && 0 <= j < all.len() && i != j implies (#[trigger] all[i]).name
                != (#[trigger] all[j]).name by {
                if i < t.len() {
                    assert(all[i] == t[i]);
                }
                if j < t.len() {
                    assert(all[j] == t[j]);
                }
            }
            assert forall|name: Seq<char>| occurrences(names, name) > 0 implies exists|i: int|
                0 <= i < all.len() && (#[trigger] all[i]).name == name by {
                if name == x {
                    assert(all[t.len() as int].name == name);
                } else {
                    assert(occurrences(front, name) > 0);
                    let i = choose|i: int| 0 <= i < t.len() && (#[trigger] t[i]).name == name;
                    assert(all[i] == t[i]);
                }
            }
        }
    }
}

/// A histogram lists every name that occurs, once, with the number of its
/// occurrences, and no other; and its counts never rise from one entry to
/// the next.
pub proof fn law_histogram_counts_occurrences(names: Seq<Seq<char>>)
    ensures
        counts_names(histogram(names), names),
        forall|i: int, j: int|
            0 <= i <= j < histogram(names).len() ==> (#[trigger] histogram(names)[i]).count >= (
            #[trigger] histogram(names)[j]).count,
{
    let t = tally(names);
    let h = histogram(names);
    lemma_tally_counts(names);
    lemma_stable_sort(t, by_count_descending());
    assert forall|i: int, j: int| 0 <= i <= j < h.len() implies (#[trigger] h[i]).count >= (
    #[trigger] h[j]).count by {
        assert(by_count_descending()(h[i]) <= by_count_descending()(h[j]));
    }
    // The entries of the histogram are those of the tally, each once.
    assert(t.no_duplicates());
    t.lemma_multiset_has_no_duplicates();
    h.lemma_multiset_has_no_duplicates_conv();
    assert forall|i: int| 0 <= i < h.len() implies t.contains(#[trigger] h[i]) by {
        assert(h.contains(h[i]));
        vstd::seq_lib::to_multiset_contains(h, h[i]);
        vstd::seq_lib::to_multiset_contains(t, h[i]);
    }
    assert forall|i: int| 0 <= i < h.len() implies (#[trigger] h[i]).count == occurrences(
        names,
        h[i].name,
    ) && h[i].count >= 1 by {
        assert(t.contains(h[i]));
        let k = choose|k: int| 0 <= k < t.len() && t[k] == h[i];
        assert(t[k].count == occurrences(names, t[k].name));
    }
    assert forall|i: int, j: int|
        0 <= i < h.len() && 0 <= j < h.len() && i != j implies (#[trigger] h[i]).name != (
    #[trigger] h[j]).name by {
        assert(t.contains(h[i]));
        assert(t.contains(h[j]));
        let a = choose|k: int| 0 <= k < t.len() && t[k] == h[i];
        let b = choose|k: int| 0 <= k < t.len() && t[k] == h[j];
        assert(h[i] != h[j]);
        assert(a != b);
        assert(t[a].name != t[b].name);
    }
    assert forall|name: Seq<char>| occurrences(names, name) > 0 implies exists|i: int|
        0 <= i < h.len() && (#[trigger] h[i]).name == name by {
        let k = choose|k: int| 0 <= k < t.len() && (#[trigger] t[k]).name == name;
        assert(t.contains(t[k]));
        vstd::seq_lib::to_multiset_contains(t, t[k]);
        vstd::seq_lib::to_multiset_contains(h, t[k]);
        assert(h.contains(t[k]));
        let i = choose|i: int| 0 <= i < h.len() && h[i] == t[k];
        assert(h[i].name == name);
    }
}

} // verus!
