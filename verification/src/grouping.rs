use vstd::prelude::*;

use crate::breadcrumb::{decoded_breadcrumb, full_breadcrumb, text_eq};
use crate::models::SearchResult;

verus! {

/// The results of one group that share a decoded breadcrumb.
pub struct SubtitleGroup<'a> {
    pub subtitle: String,
    pub results: Vec<&'a SearchResult>,
}

/// The results that share a hierarchy root, split by breadcrumb.
pub struct ResultGroup<'a> {
    pub name: &'a str,
    pub subgroups: Vec<SubtitleGroup<'a>>,
}

/// A subgroup as values: its breadcrumb and its results.
pub type SubgroupView = (Seq<char>, Seq<SearchResult>);

/// A group as values: its root and its subgroups.
pub type GroupView = (Seq<char>, Seq<SubgroupView>);

impl<'a> SubtitleGroup<'a> {
    pub open spec fn view_pair(self) -> SubgroupView {
        (self.subtitle@, self.results@.map_values(|r: &SearchResult| *r))
    }
}

impl<'a> ResultGroup<'a> {
    pub open spec fn view_pair(self) -> GroupView {
        (self.name@, self.subgroups@.map_values(|s: SubtitleGroup<'a>| s.view_pair()))
    }
}

/// The groups as values.
pub open spec fn groups_view<'a>(groups: Seq<ResultGroup<'a>>) -> Seq<GroupView> {
    groups.map_values(|g: ResultGroup<'a>| g.view_pair())
}

/// The root a result is grouped under.
pub open spec fn group_name_of(result: SearchResult) -> Seq<char> {
    result.hierarchy.lvl0@
}

/// The breadcrumb a result is grouped under: the full decoded breadcrumb for
/// its deepest value, before any truncation.
pub open spec fn subtitle_of(result: SearchResult) -> Seq<char> {
    full_breadcrumb(result, result.hierarchy.deepest())
}

/// The first index at or after `j` of a group named `name`, or the number of groups.
pub open spec fn group_index(groups: Seq<GroupView>, name: Seq<char>, j: int) -> int
    decreases groups.len() - j,
{
    if j < 0 || j >= groups.len() {
        groups.len() as int
    } else if groups[j].0 == name {
        j
    } else {
        group_index(groups, name, j + 1)
    }
}

/// The first index at or after `j` of a subgroup with breadcrumb `subtitle`, or the number of subgroups.
pub open spec fn subgroup_index(subgroups: Seq<SubgroupView>, subtitle: Seq<char>, j: int) -> int
    decreases subgroups.len() - j,
{
    if j < 0 || j >= subgroups.len() {
        subgroups.len() as int
    } else if subgroups[j].0 == subtitle {
        j
    } else {
        subgroup_index(subgroups, subtitle, j + 1)
    }
}

/// `subgroups` with `result` appended to the first subgroup with breadcrumb
/// `subtitle`, or to a new subgroup at the end when there is none.
pub open spec fn add_to_subgroups(subgroups: Seq<SubgroupView>, subtitle: Seq<char>, result: SearchResult) -> Seq<SubgroupView> {
    let j = subgroup_index(subgroups, subtitle, 0);
    if j < subgroups.len() {
        subgroups.update(j, (subgroups[j].0, subgroups[j].1.push(result)))
    } else {
        subgroups.push((subtitle, seq![result]))
    }
}

/// `groups` with `result` filed under its root and breadcrumb: in the first
/// group with its root, or in a new group at the end when there is none.
pub open spec fn add_to_groups(groups: Seq<GroupView>, result: SearchResult) -> Seq<GroupView> {
    let name = group_name_of(result);
    let j = group_index(groups, name, 0);
    if j < groups.len() {
        groups.update(j, (groups[j].0, add_to_subgroups(groups[j].1, subtitle_of(result), result)))
    } else {
        groups.push((name, seq![(subtitle_of(result), seq![result])]))
    }
}

/// The results filed one after the other, in order: grouped by root in the
/// order roots are first seen, and within a root by breadcrumb in the order
/// breadcrumbs are first seen.
pub open spec fn grouped(results: Seq<SearchResult>) -> Seq<GroupView>
    decreases results.len(),
{
    if results.len() == 0 {
        Seq::empty()
    } else {
        add_to_groups(grouped(results.drop_last()), results.last())
    }
}

/// The results of the subgroups, one subgroup after the other.
pub open spec fn subgroups_results(subgroups: Seq<SubgroupView>) -> Seq<SearchResult>
    decreases subgroups.len(),
{
    if subgroups.len() == 0 {
        Seq::empty()
    } else {
        subgroups_results(subgroups.drop_last()) + subgroups.last().1
    }
}

/// The results of the groups, one group after the other.
pub open spec fn groups_results(groups: Seq<GroupView>) -> Seq<SearchResult>
    decreases groups.len(),
{
    if groups.len() == 0 {
        Seq::empty()
    } else {
        groups_results(groups.drop_last()) + subgroups_results(groups.last().1)
    }
}

/// Groups results by root, then by decoded breadcrumb, in first-seen order.
pub fn group_results<'a>(results: &'a [SearchResult]) -> (groups: Vec<ResultGroup<'a>>)
    ensures
        groups_view(groups@) == grouped(results@),
{
    let mut groups: Vec<ResultGroup<'a>> = Vec::new();
    let mut i: usize = 0;
    proof {
        assert(results@.take(0) =~= Seq::<SearchResult>::empty());
        assert(groups_view(groups@) =~= Seq::<GroupView>::empty());
    }
    while i < results.len()
        invariant
            i <= results@.len(),
            groups_view(groups@) == grouped(results@.take(i as int)),
        decreases results.len() - i,
    {
        let result = &results[i];
        let title = result.hierarchy.last();
        let subtitle = decoded_breadcrumb(result, title);
        let group_name = result.hierarchy.first();
        let ghost gv = groups_view(groups@);
        proof {
            assert(results@.take(i + 1).drop_last() =~= results@.take(i as int));
            assert(results@.take(i + 1).last() == *result);
        }

        let mut gi: usize = 0;
        while gi < groups.len() && !text_eq(groups[gi].name, group_name)
            invariant
                gi <= groups@.len(),
                gv == groups_view(groups@),
                group_index(gv, group_name@, 0) == group_index(gv, group_name@, gi as int),
            decreases groups.len() - gi,
        {
            gi = gi + 1;
        }
        if gi == groups.len() {
            let mut subgroups: Vec<SubtitleGroup<'a>> = Vec::new();
            let mut members: Vec<&'a SearchResult> = Vec::new();
            members.push(result);
            subgroups.push(SubtitleGroup { subtitle, results: members });
            groups.push(ResultGroup { name: group_name, subgroups });
            proof {
                assert(groups_view(groups@) =~~= add_to_groups(gv, *result));
            }
        } else {
            let ghost sv = gv[gi as int].1;
            let mut group = groups.remove(gi);
            let mut si: usize = 0;
            while si < group.subgroups.len() && !text_eq(group.subgroups[si].subtitle.as_str(), subtitle.as_str())
                invariant
                    si <= group.subgroups@.len(),
                    sv == group.view_pair().1,
                    subgroup_index(sv, subtitle@, 0) == subgroup_index(sv, subtitle@, si as int),
                decreases group.subgroups.len() - si,
            {
                si = si + 1;
            }
            if si == group.subgroups.len() {
                let mut members: Vec<&'a SearchResult> = Vec::new();
                members.push(result);
                group.subgroups.push(SubtitleGroup { subtitle, results: members });
            } else {
                let mut subgroup = group.subgroups.remove(si);
                subgroup.results.push(result);
                group.subgroups.insert(si, subgroup);
            }
            groups.insert(gi, group);
            proof {
                assert(groups_view(groups@) =~~= add_to_groups(gv, *result));
            }
        }
        i = i + 1;
    }
    proof {
        assert(results@.take(results@.len() as int) =~= results@);
    }
    groups
}

} // verus!

verus! {

/// What a result is grouped under at the first level: its root.
pub open spec fn root_key() -> spec_fn(SearchResult) -> Seq<char> {
    |r: SearchResult| group_name_of(r)
}

/// What a result is grouped under at the second level: its breadcrumb.
pub open spec fn subtitle_key() -> spec_fn(SearchResult) -> Seq<char> {
    |r: SearchResult| subtitle_of(r)
}

/// The distinct keys of `results`, each where it is first seen.
pub open spec fn first_seen(results: Seq<SearchResult>, key: spec_fn(SearchResult) -> Seq<char>) -> Seq<Seq<char>>
    decreases results.len(),
{
    if results.len() == 0 {
        Seq::empty()
    } else {
        let seen = first_seen(results.drop_last(), key);
        if seen.contains(key(results.last())) {
            seen
        } else {
            seen.push(key(results.last()))
        }
    }
}

/// The results whose key is `value`, in order.
pub open spec fn having(results: Seq<SearchResult>, key: spec_fn(SearchResult) -> Seq<char>, value: Seq<char>) -> Seq<SearchResult>
    decreases results.len(),
{
    if results.len() == 0 {
        Seq::empty()
    } else {
        let earlier = having(results.drop_last(), key, value);
        if key(results.last()) == value {
            earlier.push(results.last())
        } else {
            earlier
        }
    }
}

/// The roots of the groups, in order.
pub open spec fn group_names(groups: Seq<GroupView>) -> Seq<Seq<char>> {
    groups.map_values(|g: GroupView| g.0)
}

/// The breadcrumbs of the subgroups, in order.
pub open spec fn subgroup_names(subgroups: Seq<SubgroupView>) -> Seq<Seq<char>> {
    subgroups.map_values(|s: SubgroupView| s.0)
}

/// The subgroups file exactly `results` by breadcrumb: one subgroup per
/// distinct breadcrumb, in first-seen order, each holding the results with
/// that breadcrumb in their order.
pub open spec fn files_by_subtitle(subgroups: Seq<SubgroupView>, results: Seq<SearchResult>) -> bool {
    &&& subgroup_names(subgroups) == first_seen(results, subtitle_key())
    &&& forall|k: int| 0 <= k < subgroups.len() ==> #[trigger] subgroups[k].1 == having(results, subtitle_key(), subgroups[k].0)
}

/// The groups file exactly `results`: one group per distinct root, in
/// first-seen order, each filing the results with that root by breadcrumb.
pub open spec fn files_by_root(groups: Seq<GroupView>, results: Seq<SearchResult>) -> bool {
    &&& group_names(groups) == first_seen(results, root_key())
    &&& forall|i: int| 0 <= i < groups.len() ==> files_by_subtitle(#[trigger] groups[i].1, having(results, root_key(), groups[i].0))
}

/// The keys seen first are distinct.
pub proof fn lemma_first_seen_distinct(results: Seq<SearchResult>, key: spec_fn(SearchResult) -> Seq<char>)
    ensures
        forall|a: int, b: int| 0 <= a < b < first_seen(results, key).len() ==> first_seen(results, key)[a] != first_seen(results, key)[b],
    decreases results.len(),
{
    if results.len() > 0 {
        lemma_first_seen_distinct(results.drop_last(), key);
        let seen = first_seen(results.drop_last(), key);
        let k = key(results.last());
        if !seen.contains(k) {
            let all = first_seen(results, key);
            assert forall|a: int, b: int| 0 <= a < b < all.len() implies all[a] != all[b] by {
                if b == seen.len() {
                    if seen[a] == k {
                        assert(seen.contains(k));
                    }
                }
            }
        }
    }
}

/// A key with results is among the keys seen.
pub proof fn lemma_having_seen(results: Seq<SearchResult>, key: spec_fn(SearchResult) -> Seq<char>, value: Seq<char>)
    ensures
        !first_seen(results, key).contains(value) ==> having(results, key, value) == Seq::<SearchResult>::empty(),
    decreases results.len(),
{
    if results.len() > 0 {
        lemma_having_seen(results.drop_last(), key, value);
        let seen = first_seen(results.drop_last(), key);
        if !first_seen(results, key).contains(value) {
            assert forall|x: Seq<char>| seen.contains(x) implies first_seen(results, key).contains(x) by {
                let w = choose|w: int| 0 <= w < seen.len() && seen[w] == x;
                assert(first_seen(results, key)[w] == x);
            }
            if key(results.last()) == value {
                assert(first_seen(results, key).last() == value || seen.contains(value));
            }
        }
    }
}

/// The search for a group: before the index found no group has the root;
/// at it, when it is not the end, one has.
pub proof fn lemma_group_index(groups: Seq<GroupView>, name: Seq<char>, j: int)
    requires
        0 <= j <= groups.len(),
    ensures
        j <= group_index(groups, name, j) <= groups.len(),
        group_index(groups, name, j) < groups.len() ==> groups[group_index(groups, name, j)].0 == name,
        forall|m: int| j <= m < group_index(groups, name, j) ==> groups[m].0 != name,
    decreases groups.len() - j,
{
    if j < groups.len() && groups[j].0 != name {
        lemma_group_index(groups, name, j + 1);
    }
}

/// The search for a subgroup, as `lemma_group_index`.
pub proof fn lemma_subgroup_index(subgroups: Seq<SubgroupView>, subtitle: Seq<char>, j: int)
    requires
        0 <= j <= subgroups.len(),
    ensures
        j <= subgroup_index(subgroups, subtitle, j) <= subgroups.len(),
        subgroup_index(subgroups, subtitle, j) < subgroups.len() ==> subgroups[subgroup_index(subgroups, subtitle, j)].0 == subtitle,
        forall|m: int| j <= m < subgroup_index(subgroups, subtitle, j) ==> subgroups[m].0 != subtitle,
    decreases subgroups.len() - j,
{
    if j < subgroups.len() && subgroups[j].0 != subtitle {
        lemma_subgroup_index(subgroups, subtitle, j + 1);
    }
}

/// Filing one more result keeps subgroups filing exactly their results.
proof fn lemma_add_to_subgroups(subgroups: Seq<SubgroupView>, results: Seq<SearchResult>, result: SearchResult)
    requires
        files_by_subtitle(subgroups, results),
    ensures
        files_by_subtitle(add_to_subgroups(subgroups, subtitle_of(result), result), results.push(result)),
{
    let t = subtitle_of(result);
    let rs = results.push(result);
    let key = subtitle_key();
    assert(rs.drop_last() =~= results);
    assert(key(result) == t);
    let names = subgroup_names(subgroups);
    lemma_subgroup_index(subgroups, t, 0);
    lemma_first_seen_distinct(results, key);
    let j = subgroup_index(subgroups, t, 0);
    let updated = add_to_subgroups(subgroups, t, result);
    if j < subgroups.len() {
        assert(names[j] == t);
        assert(first_seen(results, key).contains(t));
        assert(first_seen(rs, key) == first_seen(results, key));
        assert(subgroup_names(updated) =~= names);
        assert forall|k: int| 0 <= k < updated.len() implies #[trigger] updated[k].1 == having(rs, key, updated[k].0) by {
            assert(subgroups[k].1 == having(results, key, subgroups[k].0));
            if k != j {
                assert(names[k] != names[j]);
            }
        }
    } else {
        assert forall|m: int| 0 <= m < names.len() implies names[m] != t by {
            assert(subgroups[m].0 != t);
        }
        assert(!first_seen(results, key).contains(t));
        assert(first_seen(rs, key) == first_seen(results, key).push(t));
        assert(subgroup_names(updated) =~= names.push(t));
        lemma_having_seen(results, key, t);
        assert forall|k: int| 0 <= k < updated.len() implies #[trigger] updated[k].1 == having(rs, key, updated[k].0) by {
            if k < subgroups.len() {
                assert(subgroups[k].1 == having(results, key, subgroups[k].0));
                assert(subgroups[k].0 == names[k]);
            } else {
                assert(having(rs, key, t) =~= seq![result]);
            }
        }
    }
}

/// Filing one more result keeps groups filing exactly their results.
proof fn lemma_add_to_groups(groups: Seq<GroupView>, results: Seq<SearchResult>, result: SearchResult)
    requires
        files_by_root(groups, results),
    ensures
        files_by_root(add_to_groups(groups, result), results.push(result)),
{
    let n = group_name_of(result);
    let rs = results.push(result);
    let key = root_key();
    assert(rs.drop_last() =~= results);
    assert(key(result) == n);
    let names = group_names(groups);
    lemma_group_index(groups, n, 0);
    lemma_first_seen_distinct(results, key);
    let j = group_index(groups, n, 0);
    let updated = add_to_groups(groups, result);
    if j < groups.len() {
        assert(names[j] == n);
        assert(first_seen(results, key).contains(n));
        assert(first_seen(rs, key) == first_seen(results, key));
        assert(group_names(updated) =~= names);
        assert forall|i: int| 0 <= i < updated.len() implies files_by_subtitle(#[trigger] updated[i].1, having(rs, key, updated[i].0)) by {
            assert(files_by_subtitle(groups[i].1, having(results, key, groups[i].0)));
            if i != j {
                assert(names[i] != names[j]);
            } else {
                lemma_add_to_subgroups(groups[j].1, having(results, key, n), result);
            }
        }
    } else {
        assert forall|m: int| 0 <= m < names.len() implies names[m] != n by {
            assert(groups[m].0 != n);
        }
        assert(!first_seen(results, key).contains(n));
        assert(first_seen(rs, key) == first_seen(results, key).push(n));
        assert(group_names(updated) =~= names.push(n));
        lemma_having_seen(results, key, n);
        assert forall|i: int| 0 <= i < updated.len() implies files_by_subtitle(#[trigger] updated[i].1, having(rs, key, updated[i].0)) by {
            if i < groups.len() {
                assert(files_by_subtitle(groups[i].1, having(results, key, groups[i].0)));
                assert(groups[i].0 == names[i]);
            } else {
                let members = having(rs, key, n);
                assert(members =~= seq![result]);
                let subs = updated[i].1;
                assert(subs =~= seq![(subtitle_of(result), seq![result])]);
                let none = Seq::<SearchResult>::empty();
                assert(members.drop_last() =~= none);
                assert(members.last() == result);
                assert(first_seen(none, subtitle_key()) =~= Seq::<Seq<char>>::empty());
                assert(having(none, subtitle_key(), subtitle_of(result)) =~= none);
                assert(subtitle_key()(result) == subtitle_of(result));
                assert(first_seen(members, subtitle_key()) =~= seq![subtitle_of(result)]);
                assert(subgroup_names(subs) =~= seq![subtitle_of(result)]);
                assert(having(members, subtitle_key(), subtitle_of(result)) =~= seq![result]);
            }
        }
    }
}

/// Grouping files the results exactly: the groups are the distinct roots in
/// the order they are first seen; within a group, the subgroups are the
/// distinct decoded breadcrumbs of that root's results in the order they are
/// first seen; and each subgroup holds exactly the results with its root and
/// breadcrumb, in the order they came.
pub proof fn law_grouping_files_results(results: Seq<SearchResult>)
    ensures
        files_by_root(grouped(results), results),
    decreases results.len(),
{
    if results.len() == 0 {
        assert(group_names(grouped(results)) =~= Seq::<Seq<char>>::empty());
    } else {
        law_grouping_files_results(results.drop_last());
        lemma_add_to_groups(grouped(results.drop_last()), results.drop_last(), results.last());
        assert(results.drop_last().push(results.last()) =~= results);
    }
}

} // verus!

verus! {

broadcast use {
    vstd::seq_lib::lemma_multiset_commutative,
    vstd::seq_lib::group_to_multiset_ensures,
    vstd::multiset::group_multiset_axioms,
};

/// Appending a result to one subgroup adds it once to the subgroups' results.
proof fn lemma_subgroups_results_update(subgroups: Seq<SubgroupView>, j: int, result: SearchResult)
    requires
        0 <= j < subgroups.len(),
    ensures
        subgroups_results(subgroups.update(j, (subgroups[j].0, subgroups[j].1.push(result)))).to_multiset()
            =~= subgroups_results(subgroups).to_multiset().insert(result),
    decreases subgroups.len(),
{
    let updated = subgroups.update(j, (subgroups[j].0, subgroups[j].1.push(result)));
    let front = subgroups_results(subgroups.drop_last());
    if j == subgroups.len() - 1 {
        assert(updated.drop_last() =~= subgroups.drop_last());
        assert(front + subgroups[j].1.push(result) =~= (front + subgroups[j].1).push(result));
    } else {
        lemma_subgroups_results_update(subgroups.drop_last(), j, result);
        assert(updated.drop_last() =~= subgroups.drop_last().update(j, (subgroups[j].0, subgroups[j].1.push(result))));
    }
}

/// Filing a result in subgroups adds it once to their results.
proof fn lemma_subgroups_results_add(subgroups: Seq<SubgroupView>, subtitle: Seq<char>, result: SearchResult)
    ensures
        subgroups_results(add_to_subgroups(subgroups, subtitle, result)).to_multiset()
            =~= subgroups_results(subgroups).to_multiset().insert(result),
{
    lemma_subgroup_index(subgroups, subtitle, 0);
    let j = subgroup_index(subgroups, subtitle, 0);
    if j < subgroups.len() {
        lemma_subgroups_results_update(subgroups, j, result);
    } else {
        let pushed = subgroups.push((subtitle, seq![result]));
        assert(pushed.drop_last() =~= subgroups);
        assert(subgroups_results(subgroups) + seq![result] =~= subgroups_results(subgroups).push(result));
    }
}

/// Replacing one group's subgroups by ones with one more result adds that result once.
proof fn lemma_groups_results_update(groups: Seq<GroupView>, j: int, subgroups: Seq<SubgroupView>, result: SearchResult)
    requires
        0 <= j < groups.len(),
        subgroups_results(subgroups).to_multiset() =~= subgroups_results(groups[j].1).to_multiset().insert(result),
    ensures
        groups_results(groups.update(j, (groups[j].0, subgroups))).to_multiset()
            =~= groups_results(groups).to_multiset().insert(result),
    decreases groups.len(),
{
    let updated = groups.update(j, (groups[j].0, subgroups));
    if j == groups.len() - 1 {
        assert(updated.drop_last() =~= groups.drop_last());
    } else {
        lemma_groups_results_update(groups.drop_last(), j, subgroups, result);
        assert(updated.drop_last() =~= groups.drop_last().update(j, (groups[j].0, subgroups)));
    }
}

/// Filing a result in groups adds it once to their results.
proof fn lemma_groups_results_add(groups: Seq<GroupView>, result: SearchResult)
    ensures
        groups_results(add_to_groups(groups, result)).to_multiset()
            =~= groups_results(groups).to_multiset().insert(result),
{
    let n = group_name_of(result);
    lemma_group_index(groups, n, 0);
    let j = group_index(groups, n, 0);
    if j < groups.len() {
        lemma_subgroups_results_add(groups[j].1, subtitle_of(result), result);
        lemma_groups_results_update(groups, j, add_to_subgroups(groups[j].1, subtitle_of(result), result), result);
    } else {
        let subs = seq![(subtitle_of(result), seq![result])];
        let pushed = groups.push((n, subs));
        assert(pushed.drop_last() =~= groups);
        assert(subs.drop_last() =~= Seq::<SubgroupView>::empty());
        assert(subgroups_results(Seq::<SubgroupView>::empty()) =~= Seq::<SearchResult>::empty());
        assert(subs.last().1 == seq![result]);
        assert(Seq::<SearchResult>::empty() + seq![result] =~= seq![result]);
        assert(subgroups_results(subs) =~= seq![result]);
        assert(groups_results(groups) + seq![result] =~= groups_results(groups).push(result));
    }
}

/// Grouping neither loses nor repeats a result: the results in display order
/// are the given results, each as often as it was given.
pub proof fn law_grouping_is_permutation(results: Seq<SearchResult>)
    ensures
        groups_results(grouped(results)).to_multiset() =~= results.to_multiset(),
        groups_results(grouped(results)).len() == results.len(),
    decreases results.len(),
{
    if results.len() > 0 {
        law_grouping_is_permutation(results.drop_last());
        lemma_groups_results_add(grouped(results.drop_last()), results.last());
        assert(results.drop_last().push(results.last()) =~= results);
    } else {
        assert(groups_results(grouped(results)) =~= Seq::<SearchResult>::empty());
    }
    assert(groups_results(grouped(results)).to_multiset().len() == results.to_multiset().len());
}

} // verus!
