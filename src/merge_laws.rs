use crate::log_merge::{
    all_lines, insert_slot, interleaving, lemma_project_push, lines_of, merged_from, project, ts,
    BufferEntry, SourceItems,
};
use crate::tentacle::LogLine;
use vstd::multiset::*;
use vstd::prelude::*;

verus! {

broadcast use {vstd::seq_lib::group_seq_properties, group_multiset_axioms};

/// All lines of the first `upto` parts, as a bag.
pub open spec fn bag_of_parts(parts: Seq<Seq<LogLine>>, upto: int) -> Multiset<LogLine>
    decreases upto,
{
    if upto <= 0 {
        Multiset::empty()
    } else {
        bag_of_parts(parts, upto - 1).add(parts[upto - 1].to_multiset())
    }
}

/// The number of lines in the first `upto` sources.
pub open spec fn total_items(srcs: Seq<SourceItems>, upto: int) -> int
    decreases upto,
{
    if upto <= 0 {
        0
    } else {
        total_items(srcs, upto - 1) + lines_of(srcs[upto - 1]).len()
    }
}

spec fn bag_of_projections(out: Seq<LogLine>, tags: Seq<int>, upto: int) -> Multiset<LogLine>
    decreases upto,
{
    if upto <= 0 {
        Multiset::empty()
    } else {
        bag_of_projections(out, tags, upto - 1).add(project(out, tags, upto - 1).to_multiset())
    }
}

proof fn lemma_projections_push(out: Seq<LogLine>, tags: Seq<int>, x: LogLine, j: int, upto: int)
    requires
        tags.len() == out.len(),
        0 <= j,
    ensures
        bag_of_projections(out.push(x), tags.push(j), upto) == if j < upto {
            bag_of_projections(out, tags, upto).insert(x)
        } else {
            bag_of_projections(out, tags, upto)
        },
    decreases upto,
{
    if upto > 0 {
        lemma_projections_push(out, tags, x, j, upto - 1);
        lemma_project_push(out, tags, x, j, upto - 1);
        let before = bag_of_projections(out, tags, upto - 1);
        let p = project(out, tags, upto - 1);
        if j == upto - 1 {
            assert(p.push(x).to_multiset() =~= p.to_multiset().insert(x));
            assert(before.add(p.to_multiset().insert(x)) =~= before.add(p.to_multiset()).insert(x));
        } else if j < upto - 1 {
            assert(before.insert(x).add(p.to_multiset()) =~= before.add(p.to_multiset()).insert(x));
        }
    }
}

proof fn lemma_bag_is_projections(out: Seq<LogLine>, tags: Seq<int>, n: int)
    requires
        tags.len() == out.len(),
        forall|k: int| 0 <= k < tags.len() ==> 0 <= #[trigger] tags[k] < n,
    ensures
        out.to_multiset() == bag_of_projections(out, tags, n),
    decreases out.len(),
{
    if out.len() == 0 {
        assert(out.to_multiset() =~= Multiset::empty());
        lemma_projections_empty(out, tags, n);
    } else {
        let o = out.drop_last();
        let t = tags.drop_last();
        lemma_bag_is_projections(o, t, n);
        assert(o.push(out.last()) =~= out);
        assert(t.push(tags.last()) =~= tags);
        lemma_projections_push(o, t, out.last(), tags.last(), n);
    }
}

proof fn lemma_projections_empty(out: Seq<LogLine>, tags: Seq<int>, upto: int)
    requires
        out.len() == 0,
    ensures
        bag_of_projections(out, tags, upto) =~= Multiset::empty(),
    decreases upto,
{
    if upto > 0 {
        lemma_projections_empty(out, tags, upto - 1);
        assert(project(out, tags, upto - 1) =~= Seq::<LogLine>::empty());
    }
}

proof fn lemma_projections_are_parts(
    out: Seq<LogLine>,
    tags: Seq<int>,
    parts: Seq<Seq<LogLine>>,
    upto: int,
)
    requires
        0 <= upto <= parts.len(),
        forall|i: int| 0 <= i < upto ==> #[trigger] project(out, tags, i) == parts[i],
    ensures
        bag_of_projections(out, tags, upto) == bag_of_parts(parts, upto),
    decreases upto,
{
    if upto > 0 {
        lemma_projections_are_parts(out, tags, parts, upto - 1);
        assert(project(out, tags, upto - 1) == parts[upto - 1]);
    }
}

proof fn lemma_bag_len(srcs: Seq<SourceItems>, upto: int)
    requires
        0 <= upto <= srcs.len(),
    ensures
        bag_of_parts(all_lines(srcs), upto).len() == total_items(srcs, upto),
    decreases upto,
{
    if upto > 0 {
        lemma_bag_len(srcs, upto - 1);
        assert(all_lines(srcs)[upto - 1] == lines_of(srcs[upto - 1]));
    }
}

/// The lines a merge emits are, as a bag, the lines of all of its sources
/// together: nothing is lost, duplicated or made up.
pub proof fn lemma_merge_is_permutation(out: Seq<LogLine>, srcs: Seq<SourceItems>)
    requires
        merged_from(out, srcs),
    ensures
        out.to_multiset() == bag_of_parts(all_lines(srcs), srcs.len() as int),
{
    let tags = choose|tags: Seq<int>| #[trigger] interleaving(out, tags, all_lines(srcs));
    lemma_bag_is_projections(out, tags, srcs.len() as int);
    lemma_projections_are_parts(out, tags, all_lines(srcs), srcs.len() as int);
}

/// A merge of sources that all end without an error emits exactly as many
/// lines as the sources hold together, however often they answered "not yet".
pub proof fn lemma_merge_emits_every_item(out: Seq<LogLine>, srcs: Seq<SourceItems>)
    requires
        merged_from(out, srcs),
    ensures
        out.len() == total_items(srcs, srcs.len() as int),
{
    lemma_merge_is_permutation(out, srcs);
    lemma_bag_len(srcs, srcs.len() as int);
}

proof fn lemma_project_single(out: Seq<LogLine>, tags: Seq<int>)
    requires
        tags.len() == out.len(),
        forall|k: int| 0 <= k < tags.len() ==> #[trigger] tags[k] == 0,
    ensures
        project(out, tags, 0) == out,
    decreases out.len(),
{
    if out.len() > 0 {
        lemma_project_single(out.drop_last(), tags.drop_last());
        assert(out.drop_last().push(out.last()) =~= out);
    }
}

/// Merging a single source reproduces that source's lines unchanged.
pub proof fn lemma_single_source_passthrough(out: Seq<LogLine>, srcs: Seq<SourceItems>)
    requires
        srcs.len() == 1,
        merged_from(out, srcs),
    ensures
        out == lines_of(srcs[0]),
{
    let tags = choose|tags: Seq<int>| #[trigger] interleaving(out, tags, all_lines(srcs));
    lemma_project_single(out, tags);
    assert(project(out, tags, 0) == all_lines(srcs)[0]);
}

/// A line that enters the buffer stands behind every buffered line with the
/// same timestamp, which keeps its place: among equal timestamps the line
/// buffered first is emitted first.
pub proof fn lemma_equal_timestamps_keep_arrival_order(
    buffer: Seq<BufferEntry>,
    entry: BufferEntry,
    k: int,
)
    requires
        insert_slot(buffer, ts(entry), k),
    ensures
        forall|m: int|
            0 <= m < buffer.len() && ts(#[trigger] buffer[m]) == ts(entry) ==> m < k
                && buffer.insert(k, entry)[m] == buffer[m],
        buffer.insert(k, entry)[k] == entry,
{
}

} // verus!
