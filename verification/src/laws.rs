//! What holds of parsing and searching in general.

use vstd::prelude::*;
use crate::error::ErrorView;
use crate::item::{
    conditions, item_view, items_view, lemma_filter_empty, lemma_filter_push, placed,
    with_children, AttributeView, Item, ItemKind, ItemView,
};
use crate::select_spec;
use crate::search::{
    is_match, method_named, named, place_under, search_item, search_items, search_spec,
};
use crate::selector::{
    first_refused_from, is_segment, is_separator_at, lemma_segment_count, parse_spec,
    separator_count, split_from, split_path, verdicts, Selector,
};

verus! {

/// The value of a sequence of items has the same length, and holds at each
/// position the value of the item at that position.
pub proof fn law_items_view_is_pointwise(items: Seq<Item>)
    ensures
        items_view(items).len() == items.len(),
        forall|k: int| 0 <= k < items.len() ==> #[trigger] items_view(items)[k] == item_view(items[k]),
    decreases items.len(),
{
    if items.len() > 0 {
        law_items_view_is_pointwise(items.drop_last());
    }
}

/// If no piece from `from` on is empty or turned down, none is refused.
pub proof fn lemma_none_refused(pieces: Seq<Seq<char>>, accepted: Seq<bool>, from: int)
    requires
        0 <= from,
        forall|k: int| from <= k < pieces.len() ==> (#[trigger] pieces[k]).len() > 0 && accepted[k],
    ensures
        first_refused_from(pieces, accepted, from) >= pieces.len(),
    decreases pieces.len() - from,
{
    if from < pieces.len() {
        assert(pieces[from].len() > 0 && accepted[from]);
        lemma_none_refused(pieces, accepted, from + 1);
    }
}

/// If some piece at or after `from` is empty or turned down, the first piece
/// that is refused stands at or before it.
pub proof fn lemma_some_refused(pieces: Seq<Seq<char>>, accepted: Seq<bool>, from: int, k: int)
    requires
        0 <= from <= k < pieces.len(),
        pieces[k].len() == 0 || !accepted[k],
    ensures
        from <= first_refused_from(pieces, accepted, from) <= k,
    decreases pieces.len() - from,
{
    if !(pieces[from].len() == 0 || !accepted[from]) {
        lemma_some_refused(pieces, accepted, from + 1, k);
    }
}

/// A path that is not empty and whose pieces are all valid segments parses,
/// and gives one segment more than it has separators.
pub proof fn law_valid_path_parses(path: Seq<char>)
    requires
        path.len() > 0,
        forall|k: int|
            0 <= k < split_path(path).len() ==> is_segment(#[trigger] split_path(path)[k]),
    ensures
        parse_spec(path) == Ok::<Seq<Seq<char>>, ErrorView>(split_path(path)),
        split_path(path).len() == separator_count(path) + 1,
{
    let segs = split_path(path);
    assert forall|k: int| 0 <= k < segs.len() implies (#[trigger] segs[k]).len() > 0 && verdicts(
        segs,
    )[k] by {
        assert(is_segment(segs[k]));
    }
    lemma_none_refused(segs, verdicts(segs), 0);
    lemma_segment_count(path, 0, 0);
}

/// The empty path is refused as empty.
pub proof fn law_empty_path_fails(path: Seq<char>)
    requires
        path.len() == 0,
    ensures
        parse_spec(path) == Err::<Seq<Seq<char>>, ErrorView>(ErrorView::EmptyPath),
{
}

/// Whether a separator at `p` is followed directly by another.
pub open spec fn is_doubled_separator_at(path: Seq<char>, p: int) -> bool {
    is_separator_at(path, p) && is_separator_at(path, p + 2)
}

/// Whether two separators follow each other directly somewhere in the path.
pub open spec fn has_doubled_separator(path: Seq<char>) -> bool {
    exists|p: int| #[trigger] is_doubled_separator_at(path, p)
}

/// Whether one of the pieces is empty.
pub open spec fn has_empty_piece(segs: Seq<Seq<char>>) -> bool {
    exists|k: int| 0 <= k < segs.len() && (#[trigger] segs[k]).len() == 0
}

/// Where two separators follow each other at `p`, the pieces cut from any
/// point before them hold an empty one.
pub proof fn lemma_doubled_gives_empty_piece(s: Seq<char>, start: int, pos: int, p: int)
    requires
        is_separator_at(s, p),
        is_separator_at(s, p + 2),
        0 <= start <= pos,
        pos <= p || (pos == p + 1 && start == pos),
    ensures
        has_empty_piece(split_from(s, start, pos)),
    decreases s.len() - pos,
{
    let here = split_from(s, start, pos);
    if pos == p + 1 {
        assert(is_separator_at(s, pos));
        assert(here[0].len() == 0);
    } else if pos == p {
        let rest = split_from(s, p + 2, p + 2);
        assert(rest[0].len() == 0);
        assert(here[1] == rest[0]);
    } else if is_separator_at(s, pos) {
        let rest = split_from(s, pos + 2, pos + 2);
        lemma_doubled_gives_empty_piece(s, pos + 2, pos + 2, p);
        let k = choose|k: int| 0 <= k < rest.len() && (#[trigger] rest[k]).len() == 0;
        assert(here[k + 1] == rest[k]);
    } else {
        lemma_doubled_gives_empty_piece(s, start, pos + 1, p);
    }
}

/// A path of which one piece is empty is refused because of one of its
/// segments.
pub proof fn law_empty_piece_fails(path: Seq<char>)
    requires
        has_empty_piece(split_path(path)),
    ensures
        parse_spec(path) is Err,
        path.len() > 0 ==> parse_spec(path)->Err_0 is InvalidSegment,
{
    let segs = split_path(path);
    let k = choose|k: int| 0 <= k < segs.len() && (#[trigger] segs[k]).len() == 0;
    lemma_some_refused(segs, verdicts(segs), 0, k);
}

/// A path in which two separators follow each other directly is refused
/// because of one of its segments.
pub proof fn law_doubled_separator_fails(path: Seq<char>)
    requires
        has_doubled_separator(path),
    ensures
        parse_spec(path) is Err,
        parse_spec(path)->Err_0 is InvalidSegment,
{
    let p = choose|p: int| #[trigger] is_doubled_separator_at(path, p);
    lemma_doubled_gives_empty_piece(path, 0, 0, p);
    law_empty_piece_fails(path);
}

/// A path that begins with a separator is refused because of its first
/// segment, which is empty.
pub proof fn law_leading_separator_fails(path: Seq<char>)
    requires
        is_separator_at(path, 0),
    ensures
        parse_spec(path) == Err::<Seq<Seq<char>>, ErrorView>(
            ErrorView::InvalidSegment(Seq::empty()),
        ),
{
    let segs = split_path(path);
    assert(segs[0] =~= Seq::<char>::empty());
}

/// A path that ends where a separator has just been cut off is refused: its
/// last piece is empty.
pub proof fn law_trailing_separator_fails(path: Seq<char>)
    requires
        split_path(path).last().len() == 0,
    ensures
        parse_spec(path) is Err,
{
    lemma_segment_count(path, 0, 0);
    let segs = split_path(path);
    assert(segs[segs.len() - 1].len() == 0);
    law_empty_piece_fails(path);
}

/// A selector is never empty: every search has a first segment to look for.
pub proof fn law_selector_never_empty(selector: Selector)
    requires
        selector.wf(),
    ensures
        selector@.len() >= 1,
        is_segment(selector@[0]),
{
}

/// Whatever parses gives at least one segment.
pub proof fn law_parsed_path_has_segment(path: Seq<char>)
    ensures
        parse_spec(path) is Ok ==> parse_spec(path)->Ok_0.len() >= 1,
{
    lemma_segment_count(path, 0, 0);
}

/// At whatever depth, siblings of which none bears the segment looked for
/// give nothing.
pub proof fn law_no_match_at_depth_is_empty(
    segs: Seq<Seq<char>>,
    i: int,
    carried: Seq<AttributeView>,
    items: Seq<ItemView>,
)
    requires
        0 <= i < segs.len(),
        forall|k: int| 0 <= k < items.len() ==> !is_match(#[trigger] items[k], segs[i]),
    ensures
        search_items(segs, i, carried, items) == Seq::<ItemView>::empty(),
    decreases items.len(),
{
    if items.len() > 0 {
        law_no_match_at_depth_is_empty(segs, i, carried, items.drop_last());
        assert(!is_match(items[items.len() - 1], segs[i]));
        assert(search_item(segs, i, carried, items.last()) == Seq::<ItemView>::empty());
        assert(Seq::<ItemView>::empty() + Seq::<ItemView>::empty() =~= Seq::<ItemView>::empty());
    }
}

/// A search whose first segment names none of the roots finds nothing, and
/// that is no failure.
pub proof fn law_no_match_is_empty(segs: Seq<Seq<char>>, roots: Seq<ItemView>)
    requires
        segs.len() >= 1,
        forall|k: int| 0 <= k < roots.len() ==> !is_match(#[trigger] roots[k], segs[0]),
    ensures
        search_spec(segs, roots) == Seq::<ItemView>::empty(),
{
    law_no_match_at_depth_is_empty(segs, 0, Seq::empty(), roots);
}

/// A path that parses and whose first segment names none of the roots gives
/// an empty result and no error.
pub proof fn law_unmatched_path_is_no_error(path: Seq<char>, roots: Seq<ItemView>)
    requires
        parse_spec(path) is Ok,
        forall|k: int|
            0 <= k < roots.len() ==> !is_match(#[trigger] roots[k], parse_spec(path)->Ok_0[0]),
    ensures
        select_spec(path, roots) == Ok::<Seq<ItemView>, ErrorView>(Seq::empty()),
{
    law_parsed_path_has_segment(path);
    law_no_match_is_empty(parse_spec(path)->Ok_0, roots);
}

/// At the last segment, siblings give exactly those among them that bear the
/// name, each once, in their order, whatever their kind.
pub proof fn law_last_segment_keeps_all_matches(
    segs: Seq<Seq<char>>,
    carried: Seq<AttributeView>,
    items: Seq<ItemView>,
)
    requires
        segs.len() >= 1,
    ensures
        search_items(segs, segs.len() - 1, carried, items) == items.filter(
            named(segs.last()),
        ).map_values(place_under(carried)),
    decreases items.len(),
{
    let p = named(segs.last());
    let f = place_under(carried);
    if items.len() == 0 {
        lemma_filter_empty(p);
        assert(items =~= Seq::<ItemView>::empty());
        assert(Seq::<ItemView>::empty().map_values(f) =~= Seq::<ItemView>::empty());
    } else {
        let init = items.drop_last();
        let x = items.last();
        law_last_segment_keeps_all_matches(segs, carried, init);
        lemma_filter_push(init, x, p);
        assert(init.push(x) =~= items);
        let kept = init.filter(p).map_values(f);
        let i = segs.len() - 1;
        assert(segs[i] == segs.last());
        assert(search_items(segs, i, carried, items) == search_items(segs, i, carried, init)
            + search_item(segs, i, carried, x));
        assert(p(x) == is_match(x, segs[i]));
        if p(x) {
            assert(search_item(segs, i, carried, x) == seq![placed(carried, x)]);
            assert(init.filter(p).push(x).map_values(f) =~= kept.push(f(x)));
            assert(kept + seq![placed(carried, x)] =~= kept.push(f(x)));
        } else {
            assert(search_item(segs, i, carried, x) == Seq::<ItemView>::empty());
            assert(kept + Seq::<ItemView>::empty() =~= kept);
        }
    }
}

/// Two siblings of whatever kinds that both bear the last segment's name are
/// both found, in their order.
pub proof fn law_same_name_siblings_are_both_found(
    segs: Seq<Seq<char>>,
    carried: Seq<AttributeView>,
    first: ItemView,
    second: ItemView,
)
    requires
        segs.len() >= 1,
        is_match(first, segs.last()),
        is_match(second, segs.last()),
    ensures
        search_items(segs, segs.len() - 1, carried, seq![first, second]) == seq![
            placed(carried, first),
            placed(carried, second),
        ],
{
    let p = named(segs.last());
    let f = place_under(carried);
    let both = seq![first, second];
    law_last_segment_keeps_all_matches(segs, carried, both);
    lemma_filter_empty(p);
    lemma_filter_push(Seq::<ItemView>::empty(), first, p);
    lemma_filter_push(seq![first], second, p);
    assert(Seq::<ItemView>::empty().push(first) =~= seq![first]);
    assert(seq![first].push(second) =~= both);
    assert(both.map_values(f) =~= seq![placed(carried, first), placed(carried, second)]);
}

/// Where a path goes on below a function or method, the declarations in its
/// body are searched for the next segment.
pub proof fn law_function_body_is_searched(
    segs: Seq<Seq<char>>,
    i: int,
    carried: Seq<AttributeView>,
    it: ItemView,
)
    requires
        0 <= i < segs.len() - 1,
        is_match(it, segs[i]),
        it.kind == ItemKind::Function || it.kind == ItemKind::Method,
    ensures
        search_item(segs, i, carried, it) == search_items(
            segs,
            i + 1,
            carried + conditions(it.attrs),
            it.children,
        ),
{
}

/// Where a path ends on a method of a trait or implementation block, the
/// first thing found is the block itself, reduced to its methods of that
/// name: each child of it is such a method, and there is at least one.
pub proof fn law_method_gives_reduced_block(
    segs: Seq<Seq<char>>,
    carried: Seq<AttributeView>,
    it: ItemView,
    k: int,
)
    requires
        segs.len() >= 2,
        is_match(it, segs[segs.len() - 2]),
        it.kind.spec_holds_methods(),
        0 <= k < it.children.len(),
        it.children[k].kind == ItemKind::Method,
        is_match(it.children[k], segs.last()),
    ensures
        search_item(segs, segs.len() - 2, carried, it).len() >= 1,
        search_item(segs, segs.len() - 2, carried, it)[0] == placed(
            carried,
            with_children(it, it.children.filter(method_named(segs.last()))),
        ),
        search_item(segs, segs.len() - 2, carried, it)[0].children.len() >= 1,
        forall|j: int|
            0 <= j < search_item(segs, segs.len() - 2, carried, it)[0].children.len() ==> {
                let m = #[trigger] search_item(segs, segs.len() - 2, carried, it)[0].children[j];
                m.kind == ItemKind::Method && is_match(m, segs.last())
            },
{
    let p = method_named(segs.last());
    let methods = it.children.filter(p);
    broadcast use vstd::seq_lib::group_filter_ensures;

    assert(p(it.children[k]));
    assert(methods.contains(it.children[k]));
    assert forall|j: int| 0 <= j < methods.len() implies {
        let m = #[trigger] methods[j];
        m.kind == ItemKind::Method && is_match(m, segs.last())
    } by {
        assert(p(methods[j]));
    }
}

/// The pieces of `segs`, put together again with the separator between them.
pub open spec fn join_path(segs: Seq<Seq<char>>) -> Seq<char>
    decreases segs.len(),
{
    if segs.len() == 0 {
        Seq::empty()
    } else if segs.len() == 1 {
        segs[0]
    } else {
        segs[0] + seq![':', ':'] + join_path(segs.drop_first())
    }
}

/// The pieces cut from `start` on, joined again, are the path from `start` on.
pub proof fn lemma_pieces_join(s: Seq<char>, start: int, pos: int)
    requires
        0 <= start <= pos <= s.len(),
    ensures
        join_path(split_from(s, start, pos)) == s.subrange(start, s.len() as int),
    decreases s.len() - pos,
{
    if pos >= s.len() {
    } else if is_separator_at(s, pos) {
        let rest = split_from(s, pos + 2, pos + 2);
        let here = split_from(s, start, pos);
        lemma_pieces_join(s, pos + 2, pos + 2);
        lemma_segment_count(s, pos + 2, pos + 2);
        assert(here.drop_first() =~= rest);
        assert(here[0] == s.subrange(start, pos));
        assert(s.subrange(start, pos) + seq![':', ':'] + s.subrange(pos + 2, s.len() as int)
            =~= s.subrange(start, s.len() as int));
    } else {
        lemma_pieces_join(s, start, pos + 1);
    }
}

/// Cutting a path loses nothing: its pieces, joined with the separator, are
/// the path again.
pub proof fn law_pieces_join_to_path(path: Seq<char>)
    ensures
        join_path(split_path(path)) == path,
{
    lemma_pieces_join(path, 0, 0);
    assert(path.subrange(0, path.len() as int) =~= path);
}

/// The same search on the same tree gives the same result, in the same order.
pub proof fn law_search_repeats(
    path: Seq<char>,
    roots: Seq<ItemView>,
    first: Result<Seq<ItemView>, ErrorView>,
    second: Result<Seq<ItemView>, ErrorView>,
)
    requires
        first == select_spec(path, roots),
        second == select_spec(path, roots),
    ensures
        first == second,
        first is Ok ==> first->Ok_0.len() == second->Ok_0.len(),
        first is Ok ==> forall|k: int|
            0 <= k < first->Ok_0.len() ==> first->Ok_0[k] == second->Ok_0[k],
{
}

} // verus!
