//! The walk over the tree, segment by segment.

use vstd::prelude::*;
use crate::item::{
    attrs_view, conditions, context_below, items_view, lemma_filter_empty, lemma_filter_push,
    lemma_items_view_push, placed, with_children, Attribute, AttributeView, File, Item, ItemKind,
    ItemView,
};
use crate::selector::{strings_view, Selector};

verus! {

/// Whether an item bears the name `seg`: exactly, and an item without a name
/// matches nothing.
pub open spec fn is_match(it: ItemView, seg: Seq<char>) -> bool {
    it.name == Some(seg)
}

/// The test for the items named `seg`.
pub open spec fn named(seg: Seq<char>) -> spec_fn(ItemView) -> bool {
    |c: ItemView| is_match(c, seg)
}

/// The test for the methods named `seg`.
pub open spec fn method_named(seg: Seq<char>) -> spec_fn(ItemView) -> bool {
    |c: ItemView| is_match(c, seg) && c.kind == ItemKind::Method
}

/// The test for the items named `seg` that are no methods.
pub open spec fn other_named(seg: Seq<char>) -> spec_fn(ItemView) -> bool {
    |c: ItemView| is_match(c, seg) && c.kind != ItemKind::Method
}

/// Hands an item out below the attributes `carried`.
pub open spec fn place_under(carried: Seq<AttributeView>) -> spec_fn(ItemView) -> ItemView {
    |c: ItemView| placed(carried, c)
}

/// What a trait or implementation block `it` gives when the path ends just
/// below it, on `seg`: the block itself, reduced to its methods of that name,
/// if it has any; then its other members of that name.
pub open spec fn search_members(carried: Seq<AttributeView>, it: ItemView, seg: Seq<char>) -> Seq<
    ItemView,
> {
    let methods = it.children.filter(method_named(seg));
    let others = it.children.filter(other_named(seg)).map_values(
        place_under(carried + conditions(it.attrs)),
    );
    if methods.len() > 0 {
        seq![placed(carried, with_children(it, methods))] + others
    } else {
        others
    }
}

/// What one item gives for the segments from position `i` on, where the
/// declarations around it put it under the conditions `carried`.
///
/// An item whose name is not segment `i` gives nothing. One that matches the
/// last segment gives itself. One that matches an earlier segment gives what
/// its children give for the next segment, if it is a container, and nothing
/// otherwise. Whatever is found carries the conditions of the containers that
/// the path went through, outermost first, before its own attributes.
pub open spec fn search_item(
    segs: Seq<Seq<char>>,
    i: int,
    carried: Seq<AttributeView>,
    it: ItemView,
) -> Seq<ItemView>
    decreases it,
{
    if !(0 <= i < segs.len()) || !is_match(it, segs[i]) {
        Seq::empty()
    } else if i == segs.len() - 1 {
        seq![placed(carried, it)]
    } else if it.kind.spec_holds_methods() && i + 1 == segs.len() - 1 {
        search_members(carried, it, segs[i + 1])
    } else if it.kind.spec_is_container() {
        search_items(segs, i + 1, carried + conditions(it.attrs), it.children)
    } else {
        Seq::empty()
    }
}

/// What a sequence of siblings gives for the segments from position `i` on:
/// what each of them gives, in order.
pub open spec fn search_items(
    segs: Seq<Seq<char>>,
    i: int,
    carried: Seq<AttributeView>,
    items: Seq<ItemView>,
) -> Seq<ItemView>
    decreases items,
{
    if items.len() == 0 {
        Seq::empty()
    } else {
        search_items(segs, i, carried, items.drop_last()) + search_item(
            segs,
            i,
            carried,
            items.last(),
        )
    }
}

/// The result of a search with the segments `segs` below the roots `roots`.
pub open spec fn search_spec(segs: Seq<Seq<char>>, roots: Seq<ItemView>) -> Seq<ItemView> {
    search_items(segs, 0, Seq::empty(), roots)
}

/// Copies of the methods of `it` that are named `seg`, in order.
fn collect_methods(it: &Item, seg: &String) -> (r: Vec<Item>)
    ensures
        items_view(r@) == it@.children.filter(method_named(seg@)),
{
    let ghost p = method_named(seg@);
    let mut r: Vec<Item> = Vec::new();
    let mut k: usize = 0;
    proof {
        assert(items_view(it.children@.take(0)) =~= Seq::<ItemView>::empty());
        lemma_filter_empty(p);
    }
    while k < it.children.len()
        invariant
            k <= it.children.len(),
            p == method_named(seg@),
            items_view(r@) == items_view(it.children@.take(k as int)).filter(p),
        decreases it.children.len() - k,
    {
        let c = &it.children[k];
        proof {
            lemma_items_view_push(it.children@.take(k as int), *c);
            assert(it.children@.take(k as int).push(*c) =~= it.children@.take(k + 1));
            lemma_filter_push(items_view(it.children@.take(k as int)), c@, p);
        }
        if c.is_named(seg) && is_method(c) {
            let copy = c.clone();
            proof {
                lemma_items_view_push(r@, copy);
            }
            r.push(copy);
        }
        k += 1;
    }
    assert(it.children@.take(it.children.len() as int) =~= it.children@);
    r
}

fn is_method(it: &Item) -> (r: bool)
    ensures
        r == (it@.kind == ItemKind::Method),
{
    match it.kind {
        ItemKind::Method => true,
        _ => false,
    }
}

/// Appends to `out` the members of `it` that are named `seg` and are no
/// methods, each below the attributes `below`.
fn push_other_members(it: &Item, seg: &String, below: &Vec<Attribute>, out: &mut Vec<Item>)
    ensures
        items_view(final(out)@) == items_view(old(out)@) + it@.children.filter(
            other_named(seg@),
        ).map_values(place_under(attrs_view(below@))),
{
    let ghost p = other_named(seg@);
    let ghost f = place_under(attrs_view(below@));
    let ghost before = items_view(out@);
    let mut k: usize = 0;
    proof {
        assert(items_view(it.children@.take(0)) =~= Seq::<ItemView>::empty());
        lemma_filter_empty(p);
        assert(before + Seq::<ItemView>::empty().map_values(f) =~= before);
    }
    while k < it.children.len()
        invariant
            k <= it.children.len(),
            p == other_named(seg@),
            f == place_under(attrs_view(below@)),
            items_view(out@) == before + items_view(it.children@.take(k as int)).filter(
                p,
            ).map_values(f),
        decreases it.children.len() - k,
    {
        let c = &it.children[k];
        let ghost done = items_view(it.children@.take(k as int));
        proof {
            lemma_items_view_push(it.children@.take(k as int), *c);
            assert(it.children@.take(k as int).push(*c) =~= it.children@.take(k + 1));
            lemma_filter_push(done, c@, p);
        }
        if c.is_named(seg) && !is_method(c) {
            let copy = c.placed_under(below);
            proof {
                lemma_items_view_push(out@, copy);
                assert(done.filter(p).push(c@).map_values(f) =~= done.filter(p).map_values(
                    f,
                ).push(f(c@)));
            }
            out.push(copy);
            assert(items_view(out@) =~= before + done.push(c@).filter(p).map_values(f));
        }
        k += 1;
    }
    assert(it.children@.take(it.children.len() as int) =~= it.children@);
}

/// Appends to `out` what `it` gives for the segments from `i` on.
fn walk_item(
    segs: &Vec<String>,
    i: usize,
    carried: &Vec<Attribute>,
    it: &Item,
    out: &mut Vec<Item>,
)
    requires
        i < segs.len(),
    ensures
        items_view(final(out)@) == items_view(old(out)@) + search_item(
            strings_view(segs@),
            i as int,
            attrs_view(carried@),
            it@,
        ),
    decreases it,
{
    let ghost sv = strings_view(segs@);
    let ghost before = items_view(out@);
    assert(sv.len() == segs@.len());
    assert(sv[i as int] == segs@[i as int]@);
    if !it.is_named(&segs[i]) {
        assert(before + Seq::<ItemView>::empty() =~= before);
    } else if i + 1 == segs.len() {
        let copy = it.placed_under(carried);
        proof {
            lemma_items_view_push(out@, copy);
            assert(before.push(copy@) =~= before + seq![copy@]);
        }
        out.push(copy);
    } else if it.kind.holds_methods() && i + 2 == segs.len() {
        assert(sv[i + 1] == segs@[i + 1]@);
        let methods = collect_methods(it, &segs[i + 1]);
        if methods.len() > 0 {
            let reduced = it.reduced_to(carried, methods);
            proof {
                lemma_items_view_push(out@, reduced);
            }
            out.push(reduced);
        }
        let below = context_below(carried, it);
        push_other_members(it, &segs[i + 1], &below, out);
        assert(items_view(out@) =~= before + search_members(attrs_view(carried@), it@, sv[i + 1]));
    } else if it.kind.is_container() {
        let below = context_below(carried, it);
        walk_items(segs, i + 1, &below, &it.children, out);
    } else {
        assert(before + Seq::<ItemView>::empty() =~= before);
    }
}

/// Appends to `out` what the siblings `items` give for the segments from `i` on.
fn walk_items(
    segs: &Vec<String>,
    i: usize,
    carried: &Vec<Attribute>,
    items: &Vec<Item>,
    out: &mut Vec<Item>,
)
    requires
        i < segs.len(),
    ensures
        items_view(final(out)@) == items_view(old(out)@) + search_items(
            strings_view(segs@),
            i as int,
            attrs_view(carried@),
            items_view(items@),
        ),
    decreases items,
{
    let ghost sv = strings_view(segs@);
    let ghost cv = attrs_view(carried@);
    let ghost before = items_view(out@);
    let mut k: usize = 0;
    assert(items_view(items@.take(0)) =~= Seq::<ItemView>::empty());
    assert(before + Seq::<ItemView>::empty() =~= before);
    while k < items.len()
        invariant
            k <= items.len(),
            i < segs.len(),
            sv == strings_view(segs@),
            cv == attrs_view(carried@),
            items_view(out@) == before + search_items(
                sv,
                i as int,
                cv,
                items_view(items@.take(k as int)),
            ),
        decreases items.len() - k,
    {
        let ghost done = items_view(items@.take(k as int));
        proof {
            lemma_items_view_push(items@.take(k as int), items@[k as int]);
            assert(items@.take(k as int).push(items@[k as int]) =~= items@.take(k + 1));
            assert(done.push(items@[k as int]@).drop_last() =~= done);
        }
        walk_item(segs, i, carried, &items[k], out);
        assert(items_view(out@) =~= before + search_items(
            sv,
            i as int,
            cv,
            items_view(items@.take(k + 1)),
        ));
        k += 1;
    }
    assert(items@.take(items.len() as int) =~= items@);
}

/// Every declaration below `file` that sits exactly at the end of the path
/// `segs`, in document order.
pub fn search_segments(segs: &Vec<String>, file: &File) -> (r: Vec<Item>)
    requires
        segs@.len() >= 1,
    ensures
        items_view(r@) == search_spec(strings_view(segs@), file@),
{
    let mut out: Vec<Item> = Vec::new();
    let carried: Vec<Attribute> = Vec::new();
    let ghost found = search_spec(strings_view(segs@), file@);
    assert(items_view(out@) =~= Seq::<ItemView>::empty());
    assert(attrs_view(carried@) =~= Seq::<AttributeView>::empty());
    walk_items(segs, 0, &carried, &file.items, &mut out);
    assert(Seq::<ItemView>::empty() + found =~= found);
    out
}

impl Selector {
    /// Every declaration below `file` that sits exactly at the end of this
    /// selector's path, in document order. Nothing found is no failure: the
    /// result is then empty.
    pub fn search(&self, file: &File) -> (r: Vec<Item>)
        requires
            self.wf(),
        ensures
            items_view(r@) == search_spec(self@, file@),
    {
        search_segments(self.segments(), file)
    }
}

} // verus!
