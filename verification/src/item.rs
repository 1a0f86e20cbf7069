//! The tree of declarations that a search walks.

use vstd::prelude::*;
use vstd::string::*;

verus! {

/// What sort of declaration an [`Item`] is.
#[derive(Debug, Clone, Copy, PartialEq, Eq, Structural)]
pub enum ItemKind {
    Module,
    Function,
    Trait,
    Impl,
    /// A function declared inside a trait or an implementation block.
    Method,
    Struct,
    Enum,
    Union,
    Const,
    Static,
    TypeAlias,
    TraitAlias,
    Macro,
    Use,
    ExternCrate,
    ForeignMod,
    /// A constant declared inside a trait or an implementation block.
    AssocConst,
    /// A type declared inside a trait or an implementation block.
    AssocType,
    Other,
}

impl ItemKind {
    /// Whether a path may continue below a declaration of this kind. The body
    /// of a function or method counts as a container of its local declarations.
    pub open spec fn spec_is_container(self) -> bool {
        self == ItemKind::Module || self == ItemKind::Trait || self == ItemKind::Impl
            || self == ItemKind::Function || self == ItemKind::Method
    }

    /// Whether declarations of this kind hold methods, which are handed out
    /// only together with the enclosing declaration.
    pub open spec fn spec_holds_methods(self) -> bool {
        self == ItemKind::Trait || self == ItemKind::Impl
    }

    #[verifier::when_used_as_spec(spec_is_container)]
    pub fn is_container(self) -> (r: bool)
        ensures
            r == self.spec_is_container(),
    {
        match self {
            ItemKind::Module | ItemKind::Trait | ItemKind::Impl | ItemKind::Function
            | ItemKind::Method => true,
            _ => false,
        }
    }

    #[verifier::when_used_as_spec(spec_holds_methods)]
    pub fn holds_methods(self) -> (r: bool)
        ensures
            r == self.spec_holds_methods(),
    {
        match self {
            ItemKind::Trait | ItemKind::Impl => true,
            _ => false,
        }
    }
}

/// An attribute on a declaration.
#[derive(Debug, PartialEq, Eq)]
pub struct Attribute {
    /// The attribute's path, such as `cfg` or `derive`.
    pub path: String,
    /// A handle chosen by whoever built the tree; a search carries it through.
    pub id: u64,
}

/// The mathematical value of an [`Attribute`].
pub struct AttributeView {
    pub path: Seq<char>,
    pub id: u64,
}

impl View for Attribute {
    type V = AttributeView;

    open spec fn view(&self) -> AttributeView {
        AttributeView { path: self.path@, id: self.id }
    }
}

/// The values of a sequence of attributes, one for one.
pub open spec fn attrs_view(attrs: Seq<Attribute>) -> Seq<AttributeView> {
    attrs.map_values(|a: Attribute| a@)
}

/// The path of the attributes that put a declaration under a condition.
pub open spec fn condition_path() -> Seq<char> {
    seq!['c', 'f', 'g']
}

/// The test for the attributes that put a declaration under a condition.
pub open spec fn is_condition() -> spec_fn(AttributeView) -> bool {
    |a: AttributeView| a.path == condition_path()
}

/// The attributes among `attrs` that put a declaration under a condition.
pub open spec fn conditions(attrs: Seq<AttributeView>) -> Seq<AttributeView> {
    attrs.filter(is_condition())
}

/// One declaration of the tree, with the declarations nested in it.
#[derive(Debug, PartialEq, Eq)]
pub struct Item {
    pub kind: ItemKind,
    /// The declaration's name; some kinds have none.
    pub name: Option<String>,
    /// The attributes on the declaration, in order.
    pub attrs: Vec<Attribute>,
    /// A handle chosen by whoever built the tree; a search carries it through.
    pub id: u64,
    /// The nested declarations, in document order.
    pub children: Vec<Item>,
}

/// A whole source file: its top-level declarations in document order.
#[derive(Debug, PartialEq, Eq)]
pub struct File {
    pub items: Vec<Item>,
}

/// The mathematical value of an [`Item`].
pub struct ItemView {
    pub kind: ItemKind,
    pub name: Option<Seq<char>>,
    pub attrs: Seq<AttributeView>,
    pub id: u64,
    pub children: Seq<ItemView>,
}

/// The value of one item.
pub open spec fn item_view(it: Item) -> ItemView
    decreases it,
{
    ItemView {
        kind: it.kind,
        name: match it.name {
            Some(s) => Some(s@),
            None => None,
        },
        attrs: attrs_view(it.attrs@),
        id: it.id,
        children: items_view(it.children@),
    }
}

/// The values of a sequence of items, one for one.
pub open spec fn items_view(items: Seq<Item>) -> Seq<ItemView>
    decreases items,
{
    if items.len() == 0 {
        Seq::empty()
    } else {
        items_view(items.drop_last()).push(item_view(items.last()))
    }
}

impl View for Item {
    type V = ItemView;

    open spec fn view(&self) -> ItemView {
        item_view(*self)
    }
}

impl View for File {
    type V = Seq<ItemView>;

    open spec fn view(&self) -> Seq<ItemView> {
        items_view(self.items@)
    }
}

/// Appending an item appends its value.
pub proof fn lemma_items_view_push(items: Seq<Item>, it: Item)
    ensures
        items_view(items.push(it)) == items_view(items).push(item_view(it)),
{
    assert(items.push(it).drop_last() =~= items);
}

/// Filtering a sequence with one more element keeps or drops that element.
pub proof fn lemma_filter_push<A>(s: Seq<A>, x: A, p: spec_fn(A) -> bool)
    ensures
        s.push(x).filter(p) == if p(x) {
            s.filter(p).push(x)
        } else {
            s.filter(p)
        },
{
    reveal(Seq::filter);
    assert(s.push(x).drop_last() =~= s);
}

/// Filtering the empty sequence leaves it empty.
pub proof fn lemma_filter_empty<A>(p: spec_fn(A) -> bool)
    ensures
        Seq::<A>::empty().filter(p) == Seq::<A>::empty(),
{
    reveal(Seq::filter);
}

impl Attribute {
    /// Whether the attribute puts its declaration under a condition.
    pub fn is_condition(&self) -> (r: bool)
        ensures
            r == is_condition()(self@),
    {
        let n = self.path.as_str().unicode_len();
        let r = n == 3 && self.path.as_str().get_char(0) == 'c' && self.path.as_str().get_char(1)
            == 'f' && self.path.as_str().get_char(2) == 'g';
        assert(r == (self@.path =~= condition_path()));
        r
    }
}

impl Clone for Attribute {
    fn clone(&self) -> (r: Attribute)
        ensures
            r == *self,
    {
        Attribute { path: self.path.clone(), id: self.id }
    }
}

/// Appends to `out` copies of the attributes of `attrs`: all of them, or only
/// those that put a declaration under a condition.
fn append_attrs(out: &mut Vec<Attribute>, attrs: &Vec<Attribute>, only_conditions: bool)
    ensures
        attrs_view(final(out)@) == attrs_view(old(out)@) + if only_conditions {
            conditions(attrs_view(attrs@))
        } else {
            attrs_view(attrs@)
        },
{
    let ghost before = attrs_view(out@);
    let mut k: usize = 0;
    proof {
        lemma_filter_empty(is_condition());
        assert(attrs_view(attrs@.take(0)) =~= Seq::<AttributeView>::empty());
        assert(before + Seq::<AttributeView>::empty() =~= before);
    }
    while k < attrs.len()
        invariant
            k <= attrs.len(),
            attrs_view(out@) == before + if only_conditions {
                conditions(attrs_view(attrs@.take(k as int)))
            } else {
                attrs_view(attrs@.take(k as int))
            },
        decreases attrs.len() - k,
    {
        let a = &attrs[k];
        let ghost done = attrs_view(attrs@.take(k as int));
        let ghost had = attrs_view(out@);
        proof {
            assert(attrs_view(attrs@.take(k + 1)) =~= done.push(a@));
            lemma_filter_push(done, a@, is_condition());
        }
        if !only_conditions || a.is_condition() {
            out.push(a.clone());
            assert(attrs_view(out@) =~= had.push(a@));
            assert(attrs_view(out@) =~= before + if only_conditions {
                conditions(done.push(a@))
            } else {
                done.push(a@)
            });
        }
        k += 1;
    }
    assert(attrs@.take(attrs.len() as int) =~= attrs@);
}

/// The attributes that declarations below `it` carry: those in `carried`,
/// then those by which `it` itself stands under a condition.
pub fn context_below(carried: &Vec<Attribute>, it: &Item) -> (r: Vec<Attribute>)
    ensures
        attrs_view(r@) == attrs_view(carried@) + conditions(it@.attrs),
{
    let mut r: Vec<Attribute> = Vec::new();
    assert(attrs_view(r@) =~= Seq::<AttributeView>::empty());
    append_attrs(&mut r, carried, false);
    assert(attrs_view(r@) =~= attrs_view(carried@));
    append_attrs(&mut r, &it.attrs, true);
    r
}

fn copy_attrs(v: &Vec<Attribute>) -> (r: Vec<Attribute>)
    ensures
        attrs_view(r@) == attrs_view(v@),
{
    let mut r: Vec<Attribute> = Vec::new();
    assert(attrs_view(r@) =~= Seq::<AttributeView>::empty());
    append_attrs(&mut r, v, false);
    assert(attrs_view(r@) =~= attrs_view(v@));
    r
}

fn copy_items(v: &Vec<Item>) -> (r: Vec<Item>)
    ensures
        items_view(r@) == items_view(v@),
    decreases v,
{
    let mut r: Vec<Item> = Vec::new();
    let mut k: usize = 0;
    while k < v.len()
        invariant
            k <= v.len(),
            items_view(r@) == items_view(v@.take(k as int)),
        decreases v.len() - k,
    {
        let c = copy_item(&v[k]);
        proof {
            lemma_items_view_push(r@, c);
            lemma_items_view_push(v@.take(k as int), v@[k as int]);
            assert(v@.take(k as int).push(v@[k as int]) =~= v@.take(k + 1));
        }
        r.push(c);
        k += 1;
    }
    assert(v@.take(v.len() as int) =~= v@);
    r
}

fn copy_item(it: &Item) -> (r: Item)
    ensures
        r@ == it@,
    decreases it,
{
    let name = match &it.name {
        Some(s) => Some(s.clone()),
        None => None,
    };
    Item {
        kind: it.kind,
        name,
        attrs: copy_attrs(&it.attrs),
        id: it.id,
        children: copy_items(&it.children),
    }
}

/// The value of `it` with its children replaced.
pub open spec fn with_children(it: ItemView, children: Seq<ItemView>) -> ItemView {
    ItemView { kind: it.kind, name: it.name, attrs: it.attrs, id: it.id, children }
}

/// The value of `it` as a search hands it out: before its own attributes
/// stand those that it carries from the declarations around it.
pub open spec fn placed(carried: Seq<AttributeView>, it: ItemView) -> ItemView {
    ItemView {
        kind: it.kind,
        name: it.name,
        attrs: carried + it.attrs,
        id: it.id,
        children: it.children,
    }
}

impl Item {
    /// Whether the item's name is exactly `seg`.
    pub fn is_named(&self, seg: &String) -> (r: bool)
        ensures
            r == (self@.name == Some(seg@)),
    {
        match &self.name {
            Some(n) => *n == *seg,
            None => false,
        }
    }

    /// A copy of the item alone, with `children` in place of its own, and
    /// with the attributes `carried` before its own.
    pub fn reduced_to(&self, carried: &Vec<Attribute>, children: Vec<Item>) -> (r: Item)
        ensures
            r@ == placed(attrs_view(carried@), with_children(self@, items_view(children@))),
    {
        let name = match &self.name {
            Some(s) => Some(s.clone()),
            None => None,
        };
        let mut attrs: Vec<Attribute> = Vec::new();
        assert(attrs_view(attrs@) =~= Seq::<AttributeView>::empty());
        append_attrs(&mut attrs, carried, false);
        assert(attrs_view(attrs@) =~= attrs_view(carried@));
        append_attrs(&mut attrs, &self.attrs, false);
        Item { kind: self.kind, name, attrs, id: self.id, children }
    }

    /// A copy of the whole subtree, with the attributes `carried` before the
    /// item's own.
    pub fn placed_under(&self, carried: &Vec<Attribute>) -> (r: Item)
        ensures
            r@ == placed(attrs_view(carried@), self@),
    {
        self.reduced_to(carried, copy_items(&self.children))
    }
}

impl Clone for Item {
    /// A copy of the whole subtree, equal in value to this item.
    fn clone(&self) -> (r: Item)
        ensures
            r@ == self@,
    {
        copy_item(self)
    }
}

} // verus!
