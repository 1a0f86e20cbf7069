use syn_select::{select, Attribute, Error, File, Item, ItemKind, Selector};

fn attr(path: &str, id: u64) -> Attribute {
    Attribute { path: path.to_string(), id }
}

fn node(kind: ItemKind, name: &str, children: Vec<Item>) -> Item {
    Item { kind, name: Some(name.to_string()), attrs: Vec::new(), id: 0, children }
}

/// mod a { mod b { trait C { fn d() { struct E; } fn f(self) {} } } fn b() {} }
fn sample() -> File {
    let e = node(ItemKind::Struct, "E", vec![]);
    let d = node(ItemKind::Method, "d", vec![e]);
    let f = node(ItemKind::Method, "f", vec![]);
    let c = node(ItemKind::Trait, "C", vec![d, f]);
    let inner_b = node(ItemKind::Module, "b", vec![c]);
    let fn_b = node(ItemKind::Function, "b", vec![]);
    let a = node(ItemKind::Module, "a", vec![inner_b, fn_b]);
    File { items: vec![a] }
}

/// #[cfg(feature = "g")] mod imp { pub struct H(u8); }
/// #[cfg(not(feature = "g"))] mod imp { pub struct H(u16); }
fn sample_with_cfg() -> File {
    let mut first_h = node(ItemKind::Struct, "H", vec![]);
    first_h.id = 1;
    let mut first = node(ItemKind::Module, "imp", vec![first_h]);
    first.attrs = vec![attr("cfg", 10)];
    let mut second_h = node(ItemKind::Struct, "H", vec![]);
    second_h.id = 2;
    let mut second = node(ItemKind::Module, "imp", vec![second_h]);
    second.attrs = vec![attr("cfg", 20)];
    File { items: vec![first, second] }
}

fn search_sample(path: &str) -> Vec<Item> {
    select(path, &sample()).unwrap()
}

fn ident(ident: &str) -> Option<String> {
    Some(ident.to_string())
}

#[test]
fn example_1() {
    let result = search_sample("a::b::C");
    assert_eq!(result.len(), 1);
    if let ItemKind::Trait = result[0].kind {
        assert_eq!(result[0].name, ident("C"));
    } else {
        panic!("Result was wrong type {:?}", &result[0]);
    }
}

#[test]
fn example_2() {
    let result = search_sample("a::b::C::d::E");
    assert_eq!(result.len(), 1);
    if let ItemKind::Struct = result[0].kind {
        assert_eq!(result[0].name, ident("E"));
    } else {
        panic!("Result was wrong type {:?}", &result[0]);
    }
}

#[test]
fn example_3() {
    let result = search_sample("a::b::C::f");
    assert_eq!(result.len(), 1);
    if let ItemKind::Trait = result[0].kind {
        let item = &result[0];
        assert_eq!(item.children.len(), 1);
        if let ItemKind::Method = item.children[0].kind {
            assert_eq!(item.children[0].name, ident("f"));
        }
    }
}

#[test]
fn example_4() {
    let result = search_sample("a::b");
    assert_eq!(result.len(), 2);
}

#[test]
fn example_5() {
    let result = select("imp::H", &sample_with_cfg()).unwrap();
    assert_eq!(result.len(), 2);
    if let ItemKind::Struct = result[0].kind {
        assert_eq!(result[0].attrs[0].path, "cfg".to_string());
    } else {
        panic!("First result should be struct");
    }
}

#[test]
fn each_copy_carries_its_own_condition() {
    let result = select("imp::H", &sample_with_cfg()).unwrap();
    assert_eq!(result[0].id, 1);
    assert_eq!(result[0].attrs, vec![attr("cfg", 10)]);
    assert_eq!(result[1].id, 2);
    assert_eq!(result[1].attrs, vec![attr("cfg", 20)]);
    let result = select("imp", &sample_with_cfg()).unwrap();
    assert_eq!(result.len(), 2);
    assert_eq!(result[0].attrs, vec![attr("cfg", 10)]);
    assert_eq!(result[0].children[0].attrs, vec![]);
}

#[test]
fn conditions_come_outermost_first_and_nothing_else_is_carried() {
    let mut leaf = node(ItemKind::Struct, "S", vec![]);
    leaf.attrs = vec![attr("derive", 1), attr("cfg", 2)];
    let mut run = node(ItemKind::Function, "run", vec![leaf]);
    run.attrs = vec![attr("inline", 3), attr("cfg", 4), attr("cfg", 5)];
    let mut outer = node(ItemKind::Module, "outer", vec![run]);
    outer.attrs = vec![attr("cfg", 6), attr("allow", 7), attr("cfg_attr", 8)];
    let file = File { items: vec![outer] };
    let result = select("outer::run::S", &file).unwrap();
    assert_eq!(result.len(), 1);
    assert_eq!(
        result[0].attrs,
        vec![attr("cfg", 6), attr("cfg", 4), attr("cfg", 5), attr("derive", 1), attr("cfg", 2)]
    );
    let result = select("outer::run", &file).unwrap();
    assert_eq!(
        result[0].attrs,
        vec![attr("cfg", 6), attr("inline", 3), attr("cfg", 4), attr("cfg", 5)]
    );
    assert_eq!(result[0].children[0].attrs, vec![attr("derive", 1), attr("cfg", 2)]);
}

#[test]
fn attribute_knows_whether_it_is_a_condition() {
    assert!(attr("cfg", 0).is_condition());
    assert!(!attr("cfg_attr", 0).is_condition());
    assert!(!attr("cf", 0).is_condition());
    assert!(!attr("", 0).is_condition());
    assert!(!attr("Cfg", 0).is_condition());
    assert_eq!(attr("cfg", 3).clone(), attr("cfg", 3));
}

#[test]
fn trait_result_is_the_trait_itself() {
    let result = search_sample("a::b::C");
    assert_eq!(result[0], sample().items[0].children[0].children[0]);
    assert_eq!(result[0].children.len(), 2);
}

#[test]
fn method_result_is_the_reduced_trait() {
    let result = search_sample("a::b::C::d");
    assert_eq!(result.len(), 1);
    assert_eq!(result[0].kind, ItemKind::Trait);
    assert_eq!(result[0].name, ident("C"));
    assert_eq!(result[0].children.len(), 1);
    assert_eq!(result[0].children[0].name, ident("d"));
    assert_eq!(result[0].children[0].children.len(), 1);
    assert_eq!(result[0].children[0].children[0].name, ident("E"));
}

#[test]
fn same_name_siblings_come_in_tree_order() {
    let result = search_sample("a::b");
    assert_eq!(result[0].kind, ItemKind::Module);
    assert_eq!(result[1].kind, ItemKind::Function);
    assert_eq!(result[0].name, ident("b"));
    assert_eq!(result[1].name, ident("b"));
}

#[test]
fn type_inside_a_function_body_is_found() {
    let local = node(ItemKind::Enum, "Local", vec![]);
    let helper = node(ItemKind::Function, "helper", vec![]);
    let run = node(ItemKind::Function, "run", vec![local, helper]);
    let file = File { items: vec![run] };
    let result = select("run::Local", &file).unwrap();
    assert_eq!(result, vec![node(ItemKind::Enum, "Local", vec![])]);
    let result = select("run::helper", &file).unwrap();
    assert_eq!(result, vec![node(ItemKind::Function, "helper", vec![])]);
}

#[test]
fn impl_block_is_reduced_to_all_methods_of_the_name() {
    let mut one = node(ItemKind::Method, "get", vec![]);
    one.id = 1;
    let other = node(ItemKind::Method, "set", vec![]);
    let mut two = node(ItemKind::Method, "get", vec![]);
    two.id = 2;
    let value = node(ItemKind::AssocConst, "get", vec![]);
    let mut block = node(ItemKind::Impl, "Cell", vec![one, other, value, two]);
    block.attrs = vec![attr("cfg", 1), attr("doc", 2)];
    block.id = 7;
    let mut outer = node(ItemKind::Module, "m", vec![block]);
    outer.attrs = vec![attr("cfg", 3)];
    let file = File { items: vec![outer] };
    let result = select("m::Cell::get", &file).unwrap();
    assert_eq!(result.len(), 2);
    assert_eq!(result[0].kind, ItemKind::Impl);
    assert_eq!(result[0].id, 7);
    assert_eq!(result[0].attrs, vec![attr("cfg", 3), attr("cfg", 1), attr("doc", 2)]);
    assert_eq!(result[0].children.len(), 2);
    assert_eq!(result[0].children[0].id, 1);
    assert_eq!(result[0].children[1].id, 2);
    assert_eq!(result[0].children[0].attrs, vec![]);
    assert_eq!(result[1].kind, ItemKind::AssocConst);
    assert_eq!(result[1].attrs, vec![attr("cfg", 3), attr("cfg", 1)]);
    let result = select("m::Cell::missing", &file).unwrap();
    assert!(result.is_empty());
    let result = select("m::Cell::set", &file).unwrap();
    assert_eq!(result.len(), 1);
    assert_eq!(result[0].children.len(), 1);
    assert_eq!(result[0].children[0].name, ident("set"));
}

#[test]
fn path_does_not_continue_below_a_leaf() {
    let inner = node(ItemKind::Struct, "Inner", vec![]);
    let outer = node(ItemKind::Struct, "Outer", vec![inner]);
    let file = File { items: vec![outer] };
    assert!(select("Outer::Inner", &file).unwrap().is_empty());
    assert_eq!(select("Outer", &file).unwrap().len(), 1);
}

#[test]
fn unnamed_items_match_nothing() {
    let unnamed = Item {
        kind: ItemKind::Use,
        name: None,
        attrs: Vec::new(),
        id: 0,
        children: Vec::new(),
    };
    let file = File { items: vec![unnamed] };
    assert!(select("a", &file).unwrap().is_empty());
}

#[test]
fn unmatched_path_gives_empty_result() {
    assert!(search_sample("x").is_empty());
    assert!(search_sample("a::x").is_empty());
    assert!(search_sample("a::b::C::d::E::x").is_empty());
    assert!(search_sample("A").is_empty());
    assert!(select("a", &File { items: vec![] }).unwrap().is_empty());
}

#[test]
fn matching_is_case_sensitive() {
    assert!(search_sample("a::b::c").is_empty());
    assert_eq!(search_sample("a::b::C").len(), 1);
}

#[test]
fn search_twice_gives_the_same() {
    let file = sample();
    let first = select("a::b::C::f", &file).unwrap();
    let second = select("a::b::C::f", &file).unwrap();
    assert_eq!(first, second);
    assert_eq!(file, sample());
}

#[test]
fn empty_path_is_refused() {
    assert_eq!(select("", &sample()), Err(Error::EmptyPath));
    assert!(matches!(Selector::parse(""), Err(Error::EmptyPath)));
}

#[test]
fn doubled_separator_is_refused() {
    assert_eq!(select("a::::b", &sample()), Err(Error::InvalidSegment(String::new())));
    assert_eq!(select("a::", &sample()), Err(Error::InvalidSegment(String::new())));
    assert_eq!(select("::a", &sample()), Err(Error::InvalidSegment(String::new())));
    assert_eq!(select("::", &sample()), Err(Error::InvalidSegment(String::new())));
}

#[test]
fn invalid_segment_is_carried_in_the_error() {
    assert_eq!(select("a::1b", &sample()), Err(Error::InvalidSegment("1b".to_string())));
    assert_eq!(select("a::fn", &sample()), Err(Error::InvalidSegment("fn".to_string())));
    assert_eq!(select("a:::b", &sample()), Err(Error::InvalidSegment(":b".to_string())));
    assert_eq!(select("a::b-c::d!", &sample()), Err(Error::InvalidSegment("b-c".to_string())));
    assert_eq!(select("_", &sample()), Err(Error::InvalidSegment("_".to_string())));
    assert_eq!(select(":", &sample()), Err(Error::InvalidSegment(":".to_string())));
}

#[test]
fn error_hands_out_its_segment() {
    assert_eq!(Error::EmptyPath.segment(), None);
    assert_eq!(Error::InvalidSegment("1b".to_string()).segment(), Some("1b"));
}

#[test]
fn parse_counts_separators_plus_one() {
    let selector = Selector::parse("a::b::C::d::E").unwrap();
    assert_eq!(selector.len(), 5);
    assert_eq!(selector.segment(0), "a");
    assert_eq!(selector.segment(2), "C");
    assert_eq!(selector.segment(4), "E");
    let selector = Selector::parse("single").unwrap();
    assert_eq!(selector.len(), 1);
    assert_eq!(selector.segment(0), "single");
}

#[test]
fn parse_takes_identifiers_beyond_ascii() {
    let selector = Selector::parse("größe::élan").unwrap();
    assert_eq!(selector.len(), 2);
    assert_eq!(selector.segment(0), "größe");
    assert_eq!(selector.segment(1), "élan");
    let file = File { items: vec![node(ItemKind::Module, "größe", vec![node(ItemKind::Const, "élan", vec![])])] };
    assert_eq!(selector.search(&file).len(), 1);
}

#[test]
fn selector_search_agrees_with_select() {
    let file = sample();
    let selector = Selector::parse("a::b").unwrap();
    assert_eq!(selector.search(&file), select("a::b", &file).unwrap());
}

#[test]
fn kinds_answer_what_they_can_hold() {
    assert!(ItemKind::Module.is_container());
    assert!(ItemKind::Function.is_container());
    assert!(ItemKind::Method.is_container());
    assert!(ItemKind::Trait.is_container());
    assert!(ItemKind::Impl.is_container());
    assert!(!ItemKind::Struct.is_container());
    assert!(!ItemKind::Const.is_container());
    assert!(ItemKind::Trait.holds_methods());
    assert!(ItemKind::Impl.holds_methods());
    assert!(!ItemKind::Module.holds_methods());
    assert!(!ItemKind::Function.holds_methods());
}

#[test]
fn item_helpers_keep_what_they_should() {
    let file = sample();
    let c = &file.items[0].children[0].children[0];
    assert!(c.is_named(&"C".to_string()));
    assert!(!c.is_named(&"c".to_string()));
    assert_eq!(c.clone(), *c);
    let reduced = c.reduced_to(&vec![attr("cfg", 9)], vec![]);
    assert_eq!(reduced.attrs, vec![attr("cfg", 9)]);
    assert_eq!(c.placed_under(&vec![]), *c);
    assert_eq!(reduced.kind, ItemKind::Trait);
    assert_eq!(reduced.name, ident("C"));
    assert!(reduced.children.is_empty());
}
