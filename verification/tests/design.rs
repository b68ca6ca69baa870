use cxxrtl_debug::design::{
    Attribute, AttributeValue, Attributes, Design, DesignError, Item, ItemEntry, Scope, ScopeDefinition, ScopeEntry, ScopeInstantiation,
    ScopeKind,
};

fn module(path: &str, name: Option<&str>) -> ScopeEntry {
    ScopeEntry {
        path: path.to_string(),
        scope: Scope {
            kind: ScopeKind::Module,
            definition: ScopeDefinition {
                src: None,
                name: name.map(String::from),
                attributes: Attributes::new(),
            },
            instantiation: ScopeInstantiation { src: None, attributes: Attributes::new() },
        },
    }
}

fn node(scope: &str, name: &str, width: u32) -> ItemEntry {
    ItemEntry {
        scope: scope.to_string(),
        name: name.to_string(),
        item: Item::Node {
            src: String::from("cpu.v:3"),
            width,
            lsb_at: 0,
            settable: true,
            input: false,
            output: false,
            attributes: Attributes::new(),
        },
    }
}

fn memory(scope: &str, name: &str, width: u32, depth: u32) -> ItemEntry {
    ItemEntry {
        scope: scope.to_string(),
        name: name.to_string(),
        item: Item::Memory {
            src: None,
            width,
            lsb_at: 0,
            depth,
            zero_at: 0,
            settable: false,
            attributes: Attributes::new(),
        },
    }
}

fn width_of(item: &Item) -> u32 {
    match item {
        Item::Node { width, .. } => *width,
        Item::Memory { width, .. } => *width,
    }
}

#[test]
fn an_empty_design_has_the_root_alone() {
    let d = Design::new();
    let scopes = d.all_scopes();
    assert_eq!(scopes.len(), 1);
    assert_eq!(scopes[0].path, "");
    assert_eq!(scopes[0].scope.kind, ScopeKind::Module);
    assert!(scopes[0].scope.definition.name.is_none());
    assert!(scopes[0].scope.definition.src.is_none());
    assert!(scopes[0].scope.instantiation.src.is_none());
    assert!(d.list_items("").is_empty());
}

#[test]
fn the_root_instance_stands_behind_the_root() {
    let d = Design::with_root_instance("top", Some(String::from("top.py:50")));
    let scopes = d.all_scopes();
    assert_eq!(scopes.len(), 2);
    assert_eq!(scopes[0].path, "");
    assert_eq!(scopes[1].path, "top");
    assert_eq!(scopes[1].scope.definition.name.as_deref(), Some("top"));
    assert_eq!(scopes[1].scope.instantiation.src.as_deref(), Some("top.py:50"));
}

#[test]
fn a_nameless_root_instance_adds_no_scope() {
    let d = Design::with_root_instance("", Some(String::from("top.py:50")));
    let scopes = d.all_scopes();
    assert_eq!(scopes.len(), 1);
    assert_eq!(scopes[0].path, "");
    assert!(scopes[0].scope.definition.name.is_none());
    assert!(scopes[0].scope.definition.src.is_none());
    assert!(scopes[0].scope.instantiation.src.is_none());
    assert!(scopes[0].scope.definition.attributes.entries().is_empty());
}

#[test]
fn no_path_is_listed_twice() {
    let mut d = Design::new();
    assert_eq!(d.insert_scope(module("top", Some("first"))), Ok(()));
    assert_eq!(d.insert_scope(module("top cpu", None)), Ok(()));
    assert_eq!(d.insert_scope(module("top", Some("second"))), Err(DesignError::KeyTaken));
    assert_eq!(d.insert_scope(module("", Some("root"))), Err(DesignError::KeyTaken));
    let scopes = d.all_scopes();
    assert_eq!(scopes.len(), 3);
    assert_eq!(scopes[0].path, "");
    assert!(scopes[0].scope.definition.name.is_none());
    assert_eq!(scopes[1].path, "top");
    assert_eq!(scopes[1].scope.definition.name.as_deref(), Some("first"));
    assert_eq!(scopes[2].path, "top cpu");
    for i in 0..scopes.len() {
        for j in 0..scopes.len() {
            if i != j {
                assert_ne!(scopes[i].path, scopes[j].path);
            }
        }
    }
    assert_eq!(d.find_scope("top cpu"), Some(2));
    assert_eq!(d.find_scope("top alu"), None);
}

#[test]
fn an_item_without_bits_or_rows_is_refused() {
    let mut d = Design::new();
    assert_eq!(d.insert_item(node("top", "clk", 0)), Err(DesignError::ZeroWidth));
    assert_eq!(d.insert_item(memory("top", "ram", 0, 0)), Err(DesignError::ZeroWidth));
    assert_eq!(d.insert_item(memory("top", "ram", 8, 0)), Err(DesignError::ZeroDepth));
    assert!(d.list_items("top").is_empty());
    assert_eq!(d.insert_item(node("top", "clk", 1)), Ok(()));
    assert_eq!(d.insert_item(memory("top", "ram", 8, 256)), Ok(()));
    assert_eq!(d.list_items("top").len(), 2);
    assert_eq!(node("top", "clk", 0).item.check(), Some(DesignError::ZeroWidth));
    assert_eq!(node("top", "clk", 3).item.check(), None);
}

#[test]
fn items_are_listed_by_scope() {
    let mut d = Design::new();
    assert_eq!(d.insert_item(node("top", "clk", 1)), Ok(()));
    assert_eq!(d.insert_item(node("top cpu", "pc", 32)), Ok(()));
    assert_eq!(d.insert_item(memory("top", "ram", 8, 1024)), Ok(()));
    assert_eq!(d.insert_item(node("top", "clk", 2)), Err(DesignError::KeyTaken));
    assert_eq!(d.insert_item(node("top", "clk", 0)), Err(DesignError::ZeroWidth));
    let top = d.list_items("top");
    assert_eq!(top.len(), 2);
    assert_eq!(top[0].name, "clk");
    assert_eq!(width_of(&top[0].item), 1);
    assert_eq!(top[1].name, "ram");
    let cpu = d.list_items("top cpu");
    assert_eq!(cpu.len(), 1);
    assert_eq!(cpu[0].name, "pc");
    assert!(d.list_items("top alu").is_empty());
    assert_eq!(d.find_item("top", "ram"), Some(2));
    assert_eq!(d.find_item("top cpu", "ram"), None);
    for e in d.list_items("top") {
        match &e.item {
            Item::Node { width, .. } => assert!(*width > 0),
            Item::Memory { width, depth, .. } => assert!(*width > 0 && *depth > 0),
        }
    }
}

fn attribute(name: &str, value: AttributeValue) -> Attribute {
    Attribute { name: name.to_string(), value }
}

#[test]
fn no_attribute_name_occurs_twice() {
    let attrs = Attributes::new();
    assert!(attrs.entries().is_empty());
    let attrs = attrs.with(attribute("depth", AttributeValue::UnsignedInt(3))).ok().unwrap();
    let attrs = attrs.with(attribute("keep", AttributeValue::Boolean(true))).ok().unwrap();
    let attrs = match attrs.with(attribute("depth", AttributeValue::SignedInt(-4))) {
        Ok(_) => panic!("a name was taken twice"),
        Err(unchanged) => unchanged,
    };
    let attrs =
        attrs.with(attribute("doc", AttributeValue::Text(String::from("x")))).ok().unwrap();
    let attrs = match attrs.with(attribute("keep", AttributeValue::Boolean(false))) {
        Ok(_) => panic!("a name was taken twice"),
        Err(unchanged) => unchanged,
    };
    let entries = attrs.entries();
    assert_eq!(entries.len(), 3);
    assert_eq!(entries[0].name, "depth");
    assert!(matches!(entries[0].value, AttributeValue::UnsignedInt(3)));
    assert_eq!(entries[1].name, "keep");
    assert!(matches!(entries[1].value, AttributeValue::Boolean(true)));
    assert_eq!(entries[2].name, "doc");
    assert!(matches!(&entries[2].value, AttributeValue::Text(t) if t == "x"));
}

fn paths(d: &Design, scope: Option<&str>) -> Vec<String> {
    d.list_scopes(&scope.map(String::from)).iter().map(|e| e.path.clone()).collect()
}

#[test]
fn scopes_are_listed_by_their_parent() {
    let mut d = Design::with_root_instance("top", None);
    for path in ["top cpu", "top cpu alu", "top ram", "other", "top cpu fpu", "topcpu x"] {
        assert_eq!(d.insert_scope(module(path, None)), Ok(()));
    }
    assert_eq!(paths(&d, None), vec!["", "top", "other"]);
    assert_eq!(paths(&d, Some("top")), vec!["top cpu", "top ram"]);
    assert_eq!(paths(&d, Some("top cpu")), vec!["top cpu alu", "top cpu fpu"]);
    assert_eq!(paths(&d, Some("topcpu")), vec!["topcpu x"]);
    assert!(paths(&d, Some("top ram")).is_empty());
    assert!(paths(&d, Some("nowhere")).is_empty());
    assert!(paths(&d, Some("")).is_empty());
    assert!(paths(&d, Some("top cpu alu")).is_empty());
    assert_eq!(d.all_scopes().len(), 8);
}

#[test]
fn paths_are_parted_by_single_blanks() {
    assert!(!cxxrtl_debug::design::has_blank(""));
    assert!(!cxxrtl_debug::design::has_blank("top"));
    assert!(cxxrtl_debug::design::has_blank("top cpu"));
    assert!(cxxrtl_debug::design::has_blank(" "));
    assert!(cxxrtl_debug::design::is_child("top cpu", "top"));
    assert!(cxxrtl_debug::design::is_child("tüp cpü", "tüp"));
    assert!(!cxxrtl_debug::design::is_child("top", "top"));
    assert!(!cxxrtl_debug::design::is_child("top ", "top"));
    assert!(!cxxrtl_debug::design::is_child("top cpu alu", "top"));
    assert!(!cxxrtl_debug::design::is_child("topcpu", "top"));
    assert!(!cxxrtl_debug::design::is_child("tip cpu", "top"));
    assert!(!cxxrtl_debug::design::is_child("cpu", "top cpu"));
    assert!(cxxrtl_debug::design::is_child(" x", ""));
}
