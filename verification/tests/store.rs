use egui_json_tree::expand::InnerExpand;
use egui_json_tree::id_set::NodeIdSet;
use egui_json_tree::pointer::JsonPointer;
use egui_json_tree::pointer::JsonPointerSegment;
use egui_json_tree::pointer::NodeId;
use egui_json_tree::store::ExpansionStore;

fn node(tree: u64, names: &[&str]) -> NodeId {
    let segments = names.iter().map(|name| JsonPointerSegment::Key(name.to_string())).collect();
    NodeId { tree, pointer: JsonPointer { segments } }
}

#[test]
fn store_seeds_a_node_on_first_sight_only() {
    let mut store = ExpansionStore::new();
    assert_eq!(store.get(&node(1, &["a"])), None);
    assert!(store.get_or_seed(&node(1, &["a"]), true));
    assert!(store.get_or_seed(&node(1, &["a"]), false));
    assert!(!store.get_or_seed(&node(1, &["b"]), false));
    assert!(!store.get_or_seed(&node(1, &["b"]), true));
    assert_eq!(store.len(), 2);
    assert_eq!(store.get(&node(1, &["a"])), Some(true));
    assert_eq!(store.get(&node(1, &["b"])), Some(false));
    assert_eq!(store.get(&node(2, &["a"])), None);
}

#[test]
fn store_set_overrides_and_adds() {
    let mut store = ExpansionStore::new();
    store.set(&node(1, &[]), true);
    store.set(&node(1, &["a"]), false);
    store.set(&node(1, &[]), false);
    assert_eq!(store.len(), 2);
    assert_eq!(store.get(&node(1, &[])), Some(false));
    assert_eq!(store.get(&node(1, &["a"])), Some(false));
}

#[test]
fn store_toggle_flips_what_is_remembered() {
    let mut store = ExpansionStore::new();
    assert_eq!(store.toggle(&node(1, &["a"])), None);
    assert_eq!(store.len(), 0);
    store.set(&node(1, &["a"]), false);
    assert_eq!(store.toggle(&node(1, &["a"])), Some(true));
    assert_eq!(store.get(&node(1, &["a"])), Some(true));
    assert_eq!(store.toggle(&node(1, &["a"])), Some(false));
    assert_eq!(store.get(&node(1, &["a"])), Some(false));
}

#[test]
fn store_remove_forgets_one_node() {
    let mut store = ExpansionStore::new();
    store.set(&node(1, &["a"]), true);
    store.set(&node(1, &["b"]), true);
    store.set(&node(1, &["c"]), false);
    store.remove(&node(1, &["b"]));
    store.remove(&node(1, &["x"]));
    assert_eq!(store.len(), 2);
    assert_eq!(store.get(&node(1, &["a"])), Some(true));
    assert_eq!(store.get(&node(1, &["b"])), None);
    assert_eq!(store.get(&node(1, &["c"])), Some(false));
}

#[test]
fn store_invalidate_forgets_a_set_of_nodes() {
    let mut store = ExpansionStore::new();
    store.set(&node(1, &["a"]), true);
    store.set(&node(1, &["b"]), true);
    store.set(&node(1, &["c"]), false);
    let mut stale = NodeIdSet::new();
    stale.insert(node(1, &["a"]));
    stale.insert(node(1, &["c"]));
    stale.insert(node(1, &["z"]));
    store.invalidate(&stale);
    assert_eq!(store.len(), 1);
    assert_eq!(store.get(&node(1, &["b"])), Some(true));
    assert!(store.get_or_seed(&node(1, &["c"]), true));
}

#[test]
fn id_set_ignores_repeated_inserts() {
    let mut set = NodeIdSet::new();
    assert_eq!(set.len(), 0);
    assert!(set.insert(node(1, &["a"])));
    assert!(!set.insert(node(1, &["a"])));
    assert!(set.insert(node(1, &["a", "b"])));
    assert!(set.insert(node(2, &["a"])));
    assert_eq!(set.len(), 3);
    assert_eq!(set.ids().len(), 3);
    assert!(set.contains(&node(1, &["a"])));
    assert!(set.contains(&node(2, &["a"])));
    assert!(!set.contains(&node(1, &["b"])));
}

#[test]
fn rules_open_nodes_by_default() {
    let shallow = node(1, &["a"]);
    let deep = node(1, &["a", "b", "c"]);
    assert!(InnerExpand::All.default_open(&deep));
    assert!(!InnerExpand::Closed.default_open(&node(1, &[])));
    for level in 0..6u8 {
        assert_eq!(InnerExpand::ToLevel(level).default_open(&node(1, &[])), true);
        assert_eq!(InnerExpand::ToLevel(level).default_open(&shallow), 1 <= level);
        assert_eq!(InnerExpand::ToLevel(level).default_open(&deep), 3 <= level);
    }
    let mut named = NodeIdSet::new();
    named.insert(node(1, &["a"]));
    let rule = InnerExpand::Paths(named);
    assert!(rule.default_open(&shallow));
    assert!(!rule.default_open(&deep));
}

#[test]
fn to_level_counts_depth_beyond_255() {
    let names: Vec<&str> = std::iter::repeat("k").take(256).collect();
    assert!(!InnerExpand::ToLevel(0).default_open(&node(1, &names)));
    assert!(!InnerExpand::ToLevel(255).default_open(&node(1, &names)));
    assert!(InnerExpand::ToLevel(255).default_open(&node(1, &names[..255])));
}
