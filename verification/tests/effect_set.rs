use sporec_typeck::effect_set::{EffectHierarchy, EffectSet};

#[test]
fn empty_set_is_pure() {
    let set = EffectSet::new();
    assert!(set.is_empty());
    assert_eq!(set.to_string(), "[]");
}

#[test]
fn union_combines_effects() {
    let a = EffectSet::from_names(vec!["NetConnect".into(), "FileRead".into()]);
    let b = EffectSet::from_names(vec!["FileWrite".into(), "NetConnect".into()]);
    let c = a.union(&b);
    assert_eq!(c.len(), 3);
    assert!(c.contains("NetConnect"));
    assert!(c.contains("FileRead"));
    assert!(c.contains("FileWrite"));
}

#[test]
fn subset_checking() {
    let caller =
        EffectSet::from_names(vec!["NetConnect".into(), "FileRead".into(), "FileWrite".into()]);
    let callee = EffectSet::from_names(vec!["NetConnect".into(), "FileRead".into()]);
    assert!(caller.is_superset_of(&callee));
    assert!(!callee.is_superset_of(&caller));
}

#[test]
fn missing_effects() {
    let caller = EffectSet::from_names(vec!["NetConnect".into()]);
    let callee = EffectSet::from_names(vec!["NetConnect".into(), "FileWrite".into()]);
    let missing = caller.missing_from(&callee);
    assert_eq!(missing, vec!["FileWrite"]);
}

#[test]
fn hierarchy_expansion() {
    let mut h = EffectHierarchy::new();
    h.add_surface("FileSystem".into(), vec!["FileRead".into(), "FileWrite".into()]);

    let declared = EffectSet::from_names(vec!["FileSystem".into()]);
    let expanded = h.expand(&declared);
    assert!(expanded.contains("FileRead"));
    assert!(expanded.contains("FileWrite"));
}

#[test]
fn hierarchy_propagation_check() {
    let mut h = EffectHierarchy::new();
    h.add_surface("FileSystem".into(), vec!["FileRead".into(), "FileWrite".into()]);

    let declared = EffectSet::from_names(vec!["FileSystem".into()]);
    let required = EffectSet::from_names(vec!["FileRead".into()]);
    assert!(h.check_propagation(&declared, &required).is_ok());
}

#[test]
fn difference_operation() {
    let a = EffectSet::from_names(vec!["A".into(), "B".into(), "C".into()]);
    let b = EffectSet::from_names(vec!["B".into()]);
    let diff = a.difference(&b);
    assert_eq!(diff.len(), 2);
    assert!(diff.contains("A"));
    assert!(diff.contains("C"));
}

#[test]
fn display_format() {
    let set = EffectSet::from_names(vec!["FileRead".into(), "NetConnect".into()]);
    assert_eq!(set.to_string(), "[FileRead, NetConnect]");
}

#[test]
fn nested_surface_expansion_returns_only_atomic_effects() {
    let mut h = EffectHierarchy::new();
    h.add_surface("FileIO".into(), vec!["FileRead".into(), "FileWrite".into()]);
    h.add_surface("IO".into(), vec!["FileIO".into(), "Clock".into()]);

    let expanded = h.expand(&EffectSet::from_names(vec!["IO".into()]));
    assert_eq!(
        expanded,
        EffectSet::from_names(vec!["Clock".into(), "FileRead".into(), "FileWrite".into()])
    );
}

#[test]
fn detects_surface_cycle() {
    let mut h = EffectHierarchy::new();
    h.add_surface("A".into(), vec!["B".into()]);
    h.add_surface("B".into(), vec!["A".into()]);
    assert!(h.has_cycle("A"));
}

// ── further cases ──

#[test]
fn set_keeps_names_in_order_and_once() {
    let set = EffectSet::from_names(vec!["b".into(), "a".into(), "b".into(), "c".into()]);
    assert_eq!(set.len(), 3);
    assert_eq!(set.to_string(), "[a, b, c]");
    let names: Vec<&String> = set.iter().iter().collect();
    assert_eq!(names, vec!["a", "b", "c"]);
}

#[test]
fn intersection_and_subset() {
    let a = EffectSet::from_names(vec!["A".into(), "B".into(), "C".into()]);
    let b = EffectSet::from_names(vec!["C".into(), "B".into(), "D".into()]);
    let i = a.intersection(&b);
    assert_eq!(i, EffectSet::from_names(vec!["B".into(), "C".into()]));
    assert!(i.is_subset_of(&a));
    assert!(i.is_subset_of(&b));
    assert!(!a.is_subset_of(&b));
}

#[test]
fn insert_is_idempotent() {
    let mut s = EffectSet::new();
    s.insert("X".into());
    s.insert("X".into());
    assert_eq!(s.len(), 1);
    assert!(s.contains("X"));
    assert!(!s.contains("Y"));
}

#[test]
fn propagation_reports_missing_in_order() {
    let mut h = EffectHierarchy::new();
    h.add_surface("FileSystem".into(), vec!["FileRead".into(), "FileWrite".into()]);
    let declared = EffectSet::from_names(vec!["FileSystem".into()]);
    let required =
        EffectSet::from_names(vec!["NetConnect".into(), "FileRead".into(), "Clock".into()]);
    assert_eq!(
        h.check_propagation(&declared, &required),
        Err(vec!["Clock".to_string(), "NetConnect".to_string()])
    );
}

#[test]
fn surface_name_is_not_atomic() {
    let mut h = EffectHierarchy::new();
    h.add_surface("FileSystem".into(), vec!["FileRead".into()]);
    let expanded = h.expand(&EffectSet::from_names(vec!["FileSystem".into(), "Clock".into()]));
    assert_eq!(expanded.to_string(), "[Clock, FileRead]");
    assert!(!expanded.contains("FileSystem"));
}

#[test]
fn cycle_expansion_terminates() {
    let mut h = EffectHierarchy::new();
    h.add_surface("A".into(), vec!["B".into(), "Leaf".into()]);
    h.add_surface("B".into(), vec!["A".into()]);
    let expanded = h.expand(&EffectSet::from_names(vec!["A".into()]));
    assert_eq!(expanded.to_string(), "[Leaf]");
}

#[test]
fn no_cycle_in_tree_or_for_atomic_root() {
    let mut h = EffectHierarchy::new();
    h.add_surface("IO".into(), vec!["FileIO".into(), "Clock".into()]);
    h.add_surface("FileIO".into(), vec!["FileRead".into()]);
    assert!(!h.has_cycle("IO"));
    assert!(!h.has_cycle("Clock"));
    assert!(!h.has_cycle("Unknown"));
}

#[test]
fn cycle_below_root_is_not_the_roots() {
    let mut h = EffectHierarchy::new();
    h.add_surface("A".into(), vec!["B".into()]);
    h.add_surface("B".into(), vec!["C".into()]);
    h.add_surface("C".into(), vec!["B".into()]);
    assert!(!h.has_cycle("A"));
    assert!(h.has_cycle("B"));
    assert!(h.has_cycle("C"));
    let mut d = EffectHierarchy::new();
    d.add_surface("A".into(), vec!["A".into()]);
    assert!(d.has_cycle("A"));
}
