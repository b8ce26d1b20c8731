use pretree::Bindings;
use pretree::Tree;
use pretree::format_rule;
use pretree::is_variable;
use pretree::parse_path;

#[test]
fn format_rule_normalizes_braces() {
    assert_eq!(format_rule("{id}"), ":id");
    assert_eq!(format_rule("/account/{id}/info"), "/account/:id/info");
    assert_eq!(format_rule("/a/:b"), "/a/:b");
    assert_eq!(format_rule(""), "");
}

#[test]
fn parse_path_splits_on_slashes() {
    assert_eq!(parse_path("/a/b"), vec!["".to_string(), "a".to_string(), "b".to_string()]);
    assert_eq!(parse_path(""), vec!["".to_string()]);
    assert_eq!(parse_path("/"), vec!["".to_string(), "".to_string()]);
    assert_eq!(parse_path("a//b"), vec!["a".to_string(), "".to_string(), "b".to_string()]);
    assert_eq!(parse_path("x/{id}"), vec!["x".to_string(), ":id".to_string()]);
}

#[test]
fn is_variable_looks_at_the_first_character() {
    assert!(is_variable(":x"));
    assert!(is_variable(":"));
    assert!(!is_variable("x"));
    assert!(!is_variable(""));
    assert!(!is_variable("x:y"));
}

#[test]
fn tree_nodes_expose_their_segment() {
    let t = Tree::new("pet");
    assert_eq!(t.rule(), "");
    assert_eq!(t.name(), "pet");
    assert_eq!(t.var_name(), "pet");
    assert_eq!(t.child().len(), 0);

    let v = Tree::with_variable(":id", true);
    assert_eq!(v.name(), ":id");
    assert_eq!(v.var_name(), "id");
}

#[test]
fn tree_insert_then_search() {
    let mut t = Tree::new("GET");
    t.insert("/a/:id");
    assert_eq!(t.child().len(), 1);
    let (ok, rule, vars) = t.search("/a/7");
    assert_eq!(ok, true);
    assert_eq!(rule, "/a/:id");
    assert_eq!(vars.get("id"), Some("7".to_string()));

    let (ok, rule, _) = t.search("/b");
    assert_eq!(ok, false);
    assert_eq!(rule, "");
}

#[test]
fn bindings_keep_the_last_value() {
    let mut b = Bindings::new();
    assert_eq!(b.get("id"), None);
    b.insert("id".to_string(), "1".to_string());
    b.insert("name".to_string(), "n".to_string());
    b.insert("id".to_string(), "2".to_string());
    assert_eq!(b.get("id"), Some("2".to_string()));
    assert_eq!(b.get("name"), Some("n".to_string()));
    assert_eq!(b.get("other"), None);
}
