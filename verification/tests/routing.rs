use pretree::Pretree;
use pretree::RouteError;

#[test]
fn test_match() {
    let data: [[&str; 3]; 20] = [
        ["POST", "/pet/{petId}/uploadImage", "/pet/12121/uploadImage"],
        ["POST", "/pet", "/pet"],
        ["PUT", "/pet", "/pet"],
        ["GET", "/pet/findByStatus", "/pet/findByStatus"],
        ["GET", "/pet/{petId}", "/pet/113"],
        ["GET", "/pet/{petId}/info", "/pet/12121/info"],
        ["POST", "/pet/{petId}", "/pet/12121"],
        ["DELETE", "/pet/{petId}", "/pet/12121"],
        ["GET", "/store/inventory", "/store/inventory"],
        ["POST", "/store/order", "/store/order"],
        ["GET", "/store/order/{orderId}", "/store/order/939"],
        ["DELETE", "/store/order/{orderId}", "/store/order/939"],
        ["POST", "/user/createWithList", "/user/createWithList"],
        ["GET", "/user/{username}", "/user/1002"],
        ["PUT", "/user/{username}", "/user/1002"],
        ["DELETE", "/user/{username}", "/user/1002"],
        ["GET", "/user/login", "/user/login"],
        ["GET", "/user/logout", "/user/logout"],
        ["POST", "/user/createWithArray", "/user/createWithArray"],
        ["POST", "/user", "/user"],
    ];
    println!("{:?}", data);
    let mut p = Pretree::new();
    for v in data {
        let method = v[0];
        let source_rule = v[1];
        p.store(method, source_rule).unwrap();
    }

    for v in data {
        let method = v[0];
        let url_path = v[2];
        let source_rule = v[1];
        let (ok, rule, _) = p.query(method, url_path).unwrap();
        println!("ok:{},rule: {} ", ok, rule,);
        assert_eq!(ok, true);
        assert_eq!(rule, source_rule);
    }
}

#[test]
fn stored_pattern_is_found_verbatim() {
    let mut p = Pretree::new();
    p.store("GET", "/a/{id}").unwrap();
    let (ok, rule, vars) = p.query("GET", "/a/{id}").unwrap();
    assert_eq!(ok, true);
    assert_eq!(rule, "/a/{id}");
    assert_eq!(vars.get("id"), None);
}

#[test]
fn literal_wins_over_variable() {
    let mut p = Pretree::new();
    p.store("GET", "/a/b").unwrap();
    p.store("GET", "/a/:x").unwrap();
    let (ok, rule, vars) = p.query("GET", "/a/b").unwrap();
    assert_eq!(ok, true);
    assert_eq!(rule, "/a/b");
    assert_eq!(vars.get("x"), None);
}

#[test]
fn first_segment_never_binds() {
    let mut p = Pretree::new();
    p.store("GET", "/:id").unwrap();
    let (ok, rule, _) = p.query("GET", "/42").unwrap();
    // The pattern's tokens are ["", ":id"]; the path's are ["", "42"].
    // "" is at index 0 but matches the literal child ""; "42" is at index 1,
    // so it may bind to the variable child ":id".
    assert_eq!(ok, true);
    assert_eq!(rule, "/:id");

    // Without a leading slash the variable segment itself sits at index 0
    // and can never bind.
    let mut q = Pretree::new();
    q.store("GET", ":id").unwrap();
    let (ok, rule, vars) = q.query("GET", "42").unwrap();
    assert_eq!(ok, false);
    assert_eq!(rule, "");
    assert_eq!(vars.get("id"), None);

    let mut r = Pretree::new();
    r.store("GET", "/a/:id").unwrap();
    let (ok, rule, vars) = r.query("GET", "/a/42").unwrap();
    assert_eq!(ok, true);
    assert_eq!(rule, "/a/:id");
    assert_eq!(vars.get("id"), Some("42".to_string()));
}

#[test]
fn storing_twice_changes_nothing() {
    let mut once = Pretree::new();
    once.store("GET", "/a/:id").unwrap();
    let mut twice = Pretree::new();
    twice.store("GET", "/a/:id").unwrap();
    twice.store("GET", "/a/:id").unwrap();
    let (ok1, rule1, vars1) = once.query("GET", "/a/7").unwrap();
    let (ok2, rule2, vars2) = twice.query("GET", "/a/7").unwrap();
    assert_eq!(ok1, ok2);
    assert_eq!(rule1, rule2);
    assert_eq!(vars1.get("id"), vars2.get("id"));
}

#[test]
fn unknown_method_is_an_error() {
    let mut p = Pretree::new();
    assert_eq!(p.store("FOO", "/x"), Err(RouteError::UnknownMethod));
    assert!(p.query("FOO", "/x").is_err());
    assert_eq!(p.store("get", "/x"), Err(RouteError::UnknownMethod));
}

#[test]
fn account_scenario() {
    let mut p = Pretree::new();
    p.store("GET", "account/{id}/info/:name").unwrap();
    p.store("GET", "account/:id/login").unwrap();
    p.store("GET", "account/{id}").unwrap();

    let (ok, rule, vars) = p.query("GET", "account/929239").unwrap();
    assert_eq!(ok, true);
    assert_eq!(rule, "account/{id}");
    assert_eq!(vars.get("id"), Some("929239".to_string()));

    let (ok, rule, vars) = p.query("GET", "account/929239/login").unwrap();
    assert_eq!(ok, true);
    assert_eq!(rule, "account/:id/login");
    assert_eq!(vars.get("id"), Some("929239".to_string()));
}

#[test]
fn pet_scenario() {
    let mut p = Pretree::new();
    p.store("GET", "/pet/{petId}").unwrap();
    p.store("GET", "/pet/{petId}/info").unwrap();

    let (ok, rule, vars) = p.query("GET", "/pet/113").unwrap();
    assert_eq!(ok, true);
    assert_eq!(rule, "/pet/{petId}");
    assert_eq!(vars.get("petId"), Some("113".to_string()));

    let (ok, rule, vars) = p.query("GET", "/pet/12121/info").unwrap();
    assert_eq!(ok, true);
    assert_eq!(rule, "/pet/{petId}/info");
    assert_eq!(vars.get("petId"), Some("12121".to_string()));
}

#[test]
fn no_match_reports_false_and_empty_pattern() {
    let mut p = Pretree::new();
    p.store("GET", "/a/b").unwrap();
    let (ok, rule, _) = p.query("GET", "/c").unwrap();
    assert_eq!(ok, false);
    assert_eq!(rule, "");
    let (ok, rule, _) = p.query("POST", "/a/b").unwrap();
    assert_eq!(ok, false);
    assert_eq!(rule, "");
}

#[test]
fn empty_and_doubled_segments_are_distinct() {
    let mut p = Pretree::new();
    p.store("GET", "").unwrap();
    let (ok, rule, _) = p.query("GET", "").unwrap();
    assert_eq!(ok, true);
    assert_eq!(rule, "");

    let mut q = Pretree::new();
    q.store("GET", "/a//b").unwrap();
    let (ok, rule, _) = q.query("GET", "/a//b").unwrap();
    assert_eq!(ok, true);
    assert_eq!(rule, "/a//b");
    let (ok, _, _) = q.query("GET", "/a/b").unwrap();
    assert_eq!(ok, false);
}

#[test]
fn unmatched_middle_segment_is_skipped() {
    // A token that matches no child is skipped without advancing, so a path
    // with a spurious trailing segment still reaches the shorter pattern.
    let mut p = Pretree::new();
    p.store("GET", "/a").unwrap();
    let (ok, rule, _) = p.query("GET", "/a/xxx").unwrap();
    assert_eq!(ok, true);
    assert_eq!(rule, "/a");
}

#[test]
fn braces_in_query_paths_are_normalized_too() {
    let mut p = Pretree::new();
    p.store("GET", "/x/:y").unwrap();
    let (ok, rule, vars) = p.query("GET", "/x/{y}").unwrap();
    assert_eq!(ok, true);
    assert_eq!(rule, "/x/:y");
    assert_eq!(vars.get("y"), None);
}

#[test]
fn later_binding_overrides_earlier() {
    let mut p = Pretree::new();
    p.store("GET", "/a/:v/b/:v").unwrap();
    let (ok, rule, vars) = p.query("GET", "/a/1/b/2").unwrap();
    assert_eq!(ok, true);
    assert_eq!(rule, "/a/:v/b/:v");
    assert_eq!(vars.get("v"), Some("2".to_string()));
}
