use coverage_instrument::{Config, Expr, Prop, PropKey, TransformVisitor};

fn prop(key: &str, value: &str) -> Prop {
    Prop { key: PropKey::Ident(key.to_string()), value: Expr::Str(value.to_string()) }
}

fn record() -> Vec<Prop> {
    vec![prop("fnMap", "nihao"), prop("statementMap", ""), prop("branchMap", "sss")]
}

fn pairs(ps: &[Prop]) -> Vec<(String, String)> {
    ps.iter()
        .map(|p| match (&p.key, &p.value) {
            (PropKey::Ident(k), Expr::Str(v)) => (k.clone(), v.clone()),
            other => panic!("unexpected property {:?}", other),
        })
        .collect()
}

fn configured() -> TransformVisitor {
    let mut config = Config::default();
    config.dsn = Some("https://collector".to_string());
    config.reporter = Some(String::new());
    config.branch = Some("main".to_string());
    config.compareTarget = Some("release".to_string());
    TransformVisitor { config }
}

#[test]
fn coverage_record_gets_configured_settings() {
    let mut obj = vec![
        prop("path", "a.js"),
        prop("fnMap", "nihao"),
        prop("statementMap", ""),
        prop("s", "counts"),
        prop("branchMap", "sss"),
        prop("inputSourceMap", "map"),
    ];
    configured().visit_mut_object_lit(&mut obj);
    let got = pairs(&obj);
    assert_eq!(got.len(), 5);
    assert_eq!(&got[..2], &pairs(&[prop("path", "a.js"), prop("s", "counts")])[..]);
    assert_eq!(
        &got[2..],
        &[
            ("dsn".to_string(), "https://collector".to_string()),
            ("branch".to_string(), "main".to_string()),
            ("compareTarget".to_string(), "release".to_string()),
        ]
    );
}

#[test]
fn other_objects_are_left_alone() {
    let mut obj = vec![prop("fnMap", "a"), prop("statementMap", "b")];
    configured().visit_mut_object_lit(&mut obj);
    assert_eq!(pairs(&obj), pairs(&[prop("fnMap", "a"), prop("statementMap", "b")]));
}

#[test]
fn boo() {
    // const coverageData={fnMap:"nihao",statementMap:"",branchMap:"sss"};
    // becomes const coverageData={};
    let mut expr = Expr::Object(record());
    TransformVisitor::new().visit_mut_expr(&mut expr);
    match &expr {
        Expr::Object(ps) => assert!(ps.is_empty()),
        other => panic!("expected an object, got {:?}", other),
    }
}

#[test]
fn string_keyed_map_properties_are_kept() {
    let mut obj = record();
    obj.push(Prop { key: PropKey::Str("fnMap".to_string()), value: Expr::Str("x".to_string()) });
    TransformVisitor::new().visit_mut_object_lit(&mut obj);
    assert_eq!(obj.len(), 1);
    assert!(matches!(&obj[0].key, PropKey::Str(k) if k == "fnMap"));
}

#[test]
fn new_has_no_settings() {
    let v = TransformVisitor::new();
    assert!(v.config.dsn.is_none() && v.config.reporter.is_none());
    assert!(v.config.instrumentCwd.is_none() && v.config.branch.is_none());
    assert!(v.config.sha.is_none() && v.config.projectID.is_none());
    assert!(v.config.compareTarget.is_none());
}

#[test]
fn expression_holding_a_record_is_rewritten() {
    let mut expr = Expr::Object(record());
    configured().visit_mut_expr(&mut expr);
    match &expr {
        Expr::Object(ps) => assert_eq!(ps.len(), 3),
        other => panic!("expected an object, got {:?}", other),
    }
    let mut other = Expr::Ident("x".to_string());
    configured().visit_mut_expr(&mut other);
    assert!(matches!(other, Expr::Ident(ref n) if n == "x"));
}

#[test]
fn string_prop_is_key_and_string_value() {
    let p = TransformVisitor::new().create_string_prop("sha", "abc".to_string());
    assert_eq!(pairs(&[p]), vec![("sha".to_string(), "abc".to_string())]);
}
