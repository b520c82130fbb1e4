use coverage_instrument::coverage_template::{compute_hash, create_range_object_lit};
use coverage_instrument::decimal::to_decimal;
use coverage_instrument::{
    create_coverage_init_stmts, BinaryOp, Expr, MemberProp, Prop, PropKey, Range, SourceCoverage,
    Stmt,
};

fn ledger(ranges: &[Range]) -> SourceCoverage {
    let mut cov = SourceCoverage::new();
    for r in ranges {
        cov.new_statement(r);
    }
    cov
}

fn key_name(p: &Prop) -> String {
    match &p.key {
        PropKey::Ident(n) => n.clone(),
        PropKey::Str(s) => format!("\"{}\"", s),
    }
}

fn object_props(e: &Expr) -> &Vec<Prop> {
    match e {
        Expr::Object(ps) => ps,
        other => panic!("expected an object literal, got {:?}", other),
    }
}

fn var<'a>(st: &'a Stmt, expected: &str) -> &'a Expr {
    match st {
        Stmt::Var { span, name, init } => {
            assert!(span.is_dummy());
            assert_eq!(name, expected);
            init
        }
        other => panic!("expected var {}, got {:?}", expected, other),
    }
}

fn num(e: &Expr) -> u32 {
    match e {
        Expr::Num(n) => *n,
        other => panic!("expected a number, got {:?}", other),
    }
}

fn string(e: &Expr) -> &str {
    match e {
        Expr::Str(s) => s,
        other => panic!("expected a string, got {:?}", other),
    }
}

#[test]
fn decimal_text() {
    assert_eq!(to_decimal(0), "0");
    assert_eq!(to_decimal(7), "7");
    assert_eq!(to_decimal(1234), "1234");
    assert_eq!(to_decimal(u64::MAX), u64::MAX.to_string());
}

#[test]
fn range_object_has_start_and_end() {
    let e = create_range_object_lit(&Range::new(3, 4, 5, 6));
    let ps = object_props(&e);
    let names: Vec<String> = ps.iter().map(key_name).collect();
    assert_eq!(names, vec!["start", "end"]);
    let start = object_props(&ps[0].value);
    assert_eq!(key_name(&start[0]), "line");
    assert_eq!(num(&start[0].value), 3);
    assert_eq!(key_name(&start[1]), "column");
    assert_eq!(num(&start[1].value), 4);
    let end = object_props(&ps[1].value);
    assert_eq!(num(&end[0].value), 5);
    assert_eq!(num(&end[1].value), 6);
}

#[test]
fn fingerprint_is_stable_and_tracks_the_ledger() {
    let a = ledger(&[Range::new(1, 0, 1, 9), Range::new(2, 0, 2, 4)]);
    let b = ledger(&[Range::new(1, 0, 1, 9), Range::new(2, 0, 2, 4)]);
    let moved = ledger(&[Range::new(1, 0, 1, 9), Range::new(2, 0, 2, 5)]);
    let fewer = ledger(&[Range::new(1, 0, 1, 9)]);
    let h = compute_hash("x.js", &a);
    assert!(!h.is_empty() && h.chars().all(|c| c.is_ascii_digit()));
    assert_eq!(h, compute_hash("x.js", &b));
    assert_ne!(h, compute_hash("x.js", &moved));
    assert_ne!(h, compute_hash("x.js", &fewer));
    assert_ne!(h, compute_hash("y.js", &a));
}

#[test]
fn bootstrap_declares_and_calls_the_accessor() {
    let cov = ledger(&[Range::new(1, 0, 1, 9), Range::new(2, 2, 3, 4)]);
    let stmts = create_coverage_init_stmts("src/x.js", "cov_1", &cov, None);
    assert_eq!(stmts.len(), 2);
    match &stmts[1] {
        Stmt::Expr { span, expr: Expr::Call(callee, args) } => {
            assert!(span.is_dummy());
            assert!(matches!(&**callee, Expr::Ident(n) if n == "cov_1"));
            assert!(args.is_empty());
        }
        other => panic!("expected the accessor call, got {:?}", other),
    }
    let body = match &stmts[0] {
        Stmt::FnDecl { span, name, body } => {
            assert!(span.is_dummy());
            assert_eq!(name, "cov_1");
            body
        }
        other => panic!("expected the bootstrap function, got {:?}", other),
    };
    assert_eq!(body.len(), 10);
    assert_eq!(string(var(&body[0], "path")), "src/x.js");
    let hash = string(var(&body[1], "hash")).to_string();
    assert_eq!(hash, compute_hash("src/x.js", &cov));
    var(&body[2], "global");
    assert_eq!(string(var(&body[3], "gcv")), "__coverage__");
    let data = object_props(var(&body[4], "coverageData"));
    let names: Vec<String> = data.iter().map(key_name).collect();
    assert_eq!(
        names,
        vec!["path", "statementMap", "fnMap", "branchMap", "s", "f", "b", "hash"]
    );
    assert_eq!(string(&data[0].value), "src/x.js");
    let statement_map = object_props(&data[1].value);
    assert_eq!(statement_map.len(), 2);
    assert_eq!(key_name(&statement_map[1]), "\"1\"");
    let second_start = object_props(&object_props(&statement_map[1].value)[0].value);
    assert_eq!(num(&second_start[0].value), 2);
    assert_eq!(num(&second_start[1].value), 2);
    for empty in [2, 3, 5, 6] {
        assert!(object_props(&data[empty].value).is_empty());
    }
    let counts = object_props(&data[4].value);
    assert_eq!(counts.iter().map(key_name).collect::<Vec<_>>(), vec!["\"0\"", "\"1\""]);
    assert!(counts.iter().all(|p| num(&p.value) == 0));
    assert_eq!(string(&data[7].value), hash);
    assert!(matches!(
        var(&body[5], "coverage"),
        Expr::Bin(BinaryOp::LogicalOr, _, _)
    ));
    match &body[6] {
        Stmt::If { test: Expr::Bin(BinaryOp::LogicalOr, _, changed), cons, .. } => {
            assert!(matches!(&**changed, Expr::Bin(BinaryOp::StrictNotEq, _, _)));
            assert_eq!(cons.len(), 1);
        }
        other => panic!("expected the install statement, got {:?}", other),
    }
    assert!(matches!(
        var(&body[7], "actualCoverage"),
        Expr::Member(_, MemberProp::Computed(_))
    ));
    match &body[8] {
        Stmt::Block { body: rebind, .. } => match &rebind[0] {
            Stmt::Expr { expr: Expr::Assign(target, value), .. } => {
                assert!(matches!(&**target, Expr::Ident(n) if n == "cov_1"));
                assert!(matches!(&**value, Expr::Function(b) if b.len() == 1));
            }
            other => panic!("expected the accessor rebinding, got {:?}", other),
        },
        other => panic!("expected a block, got {:?}", other),
    }
    assert!(matches!(&body[9], Stmt::Return { arg: Expr::Ident(n), .. } if n == "actualCoverage"));
}

#[test]
fn bootstrap_embeds_serialized_tree() {
    let cov = ledger(&[]);
    let stmts = create_coverage_init_stmts("t.js", "cov_2", &cov, Some("{\"type\":\"Module\"}"));
    let body = match &stmts[0] {
        Stmt::FnDecl { body, .. } => body,
        other => panic!("expected the bootstrap function, got {:?}", other),
    };
    let data = object_props(var(&body[4], "coverageData"));
    assert_eq!(data.len(), 9);
    assert_eq!(key_name(&data[8]), "ast");
    match &data[8].value {
        Expr::Call(callee, args) => {
            assert!(matches!(&**callee, Expr::Member(obj, MemberProp::Ident(m))
                if m == "parse" && matches!(&**obj, Expr::Ident(j) if j == "JSON")));
            assert_eq!(string(&args[0]), "{\"type\":\"Module\"}");
        }
        other => panic!("expected JSON.parse, got {:?}", other),
    }
    assert!(object_props(&data[1].value).is_empty());
}
