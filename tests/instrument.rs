use coverage_instrument::{
    create_coverage_instrumentation_visitor, CoverageVisitor, Expr, MemberProp, Program, Range,
    SourceCoverage, Span, Stmt,
};

fn span(lo: u32, hi: u32) -> Span {
    Span { lo, hi }
}

fn resolve(s: &Span) -> Range {
    if s.lo == 0 && s.hi == 0 {
        Range::default()
    } else {
        Range::new(s.lo, 1, s.hi, 2)
    }
}

fn call_stmt(lo: u32, hi: u32, callee: &str) -> Stmt {
    Stmt::Expr {
        span: span(lo, hi),
        expr: Expr::Call(Box::new(Expr::Ident(callee.to_string())), vec![]),
    }
}

fn directive(lo: u32, hi: u32, text: &str) -> Stmt {
    Stmt::Expr { span: span(lo, hi), expr: Expr::Str(text.to_string()) }
}

fn counter_id(st: &Stmt, accessor: &str) -> Option<u32> {
    let Stmt::Expr { span, expr: Expr::PostIncrement(target) } = st else { return None };
    if !span.is_dummy() {
        return None;
    }
    let Expr::Member(obj, MemberProp::Computed(key)) = &**target else { return None };
    let Expr::Num(id) = &**key else { return None };
    let Expr::Member(call, MemberProp::Ident(field)) = &**obj else { return None };
    let Expr::Call(callee, args) = &**call else { return None };
    let Expr::Ident(name) = &**callee else { return None };
    if field == "s" && args.is_empty() && name == accessor {
        Some(*id)
    } else {
        None
    }
}

fn visitor(name: &str) -> CoverageVisitor<fn(&Span) -> Range> {
    create_coverage_instrumentation_visitor(name, resolve as fn(&Span) -> Range)
}

fn ranges(cov: &SourceCoverage) -> Vec<Range> {
    cov.statements().into_iter().map(|(_, r)| r).collect()
}

fn body(p: &Program) -> &Vec<Stmt> {
    match p {
        Program::Module(items) => items,
        Program::Script(body) => body,
    }
}

#[test]
fn range_new_sets_fields() {
    let r = Range::new(1, 2, 3, 4);
    assert_eq!(r.start.line, 1);
    assert_eq!(r.start.column, 2);
    assert_eq!(r.end.line, 3);
    assert_eq!(r.end.column, 4);
    assert_eq!(Range::default(), Range::new(0, 0, 0, 0));
}

#[test]
fn ledger_ids_are_sequential() {
    let mut cov = SourceCoverage::new();
    assert_eq!(cov.new_statement(&Range::new(1, 0, 1, 5)), 0);
    assert_eq!(cov.new_statement(&Range::default()), 1);
    assert_eq!(cov.new_statement(&Range::new(2, 0, 3, 1)), 2);
    assert_eq!(
        cov.statements(),
        vec![(0, Range::new(1, 0, 1, 5)), (1, Range::default()), (2, Range::new(2, 0, 3, 1))]
    );
    assert_eq!(cov.counts(), vec![(0, 0), (1, 0), (2, 0)]);
    assert_eq!(cov.statement_map.len(), cov.s.len());
}

#[test]
fn if_statement_nested_call_and_sibling_are_counted() {
    // if (x) { foo(); } bar();
    let mut program = Program::Module(vec![
        Stmt::If {
            span: span(1, 18),
            test: Expr::Ident("x".to_string()),
            cons: vec![call_stmt(10, 16, "foo")],
        },
        call_stmt(19, 25, "bar"),
    ]);
    let mut v = visitor("a.js");
    v.visit_mut_program(&mut program);
    assert_eq!(
        ranges(v.coverage()),
        vec![Range::new(1, 1, 18, 2), Range::new(10, 1, 16, 2), Range::new(19, 1, 25, 2)]
    );
    let acc = v.cov_fn_ident().to_string();
    let out = body(&program);
    assert_eq!(out.len(), 6);
    assert!(matches!(&out[0], Stmt::FnDecl { name, .. } if *name == acc));
    assert!(matches!(&out[1], Stmt::Expr { expr: Expr::Call(..), .. }));
    assert_eq!(counter_id(&out[2], &acc), Some(0));
    match &out[3] {
        Stmt::If { cons, .. } => {
            assert_eq!(cons.len(), 2);
            assert_eq!(counter_id(&cons[0], &acc), Some(1));
            assert!(counter_id(&cons[1], &acc).is_none());
        }
        other => panic!("expected the if statement, got {:?}", other),
    }
    assert_eq!(counter_id(&out[4], &acc), Some(2));
    assert!(matches!(&out[5], Stmt::Expr { span: s, .. } if *s == span(19, 25)));
}

#[test]
fn function_declaration_counts_only_its_body() {
    // function f(){ g(); }
    let mut program = Program::Script(vec![Stmt::FnDecl {
        span: span(1, 21),
        name: "f".to_string(),
        body: vec![call_stmt(14, 18, "g")],
    }]);
    let mut v = visitor("b.js");
    v.visit_mut_program(&mut program);
    assert_eq!(ranges(v.coverage()), vec![Range::new(14, 1, 18, 2)]);
    let acc = v.cov_fn_ident().to_string();
    let out = body(&program);
    assert_eq!(out.len(), 3);
    match &out[2] {
        Stmt::FnDecl { body, .. } => {
            assert_eq!(body.len(), 2);
            assert_eq!(counter_id(&body[0], &acc), Some(0));
        }
        other => panic!("expected the function, got {:?}", other),
    }
}

#[test]
fn use_strict_directive_is_not_counted() {
    // "use strict"; x();
    let mut program =
        Program::Module(vec![directive(1, 13, "use strict"), call_stmt(15, 19, "x")]);
    let mut v = visitor("c.js");
    v.visit_mut_program(&mut program);
    assert_eq!(ranges(v.coverage()), vec![Range::new(15, 1, 19, 2)]);
    let acc = v.cov_fn_ident().to_string();
    let out = body(&program);
    assert_eq!(out.len(), 5);
    assert!(matches!(&out[2], Stmt::Expr { expr: Expr::Str(s), .. } if s == "use strict"));
    assert_eq!(counter_id(&out[3], &acc), Some(0));
}

#[test]
fn string_statement_after_code_is_counted() {
    let mut stmts = vec![call_stmt(1, 4, "x"), directive(5, 9, "late")];
    let mut v = visitor("d.js");
    v.visit_mut_stmts(&mut stmts);
    assert_eq!(ranges(v.coverage()), vec![Range::new(1, 1, 4, 2), Range::new(5, 1, 9, 2)]);
    assert_eq!(stmts.len(), 4);
}

#[test]
fn second_pass_adds_no_counters_for_generated_code() {
    let source = || {
        Program::Module(vec![
            directive(1, 13, "use strict"),
            Stmt::If {
                span: span(14, 30),
                test: Expr::Ident("x".to_string()),
                cons: vec![call_stmt(20, 26, "foo")],
            },
            Stmt::FnDecl {
                span: span(31, 50),
                name: "f".to_string(),
                body: vec![call_stmt(40, 45, "g")],
            },
        ])
    };
    let mut program = source();
    let mut first = visitor("e.js");
    first.visit_mut_program(&mut program);
    let first_ranges = ranges(first.coverage());
    assert_eq!(first_ranges.len(), 3);
    let mut second = visitor("e.js");
    second.visit_mut_program(&mut program);
    assert_eq!(ranges(second.coverage()), first_ranges);
}

#[test]
fn generated_statement_is_skipped_but_its_body_is_not() {
    let mut stmts = vec![Stmt::Block { span: Span::dummy(), body: vec![call_stmt(3, 7, "h")] }];
    let mut v = visitor("f.js");
    v.visit_mut_stmts(&mut stmts);
    assert_eq!(ranges(v.coverage()), vec![Range::new(3, 1, 7, 2)]);
    assert_eq!(stmts.len(), 1);
}

#[test]
fn module_declaration_and_other_nodes_use_their_scopes() {
    let mut items = vec![
        Stmt::ModuleDecl { node: 7, scopes: vec![vec![call_stmt(2, 5, "a")]] },
        Stmt::Other {
            span: span(10, 40),
            node: 8,
            scopes: vec![vec![call_stmt(12, 15, "b")], vec![call_stmt(20, 25, "c")]],
        },
    ];
    let mut v = visitor("g.js");
    v.visit_mut_module_items(&mut items);
    assert_eq!(
        ranges(v.coverage()),
        vec![
            Range::new(2, 1, 5, 2),
            Range::new(10, 1, 40, 2),
            Range::new(12, 1, 15, 2),
            Range::new(20, 1, 25, 2)
        ]
    );
    assert_eq!(items.len(), 3);
    match &items[2] {
        Stmt::Other { node, scopes, .. } => {
            assert_eq!(*node, 8);
            assert_eq!(scopes[0].len(), 2);
            assert_eq!(scopes[1].len(), 2);
            assert_eq!(counter_id(&scopes[1][0], v.cov_fn_ident()), Some(3));
        }
        other => panic!("expected the host node, got {:?}", other),
    }
}

#[test]
fn default_resolver_gives_zero_ranges() {
    let mut stmts = vec![call_stmt(1, 4, "x")];
    let mut v = create_coverage_instrumentation_visitor("h.js", |_: &Span| Range::default());
    v.visit_mut_script(&mut stmts);
    assert_eq!(v.coverage().statements(), vec![(0, Range::default())]);
}

#[test]
fn accessor_name_depends_on_file_name_only() {
    let a = visitor("src/a.js");
    let b = visitor("src/a.js");
    let c = visitor("src/b.js");
    assert!(a.cov_fn_ident().starts_with("cov_"));
    assert!(a.cov_fn_ident()[4..].chars().all(|c| c.is_ascii_digit()));
    assert_eq!(a.cov_fn_ident(), b.cov_fn_ident());
    assert_ne!(a.cov_fn_ident(), c.cov_fn_ident());
}

#[test]
fn default_ledger_is_empty() {
    let mut cov = SourceCoverage::default();
    assert!(cov.statements().is_empty());
    assert_eq!(cov.new_statement(&Range::new(1, 0, 1, 1)), 0);
}
