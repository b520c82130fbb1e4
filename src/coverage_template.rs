//! The runtime bootstrap: a function that registers the file's coverage
//! record under the global `__coverage__` key, keeps an existing record whose
//! fingerprint is unchanged, and rebinds the file's accessor to it.
use crate::ast::{BinaryOp, Expr, MemberProp, Prop, PropKey, Span, Stmt};
use crate::decimal::{decimal, is_digit, lemma_decimal, lemma_decimal_injective, push_decimal, to_decimal};
use crate::digest::{hash_text, text_hash};
use crate::source_coverage::{Range, SourceCoverage};
use vstd::prelude::*;
use vstd::string::StringExecFns;

verus! {

/// The text of one ledger entry: `id:line:column:line:column;`.
pub open spec fn entry_text(e: (u32, Range)) -> Seq<char> {
    decimal(e.0 as nat) + seq![':'] + decimal(e.1.start.line as nat) + seq![':'] + decimal(
        e.1.start.column as nat,
    ) + seq![':'] + decimal(e.1.end.line as nat) + seq![':'] + decimal(e.1.end.column as nat)
        + seq![';']
}

/// The texts of the entries, one after another.
pub open spec fn entries_text(es: Seq<(u32, Range)>) -> Seq<char>
    decreases es.len(),
{
    if es.len() == 0 {
        Seq::empty()
    } else {
        entries_text(es.drop_last()) + entry_text(es.last())
    }
}

/// What the fingerprint is computed from: the entries, `|`, the file name.
/// The counts are left out: in a well-formed ledger they are all zero.
pub open spec fn ledger_text(file: Seq<char>, es: Seq<(u32, Range)>) -> Seq<char> {
    entries_text(es) + seq!['|'] + file
}

/// The fingerprint of a file's coverage-relevant structure.
pub open spec fn fingerprint(file: Seq<char>, es: Seq<(u32, Range)>) -> Seq<char> {
    decimal(text_hash(ledger_text(file, es)) as nat)
}

fn push_entry(out: &mut String, e: (u32, Range))
    ensures
        final(out)@ == old(out)@ + entry_text(e),
{
    proof {
        reveal_strlit(":");
        reveal_strlit(";");
    }
    push_decimal(out, e.0 as u64);
    out.append(":");
    push_decimal(out, e.1.start.line as u64);
    out.append(":");
    push_decimal(out, e.1.start.column as u64);
    out.append(":");
    push_decimal(out, e.1.end.line as u64);
    out.append(":");
    push_decimal(out, e.1.end.column as u64);
    out.append(";");
    assert(out@ =~= old(out)@ + entry_text(e));
}

/// The text that the fingerprint of `filename` and `cov` hashes.
pub fn ledger_string(filename: &str, cov: &SourceCoverage) -> (r: String)
    ensures
        r@ == ledger_text(filename@, cov.entries()),
{
    let es = cov.statements();
    let mut out = String::new();
    let mut i: usize = 0;
    while i < es.len()
        invariant
            i <= es@.len(),
            es@ == cov.entries(),
            out@ == entries_text(es@.take(i as int)),
        decreases es@.len() - i,
    {
        push_entry(&mut out, es[i]);
        i = i + 1;
        assert(es@.take(i as int).drop_last() =~= es@.take(i - 1));
    }
    assert(es@.take(i as int) =~= es@);
    proof {
        reveal_strlit("|");
    }
    out.append("|");
    out.append(filename);
    assert(out@ =~= ledger_text(filename@, cov.entries()));
    out
}

/// The fingerprint of `filename` and the ledger `cov`, as decimal text.
pub fn compute_hash(filename: &str, cov: &SourceCoverage) -> (r: String)
    ensures
        r@ == fingerprint(filename@, cov.entries()),
{
    let text = ledger_string(filename, cov);
    to_decimal(hash_text(text.as_str()))
}

pub open spec fn is_ident(e: Expr, name: Seq<char>) -> bool {
    match e {
        Expr::Ident(n) => n@ == name,
        _ => false,
    }
}

pub open spec fn is_str(e: Expr, value: Seq<char>) -> bool {
    match e {
        Expr::Str(v) => v@ == value,
        _ => false,
    }
}

pub open spec fn is_num(e: Expr, value: nat) -> bool {
    match e {
        Expr::Num(v) => v == value,
        _ => false,
    }
}

pub open spec fn is_empty_object(e: Expr) -> bool {
    match e {
        Expr::Object(ps) => ps@.len() == 0,
        _ => false,
    }
}

/// `obj[key]`, both names.
pub open spec fn is_index(e: Expr, obj: Seq<char>, key: Seq<char>) -> bool {
    match e {
        Expr::Member(o, MemberProp::Computed(k)) => is_ident(*o, obj) && is_ident(*k, key),
        _ => false,
    }
}

/// A property written `name: ...`.
pub open spec fn keyed(p: Prop, name: Seq<char>) -> bool {
    match p.key {
        PropKey::Ident(n) => n@ == name,
        _ => false,
    }
}

/// The properties of an object literal.
pub open spec fn props_of(e: Expr) -> Seq<Prop> {
    match e {
        Expr::Object(ps) => ps@,
        _ => Seq::empty(),
    }
}

/// `{ line: .., column: .. }` for `loc`.
pub open spec fn is_position_object(e: Expr, line: u32, column: u32) -> bool {
    let ps = props_of(e);
    &&& e is Object
    &&& ps.len() == 2
    &&& keyed(ps[0], "line"@) && is_num(ps[0].value, line as nat)
    &&& keyed(ps[1], "column"@) && is_num(ps[1].value, column as nat)
}

/// `{ start: {..}, end: {..} }` for `r`.
pub open spec fn is_range_object(e: Expr, r: Range) -> bool {
    let ps = props_of(e);
    &&& e is Object
    &&& ps.len() == 2
    &&& keyed(ps[0], "start"@) && is_position_object(ps[0].value, r.start.line, r.start.column)
    &&& keyed(ps[1], "end"@) && is_position_object(ps[1].value, r.end.line, r.end.column)
}

/// `{ "0": .., "1": .., ... }`: one range object per entry, keyed by its id.
pub open spec fn is_statement_map(e: Expr, es: Seq<(u32, Range)>) -> bool {
    let ps = props_of(e);
    &&& e is Object
    &&& ps.len() == es.len()
    &&& forall|i: int|
        0 <= i < ps.len() ==> (#[trigger] ps[i]).key is Str && ps[i].key->Str_0@ == decimal(es[i].0 as nat) && is_range_object(ps[i].value, es[i].1)
}

/// `{ "0": 0, ... }`: one count per entry, keyed by its id.
pub open spec fn is_count_map(e: Expr, cs: Seq<(u32, u32)>) -> bool {
    let ps = props_of(e);
    &&& e is Object
    &&& ps.len() == cs.len()
    &&& forall|i: int|
        0 <= i < ps.len() ==> (#[trigger] ps[i]).key is Str && ps[i].key->Str_0@ == decimal(
            cs[i].0 as nat,
        ) && is_num(ps[i].value, cs[i].1 as nat)
}

/// `JSON.parse("text")`.
pub open spec fn is_json_parse(e: Expr, text: Seq<char>) -> bool {
    match e {
        Expr::Call(callee, args) => match *callee {
            Expr::Member(obj, MemberProp::Ident(method)) => {
                &&& is_ident(*obj, "JSON"@)
                &&& method@ == "parse"@
                &&& args@.len() == 1
                &&& is_str(args@[0], text)
            },
            _ => false,
        },
        _ => false,
    }
}

/// The coverage record literal: `path`, `statementMap`, the empty `fnMap`
/// and `branchMap`, `s`, the empty `f` and `b`, the fingerprint `hash`, and
/// `ast: JSON.parse(..)` when a serialized tree is given.
pub open spec fn is_coverage_data(
    e: Expr,
    path: Seq<char>,
    hash: Seq<char>,
    es: Seq<(u32, Range)>,
    cs: Seq<(u32, u32)>,
    ast: Option<Seq<char>>,
) -> bool {
    let ps = props_of(e);
    &&& e is Object
    &&& ps.len() == if ast is Some {
        9int
    } else {
        8int
    }
    &&& keyed(ps[0], "path"@) && is_str(ps[0].value, path)
    &&& keyed(ps[1], "statementMap"@) && is_statement_map(ps[1].value, es)
    &&& keyed(ps[2], "fnMap"@) && is_empty_object(ps[2].value)
    &&& keyed(ps[3], "branchMap"@) && is_empty_object(ps[3].value)
    &&& keyed(ps[4], "s"@) && is_count_map(ps[4].value, cs)
    &&& keyed(ps[5], "f"@) && is_empty_object(ps[5].value)
    &&& keyed(ps[6], "b"@) && is_empty_object(ps[6].value)
    &&& keyed(ps[7], "hash"@) && is_str(ps[7].value, hash)
    &&& (ast matches Some(t) ==> keyed(ps[8], "ast"@) && is_json_parse(ps[8].value, t))
}

/// The text of an optional string.
pub open spec fn text_of(o: Option<&str>) -> Option<Seq<char>> {
    match o {
        Some(t) => Some(t@),
        None => None,
    }
}

/// `var name = ...;`, generated.
pub open spec fn is_var(st: Stmt, name: Seq<char>) -> bool {
    match st {
        Stmt::Var { span, name: n, .. } => span.spec_is_dummy() && n@ == name,
        _ => false,
    }
}

pub open spec fn var_init(st: Stmt) -> Expr {
    match st {
        Stmt::Var { init, .. } => init,
        _ => Expr::Num(0),
    }
}

fn text(s: &str) -> (r: String)
    ensures
        r@ == s@,
{
    String::from_str(s)
}

fn ident(name: &str) -> (e: Expr)
    ensures
        is_ident(e, name@),
{
    Expr::Ident(text(name))
}

fn str_lit(value: &str) -> (e: Expr)
    ensures
        is_str(e, value@),
{
    Expr::Str(text(value))
}

fn index(obj: &str, key: &str) -> (e: Expr)
    ensures
        is_index(e, obj@, key@),
{
    Expr::Member(Box::new(ident(obj)), MemberProp::Computed(Box::new(ident(key))))
}

fn prop(key: &str, value: Expr) -> (p: Prop)
    ensures
        keyed(p, key@),
        p.value == value,
{
    Prop { key: PropKey::Ident(text(key)), value }
}

fn empty_object() -> (e: Expr)
    ensures
        is_empty_object(e),
{
    Expr::Object(Vec::new())
}

fn position_object(line: u32, column: u32) -> (e: Expr)
    ensures
        is_position_object(e, line, column),
{
    let mut ps: Vec<Prop> = Vec::new();
    ps.push(prop("line", Expr::Num(line)));
    ps.push(prop("column", Expr::Num(column)));
    Expr::Object(ps)
}

/// `{ start: { line, column }, end: { line, column } }` for `range`.
pub fn create_range_object_lit(range: &Range) -> (e: Expr)
    ensures
        is_range_object(e, *range),
{
    let mut ps: Vec<Prop> = Vec::new();
    ps.push(prop("start", position_object(range.start.line, range.start.column)));
    ps.push(prop("end", position_object(range.end.line, range.end.column)));
    Expr::Object(ps)
}

fn statement_map_object(cov: &SourceCoverage) -> (e: Expr)
    ensures
        is_statement_map(e, cov.entries()),
{
    let es = cov.statements();
    let mut ps: Vec<Prop> = Vec::new();
    let mut i: usize = 0;
    while i < es.len()
        invariant
            i <= es@.len(),
            es@ == cov.entries(),
            ps@.len() == i,
            forall|j: int|
                0 <= j < i ==> (#[trigger] ps@[j]).key is Str && ps@[j].key->Str_0@ == decimal(
                    es@[j].0 as nat,
                ) && is_range_object(ps@[j].value, es@[j].1),
        decreases es@.len() - i,
    {
        let (id, range) = es[i];
        ps.push(
            Prop { key: PropKey::Str(to_decimal(id as u64)), value: create_range_object_lit(&range) },
        );
        i = i + 1;
    }
    Expr::Object(ps)
}

fn count_map_object(cov: &SourceCoverage) -> (e: Expr)
    ensures
        is_count_map(e, cov.count_list()),
{
    let cs = cov.counts();
    let mut ps: Vec<Prop> = Vec::new();
    let mut i: usize = 0;
    while i < cs.len()
        invariant
            i <= cs@.len(),
            cs@ == cov.count_list(),
            ps@.len() == i,
            forall|j: int|
                0 <= j < i ==> (#[trigger] ps@[j]).key is Str && ps@[j].key->Str_0@ == decimal(
                    cs@[j].0 as nat,
                ) && is_num(ps@[j].value, cs@[j].1 as nat),
        decreases cs@.len() - i,
    {
        let (id, count) = cs[i];
        ps.push(Prop { key: PropKey::Str(to_decimal(id as u64)), value: Expr::Num(count) });
        i = i + 1;
    }
    Expr::Object(ps)
}

/// The coverage record literal for `filename`, its fingerprint `hash`, the
/// ledger `cov`, and the serialized tree `ast_json` if there is one.
pub fn create_coverage_data_object(
    filename: &str,
    hash: &str,
    cov: &SourceCoverage,
    ast_json: Option<&str>,
) -> (e: Expr)
    ensures
        is_coverage_data(
            e,
            filename@,
            hash@,
            cov.entries(),
            cov.count_list(),
            text_of(ast_json),
        ),
{
    let mut ps: Vec<Prop> = Vec::new();
    ps.push(prop("path", str_lit(filename)));
    ps.push(prop("statementMap", statement_map_object(cov)));
    ps.push(prop("fnMap", empty_object()));
    ps.push(prop("branchMap", empty_object()));
    ps.push(prop("s", count_map_object(cov)));
    ps.push(prop("f", empty_object()));
    ps.push(prop("b", empty_object()));
    ps.push(prop("hash", str_lit(hash)));
    match ast_json {
        Some(ast) => {
            let mut args: Vec<Expr> = Vec::new();
            args.push(str_lit(ast));
            let parse = Expr::Member(Box::new(ident("JSON")), MemberProp::Ident(text("parse")));
            ps.push(prop("ast", Expr::Call(Box::new(parse), args)));
        },
        None => {},
    }
    Expr::Object(ps)
}

/// `var name = value;`
pub fn create_assignment_stmt(name: &str, value: Expr) -> (st: Stmt)
    ensures
        is_var(st, name@),
        var_init(st) == value,
{
    Stmt::Var { span: Span::dummy(), name: text(name), init: value }
}

/// `new Function("return this")()`: the global object, wherever the code runs.
pub open spec fn is_global_lookup(e: Expr) -> bool {
    match e {
        Expr::Call(callee, args) => args@.len() == 0 && match *callee {
            Expr::New(ctor, ctor_args) => {
                &&& is_ident(*ctor, "Function"@)
                &&& ctor_args@.len() == 1
                &&& is_str(ctor_args@[0], "return this"@)
            },
            _ => false,
        },
        _ => false,
    }
}

/// `global[gcv] || (global[gcv] = {})`: the registry, created when absent.
pub open spec fn is_registry_lookup(e: Expr) -> bool {
    match e {
        Expr::Bin(BinaryOp::LogicalOr, l, r) => is_index(*l, "global"@, "gcv"@) && match *r {
            Expr::Paren(inner) => match *inner {
                Expr::Assign(t, v) => is_index(*t, "global"@, "gcv"@) && is_empty_object(*v),
                _ => false,
            },
            _ => false,
        },
        _ => false,
    }
}

/// `!coverage[path] || coverage[path].hash !== hash`
pub open spec fn is_stale_test(e: Expr) -> bool {
    match e {
        Expr::Bin(BinaryOp::LogicalOr, l, r) => {
            &&& match *l {
                Expr::Not(x) => is_index(*x, "coverage"@, "path"@),
                _ => false,
            }
            &&& match *r {
                Expr::Bin(BinaryOp::StrictNotEq, a, b) => is_ident(*b, "hash"@) && match *a {
                    Expr::Member(o, MemberProp::Ident(h)) => is_index(*o, "coverage"@, "path"@)
                        && h@ == "hash"@,
                    _ => false,
                },
                _ => false,
            }
        },
        _ => false,
    }
}

/// `target = value;` as a generated statement.
pub open spec fn is_assign_stmt(st: Stmt) -> bool {
    match st {
        Stmt::Expr { span, expr: Expr::Assign(_, _) } => span.spec_is_dummy(),
        _ => false,
    }
}

pub open spec fn assign_target(st: Stmt) -> Expr {
    match st {
        Stmt::Expr { expr: Expr::Assign(t, _), .. } => *t,
        _ => Expr::Num(0),
    }
}

pub open spec fn assign_value(st: Stmt) -> Expr {
    match st {
        Stmt::Expr { expr: Expr::Assign(_, v), .. } => *v,
        _ => Expr::Num(0),
    }
}

/// `if (stale) { coverage[path] = coverageData; }`: a missing or stale
/// record is replaced by the fresh one.
pub open spec fn is_install(st: Stmt) -> bool {
    match st {
        Stmt::If { span, test, cons } => {
            &&& span.spec_is_dummy()
            &&& is_stale_test(test)
            &&& cons@.len() == 1
            &&& is_assign_stmt(cons@[0])
            &&& is_index(assign_target(cons@[0]), "coverage"@, "path"@)
            &&& is_ident(assign_value(cons@[0]), "coverageData"@)
        },
        _ => false,
    }
}

/// `return name;`, generated.
pub open spec fn is_return_of(st: Stmt, name: Seq<char>) -> bool {
    match st {
        Stmt::Return { span, arg } => span.spec_is_dummy() && is_ident(arg, name),
        _ => false,
    }
}

/// `{ acc = function () { return actualCoverage; }; }`: the accessor now
/// returns the registered record.
pub open spec fn is_rebind(st: Stmt, acc: Seq<char>) -> bool {
    match st {
        Stmt::Block { span, body } => {
            &&& span.spec_is_dummy()
            &&& body@.len() == 1
            &&& is_assign_stmt(body@[0])
            &&& is_ident(assign_target(body@[0]), acc)
            &&& match assign_value(body@[0]) {
                Expr::Function(fb) => fb@.len() == 1 && is_return_of(fb@[0], "actualCoverage"@),
                _ => false,
            }
        },
        _ => false,
    }
}

/// The statements of the bootstrap function, in order.
pub open spec fn is_bootstrap_body(
    b: Seq<Stmt>,
    path: Seq<char>,
    hash: Seq<char>,
    acc: Seq<char>,
    es: Seq<(u32, Range)>,
    cs: Seq<(u32, u32)>,
    ast: Option<Seq<char>>,
) -> bool {
    &&& b.len() == 10
    &&& is_var(b[0], "path"@) && is_str(var_init(b[0]), path)
    &&& is_var(b[1], "hash"@) && is_str(var_init(b[1]), hash)
    &&& is_var(b[2], "global"@) && is_global_lookup(var_init(b[2]))
    &&& is_var(b[3], "gcv"@) && is_str(var_init(b[3]), "__coverage__"@)
    &&& is_var(b[4], "coverageData"@) && is_coverage_data(var_init(b[4]), path, hash, es, cs, ast)
    &&& is_var(b[5], "coverage"@) && is_registry_lookup(var_init(b[5]))
    &&& is_install(b[6])
    &&& is_var(b[7], "actualCoverage"@) && is_index(var_init(b[7]), "coverage"@, "path"@)
    &&& is_rebind(b[8], acc)
    &&& is_return_of(b[9], "actualCoverage"@)
}

/// `function acc() { .. }`: the bootstrap function of a file.
pub open spec fn is_bootstrap_fn(
    st: Stmt,
    path: Seq<char>,
    acc: Seq<char>,
    es: Seq<(u32, Range)>,
    cs: Seq<(u32, u32)>,
    ast: Option<Seq<char>>,
) -> bool {
    match st {
        Stmt::FnDecl { span, name, body } => {
            &&& span.spec_is_dummy()
            &&& name@ == acc
            &&& is_bootstrap_body(body@, path, fingerprint(path, es), acc, es, cs, ast)
        },
        _ => false,
    }
}

/// `acc();`, generated.
pub open spec fn is_bootstrap_call(st: Stmt, acc: Seq<char>) -> bool {
    match st {
        Stmt::Expr { span, expr: Expr::Call(callee, args) } => {
            &&& span.spec_is_dummy()
            &&& is_ident(*callee, acc)
            &&& args@.len() == 0
        },
        _ => false,
    }
}

fn assign_stmt(target: Expr, value: Expr) -> (st: Stmt)
    ensures
        is_assign_stmt(st),
        assign_target(st) == target,
        assign_value(st) == value,
{
    Stmt::Expr { span: Span::dummy(), expr: Expr::Assign(Box::new(target), Box::new(value)) }
}

/// The bootstrap function declaration for `filename`, accessor
/// `cov_fn_ident`, the ledger `cov` and the optional serialized tree.
pub fn create_coverage_fn_decl(
    filename: &str,
    cov_fn_ident: &str,
    cov: &SourceCoverage,
    ast_json: Option<&str>,
) -> (st: Stmt)
    ensures
        is_bootstrap_fn(
            st,
            filename@,
            cov_fn_ident@,
            cov.entries(),
            cov.count_list(),
            text_of(ast_json),
        ),
{
    let hash = compute_hash(filename, cov);
    let mut stmts: Vec<Stmt> = Vec::new();
    stmts.push(create_assignment_stmt("path", str_lit(filename)));
    stmts.push(create_assignment_stmt("hash", str_lit(hash.as_str())));
    let mut ctor_args: Vec<Expr> = Vec::new();
    ctor_args.push(str_lit("return this"));
    let ctor = Expr::New(Box::new(ident("Function")), ctor_args);
    stmts.push(create_assignment_stmt("global", Expr::Call(Box::new(ctor), Vec::new())));
    stmts.push(create_assignment_stmt("gcv", str_lit("__coverage__")));
    stmts.push(
        create_assignment_stmt(
            "coverageData",
            create_coverage_data_object(filename, hash.as_str(), cov, ast_json),
        ),
    );
    let create = Expr::Paren(
        Box::new(Expr::Assign(Box::new(index("global", "gcv")), Box::new(empty_object()))),
    );
    stmts.push(
        create_assignment_stmt(
            "coverage",
            Expr::Bin(BinaryOp::LogicalOr, Box::new(index("global", "gcv")), Box::new(create)),
        ),
    );
    let missing = Expr::Not(Box::new(index("coverage", "path")));
    let recorded = Expr::Member(Box::new(index("coverage", "path")), MemberProp::Ident(text("hash")));
    let changed = Expr::Bin(BinaryOp::StrictNotEq, Box::new(recorded), Box::new(ident("hash")));
    let mut install: Vec<Stmt> = Vec::new();
    install.push(assign_stmt(index("coverage", "path"), ident("coverageData")));
    stmts.push(
        Stmt::If {
            span: Span::dummy(),
            test: Expr::Bin(BinaryOp::LogicalOr, Box::new(missing), Box::new(changed)),
            cons: install,
        },
    );
    stmts.push(create_assignment_stmt("actualCoverage", index("coverage", "path")));
    let mut accessor_body: Vec<Stmt> = Vec::new();
    accessor_body.push(Stmt::Return { span: Span::dummy(), arg: ident("actualCoverage") });
    let mut rebind: Vec<Stmt> = Vec::new();
    rebind.push(assign_stmt(ident(cov_fn_ident), Expr::Function(accessor_body)));
    stmts.push(Stmt::Block { span: Span::dummy(), body: rebind });
    stmts.push(Stmt::Return { span: Span::dummy(), arg: ident("actualCoverage") });
    Stmt::FnDecl { span: Span::dummy(), name: text(cov_fn_ident), body: stmts }
}

/// The bootstrap of a file: the function declaration, then its call.
pub fn create_coverage_init_stmts(
    filename: &str,
    cov_fn_ident: &str,
    cov: &SourceCoverage,
    ast_json: Option<&str>,
) -> (r: Vec<Stmt>)
    ensures
        r@.len() == 2,
        is_bootstrap_fn(
            r@[0],
            filename@,
            cov_fn_ident@,
            cov.entries(),
            cov.count_list(),
            text_of(ast_json),
        ),
        is_bootstrap_call(r@[1], cov_fn_ident@),
{
    let mut r: Vec<Stmt> = Vec::new();
    r.push(create_coverage_fn_decl(filename, cov_fn_ident, cov, ast_json));
    r.push(
        Stmt::Expr { span: Span::dummy(), expr: Expr::Call(Box::new(ident(cov_fn_ident)), Vec::new()) },
    );
    r
}

/// The same file name and the same ledger entries give the same fingerprint.
pub proof fn lemma_fingerprint_is_deterministic(
    file1: Seq<char>,
    es1: Seq<(u32, Range)>,
    file2: Seq<char>,
    es2: Seq<(u32, Range)>,
)
    requires
        file1 == file2,
        es1 == es2,
    ensures
        fingerprint(file1, es1) == fingerprint(file2, es2),
{
}

/// A file's entry in the global registry: the fingerprint of the record
/// installed there, and the record's counts.
pub type RegistryEntry = (Seq<char>, Seq<int>);

/// What the bootstrap does to the registry when it runs: a missing record,
/// or one whose fingerprint differs from `hash`, is replaced by the fresh
/// record with zero counts `fresh`; otherwise the registry stays as it is.
/// This is the effect of the statement that `is_install` describes.
pub open spec fn run_bootstrap(
    registry: Map<Seq<char>, RegistryEntry>,
    path: Seq<char>,
    hash: Seq<char>,
    fresh: Seq<int>,
) -> Map<Seq<char>, RegistryEntry> {
    if !registry.contains_key(path) || registry[path].0 != hash {
        registry.insert(path, (hash, fresh))
    } else {
        registry
    }
}

/// Running the bootstrap a second time with an unchanged fingerprint keeps
/// the record, and the counts it gathered in between, as they are; with a
/// changed fingerprint the fresh record replaces it.
pub proof fn lemma_rerun_keeps_counts(
    registry: Map<Seq<char>, RegistryEntry>,
    path: Seq<char>,
    hash: Seq<char>,
    fresh: Seq<int>,
    counts: Seq<int>,
    new_hash: Seq<char>,
    new_fresh: Seq<int>,
)
    ensures
        run_bootstrap(registry, path, hash, fresh)[path].0 == hash,
        ({
            let gathered = run_bootstrap(registry, path, hash, fresh).insert(path, (hash, counts));
            &&& run_bootstrap(gathered, path, hash, fresh) == gathered
            &&& run_bootstrap(gathered, path, hash, fresh)[path].1 == counts
            &&& new_hash != hash ==> run_bootstrap(gathered, path, new_hash, new_fresh)[path] == (
                new_hash,
                new_fresh,
            )
        }),
{
}

/// No character of `s` is `c`.
pub open spec fn free_of(s: Seq<char>, c: char) -> bool {
    forall|i: int| 0 <= i < s.len() ==> s[i] != c
}

/// Two texts cut at the first `c`: equal wholes have equal parts.
proof fn lemma_split_at_first(a: Seq<char>, b: Seq<char>, a2: Seq<char>, b2: Seq<char>, c: char)
    requires
        a + seq![c] + b == a2 + seq![c] + b2,
        free_of(a, c),
        free_of(a2, c),
    ensures
        a == a2,
        b == b2,
{
    let t = a + seq![c] + b;
    let t2 = a2 + seq![c] + b2;
    if a.len() < a2.len() {
        assert(t[a.len() as int] == c);
        assert(t2[a.len() as int] == a2[a.len() as int]);
    }
    if a2.len() < a.len() {
        assert(t2[a2.len() as int] == c);
        assert(t[a2.len() as int] == a[a2.len() as int]);
    }
    assert(a =~= t.take(a.len() as int));
    assert(a2 =~= t2.take(a2.len() as int));
    assert(b =~= t.skip(a.len() as int + 1));
    assert(b2 =~= t2.skip(a2.len() as int + 1));
}

/// Two texts cut after the last `;`: equal wholes have equal parts.
proof fn lemma_split_after_last(a: Seq<char>, x: Seq<char>, b: Seq<char>, y: Seq<char>)
    requires
        a + x == b + y,
        free_of(x, ';'),
        free_of(y, ';'),
        a.len() == 0 || a.last() == ';',
        b.len() == 0 || b.last() == ';',
    ensures
        a == b,
        x == y,
{
    let t = a + x;
    if x.len() < y.len() {
        if a.len() > 0 {
            assert(t[a.len() - 1] == ';');
            assert((b + y)[a.len() - 1] == y[a.len() - 1 - b.len()]);
        }
    }
    if y.len() < x.len() {
        if b.len() > 0 {
            assert((b + y)[b.len() - 1] == ';');
            assert(t[b.len() - 1] == x[b.len() - 1 - a.len()]);
        }
    }
    assert(a =~= t.take(a.len() as int));
    assert(b =~= (b + y).take(b.len() as int));
    assert(x =~= t.skip(a.len() as int));
    assert(y =~= (b + y).skip(b.len() as int));
}

proof fn lemma_decimal_free_of(n: nat, c: char)
    requires
        !is_digit(c),
    ensures
        free_of(decimal(n), c),
{
    lemma_decimal(n);
    assert forall|i: int| 0 <= i < decimal(n).len() implies decimal(n)[i] != c by {
        assert(is_digit(decimal(n)[i]));
    }
}

proof fn lemma_concat_free_of(a: Seq<char>, b: Seq<char>, c: char)
    requires
        free_of(a, c),
        free_of(b, c),
    ensures
        free_of(a + b, c),
{
    assert forall|i: int| 0 <= i < (a + b).len() implies (a + b)[i] != c by {
        if i >= a.len() {
            assert((a + b)[i] == b[i - a.len()]);
        }
    }
}

/// An entry's text without its closing `;`.
pub open spec fn entry_body(e: (u32, Range)) -> Seq<char> {
    decimal(e.0 as nat) + seq![':'] + (decimal(e.1.start.line as nat) + seq![':'] + (decimal(
        e.1.start.column as nat,
    ) + seq![':'] + (decimal(e.1.end.line as nat) + seq![':'] + decimal(e.1.end.column as nat))))
}

proof fn lemma_entry_body(e: (u32, Range), c: char)
    requires
        !is_digit(c),
        c != ':',
    ensures
        entry_text(e) == entry_body(e) + seq![';'],
        free_of(entry_body(e), c),
{
    assert(entry_text(e) =~= entry_body(e) + seq![';']);
    lemma_decimal_free_of(e.0 as nat, c);
    lemma_decimal_free_of(e.1.start.line as nat, c);
    lemma_decimal_free_of(e.1.start.column as nat, c);
    lemma_decimal_free_of(e.1.end.line as nat, c);
    lemma_decimal_free_of(e.1.end.column as nat, c);
    assert(free_of(seq![':'], c));
    let r4 = decimal(e.1.end.line as nat) + seq![':'] + decimal(e.1.end.column as nat);
    lemma_concat_free_of(decimal(e.1.end.line as nat), seq![':'], c);
    lemma_concat_free_of(decimal(e.1.end.line as nat) + seq![':'], decimal(e.1.end.column as nat), c);
    let r3 = decimal(e.1.start.column as nat) + seq![':'] + r4;
    lemma_concat_free_of(decimal(e.1.start.column as nat), seq![':'], c);
    lemma_concat_free_of(decimal(e.1.start.column as nat) + seq![':'], r4, c);
    let r2 = decimal(e.1.start.line as nat) + seq![':'] + r3;
    lemma_concat_free_of(decimal(e.1.start.line as nat), seq![':'], c);
    lemma_concat_free_of(decimal(e.1.start.line as nat) + seq![':'], r3, c);
    lemma_concat_free_of(decimal(e.0 as nat), seq![':'], c);
    lemma_concat_free_of(decimal(e.0 as nat) + seq![':'], r2, c);
}

proof fn lemma_entry_body_injective(e1: (u32, Range), e2: (u32, Range))
    requires
        entry_body(e1) == entry_body(e2),
    ensures
        e1 == e2,
{
    lemma_decimal_free_of(e1.0 as nat, ':');
    lemma_decimal_free_of(e2.0 as nat, ':');
    lemma_decimal_free_of(e1.1.start.line as nat, ':');
    lemma_decimal_free_of(e2.1.start.line as nat, ':');
    lemma_decimal_free_of(e1.1.start.column as nat, ':');
    lemma_decimal_free_of(e2.1.start.column as nat, ':');
    lemma_decimal_free_of(e1.1.end.line as nat, ':');
    lemma_decimal_free_of(e2.1.end.line as nat, ':');
    let r4a = decimal(e1.1.end.line as nat) + seq![':'] + decimal(e1.1.end.column as nat);
    let r4b = decimal(e2.1.end.line as nat) + seq![':'] + decimal(e2.1.end.column as nat);
    let r3a = decimal(e1.1.start.column as nat) + seq![':'] + r4a;
    let r3b = decimal(e2.1.start.column as nat) + seq![':'] + r4b;
    let r2a = decimal(e1.1.start.line as nat) + seq![':'] + r3a;
    let r2b = decimal(e2.1.start.line as nat) + seq![':'] + r3b;
    lemma_split_at_first(decimal(e1.0 as nat), r2a, decimal(e2.0 as nat), r2b, ':');
    lemma_split_at_first(
        decimal(e1.1.start.line as nat),
        r3a,
        decimal(e2.1.start.line as nat),
        r3b,
        ':',
    );
    lemma_split_at_first(
        decimal(e1.1.start.column as nat),
        r4a,
        decimal(e2.1.start.column as nat),
        r4b,
        ':',
    );
    lemma_split_at_first(
        decimal(e1.1.end.line as nat),
        decimal(e1.1.end.column as nat),
        decimal(e2.1.end.line as nat),
        decimal(e2.1.end.column as nat),
        ':',
    );
    lemma_decimal_injective(e1.0 as nat, e2.0 as nat);
    lemma_decimal_injective(e1.1.start.line as nat, e2.1.start.line as nat);
    lemma_decimal_injective(e1.1.start.column as nat, e2.1.start.column as nat);
    lemma_decimal_injective(e1.1.end.line as nat, e2.1.end.line as nat);
    lemma_decimal_injective(e1.1.end.column as nat, e2.1.end.column as nat);
}

/// The entries' text is empty or ends with `;`, and holds no `|`.
proof fn lemma_entries_text_shape(es: Seq<(u32, Range)>)
    ensures
        es.len() == 0 <==> entries_text(es).len() == 0,
        entries_text(es).len() == 0 || entries_text(es).last() == ';',
        free_of(entries_text(es), '|'),
    decreases es.len(),
{
    if es.len() > 0 {
        lemma_entries_text_shape(es.drop_last());
        lemma_entry_body(es.last(), '|');
        assert(free_of(seq![';'], '|'));
        lemma_concat_free_of(entry_body(es.last()), seq![';'], '|');
        lemma_concat_free_of(entries_text(es.drop_last()), entry_text(es.last()), '|');
    }
}

proof fn lemma_entries_text_injective(es1: Seq<(u32, Range)>, es2: Seq<(u32, Range)>)
    requires
        entries_text(es1) == entries_text(es2),
    ensures
        es1 == es2,
    decreases es1.len(),
{
    lemma_entries_text_shape(es1);
    lemma_entries_text_shape(es2);
    if es1.len() > 0 && es2.len() > 0 {
        let a = entries_text(es1.drop_last());
        let b = entries_text(es2.drop_last());
        let x = entry_body(es1.last());
        let y = entry_body(es2.last());
        lemma_entry_body(es1.last(), ';');
        lemma_entry_body(es2.last(), ';');
        lemma_entries_text_shape(es1.drop_last());
        lemma_entries_text_shape(es2.drop_last());
        assert(entries_text(es1) =~= (a + x) + seq![';']);
        assert(entries_text(es2) =~= (b + y) + seq![';']);
        assert((a + x) =~= entries_text(es1).drop_last());
        assert((b + y) =~= entries_text(es2).drop_last());
        lemma_split_after_last(a, x, b, y);
        lemma_entry_body_injective(es1.last(), es2.last());
        lemma_entries_text_injective(es1.drop_last(), es2.drop_last());
        assert(es1 =~= es1.drop_last().push(es1.last()));
        assert(es2 =~= es2.drop_last().push(es2.last()));
    } else {
        assert(es1 =~= es2);
    }
}

/// A different file name, a moved, added or removed statement: the text
/// that the fingerprint hashes differs, so the two fingerprints can agree
/// only through a collision of the hash.
pub proof fn lemma_fingerprint_input_tracks_the_ledger(
    file1: Seq<char>,
    es1: Seq<(u32, Range)>,
    file2: Seq<char>,
    es2: Seq<(u32, Range)>,
)
    requires
        file1 != file2 || es1 != es2,
    ensures
        ledger_text(file1, es1) != ledger_text(file2, es2),
{
    if ledger_text(file1, es1) == ledger_text(file2, es2) {
        lemma_entries_text_shape(es1);
        lemma_entries_text_shape(es2);
        lemma_split_at_first(entries_text(es1), file1, entries_text(es2), file2, '|');
        lemma_entries_text_injective(es1, es2);
    }
}

/// The coverage record of a bootstrap built from a well-formed ledger of
/// `n` entries: its `statementMap` and its `s` have the same keys, exactly
/// `"0"` to `"n-1"` in order, and every count is zero.
pub proof fn lemma_bootstrap_keys(
    st: Stmt,
    path: Seq<char>,
    acc: Seq<char>,
    cov: SourceCoverage,
    ast: Option<Seq<char>>,
)
    requires
        cov.wf(),
        is_bootstrap_fn(st, path, acc, cov.entries(), cov.count_list(), ast),
    ensures
        ({
            let data = props_of(var_init(st->FnDecl_body@[4]));
            let statements = props_of(data[1].value);
            let counts = props_of(data[4].value);
            &&& statements.len() == cov.len()
            &&& counts.len() == cov.len()
            &&& forall|i: int|
                0 <= i < cov.len() ==> (#[trigger] statements[i]).key is Str
                    && statements[i].key->Str_0@ == decimal(i as nat)
                    && is_range_object(statements[i].value, cov.ranges()[i])
            &&& forall|i: int|
                0 <= i < cov.len() ==> (#[trigger] counts[i]).key is Str && counts[i].key->Str_0@
                    == decimal(i as nat) && is_num(counts[i].value, 0)
        }),
{
    let data = props_of(var_init(st->FnDecl_body@[4]));
    let statements = props_of(data[1].value);
    let counts = props_of(data[4].value);
    assert forall|i: int| 0 <= i < cov.len() implies (#[trigger] statements[i]).key is Str
        && statements[i].key->Str_0@ == decimal(i as nat) && is_range_object(
        statements[i].value,
        cov.ranges()[i],
    ) by {
        assert(cov.entries()[i].0 == i);
    }
    assert forall|i: int| 0 <= i < cov.len() implies (#[trigger] counts[i]).key is Str
        && counts[i].key->Str_0@ == decimal(i as nat) && is_num(counts[i].value, 0) by {
        assert(cov.count_list()[i] == (i as u32, 0u32));
    }
}

} // verus!
