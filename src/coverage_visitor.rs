//! The instrumentation pass: finds the statements to count, records them in
//! the ledger in discovery order, and puts a counter increment in front of
//! each.
use crate::ast::{Expr, MemberProp, Program, Span, Stmt};
use crate::coverage_template::{
    create_coverage_init_stmts, is_assign_stmt, is_bootstrap_body, is_bootstrap_call, is_bootstrap_fn,
    is_install, is_rebind, is_return_of, is_var,
};
use crate::decimal::{decimal, push_decimal};
use crate::digest::{hash_text, text_hash};
use crate::source_coverage::{Range, SourceCoverage};
use vstd::prelude::*;
use vstd::string::StringExecFns;

verus! {

/// Whether the statement after `ss` still belongs to the directive prologue
/// of a list that starts with `pro`: only directives and generated
/// statements may stand before it.
pub open spec fn prologue_after(ss: Seq<Stmt>, pro: bool) -> bool
    decreases ss.len(),
{
    if ss.len() == 0 {
        pro
    } else {
        prologue_after(ss.drop_last(), pro) && (ss.last().spec_is_directive()
            || ss.last().spec_is_synthetic())
    }
}

/// A statement is counted unless it is a module declaration, has no genuine
/// position, is a directive of the prologue, or declares a named function.
pub open spec fn eligible(st: Stmt, in_prologue: bool) -> bool {
    &&& st !is ModuleDecl
    &&& !st.spec_is_synthetic()
    &&& !(in_prologue && st.spec_is_directive())
    &&& st !is FnDecl
}

/// The spans of the counted statements of a list, in discovery order: each
/// statement before the statements nested in it, left to right.
pub open spec fn discover_list(ss: Seq<Stmt>, pro: bool) -> Seq<Span>
    decreases ss,
{
    if ss.len() == 0 {
        Seq::empty()
    } else {
        let pre = ss.drop_last();
        let st = ss.last();
        let own = if eligible(st, prologue_after(pre, pro)) {
            seq![st.spec_span().unwrap()]
        } else {
            Seq::empty()
        };
        discover_list(pre, pro) + own + discover_nested(st)
    }
}

/// The spans of the counted statements nested in `st`.
pub open spec fn discover_nested(st: Stmt) -> Seq<Span>
    decreases st,
{
    match st {
        Stmt::If { cons, .. } => discover_list(cons@, true),
        Stmt::Block { body, .. } => discover_list(body@, true),
        Stmt::FnDecl { body, .. } => discover_list(body@, true),
        Stmt::Other { scopes, .. } => discover_scopes(scopes@),
        Stmt::ModuleDecl { scopes, .. } => discover_scopes(scopes@),
        _ => Seq::empty(),
    }
}

/// The spans of the counted statements of several lists, one after another.
pub open spec fn discover_scopes(scs: Seq<Vec<Stmt>>) -> Seq<Span>
    decreases scs,
{
    if scs.len() == 0 {
        Seq::empty()
    } else {
        discover_scopes(scs.drop_last()) + discover_list(scs.last()@, true)
    }
}

/// `acc().s[id]++`: the expression that counts one execution of statement `id`.
pub open spec fn is_counter_expr(e: Expr, acc: Seq<char>, id: nat) -> bool {
    match e {
        Expr::PostIncrement(target) => match *target {
            Expr::Member(obj, MemberProp::Computed(key)) => {
                &&& *key == Expr::Num(id as u32)
                &&& id <= u32::MAX
                &&& match *obj {
                    Expr::Member(call, MemberProp::Ident(field)) => {
                        &&& field@ == seq!['s']
                        &&& match *call {
                            Expr::Call(callee, args) => {
                                &&& args@.len() == 0
                                &&& match *callee {
                                    Expr::Ident(name) => name@ == acc,
                                    _ => false,
                                }
                            },
                            _ => false,
                        }
                    },
                    _ => false,
                }
            },
            _ => false,
        },
        _ => false,
    }
}

/// A generated expression statement that counts statement `id`.
pub open spec fn is_counter(st: Stmt, acc: Seq<char>, id: nat) -> bool {
    match st {
        Stmt::Expr { span, expr } => span.spec_is_dummy() && is_counter_expr(expr, acc, id),
        _ => false,
    }
}

/// `out` is the list `inp` instrumented with accessor `acc`, its counters
/// numbered from `first`: each counted statement is preceded by its counter,
/// and every statement's nested lists are instrumented in turn.
pub open spec fn instrumented_list(
    inp: Seq<Stmt>,
    out: Seq<Stmt>,
    pro: bool,
    acc: Seq<char>,
    first: nat,
) -> bool
    decreases inp,
{
    if inp.len() == 0 {
        out.len() == 0
    } else {
        let pre = inp.drop_last();
        let st = inp.last();
        let k: int = if eligible(st, prologue_after(pre, pro)) {
            1
        } else {
            0
        };
        let id = first + discover_list(pre, pro).len();
        let m = out.len() - 1 - k;
        &&& m >= 0
        &&& instrumented_list(pre, out.subrange(0, m), pro, acc, first)
        &&& (k == 1 ==> is_counter(out[m], acc, id))
        &&& instrumented_stmt(st, out.last(), acc, (id + k) as nat)
    }
}

/// `o` is `st` with its nested lists instrumented, counters from `first`.
pub open spec fn instrumented_stmt(st: Stmt, o: Stmt, acc: Seq<char>, first: nat) -> bool
    decreases st,
{
    match st {
        Stmt::If { span, test, cons } => match o {
            Stmt::If { span: span2, test: test2, cons: cons2 } => {
                &&& span2 == span
                &&& test2 == test
                &&& instrumented_list(cons@, cons2@, true, acc, first)
            },
            _ => false,
        },
        Stmt::Block { span, body } => match o {
            Stmt::Block { span: span2, body: body2 } => {
                &&& span2 == span
                &&& instrumented_list(body@, body2@, true, acc, first)
            },
            _ => false,
        },
        Stmt::FnDecl { span, name, body } => match o {
            Stmt::FnDecl { span: span2, name: name2, body: body2 } => {
                &&& span2 == span
                &&& name2 == name
                &&& instrumented_list(body@, body2@, true, acc, first)
            },
            _ => false,
        },
        Stmt::Other { span, node, scopes } => match o {
            Stmt::Other { span: span2, node: node2, scopes: scopes2 } => {
                &&& span2 == span
                &&& node2 == node
                &&& instrumented_scopes(scopes@, scopes2@, acc, first)
            },
            _ => false,
        },
        Stmt::ModuleDecl { node, scopes } => match o {
            Stmt::ModuleDecl { node: node2, scopes: scopes2 } => {
                &&& node2 == node
                &&& instrumented_scopes(scopes@, scopes2@, acc, first)
            },
            _ => false,
        },
        _ => o == st,
    }
}

/// `outs` are the lists `ins` instrumented one after another.
pub open spec fn instrumented_scopes(
    ins: Seq<Vec<Stmt>>,
    outs: Seq<Vec<Stmt>>,
    acc: Seq<char>,
    first: nat,
) -> bool
    decreases ins,
{
    if ins.len() == 0 {
        outs.len() == 0
    } else {
        &&& outs.len() == ins.len()
        &&& instrumented_scopes(ins.drop_last(), outs.drop_last(), acc, first)
        &&& instrumented_list(
            ins.last()@,
            outs.last()@,
            true,
            acc,
            first + discover_scopes(ins.drop_last()).len(),
        )
    }
}

/// `ranges[i]` is what the resolver `f` gave for `spans[i]`, for every `i`.
pub open spec fn resolved<F: Fn(&Span) -> Range>(f: F, spans: Seq<Span>, ranges: Seq<Range>) -> bool {
    &&& spans.len() == ranges.len()
    &&& forall|i: int| 0 <= i < spans.len() ==> call_ensures(f, (&spans[i],), #[trigger] ranges[i])
}

proof fn lemma_resolved_concat<F: Fn(&Span) -> Range>(
    f: F,
    s1: Seq<Span>,
    r1: Seq<Range>,
    s2: Seq<Span>,
    r2: Seq<Range>,
)
    requires
        resolved(f, s1, r1),
        resolved(f, s2, r2),
    ensures
        resolved(f, s1 + s2, r1 + r2),
{
    assert forall|i: int| 0 <= i < (s1 + s2).len() implies call_ensures(
        f,
        (&(s1 + s2)[i],),
        #[trigger] (r1 + r2)[i],
    ) by {
        if i < s1.len() {
            assert(r1[i] == (r1 + r2)[i]);
        } else {
            assert(r2[i - s1.len()] == (r1 + r2)[i]);
        }
    }
}

/// A prefix of a list has no more counted statements than the whole list.
proof fn lemma_discover_prefix(ss: Seq<Stmt>, pro: bool, j: int)
    requires
        0 <= j <= ss.len(),
    ensures
        discover_list(ss.take(j), pro).len() <= discover_list(ss, pro).len(),
    decreases ss.len(),
{
    if j < ss.len() {
        assert(ss.drop_last().take(j) =~= ss.take(j));
        lemma_discover_prefix(ss.drop_last(), pro, j);
    } else {
        assert(ss.take(j) =~= ss);
    }
}

/// The accessor name of a file: `cov_` and the decimal hash of its name.
pub open spec fn accessor_name(filename: Seq<char>) -> Seq<char> {
    seq!['c', 'o', 'v', '_'] + decimal(text_hash(filename) as nat)
}

/// The statements of a file.
pub open spec fn body_of(p: Program) -> Seq<Stmt> {
    match p {
        Program::Module(items) => items@,
        Program::Script(body) => body@,
    }
}

/// Both files are modules, or both are scripts.
pub open spec fn same_kind(a: Program, b: Program) -> bool {
    (a is Module) == (b is Module)
}

/// A pass over the file `filename` whose ranges come from `get_range`.
pub fn create_coverage_instrumentation_visitor<F: Fn(&Span) -> Range>(
    filename: &str,
    get_range: F,
) -> (v: CoverageVisitor<F>)
    requires
        forall|s: &Span| #[trigger] call_requires(get_range, (s,)),
    ensures
        v.wf(),
        v.ledger().len() == 0,
        v.file() == filename@,
        v.accessor() == accessor_name(filename@),
        v.resolver() == get_range,
{
    CoverageVisitor::new(String::from_str(filename), get_range)
}

/// `create_increase_counter_expr` builds `acc().s[id]++`.
pub fn create_increase_counter_expr(id: u32, cov_fn_ident: &String) -> (e: Expr)
    ensures
        is_counter_expr(e, cov_fn_ident@, id as nat),
{
    proof {
        reveal_strlit("s");
        assert("s"@ =~= seq!['s']);
    }
    let call = Expr::Call(Box::new(Expr::Ident(cov_fn_ident.clone())), Vec::new());
    let counts = Expr::Member(Box::new(call), MemberProp::Ident(String::from_str("s")));
    Expr::PostIncrement(
        Box::new(Expr::Member(Box::new(counts), MemberProp::Computed(Box::new(Expr::Num(id))))),
    )
}

/// Decides whether `st` is counted, `in_prologue` telling whether it stands
/// in the directive prologue of its list.
pub fn is_eligible(st: &Stmt, in_prologue: bool) -> (r: bool)
    ensures
        r == eligible(*st, in_prologue),
{
    match st {
        Stmt::ModuleDecl { .. } => false,
        Stmt::FnDecl { .. } => false,
        _ => !st.is_synthetic() && !(in_prologue && st.is_directive()),
    }
}

/// The pass over one file: its name, the ledger it fills, the name of the
/// file's coverage accessor, and the resolver from spans to ranges.
pub struct CoverageVisitor<F> {
    pub(crate) filename: String,
    pub(crate) cov: SourceCoverage,
    pub(crate) cov_fn_ident: String,
    pub(crate) get_range: F,
}

impl<F: Fn(&Span) -> Range> CoverageVisitor<F> {
    /// A pass over the file `filename` whose ranges come from `get_range`.
    /// The file's accessor is named `cov_` followed by the hash of its name.
    pub fn new(filename: String, get_range: F) -> (v: Self)
        requires
            forall|s: &Span| #[trigger] call_requires(get_range, (s,)),
        ensures
            v.wf(),
            v.ledger().len() == 0,
            v.file() == filename@,
            v.accessor() == accessor_name(filename@),
            v.resolver() == get_range,
    {
        let mut cov_fn_ident = String::from_str("cov_");
        push_decimal(&mut cov_fn_ident, hash_text(filename.as_str()));
        proof {
            reveal_strlit("cov_");
        }
        CoverageVisitor { filename, cov: SourceCoverage::new(), cov_fn_ident, get_range }
    }

    /// The ledger filled so far.
    pub fn coverage(&self) -> (r: &SourceCoverage)
        ensures
            *r == self.ledger(),
    {
        &self.cov
    }

    /// The name of the file's coverage accessor.
    pub fn cov_fn_ident(&self) -> (r: &str)
        ensures
            r@ == self.accessor(),
    {
        self.cov_fn_ident.as_str()
    }

    pub open(crate) spec fn ledger(&self) -> SourceCoverage {
        self.cov
    }

    pub open(crate) spec fn accessor(&self) -> Seq<char> {
        self.cov_fn_ident@
    }

    pub open(crate) spec fn file(&self) -> Seq<char> {
        self.filename@
    }

    pub open(crate) spec fn resolver(&self) -> F {
        self.get_range
    }

    /// The ledger is well formed and the resolver can be called on any span.
    pub open(crate) spec fn wf(&self) -> bool {
        &&& self.cov.wf()
        &&& forall|s: &Span| #[trigger] call_requires(self.get_range, (s,))
    }

    /// `other` has the same file, accessor and resolver as `self`.
    pub open(crate) spec fn same_setup(&self, other: &Self) -> bool {
        &&& other.filename@ == self.filename@
        &&& other.cov_fn_ident@ == self.cov_fn_ident@
        &&& other.get_range == self.get_range
    }

    /// The ledger after a pass that started at `start` entries holds the
    /// former entries followed by the resolved ranges of `spans`.
    pub open(crate) spec fn extended(&self, start: SourceCoverage, spans: Seq<Span>) -> bool {
        &&& self.cov.len() == start.len() + spans.len()
        &&& self.cov.ranges().subrange(0, start.len() as int) == start.ranges()
        &&& resolved(self.get_range, spans, self.cov.ranges().skip(start.len() as int))
    }

    /// Instruments a statement list in place: each counted statement gets a
    /// counter in front of it, numbered on from the ledger, and nested lists
    /// are instrumented in turn.
    pub fn visit_mut_stmts(&mut self, stmts: &mut Vec<Stmt>)
        requires
            old(self).wf(),
            old(self).ledger().len() + discover_list(old(stmts)@, true).len() <= u32::MAX,
        ensures
            final(self).wf(),
            old(self).same_setup(final(self)),
            final(self).extended(old(self).ledger(), discover_list(old(stmts)@, true)),
            instrumented_list(
                old(stmts)@,
                final(stmts)@,
                true,
                old(self).accessor(),
                old(self).ledger().len(),
            ),
    {
        let mut taken: Vec<Stmt> = Vec::new();
        std::mem::swap(stmts, &mut taken);
        let mut out = self.instrument_list(taken);
        std::mem::swap(stmts, &mut out);
    }

    /// Instruments the top-level items of a module; see `visit_mut_stmts`.
    pub fn visit_mut_module_items(&mut self, items: &mut Vec<Stmt>)
        requires
            old(self).wf(),
            old(self).ledger().len() + discover_list(old(items)@, true).len() <= u32::MAX,
        ensures
            final(self).wf(),
            old(self).same_setup(final(self)),
            final(self).extended(old(self).ledger(), discover_list(old(items)@, true)),
            instrumented_list(
                old(items)@,
                final(items)@,
                true,
                old(self).accessor(),
                old(self).ledger().len(),
            ),
    {
        self.visit_mut_stmts(items)
    }

    /// Instruments the statements of a script; see `visit_mut_stmts`.
    pub fn visit_mut_script(&mut self, body: &mut Vec<Stmt>)
        requires
            old(self).wf(),
            old(self).ledger().len() + discover_list(old(body)@, true).len() <= u32::MAX,
        ensures
            final(self).wf(),
            old(self).same_setup(final(self)),
            final(self).extended(old(self).ledger(), discover_list(old(body)@, true)),
            instrumented_list(
                old(body)@,
                final(body)@,
                true,
                old(self).accessor(),
                old(self).ledger().len(),
            ),
    {
        self.visit_mut_stmts(body)
    }

    /// The bootstrap for the ledger as it stands: the accessor's function
    /// declaration and its call.
    pub fn create_window_coverage_init_stmts(&self) -> (r: Vec<Stmt>)
        ensures
            r@.len() == 2,
            is_bootstrap_fn(
                r@[0],
                self.file(),
                self.accessor(),
                self.ledger().entries(),
                self.ledger().count_list(),
                None,
            ),
            is_bootstrap_call(r@[1], self.accessor()),
    {
        create_coverage_init_stmts(self.filename.as_str(), self.cov_fn_ident.as_str(), &self.cov, None)
    }

    /// Instruments a whole file, then puts the bootstrap at its very top.
    pub fn visit_mut_program(&mut self, program: &mut Program)
        requires
            old(self).wf(),
            old(self).ledger().len() + discover_list(body_of(*old(program)), true).len() <= u32::MAX,
        ensures
            final(self).wf(),
            old(self).same_setup(final(self)),
            final(self).extended(old(self).ledger(), discover_list(body_of(*old(program)), true)),
            same_kind(*old(program), *final(program)),
            body_of(*final(program)).len() >= 2,
            is_bootstrap_fn(
                body_of(*final(program))[0],
                final(self).file(),
                final(self).accessor(),
                final(self).ledger().entries(),
                final(self).ledger().count_list(),
                None,
            ),
            is_bootstrap_call(body_of(*final(program))[1], final(self).accessor()),
            instrumented_list(
                body_of(*old(program)),
                body_of(*final(program)).skip(2),
                true,
                old(self).accessor(),
                old(self).ledger().len(),
            ),
    {
        match program {
            Program::Module(items) => {
                self.visit_mut_module_items(items);
                let mut init = self.create_window_coverage_init_stmts();
                let ghost instrumented = items@;
                init.append(items);
                std::mem::swap(items, &mut init);
                assert(items@.skip(2) =~= instrumented);
            },
            Program::Script(body) => {
                self.visit_mut_script(body);
                let mut init = self.create_window_coverage_init_stmts();
                let ghost instrumented = body@;
                init.append(body);
                std::mem::swap(body, &mut init);
                assert(body@.skip(2) =~= instrumented);
            },
        }
    }

    /// Records the statement at `span` in the ledger and returns the counter
    /// statement to put in front of it.
    fn mark_prepend_stmt_counter(&mut self, span: &Span) -> (st: Stmt)
        requires
            old(self).wf(),
            old(self).cov.len() < u32::MAX,
        ensures
            final(self).wf(),
            old(self).same_setup(final(self)),
            final(self).cov.len() == old(self).cov.len() + 1,
            final(self).cov.ranges().drop_last() == old(self).cov.ranges(),
            call_ensures(final(self).get_range, (span,), final(self).cov.ranges().last()),
            is_counter(st, old(self).cov_fn_ident@, old(self).cov.len()),
    {
        let range = (self.get_range)(span);
        let id = self.cov.new_statement(&range);
        assert(self.cov.ranges().drop_last() =~= old(self).cov.ranges());
        Stmt::Expr { span: Span::dummy(), expr: create_increase_counter_expr(id, &self.cov_fn_ident) }
    }

    #[verifier::loop_isolation(false)]
    fn instrument_list(&mut self, ss: Vec<Stmt>) -> (out: Vec<Stmt>)
        requires
            old(self).wf(),
            old(self).cov.len() + discover_list(ss@, true).len() <= u32::MAX,
        ensures
            final(self).wf(),
            old(self).same_setup(final(self)),
            final(self).extended(old(self).cov, discover_list(ss@, true)),
            instrumented_list(ss@, out@, true, old(self).cov_fn_ident@, old(self).cov.len()),
        decreases list_size(ss@) + 1,
    {
        let ghost orig = ss@;
        let ghost start = self.cov;
        let ghost acc = self.cov_fn_ident@;
        let mut rest = ss;
        let mut out: Vec<Stmt> = Vec::new();
        let mut pro = true;
        let ghost mut i: int = 0;
        proof {
            assert(orig.take(0) =~= Seq::<Stmt>::empty());
            assert(self.cov.ranges().skip(start.len() as int) =~= Seq::<Range>::empty());
            assert(self.cov.ranges().subrange(0, start.len() as int) =~= start.ranges());
        }
        while rest.len() > 0
            invariant
                0 <= i <= orig.len(),
                rest@ == orig.skip(i as int),
                pro == prologue_after(orig.take(i as int), true),
                self.wf(),
                old(self).same_setup(self),
                acc == self.cov_fn_ident@,
                start == old(self).cov,
                self.extended(start, discover_list(orig.take(i as int), true)),
                instrumented_list(orig.take(i as int), out@, true, acc, start.len()),
                start.len() + discover_list(orig, true).len() <= u32::MAX,
            decreases rest.len(),
        {
            let ghost before = self.cov;
            let ghost out_before = out@;
            assert(rest@.len() == orig.len() - i);
            assert(rest@[0] == orig[i]);
            let st = rest.remove(0);
            assert(st == orig[i as int]);
            proof {
                lemma_discover_prefix(orig, true, i + 1);
                assert(orig.take(i + 1).drop_last() =~= orig.take(i as int));
                assert(orig.take(i + 1).last() == orig[i]);
            }
            proof {
                lemma_list_size_elem(orig, i);
            }
            let elig = is_eligible(&st, pro);
            if elig {
                match st.span() {
                    Some(span) => {
                        let counter = self.mark_prepend_stmt_counter(&span);
                        out.push(counter);
                        proof {
                            let r = self.cov.ranges().last();
                            let own = seq![span];
                            assert(resolved(self.get_range, own, seq![r]));
                            lemma_resolved_concat(
                                self.get_range,
                                discover_list(orig.take(i as int), true),
                                before.ranges().skip(start.len() as int),
                                own,
                                seq![r],
                            );
                            assert(self.cov.ranges() =~= before.ranges().push(r));
                            assert(self.cov.ranges().skip(start.len() as int) =~= before.ranges().skip(
                                start.len() as int,
                            ) + seq![r]);
                            assert(self.cov.ranges().subrange(0, start.len() as int)
                                =~= before.ranges().subrange(0, start.len() as int));
                        }
                    },
                    None => {},
                }
            }
            let ghost mid = self.cov;
            let next_pro = pro && (st.is_directive() || st.is_synthetic());
            let st2 = self.instrument_stmt(st);
            out.push(st2);
            pro = next_pro;
            proof {
                i = i + 1;
            }
            proof {
                let pre = orig.take(i - 1);
                let nested = discover_nested(orig[i - 1]);
                let own: Seq<Span> = if elig {
                    seq![orig[i - 1].spec_span().unwrap()]
                } else {
                    Seq::empty()
                };
                assert(orig.take(i as int).drop_last() =~= pre);
                assert(orig.take(i as int).last() == orig[i - 1]);
                assert(discover_list(orig.take(i as int), true) == discover_list(pre, true) + own
                    + nested);
                lemma_resolved_concat(
                    self.get_range,
                    discover_list(pre, true) + own,
                    mid.ranges().skip(start.len() as int),
                    nested,
                    self.cov.ranges().skip(mid.len() as int),
                );
                assert(self.cov.ranges().subrange(0, mid.len() as int) == mid.ranges());
                assert(self.cov.ranges().skip(start.len() as int) =~= mid.ranges().skip(
                    start.len() as int,
                ) + self.cov.ranges().skip(mid.len() as int));
                assert(self.cov.ranges().subrange(0, start.len() as int) =~= mid.ranges().subrange(
                    0,
                    start.len() as int,
                ));
                let k: int = if elig {
                    1
                } else {
                    0
                };
                assert(out@.subrange(0, out@.len() - 1 - k) =~= out_before);
                assert(rest@ =~= orig.skip(i as int));
            }
        }
        proof {
            assert(orig.take(orig.len() as int) =~= orig);
        }
        out
    }

    fn instrument_stmt(&mut self, st: Stmt) -> (o: Stmt)
        requires
            old(self).wf(),
            old(self).cov.len() + discover_nested(st).len() <= u32::MAX,
        ensures
            final(self).wf(),
            old(self).same_setup(final(self)),
            final(self).extended(old(self).cov, discover_nested(st)),
            instrumented_stmt(st, o, old(self).cov_fn_ident@, old(self).cov.len()),
        decreases stmt_size(st),
    {
        let ghost start = self.cov;
        proof {
            assert(self.cov.ranges().skip(start.len() as int) =~= Seq::<Range>::empty());
            assert(self.cov.ranges().subrange(0, start.len() as int) =~= start.ranges());
        }
        match st {
            Stmt::If { span, test, cons } => {
                let cons2 = self.instrument_list(cons);
                Stmt::If { span, test, cons: cons2 }
            },
            Stmt::Block { span, body } => {
                let body2 = self.instrument_list(body);
                Stmt::Block { span, body: body2 }
            },
            Stmt::FnDecl { span, name, body } => {
                let body2 = self.instrument_list(body);
                Stmt::FnDecl { span, name, body: body2 }
            },
            Stmt::Other { span, node, scopes } => {
                let scopes2 = self.instrument_scopes(scopes);
                Stmt::Other { span, node, scopes: scopes2 }
            },
            Stmt::ModuleDecl { node, scopes } => {
                let scopes2 = self.instrument_scopes(scopes);
                Stmt::ModuleDecl { node, scopes: scopes2 }
            },
            other => other,
        }
    }

    #[verifier::loop_isolation(false)]
    fn instrument_scopes(&mut self, scs: Vec<Vec<Stmt>>) -> (outs: Vec<Vec<Stmt>>)
        requires
            old(self).wf(),
            old(self).cov.len() + discover_scopes(scs@).len() <= u32::MAX,
        ensures
            final(self).wf(),
            old(self).same_setup(final(self)),
            final(self).extended(old(self).cov, discover_scopes(scs@)),
            instrumented_scopes(scs@, outs@, old(self).cov_fn_ident@, old(self).cov.len()),
        decreases scopes_size(scs@) + 1,
    {
        let ghost orig = scs@;
        let ghost start = self.cov;
        let ghost acc = self.cov_fn_ident@;
        let mut rest = scs;
        let mut outs: Vec<Vec<Stmt>> = Vec::new();
        let ghost mut i: int = 0;
        proof {
            assert(orig.take(0) =~= Seq::<Vec<Stmt>>::empty());
            assert(self.cov.ranges().skip(start.len() as int) =~= Seq::<Range>::empty());
            assert(self.cov.ranges().subrange(0, start.len() as int) =~= start.ranges());
        }
        while rest.len() > 0
            invariant
                0 <= i <= orig.len(),
                rest@ == orig.skip(i as int),
                self.wf(),
                old(self).same_setup(self),
                acc == self.cov_fn_ident@,
                start == old(self).cov,
                self.extended(start, discover_scopes(orig.take(i as int))),
                instrumented_scopes(orig.take(i as int), outs@, acc, start.len()),
                start.len() + discover_scopes(orig).len() <= u32::MAX,
            decreases rest.len(),
        {
            let ghost mid = self.cov;
            let ghost outs_before = outs@;
            assert(rest@.len() == orig.len() - i);
            assert(rest@[0] == orig[i]);
            let sc = rest.remove(0);
            assert(sc == orig[i as int]);
            proof {
                lemma_discover_scopes_prefix(orig, i + 1);
                assert(orig.take(i + 1).drop_last() =~= orig.take(i as int));
                assert(orig.take(i + 1).last() == orig[i]);
            }
            proof {
                lemma_scopes_size_elem(orig, i);
            }
            let sc2 = self.instrument_list(sc);
            outs.push(sc2);
            proof {
                i = i + 1;
            }
            proof {
                let pre = orig.take(i - 1);
                assert(orig.take(i as int).drop_last() =~= pre);
                assert(orig.take(i as int).last() == orig[i - 1]);
                lemma_resolved_concat(
                    self.get_range,
                    discover_scopes(pre),
                    mid.ranges().skip(start.len() as int),
                    discover_list(orig[i - 1]@, true),
                    self.cov.ranges().skip(mid.len() as int),
                );
                assert(self.cov.ranges().subrange(0, mid.len() as int) == mid.ranges());
                assert(self.cov.ranges().skip(start.len() as int) =~= mid.ranges().skip(
                    start.len() as int,
                ) + self.cov.ranges().skip(mid.len() as int));
                assert(self.cov.ranges().subrange(0, start.len() as int) =~= mid.ranges().subrange(
                    0,
                    start.len() as int,
                ));
                assert(outs@.drop_last() =~= outs_before);
                assert(rest@ =~= orig.skip(i as int));
            }
        }
        proof {
            assert(orig.take(orig.len() as int) =~= orig);
        }
        outs
    }
}

/// A measure of the statements in `st`, nested ones included.
pub open spec fn stmt_size(st: Stmt) -> nat
    decreases st,
{
    match st {
        Stmt::If { cons, .. } => 2 + list_size(cons@),
        Stmt::Block { body, .. } => 2 + list_size(body@),
        Stmt::FnDecl { body, .. } => 2 + list_size(body@),
        Stmt::Other { scopes, .. } => 2 + scopes_size(scopes@),
        Stmt::ModuleDecl { scopes, .. } => 2 + scopes_size(scopes@),
        _ => 2,
    }
}

pub open spec fn list_size(ss: Seq<Stmt>) -> nat
    decreases ss,
{
    if ss.len() == 0 {
        0
    } else {
        list_size(ss.drop_last()) + stmt_size(ss.last())
    }
}

pub open spec fn scopes_size(scs: Seq<Vec<Stmt>>) -> nat
    decreases scs,
{
    if scs.len() == 0 {
        0
    } else {
        scopes_size(scs.drop_last()) + list_size(scs.last()@) + 1
    }
}

proof fn lemma_list_size_elem(ss: Seq<Stmt>, i: int)
    requires
        0 <= i < ss.len(),
    ensures
        stmt_size(ss[i]) <= list_size(ss),
    decreases ss.len(),
{
    if i < ss.len() - 1 {
        lemma_list_size_elem(ss.drop_last(), i);
    }
}

proof fn lemma_scopes_size_elem(scs: Seq<Vec<Stmt>>, i: int)
    requires
        0 <= i < scs.len(),
    ensures
        list_size(scs[i]@) + 1 <= scopes_size(scs),
    decreases scs.len(),
{
    if i < scs.len() - 1 {
        lemma_scopes_size_elem(scs.drop_last(), i);
    }
}

/// A prefix of a run of lists has no more counted statements than the whole run.
proof fn lemma_discover_scopes_prefix(scs: Seq<Vec<Stmt>>, j: int)
    requires
        0 <= j <= scs.len(),
    ensures
        discover_scopes(scs.take(j)).len() <= discover_scopes(scs).len(),
    decreases scs.len(),
{
    if j < scs.len() {
        assert(scs.drop_last().take(j) =~= scs.take(j));
        lemma_discover_scopes_prefix(scs.drop_last(), j);
    } else {
        assert(scs.take(j) =~= scs);
    }
}

/// Discovery over two lists one after the other: the second starts where
/// the first leaves the prologue.
pub proof fn lemma_discover_concat(a: Seq<Stmt>, b: Seq<Stmt>, pro: bool)
    ensures
        discover_list(a + b, pro) == discover_list(a, pro) + discover_list(
            b,
            prologue_after(a, pro),
        ),
        prologue_after(a + b, pro) == prologue_after(b, prologue_after(a, pro)),
    decreases b.len(),
{
    if b.len() == 0 {
        assert(a + b =~= a);
    } else {
        lemma_discover_concat(a, b.drop_last(), pro);
        assert((a + b).drop_last() =~= a + b.drop_last());
        assert((a + b).last() == b.last());
    }
}

proof fn lemma_rerun_list(inp: Seq<Stmt>, out: Seq<Stmt>, pro: bool, acc: Seq<char>, first: nat)
    requires
        instrumented_list(inp, out, pro, acc, first),
    ensures
        discover_list(out, pro) == discover_list(inp, pro),
        prologue_after(out, pro) == prologue_after(inp, pro),
    decreases inp,
{
    if inp.len() > 0 {
        let pre = inp.drop_last();
        let st = inp.last();
        let p = prologue_after(pre, pro);
        let k: int = if eligible(st, p) {
            1
        } else {
            0
        };
        let id = first + discover_list(pre, pro).len();
        let m = out.len() - 1 - k;
        let out_pre = out.subrange(0, m);
        let o = out.last();
        lemma_rerun_list(pre, out_pre, pro, acc, first);
        lemma_rerun_stmt(st, o, acc, (id + k) as nat);
        let tail = out.subrange(m, out.len() as int);
        assert(out =~= out_pre + tail);
        lemma_discover_concat(out_pre, tail, pro);
        if k == 1 {
            let c = out[m];
            assert(tail =~= seq![c].push(o));
            assert(seq![c].drop_last() =~= Seq::<Stmt>::empty());
            assert(tail.drop_last() =~= seq![c]);
            assert(is_counter(c, acc, id));
            assert(c.spec_is_synthetic());
            assert(!eligible(c, prologue_after(seq![c].drop_last(), p)));
            assert(discover_nested(c) =~= Seq::<Span>::empty());
            assert(seq![c].last() == c);
            assert(discover_list(seq![c].drop_last(), p) =~= Seq::<Span>::empty());
            assert(prologue_after(seq![c].drop_last(), p) == p);
            assert(discover_list(seq![c], p) =~= Seq::<Span>::empty());
            assert(prologue_after(seq![c], p) == p);
        } else {
            assert(tail =~= seq![o]);
            assert(tail.drop_last() =~= Seq::<Stmt>::empty());
        }
    }
}

proof fn lemma_rerun_stmt(st: Stmt, o: Stmt, acc: Seq<char>, first: nat)
    requires
        instrumented_stmt(st, o, acc, first),
    ensures
        discover_nested(o) == discover_nested(st),
        o.spec_span() == st.spec_span(),
        o.spec_is_directive() == st.spec_is_directive(),
        o.spec_is_synthetic() == st.spec_is_synthetic(),
        (o is FnDecl) == (st is FnDecl),
        (o is ModuleDecl) == (st is ModuleDecl),
    decreases st,
{
    match st {
        Stmt::If { cons, .. } => {
            lemma_rerun_list(cons@, o->If_cons@, true, acc, first);
        },
        Stmt::Block { body, .. } => {
            lemma_rerun_list(body@, o->Block_body@, true, acc, first);
        },
        Stmt::FnDecl { body, .. } => {
            lemma_rerun_list(body@, o->FnDecl_body@, true, acc, first);
        },
        Stmt::Other { scopes, .. } => {
            lemma_rerun_scopes(scopes@, o->Other_scopes@, acc, first);
        },
        Stmt::ModuleDecl { scopes, .. } => {
            lemma_rerun_scopes(scopes@, o->ModuleDecl_scopes@, acc, first);
        },
        _ => {},
    }
}

proof fn lemma_rerun_scopes(ins: Seq<Vec<Stmt>>, outs: Seq<Vec<Stmt>>, acc: Seq<char>, first: nat)
    requires
        instrumented_scopes(ins, outs, acc, first),
    ensures
        discover_scopes(outs) == discover_scopes(ins),
    decreases ins,
{
    if ins.len() > 0 {
        lemma_rerun_scopes(ins.drop_last(), outs.drop_last(), acc, first);
        lemma_rerun_list(
            ins.last()@,
            outs.last()@,
            true,
            acc,
            first + discover_scopes(ins.drop_last()).len(),
        );
    }
}

/// A list of generated statements with nothing counted inside them counts
/// nothing, and leaves the prologue as it was.
proof fn lemma_generated_list(ss: Seq<Stmt>, pro: bool)
    requires
        forall|i: int|
            0 <= i < ss.len() ==> (#[trigger] ss[i]).spec_is_synthetic() && discover_nested(ss[i])
                == Seq::<Span>::empty(),
    ensures
        discover_list(ss, pro) == Seq::<Span>::empty(),
        prologue_after(ss, pro) == pro,
    decreases ss.len(),
{
    if ss.len() > 0 {
        lemma_generated_list(ss.drop_last(), pro);
        assert(ss.last() == ss[ss.len() - 1]);
        assert(discover_list(ss, pro) =~= Seq::<Span>::empty());
    }
}

/// A generated statement that holds one generated expression statement.
proof fn lemma_generated_single(ss: Seq<Stmt>)
    requires
        ss.len() == 1,
        is_assign_stmt(ss[0]),
    ensures
        discover_list(ss, true) == Seq::<Span>::empty(),
{
    lemma_generated_list(ss, true);
}

/// The bootstrap function counts nothing, nested statements included.
proof fn lemma_bootstrap_counts_nothing(
    st: Stmt,
    path: Seq<char>,
    acc: Seq<char>,
    es: Seq<(u32, Range)>,
    cs: Seq<(u32, u32)>,
)
    requires
        is_bootstrap_fn(st, path, acc, es, cs, None),
    ensures
        st.spec_is_synthetic(),
        st is FnDecl,
        discover_nested(st) == Seq::<Span>::empty(),
{
    let b = st->FnDecl_body@;
    assert(is_install(b[6]));
    lemma_generated_single(b[6]->If_cons@);
    assert(is_rebind(b[8], acc));
    lemma_generated_single(b[8]->Block_body@);
    assert forall|i: int| 0 <= i < b.len() implies (#[trigger] b[i]).spec_is_synthetic()
        && discover_nested(b[i]) == Seq::<Span>::empty() by {
        if i == 6 {
        } else if i == 8 {
        } else if i == 9 {
            assert(is_return_of(b[9], "actualCoverage"@));
        } else {
            assert(is_var(b[i], b[i]->Var_name@));
        }
    }
    lemma_generated_list(b, true);
}

/// Instrumenting the output of a pass counts exactly the statements that
/// the first pass counted, in the same order: the counters and the
/// bootstrap it added are generated code and receive no identifier.
pub proof fn lemma_instrumented_file_counts_the_same(
    inp: Seq<Stmt>,
    out: Seq<Stmt>,
    path: Seq<char>,
    acc: Seq<char>,
    es: Seq<(u32, Range)>,
    cs: Seq<(u32, u32)>,
    first: nat,
)
    requires
        out.len() >= 2,
        is_bootstrap_fn(out[0], path, acc, es, cs, None),
        is_bootstrap_call(out[1], acc),
        instrumented_list(inp, out.skip(2), true, acc, first),
    ensures
        discover_list(out, true) == discover_list(inp, true),
{
    let boot = out.take(2);
    lemma_bootstrap_counts_nothing(out[0], path, acc, es, cs);
    assert(boot[0] == out[0] && boot[1] == out[1]);
    assert(discover_nested(out[1]) == Seq::<Span>::empty());
    lemma_generated_list(boot, true);
    assert(out =~= boot + out.skip(2));
    lemma_discover_concat(boot, out.skip(2), true);
    lemma_rerun_list(inp, out.skip(2), true, acc, first);
}

/// A statement that is generated, a directive of the prologue, a function
/// declaration or a module declaration receives no identifier of its own:
/// only the statements nested in it are counted.
pub proof fn lemma_skipped_statement_gets_no_id(pre: Seq<Stmt>, st: Stmt, pro: bool)
    requires
        st.spec_is_synthetic() || (prologue_after(pre, pro) && st.spec_is_directive())
            || st is FnDecl || st is ModuleDecl,
    ensures
        discover_list(pre.push(st), pro) == discover_list(pre, pro) + discover_nested(st),
{
    assert(pre.push(st).drop_last() =~= pre);
    assert(discover_list(pre.push(st), pro) =~= discover_list(pre, pro) + discover_nested(st));
}

/// No span of `spans` is the span of generated code.
pub open spec fn all_genuine(spans: Seq<Span>) -> bool {
    forall|i: int| 0 <= i < spans.len() ==> !(#[trigger] spans[i]).spec_is_dummy()
}

proof fn lemma_genuine_concat(a: Seq<Span>, b: Seq<Span>)
    requires
        all_genuine(a),
        all_genuine(b),
    ensures
        all_genuine(a + b),
{
    assert forall|i: int| 0 <= i < (a + b).len() implies !(#[trigger] (a + b)[i]).spec_is_dummy() by {
        if i >= a.len() {
            assert((a + b)[i] == b[i - a.len()]);
        }
    }
}

/// Every identifier goes to a statement with a genuine source position.
pub proof fn lemma_discovered_spans_are_genuine(ss: Seq<Stmt>, pro: bool)
    ensures
        all_genuine(discover_list(ss, pro)),
    decreases ss,
{
    if ss.len() > 0 {
        let pre = ss.drop_last();
        let st = ss.last();
        lemma_discovered_spans_are_genuine(pre, pro);
        lemma_nested_spans_are_genuine(st);
        let own = if eligible(st, prologue_after(pre, pro)) {
            seq![st.spec_span().unwrap()]
        } else {
            Seq::empty()
        };
        assert(all_genuine(own));
        lemma_genuine_concat(discover_list(pre, pro), own);
        lemma_genuine_concat(discover_list(pre, pro) + own, discover_nested(st));
    }
}

proof fn lemma_nested_spans_are_genuine(st: Stmt)
    ensures
        all_genuine(discover_nested(st)),
    decreases st,
{
    match st {
        Stmt::If { cons, .. } => lemma_discovered_spans_are_genuine(cons@, true),
        Stmt::Block { body, .. } => lemma_discovered_spans_are_genuine(body@, true),
        Stmt::FnDecl { body, .. } => lemma_discovered_spans_are_genuine(body@, true),
        Stmt::Other { scopes, .. } => lemma_scope_spans_are_genuine(scopes@),
        Stmt::ModuleDecl { scopes, .. } => lemma_scope_spans_are_genuine(scopes@),
        _ => {},
    }
}

proof fn lemma_scope_spans_are_genuine(scs: Seq<Vec<Stmt>>)
    ensures
        all_genuine(discover_scopes(scs)),
    decreases scs,
{
    if scs.len() > 0 {
        lemma_scope_spans_are_genuine(scs.drop_last());
        lemma_discovered_spans_are_genuine(scs.last()@, true);
        lemma_genuine_concat(discover_scopes(scs.drop_last()), discover_list(scs.last()@, true));
    }
}

/// The number of counted statements in `ss` itself, nested ones left out.
pub open spec fn num_eligible(ss: Seq<Stmt>, pro: bool) -> nat
    decreases ss.len(),
{
    if ss.len() == 0 {
        0
    } else {
        num_eligible(ss.drop_last(), pro) + if eligible(ss.last(), prologue_after(ss.drop_last(), pro)) {
            1nat
        } else {
            0nat
        }
    }
}

/// Where the `i`-th statement of `inp` stands in the instrumented list:
/// after itself and the counters put in front of it and of those before it.
pub open spec fn position(inp: Seq<Stmt>, pro: bool, i: int) -> int {
    i + num_eligible(inp.take(i + 1), pro)
}

/// Statement `i` of `inp` stands at `position(i)` of `out`, its nested
/// lists instrumented with identifiers that start after its own. A counted
/// statement has its counter, with the next identifier in discovery order,
/// right in front of it; nothing is put in front of a statement that is not
/// counted. The statements nested in it take the identifiers between its
/// own and those of the statements after it.
pub open spec fn placed(
    inp: Seq<Stmt>,
    out: Seq<Stmt>,
    pro: bool,
    acc: Seq<char>,
    first: nat,
    i: int,
) -> bool {
    let id = first + discover_list(inp.take(i), pro).len();
    let counted = eligible(inp[i], prologue_after(inp.take(i), pro));
    let k: int = if counted {
        1
    } else {
        0
    };
    &&& 0 <= position(inp, pro, i) < out.len()
    &&& instrumented_stmt(inp[i], out[position(inp, pro, i)], acc, (id + k) as nat)
    &&& (counted ==> is_counter(out[position(inp, pro, i) - 1], acc, id))
    &&& (!counted ==> position(inp, pro, i) == if i == 0 {
        0
    } else {
        position(inp, pro, i - 1) + 1
    })
    &&& discover_list(inp.take(i + 1), pro).len() == discover_list(inp.take(i), pro).len() + k
        + discover_nested(inp[i]).len()
}

/// Every statement of an instrumented list is placed as `placed` says, and
/// the list grows by one counter per counted statement.
pub proof fn lemma_instrumented_positions(
    inp: Seq<Stmt>,
    out: Seq<Stmt>,
    pro: bool,
    acc: Seq<char>,
    first: nat,
)
    requires
        instrumented_list(inp, out, pro, acc, first),
    ensures
        out.len() == inp.len() + num_eligible(inp, pro),
        forall|i: int| 0 <= i < inp.len() ==> #[trigger] placed(inp, out, pro, acc, first, i),
    decreases inp.len(),
{
    if inp.len() > 0 {
        let n = inp.len() - 1;
        let pre = inp.drop_last();
        let k: int = if eligible(inp.last(), prologue_after(pre, pro)) {
            1
        } else {
            0
        };
        let m = out.len() - 1 - k;
        let out_pre = out.subrange(0, m);
        lemma_instrumented_positions(pre, out_pre, pro, acc, first);
        assert forall|i: int| 0 <= i < inp.len() implies #[trigger] placed(
            inp,
            out,
            pro,
            acc,
            first,
            i,
        ) by {
            if i < n {
                assert(placed(pre, out_pre, pro, acc, first, i));
                lemma_placed_prefix(inp, out, pro, acc, first, i);
            } else {
                lemma_placed_last(inp, out, pro, acc, first);
            }
        }
    }
}

proof fn lemma_placed_prefix(
    inp: Seq<Stmt>,
    out: Seq<Stmt>,
    pro: bool,
    acc: Seq<char>,
    first: nat,
    i: int,
)
    requires
        instrumented_list(inp, out, pro, acc, first),
        0 <= i < inp.len() - 1,
        placed(
            inp.drop_last(),
            out.subrange(
                0,
                out.len() - 1 - if eligible(inp.last(), prologue_after(inp.drop_last(), pro)) {
                    1int
                } else {
                    0int
                },
            ),
            pro,
            acc,
            first,
            i,
        ),
    ensures
        placed(inp, out, pro, acc, first, i),
{
    let pre = inp.drop_last();
    assert(pre.take(i) =~= inp.take(i));
    assert(pre.take(i + 1) =~= inp.take(i + 1));
    assert(pre[i] == inp[i]);
    assert(position(pre, pro, i) == position(inp, pro, i));
    if i > 0 {
        assert(pre.take(i - 1 + 1) =~= inp.take(i - 1 + 1));
        assert(position(pre, pro, i - 1) == position(inp, pro, i - 1));
    }
}

proof fn lemma_placed_last(inp: Seq<Stmt>, out: Seq<Stmt>, pro: bool, acc: Seq<char>, first: nat)
    requires
        instrumented_list(inp, out, pro, acc, first),
        inp.len() > 0,
        out.subrange(
            0,
            out.len() - 1 - if eligible(inp.last(), prologue_after(inp.drop_last(), pro)) {
                1int
            } else {
                0int
            },
        ).len() == inp.drop_last().len() + num_eligible(inp.drop_last(), pro),
    ensures
        placed(inp, out, pro, acc, first, inp.len() - 1),
        out.len() == inp.len() + num_eligible(inp, pro),
{
    let n = inp.len() - 1;
    let pre = inp.drop_last();
    assert(inp.take(n) =~= pre);
    assert(inp.take(n + 1) =~= inp);
    assert(inp[n] == inp.last());
    if n > 0 {
        assert(pre.take(n - 1 + 1) =~= pre);
        assert(inp.take(n - 1 + 1) =~= pre);
    }
}

} // verus!
