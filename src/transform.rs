//! A rewrite of coverage-record literals in user code: an object literal
//! that has `statementMap`, `fnMap` and `branchMap` properties gets the
//! reporting settings of the configuration appended as string properties.
use crate::ast::{Expr, Prop, PropKey};
use crate::coverage_template::{is_str, keyed};
use vstd::prelude::*;
use vstd::string::StringExecFns;

verus! {

/// Reporting settings; an absent or empty setting adds nothing.
#[allow(non_snake_case)]
#[derive(Debug)]
pub struct Config {
    pub dsn: Option<String>,
    pub reporter: Option<String>,
    pub instrumentCwd: Option<String>,
    pub branch: Option<String>,
    pub sha: Option<String>,
    pub projectID: Option<String>,
    pub compareTarget: Option<String>,
}

impl Default for Config {
    fn default() -> (c: Self)
        ensures
            c.dsn is None,
            c.reporter is None,
            c.instrumentCwd is None,
            c.branch is None,
            c.sha is None,
            c.projectID is None,
            c.compareTarget is None,
    {
        Config {
            dsn: None,
            reporter: None,
            instrumentCwd: None,
            branch: None,
            sha: None,
            projectID: None,
            compareTarget: None,
        }
    }
}

/// `(key, value)` when the setting is present and not empty.
pub open spec fn setting(key: Seq<char>, value: Option<String>) -> Seq<(Seq<char>, Seq<char>)> {
    match value {
        Some(v) => if v@.len() > 0 {
            seq![(key, v@)]
        } else {
            Seq::empty()
        },
        None => Seq::empty(),
    }
}

/// The properties that `c` adds, in order.
pub open spec fn config_props(c: Config) -> Seq<(Seq<char>, Seq<char>)> {
    setting("dsn"@, c.dsn) + setting("reporter"@, c.reporter) + setting(
        "instrumentCwd"@,
        c.instrumentCwd,
    ) + setting("branch"@, c.branch) + setting("sha"@, c.sha) + setting("projectID"@, c.projectID)
        + setting("compareTarget"@, c.compareTarget)
}

/// Some property of `ps` is written `name: ...`.
pub open spec fn has_ident_key(ps: Seq<Prop>, name: Seq<char>) -> bool {
    exists|i: int| 0 <= i < ps.len() && keyed(#[trigger] ps[i], name)
}

/// An object literal that looks like a coverage record.
pub open spec fn is_coverage_object(ps: Seq<Prop>) -> bool {
    &&& has_ident_key(ps, "statementMap"@)
    &&& has_ident_key(ps, "fnMap"@)
    &&& has_ident_key(ps, "branchMap"@)
}

/// A property that the rewrite removes from a coverage record: one written
/// `statementMap: ..`, `fnMap: ..`, `branchMap: ..` or `inputSourceMap: ..`.
pub open spec fn is_excluded(p: Prop) -> bool {
    ||| keyed(p, "statementMap"@)
    ||| keyed(p, "fnMap"@)
    ||| keyed(p, "branchMap"@)
    ||| keyed(p, "inputSourceMap"@)
}

/// The properties of `ps` that are not removed, in their order.
pub open spec fn kept_props(ps: Seq<Prop>) -> Seq<Prop>
    decreases ps.len(),
{
    if ps.len() == 0 {
        Seq::empty()
    } else if is_excluded(ps.last()) {
        kept_props(ps.drop_last())
    } else {
        kept_props(ps.drop_last()).push(ps.last())
    }
}

/// `after` is `before` followed by one string property per pair of `extra`.
pub open spec fn appended(
    before: Seq<Prop>,
    after: Seq<Prop>,
    extra: Seq<(Seq<char>, Seq<char>)>,
) -> bool {
    &&& after.len() == before.len() + extra.len()
    &&& after.take(before.len() as int) == before
    &&& forall|j: int|
        0 <= j < extra.len() ==> keyed(#[trigger] after[before.len() + j], extra[j].0) && is_str(
            after[before.len() + j].value,
            extra[j].1,
        )
}

/// The rewrite of object literals, with its configuration.
pub struct TransformVisitor {
    pub config: Config,
}

impl TransformVisitor {
    /// A rewrite with the default configuration, which adds nothing.
    pub fn new() -> (v: Self)
        ensures
            v.config.dsn is None,
            v.config.reporter is None,
            v.config.instrumentCwd is None,
            v.config.branch is None,
            v.config.sha is None,
            v.config.projectID is None,
            v.config.compareTarget is None,
            config_props(v.config) == Seq::<(Seq<char>, Seq<char>)>::empty(),
    {
        let v = TransformVisitor { config: Config::default() };
        assert(config_props(v.config) =~= Seq::<(Seq<char>, Seq<char>)>::empty());
        v
    }

    /// `key: "value"`
    pub fn create_string_prop(&self, key: &str, value: String) -> (p: Prop)
        ensures
            keyed(p, key@),
            is_str(p.value, value@),
    {
        Prop { key: PropKey::Ident(String::from_str(key)), value: Expr::Str(value) }
    }

    fn push_setting(&self, props: &mut Vec<Prop>, key: &str, value: &Option<String>)
        ensures
            appended(old(props)@, final(props)@, setting(key@, *value)),
    {
        match value {
            Some(v) => {
                if !v.as_str().is_empty() {
                    props.push(self.create_string_prop(key, v.clone()));
                }
            },
            None => {},
        }
        assert(final(props)@.take(old(props)@.len() as int) =~= old(props)@);
    }

    /// Removes the map properties of a coverage record, keeping the others in
    /// order, and appends the configured settings.
    pub fn process_coverage_data_object(&self, obj: &mut Vec<Prop>)
        ensures
            appended(kept_props(old(obj)@), final(obj)@, config_props(self.config)),
    {
        remove_excluded(obj);
        let ghost start = obj@;
        let ghost c = self.config;
        self.push_setting(obj, "dsn", &self.config.dsn);
        let ghost a1 = obj@;
        self.push_setting(obj, "reporter", &self.config.reporter);
        let ghost a2 = obj@;
        self.push_setting(obj, "instrumentCwd", &self.config.instrumentCwd);
        let ghost a3 = obj@;
        self.push_setting(obj, "branch", &self.config.branch);
        let ghost a4 = obj@;
        self.push_setting(obj, "sha", &self.config.sha);
        let ghost a5 = obj@;
        self.push_setting(obj, "projectID", &self.config.projectID);
        let ghost a6 = obj@;
        self.push_setting(obj, "compareTarget", &self.config.compareTarget);
        proof {
            lemma_appended_chain(start, a1, a2, setting("dsn"@, c.dsn), setting("reporter"@, c.reporter));
            let e2 = setting("dsn"@, c.dsn) + setting("reporter"@, c.reporter);
            lemma_appended_chain(start, a2, a3, e2, setting("instrumentCwd"@, c.instrumentCwd));
            let e3 = e2 + setting("instrumentCwd"@, c.instrumentCwd);
            lemma_appended_chain(start, a3, a4, e3, setting("branch"@, c.branch));
            let e4 = e3 + setting("branch"@, c.branch);
            lemma_appended_chain(start, a4, a5, e4, setting("sha"@, c.sha));
            let e5 = e4 + setting("sha"@, c.sha);
            lemma_appended_chain(start, a5, a6, e5, setting("projectID"@, c.projectID));
            let e6 = e5 + setting("projectID"@, c.projectID);
            lemma_appended_chain(start, a6, obj@, e6, setting("compareTarget"@, c.compareTarget));
        }
    }

    /// Rewrites the object literal if it is a coverage record.
    pub fn visit_mut_object_lit(&self, obj: &mut Vec<Prop>)
        ensures
            is_coverage_object(old(obj)@) ==> appended(
                kept_props(old(obj)@),
                final(obj)@,
                config_props(self.config),
            ),
            !is_coverage_object(old(obj)@) ==> final(obj)@ == old(obj)@,
    {
        let statement_map = String::from_str("statementMap");
        let fn_map = String::from_str("fnMap");
        let branch_map = String::from_str("branchMap");
        if has_key_named(obj, &statement_map) && has_key_named(obj, &fn_map) && has_key_named(
            obj,
            &branch_map,
        ) {
            self.process_coverage_data_object(obj);
        }
    }

    /// Rewrites the expression if it is a coverage-record literal.
    pub fn visit_mut_expr(&self, expr: &mut Expr)
        ensures
            match *old(expr) {
                Expr::Object(ps) => match *final(expr) {
                    Expr::Object(ps2) => if is_coverage_object(ps@) {
                        appended(kept_props(ps@), ps2@, config_props(self.config))
                    } else {
                        ps2@ == ps@
                    },
                    _ => false,
                },
                _ => *final(expr) == *old(expr),
            },
    {
        match expr {
            Expr::Object(obj) => self.visit_mut_object_lit(obj),
            _ => {},
        }
    }
}

/// Removes the excluded properties, keeping the others in order.
fn remove_excluded(props: &mut Vec<Prop>)
    ensures
        final(props)@ == kept_props(old(props)@),
{
    let statement_map = String::from_str("statementMap");
    let fn_map = String::from_str("fnMap");
    let branch_map = String::from_str("branchMap");
    let input_source_map = String::from_str("inputSourceMap");
    let mut rest: Vec<Prop> = Vec::new();
    std::mem::swap(props, &mut rest);
    let ghost orig = rest@;
    let ghost mut i: int = 0;
    while rest.len() > 0
        invariant
            0 <= i <= orig.len(),
            rest@ == orig.skip(i),
            props@ == kept_props(orig.take(i)),
            orig == old(props)@,
            statement_map@ == "statementMap"@,
            fn_map@ == "fnMap"@,
            branch_map@ == "branchMap"@,
            input_source_map@ == "inputSourceMap"@,
        decreases rest.len(),
    {
        assert(rest@[0] == orig[i]);
        let p = rest.remove(0);
        let excluded = match &p.key {
            PropKey::Ident(n) => *n == statement_map || *n == fn_map || *n == branch_map || *n
                == input_source_map,
            PropKey::Str(_) => false,
        };
        assert(excluded == is_excluded(p));
        if !excluded {
            props.push(p);
        }
        proof {
            assert(orig.take(i + 1).drop_last() =~= orig.take(i));
            assert(orig.take(i + 1).last() == orig[i]);
            i = i + 1;
            assert(rest@ =~= orig.skip(i));
        }
    }
    assert(orig.take(i) =~= orig);
}

/// Some property of `props` is written `name: ...`.
fn has_key_named(props: &Vec<Prop>, name: &String) -> (r: bool)
    ensures
        r == has_ident_key(props@, name@),
{
    let mut i: usize = 0;
    while i < props.len()
        invariant
            i <= props@.len(),
            forall|j: int| 0 <= j < i ==> !keyed(#[trigger] props@[j], name@),
        decreases props@.len() - i,
    {
        match &props[i].key {
            PropKey::Ident(n) => {
                if *n == *name {
                    assert(keyed(props@[i as int], name@));
                    return true;
                }
            },
            PropKey::Str(_) => {},
        }
        i = i + 1;
    }
    false
}

proof fn lemma_appended_chain(
    a: Seq<Prop>,
    b: Seq<Prop>,
    c: Seq<Prop>,
    x: Seq<(Seq<char>, Seq<char>)>,
    y: Seq<(Seq<char>, Seq<char>)>,
)
    requires
        appended(a, b, x),
        appended(b, c, y),
    ensures
        appended(a, c, x + y),
{
    assert(c.take(a.len() as int) =~= b.take(a.len() as int));
    assert forall|j: int| 0 <= j < (x + y).len() implies keyed(
        #[trigger] c[a.len() + j],
        (x + y)[j].0,
    ) && is_str(c[a.len() + j].value, (x + y)[j].1) by {
        if j < x.len() {
            assert(c[a.len() + j] == b[a.len() + j]);
        } else {
            assert(c[a.len() + j] == c[b.len() + (j - x.len())]);
        }
    }
}

} // verus!
