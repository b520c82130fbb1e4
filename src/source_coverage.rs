//! The coverage ledger: positions, ranges, and the per-file record of
//! instrumented statements.
use indexmap::IndexMap;
use vstd::prelude::*;

verus! {

/// A line/column position as reported by the position resolver.
#[derive(Clone, Copy, Debug, Default, PartialEq, Eq, Structural)]
pub struct Location {
    pub line: u32,
    pub column: u32,
}

/// The source extent of one statement.
#[derive(Clone, Copy, Debug, Default, PartialEq, Eq, Structural)]
pub struct Range {
    pub start: Location,
    pub end: Location,
}

impl Range {
    pub fn new(start_line: u32, start_column: u32, end_line: u32, end_column: u32) -> (r: Self)
        ensures
            r.start.line == start_line,
            r.start.column == start_column,
            r.end.line == end_line,
            r.end.column == end_column,
    {
        Range {
            start: Location { line: start_line, column: start_column },
            end: Location { line: end_line, column: end_column },
        }
    }

    /// The all-zero range, used for statements without position information.
    pub open spec fn spec_zero() -> Range {
        Range { start: Location { line: 0, column: 0 }, end: Location { line: 0, column: 0 } }
    }
}

#[verifier::external_type_specification]
#[verifier::external_body]
#[verifier::reject_recursive_types(K)]
#[verifier::reject_recursive_types(V)]
#[verifier::reject_recursive_types(S)]
pub struct ExIndexMap<K, V, S>(IndexMap<K, V, S>);

/// The key/value pairs of a statement map, in insertion order.
pub uninterp spec fn statement_entries(m: IndexMap<u32, Range>) -> Seq<(u32, Range)>;

/// The key/value pairs of a hit-count map, in insertion order.
pub uninterp spec fn count_entries(m: IndexMap<u32, u32>) -> Seq<(u32, u32)>;

/// True when some entry of `e` has key `k`.
pub open spec fn has_key<V>(e: Seq<(u32, V)>, k: u32) -> bool {
    exists|i: int| 0 <= i < e.len() && (#[trigger] e[i]).0 == k
}

/// Relies on `IndexMap::new`: a new map holds no entries.
#[verifier::external_body]
fn new_statement_map() -> (m: IndexMap<u32, Range>)
    ensures
        statement_entries(m) == Seq::<(u32, Range)>::empty(),
{
    IndexMap::new()
}

/// Relies on `IndexMap::new`: a new map holds no entries.
#[verifier::external_body]
fn new_count_map() -> (m: IndexMap<u32, u32>)
    ensures
        count_entries(m) == Seq::<(u32, u32)>::empty(),
{
    IndexMap::new()
}

/// Relies on `IndexMap::insert`: a new key goes last in order and `None` is
/// returned; an existing key keeps its place, gets the new value, and its
/// former value is returned.
#[verifier::external_body]
fn insert_statement(m: &mut IndexMap<u32, Range>, k: u32, v: Range) -> (r: Option<Range>)
    ensures
        !has_key(statement_entries(*old(m)), k) ==> r is None && statement_entries(*final(m))
            == statement_entries(*old(m)).push((k, v)),
        forall|i: int|
            0 <= i < statement_entries(*old(m)).len() && #[trigger] statement_entries(
                *old(m),
            )[i].0 == k ==> r == Some(statement_entries(*old(m))[i].1) && statement_entries(
                *final(m),
            ) == statement_entries(*old(m)).update(i, (k, v)),
{
    m.insert(k, v)
}

/// Relies on `IndexMap::insert`: a new key goes last in order and `None` is
/// returned; an existing key keeps its place, gets the new value, and its
/// former value is returned.
#[verifier::external_body]
fn insert_count(m: &mut IndexMap<u32, u32>, k: u32, v: u32) -> (r: Option<u32>)
    ensures
        !has_key(count_entries(*old(m)), k) ==> r is None && count_entries(*final(m))
            == count_entries(*old(m)).push((k, v)),
        forall|i: int|
            0 <= i < count_entries(*old(m)).len() && #[trigger] count_entries(*old(m))[i].0 == k
                ==> r == Some(count_entries(*old(m))[i].1) && count_entries(*final(m))
                == count_entries(*old(m)).update(i, (k, v)),
{
    m.insert(k, v)
}

/// Relies on `IndexMap::iter`: the pairs come out in insertion order.
#[verifier::external_body]
fn statement_pairs(m: &IndexMap<u32, Range>) -> (r: Vec<(u32, Range)>)
    ensures
        r@ == statement_entries(*m),
{
    m.iter().map(|(k, v)| (*k, *v)).collect()
}

/// Relies on `IndexMap::iter`: the pairs come out in insertion order.
#[verifier::external_body]
fn count_pairs(m: &IndexMap<u32, u32>) -> (r: Vec<(u32, u32)>)
    ensures
        r@ == count_entries(*m),
{
    m.iter().map(|(k, v)| (*k, *v)).collect()
}

/// The per-file ledger of instrumented statements: `statement_map[id]` is
/// the range of statement `id` and `s[id]` its initial hit count.
#[derive(Debug)]
pub struct SourceCoverage {
    pub statement_map: IndexMap<u32, Range>,
    pub s: IndexMap<u32, u32>,
    pub(crate) next_id: u32,
}

impl SourceCoverage {
    /// The `(id, range)` entries of the statement map, in insertion order.
    pub open(crate) spec fn entries(&self) -> Seq<(u32, Range)> {
        statement_entries(self.statement_map)
    }

    /// The `(id, count)` entries of the hit-count map, in insertion order.
    pub open(crate) spec fn count_list(&self) -> Seq<(u32, u32)> {
        count_entries(self.s)
    }

    /// The ranges of the ledger, in id order.
    pub open(crate) spec fn ranges(&self) -> Seq<Range> {
        statement_entries(self.statement_map).map_values(|e: (u32, Range)| e.1)
    }

    /// Number of entries in the ledger.
    pub open(crate) spec fn len(&self) -> nat {
        statement_entries(self.statement_map).len()
    }

    /// The identifier that the next entry receives.
    pub open(crate) spec fn next(&self) -> nat {
        self.next_id as nat
    }

    /// Both maps hold exactly the keys `0 .. len`, in that order; every
    /// count is zero; the next identifier is `len`.
    pub open(crate) spec fn wf(&self) -> bool {
        let e = statement_entries(self.statement_map);
        let c = count_entries(self.s);
        &&& c.len() == e.len()
        &&& self.next() == e.len()
        &&& forall|i: int| 0 <= i < e.len() ==> (#[trigger] e[i]).0 == i
        &&& forall|i: int| 0 <= i < c.len() ==> #[trigger] c[i] == (i as u32, 0u32)
    }

    pub fn new() -> (r: Self)
        ensures
            r.wf(),
            r.len() == 0,
    {
        SourceCoverage { statement_map: new_statement_map(), s: new_count_map(), next_id: 0 }
    }

    /// Appends an entry for a statement with range `loc`; returns its id.
    pub fn new_statement(&mut self, loc: &Range) -> (id: u32)
        requires
            old(self).wf(),
            old(self).len() < u32::MAX,
        ensures
            final(self).wf(),
            id == old(self).len(),
            final(self).ranges() == old(self).ranges().push(*loc),
            final(self).entries() == old(self).entries().push((id, *loc)),
    {
        let id = self.next_id;
        proof {
            let e = statement_entries(self.statement_map);
            let c = count_entries(self.s);
            assert(!has_key(e, id));
            assert(!has_key(c, id));
        }
        insert_statement(&mut self.statement_map, id, *loc);
        insert_count(&mut self.s, id, 0);
        self.next_id = id + 1;
        proof {
            assert(self.ranges() =~= old(self).ranges().push(*loc));
        }
        id
    }

    /// The `(id, range)` pairs in id order.
    pub fn statements(&self) -> (r: Vec<(u32, Range)>)
        ensures
            r@ == self.entries(),
    {
        statement_pairs(&self.statement_map)
    }

    /// The `(id, count)` pairs in id order.
    pub fn counts(&self) -> (r: Vec<(u32, u32)>)
        ensures
            r@ == self.count_list(),
    {
        count_pairs(&self.s)
    }
}

impl Default for SourceCoverage {
    /// The empty ledger, as `new` makes it.
    fn default() -> (r: Self)
        ensures
            r.wf(),
            r.len() == 0,
    {
        SourceCoverage::new()
    }
}

/// Both maps of a well-formed ledger have the same keys, exactly
/// `0 .. len`, each once and in increasing order, and every count is zero.
pub proof fn lemma_ledger_keys(cov: SourceCoverage)
    requires
        cov.wf(),
    ensures
        cov.entries().len() == cov.count_list().len(),
        forall|k: u32| has_key(cov.entries(), k) <==> k < cov.len(),
        forall|k: u32| has_key(cov.count_list(), k) <==> k < cov.len(),
        forall|i: int, j: int|
            0 <= i < j < cov.len() ==> (#[trigger] cov.entries()[i]).0 < (
            #[trigger] cov.entries()[j]).0,
        forall|i: int| 0 <= i < cov.len() ==> (#[trigger] cov.count_list()[i]).1 == 0,
{
    let e = cov.entries();
    let c = cov.count_list();
    assert forall|k: u32| has_key(e, k) <==> k < cov.len() by {
        if k < cov.len() {
            assert(e[k as int].0 == k);
        }
    }
    assert forall|k: u32| has_key(c, k) <==> k < cov.len() by {
        if k < cov.len() {
            assert(c[k as int] == (k, 0u32));
        }
    }
}

} // verus!
