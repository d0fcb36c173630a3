//! The tree of IREPs that a RITE file lists in preorder: each record is
//! followed by the subtrees of its `rlen` children.
use vstd::prelude::*;
use crate::rite::binfmt::be16_at;
use crate::rite::loader::{Irep, PoolValue, PoolValueView};
use crate::value::{RPool, RSym};
use crate::dispatch::{lossy, text_of};

verus! {

/// An IREP of the tree: the index of its record in the file and its child
/// IREPs in order.
pub struct IrepTree {
    pub id: usize,
    pub reps: Vec<IrepTree>,
}

/// The number of children that record `i` declares.
pub open spec fn rlen_at(reps: Seq<Irep>, i: int) -> int {
    be16_at(reps[i].header.rlen@, 0) as int
}

/// The number of IREPs in tree `t`.
pub open spec fn tree_size(t: IrepTree) -> int
    decreases t,
{
    1 + forest_size(t.reps@)
}

/// The number of IREPs in trees `cs`.
pub open spec fn forest_size(cs: Seq<IrepTree>) -> int
    decreases cs,
{
    if cs.len() == 0 {
        0
    } else {
        tree_size(cs[0]) + forest_size(cs.drop_first())
    }
}

/// `t` is the tree whose root is record `pos`: it declares as many children
/// as record `pos` does, and they are the trees that follow one another from
/// `pos + 1` (in preorder, a tree takes the records from its root on, as
/// many as it has IREPs).
pub open spec fn spans(t: IrepTree, reps: Seq<Irep>, pos: int) -> bool
    decreases t,
{
    &&& 0 <= pos < reps.len()
    &&& t.id == pos
    &&& t.reps@.len() == rlen_at(reps, pos)
    &&& children_span(t.reps@, reps, pos + 1)
}

/// `cs` are trees that follow one another from record `start`.
pub open spec fn children_span(cs: Seq<IrepTree>, reps: Seq<Irep>, start: int) -> bool
    decreases cs,
{
    if cs.len() == 0 {
        true
    } else {
        spans(cs[0], reps, start) && children_span(cs.drop_first(), reps, start + tree_size(cs[0]))
    }
}

/// A tree has at least one IREP.
proof fn lemma_sizes_positive(t: IrepTree)
    ensures
        tree_size(t) >= 1,
    decreases t,
{
    lemma_forest_nonnegative(t.reps@);
}

proof fn lemma_forest_nonnegative(cs: Seq<IrepTree>)
    ensures
        forest_size(cs) >= 0,
    decreases cs,
{
    if cs.len() > 0 {
        lemma_sizes_positive(cs[0]);
        lemma_forest_nonnegative(cs.drop_first());
    }
}

/// Two trees rooted at the same record have the same size.
proof fn lemma_span_size_unique(t1: IrepTree, t2: IrepTree, reps: Seq<Irep>, pos: int)
    requires
        spans(t1, reps, pos),
        spans(t2, reps, pos),
    ensures
        tree_size(t1) == tree_size(t2),
    decreases t1,
{
    lemma_children_size_unique(t1.reps@, t2.reps@, reps, pos + 1);
}

/// Two runs of as many trees from the same record have the same size.
proof fn lemma_children_size_unique(cs1: Seq<IrepTree>, cs2: Seq<IrepTree>, reps: Seq<Irep>, start: int)
    requires
        cs1.len() == cs2.len(),
        children_span(cs1, reps, start),
        children_span(cs2, reps, start),
    ensures
        forest_size(cs1) == forest_size(cs2),
    decreases cs1,
{
    if cs1.len() > 0 {
        lemma_span_size_unique(cs1[0], cs2[0], reps, start);
        lemma_children_size_unique(cs1.drop_first(), cs2.drop_first(), reps, start + tree_size(cs1[0]));
    }
}

/// Where a shorter run of trees ends, a longer run from the same record has
/// a tree.
proof fn lemma_children_prefix(cs1: Seq<IrepTree>, cs2: Seq<IrepTree>, reps: Seq<Irep>, start: int, at: int)
    requires
        cs2.len() < cs1.len(),
        children_span(cs1, reps, start),
        children_span(cs2, reps, start),
        at == start + forest_size(cs2),
    ensures
        exists|t: IrepTree| spans(t, reps, at),
    decreases cs2.len(),
{
    if cs2.len() == 0 {
        assert(spans(cs1[0], reps, at));
    } else {
        lemma_span_size_unique(cs1[0], cs2[0], reps, start);
        lemma_children_prefix(cs1.drop_first(), cs2.drop_first(), reps, start + tree_size(cs1[0]), at);
    }
}

/// A run of trees followed by one more tree is a longer run.
proof fn lemma_children_append(cs: Seq<IrepTree>, c: IrepTree, reps: Seq<Irep>, start: int)
    requires
        children_span(cs, reps, start),
        spans(c, reps, start + forest_size(cs)),
    ensures
        children_span(cs.push(c), reps, start),
        forest_size(cs.push(c)) == forest_size(cs) + tree_size(c),
    decreases cs.len(),
{
    if cs.len() == 0 {
        assert(cs.push(c).drop_first() =~= Seq::<IrepTree>::empty());
        assert(cs.push(c)[0] == c);
        assert(forest_size(cs.push(c).drop_first()) == 0);
        assert(forest_size(cs) == 0);
        assert(children_span(cs.push(c).drop_first(), reps, start + tree_size(c)));
        assert(spans(cs.push(c)[0], reps, start));
    } else {
        lemma_children_append(cs.drop_first(), c, reps, start + tree_size(cs[0]));
        assert(cs.push(c).drop_first() =~= cs.drop_first().push(c));
        assert(cs.push(c)[0] == cs[0]);
        assert(children_span(cs.push(c).drop_first(), reps, start + tree_size(cs[0])));
        assert(spans(cs.push(c)[0], reps, start));
    }
}

/// The tree rooted at record `pos` and the record just after it, or `None`
/// when the records run out before every declared child is found.
pub fn load_irep_tree(reps: &[Irep], pos: usize) -> (r: Option<(IrepTree, usize)>)
    ensures
        match r {
            Some((t, end)) => spans(t, reps@, pos as int) && end == pos + tree_size(t) && end <= reps@.len(),
            None => !exists|t: IrepTree| spans(t, reps@, pos as int),
        },
    decreases reps@.len() - pos,
{
    if pos >= reps.len() {
        return None;
    }
    let n = reps[pos].rlen();
    let mut children: Vec<IrepTree> = Vec::new();
    let mut next: usize = pos + 1;
    let mut k: usize = 0;
    while k < n
        invariant
            pos < reps@.len(),
            n == rlen_at(reps@, pos as int),
            k <= n,
            children@.len() == k,
            pos < next <= reps@.len(),
            next == pos + 1 + forest_size(children@),
            children_span(children@, reps@, pos + 1),
        decreases n - k,
    {
        match load_irep_tree(reps, next) {
            Some((c, e)) => {
                proof {
                    lemma_children_append(children@, c, reps@, pos + 1);
                    lemma_sizes_positive(c);
                }
                children.push(c);
                next = e;
                k = k + 1;
            },
            None => {
                proof {
                    if exists|t: IrepTree| spans(t, reps@, pos as int) {
                        let t = choose|t: IrepTree| spans(t, reps@, pos as int);
                        lemma_children_prefix(t.reps@, children@, reps@, pos + 1, next as int);
                    }
                }
                return None;
            },
        }
    }
    let t = IrepTree { id: pos, reps: children };
    assert(spans(t, reps@, pos as int));
    Some((t, next))
}

/// The IREP tree of a whole file, rooted at its first record; `None` when the records do not hold every declared
/// child.
pub fn rite_to_irep(reps: &[Irep]) -> (r: Option<IrepTree>)
    ensures
        match r {
            Some(t) => spans(t, reps@, 0),
            None => !exists|t: IrepTree| spans(t, reps@, 0),
        },
{
    match load_irep_tree(reps, 0) {
        Some((t, _end)) => Some(t),
        None => None,
    }
}

/// An IREP as the virtual machine runs it: its record's counts, its symbols
/// and pool entries converted, and its child IREPs in order.
pub struct IREP {
    pub id: usize,
    pub nlocals: usize,
    pub nregs: usize,
    pub rlen: usize,
    pub syms: Vec<RSym>,
    pub pool: Vec<RPool>,
    pub reps: Vec<IREP>,
}

/// `q` is pool entry `p` as the virtual machine reads it: strings become
/// text, 32- and 64-bit integers become integers, a float keeps its bits,
/// and a big integer, which is not supported, becomes 0.
pub open spec fn pool_conv(p: PoolValueView, q: RPool) -> bool {
    match p {
        PoolValueView::Str(b) => q matches RPool::Str(s) && s@ == lossy(b),
        PoolValueView::SStr(b) => q matches RPool::Str(s) && s@ == lossy(b),
        PoolValueView::Int32(i) => q == RPool::Int(i as i64),
        PoolValueView::Int64(i) => q == RPool::Int(i),
        PoolValueView::Float(f) => q == RPool::Float(f),
        PoolValueView::BigInt(_) => q == RPool::Int(0),
    }
}

/// `r` holds what record `rec` declares: its counts, its symbols by name
/// and its pool entries converted.
pub open spec fn record_ok(r: IREP, rec: Irep) -> bool {
    &&& r.nlocals == be16_at(rec.header.nlocals@, 0)
    &&& r.nregs == be16_at(rec.header.nregs@, 0)
    &&& r.rlen == be16_at(rec.header.rlen@, 0)
    &&& r.syms@.len() == rec.syms@.len()
    &&& forall|i: int| 0 <= i < r.syms@.len() ==> (#[trigger] r.syms@[i]).name@ == lossy(rec.syms@[i]@)
    &&& r.pool@.len() == rec.pool@.len()
    &&& forall|i: int| 0 <= i < r.pool@.len() ==> pool_conv(rec.pool@[i]@, #[trigger] r.pool@[i])
}

/// Every IREP of tree `t` is a record below `n`.
pub open spec fn ids_below(t: IrepTree, n: int) -> bool
    decreases t,
{
    &&& 0 <= t.id < n
    &&& forall|i: int| 0 <= i < t.reps@.len() ==> ids_below(#[trigger] t.reps@[i], n)
}

/// `r` is tree `t` converted: each IREP holds what its record declares and
/// has the converted children of its tree node.
pub open spec fn converted(r: IREP, t: IrepTree, reps: Seq<Irep>) -> bool
    decreases t,
{
    &&& r.id == t.id
    &&& 0 <= t.id < reps.len()
    &&& record_ok(r, reps[t.id as int])
    &&& r.reps@.len() == t.reps@.len()
    &&& forall|i: int| 0 <= i < t.reps@.len() ==> converted(#[trigger] r.reps@[i], t.reps@[i], reps)
}

proof fn lemma_spans_ids(t: IrepTree, reps: Seq<Irep>, pos: int)
    requires
        spans(t, reps, pos),
    ensures
        ids_below(t, reps.len() as int),
    decreases t,
{
    lemma_children_ids(t.reps@, reps, pos + 1);
}

proof fn lemma_children_ids(cs: Seq<IrepTree>, reps: Seq<Irep>, start: int)
    requires
        children_span(cs, reps, start),
    ensures
        forall|i: int| 0 <= i < cs.len() ==> ids_below(#[trigger] cs[i], reps.len() as int),
    decreases cs,
{
    if cs.len() > 0 {
        lemma_spans_ids(cs[0], reps, start);
        lemma_children_ids(cs.drop_first(), reps, start + tree_size(cs[0]));
        assert forall|i: int| 0 <= i < cs.len() implies ids_below(#[trigger] cs[i], reps.len() as int) by {
            if i > 0 {
                assert(cs[i] == cs.drop_first()[i - 1]);
            }
        }
    }
}

/// Converts pool entry `p`.
fn convert_pool_value(p: &PoolValue) -> (q: RPool)
    ensures
        pool_conv(p@, q),
{
    match p {
        PoolValue::Str(b) => RPool::Str(text_of(b.as_slice())),
        PoolValue::SStr(b) => RPool::Str(text_of(b.as_slice())),
        PoolValue::Int32(i) => RPool::Int(*i as i64),
        PoolValue::Int64(i) => RPool::Int(*i),
        PoolValue::Float(f) => RPool::Float(*f),
        PoolValue::BigInt(_) => RPool::Int(0),
    }
}

/// Converts the tree `t` of records `reps` into runtime IREPs.
fn convert_tree(t: &IrepTree, reps: &[Irep]) -> (r: IREP)
    requires
        ids_below(*t, reps@.len() as int),
    ensures
        converted(r, *t, reps@),
    decreases t,
{
    let rec = &reps[t.id];
    let mut syms: Vec<RSym> = Vec::new();
    let mut i: usize = 0;
    while i < rec.syms.len()
        invariant
            0 <= i <= rec.syms@.len(),
            syms@.len() == i,
            forall|k: int| 0 <= k < i ==> (#[trigger] syms@[k]).name@ == lossy(rec.syms@[k]@),
        decreases rec.syms@.len() - i,
    {
        syms.push(RSym::new(text_of(rec.syms[i].as_slice())));
        i = i + 1;
    }
    let mut pool: Vec<RPool> = Vec::new();
    let mut j: usize = 0;
    while j < rec.pool.len()
        invariant
            0 <= j <= rec.pool@.len(),
            pool@.len() == j,
            forall|k: int| 0 <= k < j ==> pool_conv(rec.pool@[k]@, #[trigger] pool@[k]),
        decreases rec.pool@.len() - j,
    {
        pool.push(convert_pool_value(&rec.pool[j]));
        j = j + 1;
    }
    let mut children: Vec<IREP> = Vec::new();
    let mut k: usize = 0;
    while k < t.reps.len()
        invariant
            0 <= k <= t.reps@.len(),
            ids_below(*t, reps@.len() as int),
            children@.len() == k,
            forall|m: int| 0 <= m < k ==> converted(#[trigger] children@[m], t.reps@[m], reps@),
        decreases t.reps@.len() - k,
    {
        proof {
            assert(ids_below(t.reps@[k as int], reps@.len() as int));
            assert(decreases_to!(*t => t.reps));
            assert(decreases_to!(t.reps => t.reps@));
            assert(decreases_to!(t.reps@ => t.reps@[k as int]));
        }
        let c = convert_tree(&t.reps[k], reps);
        children.push(c);
        k = k + 1;
    }
    IREP {
        id: t.id,
        nlocals: rec.nlocals(),
        nregs: rec.nregs(),
        rlen: rec.rlen(),
        syms,
        pool,
        reps: children,
    }
}

/// `load_irep`: the runtime IREP rooted at record `pos`, converted with all
/// its descendants, and the record just after its subtree; `None` when the
/// records run out before every declared child is found.
pub fn load_irep(reps: &[Irep], pos: usize) -> (r: Option<(IREP, usize)>)
    ensures
        match r {
            Some((ir, end)) => exists|t: IrepTree| #[trigger] spans(t, reps@, pos as int) && converted(ir, t, reps@)
                && end == pos + tree_size(t) && end <= reps@.len(),
            None => !exists|t: IrepTree| spans(t, reps@, pos as int),
        },
        r matches Some((ir, _)) ==> ir.id == pos && record_ok(ir, reps@[pos as int]),
{
    match load_irep_tree(reps, pos) {
        Some((t, end)) => {
            proof {
                lemma_spans_ids(t, reps@, pos as int);
            }
            let ir = convert_tree(&t, reps);
            Some((ir, end))
        },
        None => None,
    }
}

} // verus!
