//! Per-row scatter routing and stable partitioning.
//!
//! A scatter expression yields one routing value per row; the destination of a
//! row is its routing value modulo the number of destinations. Partitioning is
//! deterministic (no hashing) and stable: rows keep their relative source
//! order inside each destination.

use vstd::prelude::*;
use vstd::pervasive::VecAdditionalExecFns;
use vstd::multiset::Multiset;

verus! {

broadcast use vstd::seq_lib::group_to_multiset_ensures;

/// The scatter expression of a stage. `Literal` routes every row by the same
/// constant; `Column` routes a row by its own value (the named column is the
/// single numeric column this core carries per row).
pub enum ScatterExpr {
    Literal(u64),
    Column(String),
}

/// The routing value of one row under a scatter expression.
pub open spec fn scatter_value(expr: ScatterExpr, row: u64) -> u64 {
    match expr {
        ScatterExpr::Literal(c) => c,
        ScatterExpr::Column(_) => row,
    }
}

/// The routing values of a whole batch.
pub open spec fn routing_of(expr: ScatterExpr, rows: Seq<u64>) -> Seq<u64> {
    rows.map(|i: int, row: u64| scatter_value(expr, row))
}

/// The destination index of a row with routing value `v` among `n` streams.
pub open spec fn dest_index(v: u64, n: int) -> int {
    v as int % n
}

/// The rows routed to destination `j`: the subsequence of `rows` whose routing
/// value lands on `j`, in source order.
pub open spec fn part_spec(rows: Seq<u64>, routing: Seq<u64>, n: int, j: int) -> Seq<u64>
    decreases rows.len(),
{
    if rows.len() == 0 {
        Seq::empty()
    } else {
        let rest = part_spec(rows.drop_last(), routing.drop_last(), n, j);
        if dest_index(routing.last(), n) == j {
            rest.push(rows.last())
        } else {
            rest
        }
    }
}

/// Evaluate a scatter expression over a batch, one routing value per row.
pub fn eval_scatter(expr: &ScatterExpr, rows: &Vec<u64>) -> (vals: Vec<u64>)
    ensures
        vals@ == routing_of(*expr, rows@),
{
    let mut vals: Vec<u64> = Vec::new();
    let mut i: usize = 0;
    while i < rows.len()
        invariant
            i <= rows@.len(),
            vals@.len() == i,
            forall|t: int| 0 <= t < i ==> vals@[t] == scatter_value(*expr, rows@[t]),
        decreases rows@.len() - i,
    {
        let v = match expr {
            ScatterExpr::Literal(c) => *c,
            ScatterExpr::Column(_) => rows[i],
        };
        vals.push(v);
        i = i + 1;
    }
    proof {
        assert(vals@ =~= routing_of(*expr, rows@));
    }
    vals
}

/// Group a batch into one sub-batch per destination, preserving source order
/// within each destination.
pub fn scatter_partition(rows: &Vec<u64>, routing: &Vec<u64>, n: usize) -> (parts: Vec<Vec<u64>>)
    requires
        routing@.len() == rows@.len(),
        n >= 1,
    ensures
        parts@.len() == n,
        forall|j: int| 0 <= j < n ==> #[trigger] parts@[j]@ == part_spec(rows@, routing@, n as int, j),
{
    let mut parts: Vec<Vec<u64>> = Vec::new();
    let mut j: usize = 0;
    while j < n
        invariant
            j <= n,
            parts@.len() == j,
            forall|t: int| 0 <= t < j ==> #[trigger] parts@[t]@ == Seq::<u64>::empty(),
        decreases n - j,
    {
        parts.push(Vec::new());
        j = j + 1;
    }
    let mut i: usize = 0;
    while i < rows.len()
        invariant
            i <= rows@.len(),
            routing@.len() == rows@.len(),
            n >= 1,
            parts@.len() == n,
            forall|t: int| 0 <= t < n ==>
                #[trigger] parts@[t]@ == part_spec(rows@.take(i as int), routing@.take(i as int), n as int, t),
        decreases rows@.len() - i,
    {
        let d = (routing[i] % (n as u64)) as usize;
        assert(d == dest_index(routing@[i as int], n as int));
        let mut group: Vec<u64> = Vec::new();
        parts.set_and_swap(d, &mut group);
        group.push(rows[i]);
        parts.set_and_swap(d, &mut group);
        proof {
            let pre = rows@.take(i as int);
            let post = rows@.take(i + 1);
            assert(post.drop_last() =~= pre);
            assert(routing@.take(i + 1).drop_last() =~= routing@.take(i as int));
            assert(post.last() == rows@[i as int]);
        }
        i = i + 1;
    }
    proof {
        assert(rows@.take(rows@.len() as int) =~= rows@);
        assert(routing@.take(routing@.len() as int) =~= routing@);
    }
    parts
}

/// With a single destination every batch passes through verbatim: the one
/// partition is the source sequence itself, whatever the routing values are.
pub proof fn lemma_partition_identity(rows: Seq<u64>, routing: Seq<u64>)
    requires
        routing.len() == rows.len(),
    ensures
        part_spec(rows, routing, 1, 0) == rows,
    decreases rows.len(),
{
    if rows.len() == 0 {
        assert(part_spec(rows, routing, 1, 0) =~= rows);
    } else {
        lemma_partition_identity(rows.drop_last(), routing.drop_last());
        assert(dest_index(routing.last(), 1) == 0);
        assert(part_spec(rows, routing, 1, 0) =~= rows);
    }
}

/// The multiset union of the partitions for destinations below `j`.
pub open spec fn parts_union(rows: Seq<u64>, routing: Seq<u64>, n: int, j: int) -> Multiset<u64>
    decreases j,
{
    if j <= 0 {
        Multiset::empty()
    } else {
        parts_union(rows, routing, n, j - 1).add(part_spec(rows, routing, n, j - 1).to_multiset())
    }
}

/// Dropping the last row removes it from exactly the partition of its own
/// destination and leaves every other partition unchanged.
proof fn lemma_parts_union_step(rows: Seq<u64>, routing: Seq<u64>, n: int, j: int)
    requires
        routing.len() == rows.len(),
        rows.len() > 0,
        n >= 1,
        0 <= j,
    ensures
        parts_union(rows, routing, n, j) == if dest_index(routing.last(), n) < j {
            parts_union(rows.drop_last(), routing.drop_last(), n, j).insert(rows.last())
        } else {
            parts_union(rows.drop_last(), routing.drop_last(), n, j)
        },
    decreases j,
{
    if j <= 0 {
    } else {
        lemma_parts_union_step(rows, routing, n, j - 1);
        let d = dest_index(routing.last(), n);
        let whole = part_spec(rows, routing, n, j - 1);
        let dropped = part_spec(rows.drop_last(), routing.drop_last(), n, j - 1);
        if d == j - 1 {
            assert(whole == dropped.push(rows.last()));
            assert(whole.to_multiset() =~= dropped.to_multiset().insert(rows.last()));
            assert(parts_union(rows, routing, n, j) =~= parts_union(
                rows.drop_last(),
                routing.drop_last(),
                n,
                j,
            ).insert(rows.last()));
        } else {
            if d < j - 1 {
                assert(parts_union(rows, routing, n, j) =~= parts_union(
                    rows.drop_last(),
                    routing.drop_last(),
                    n,
                    j,
                ).insert(rows.last()));
            } else {
                assert(parts_union(rows, routing, n, j) =~= parts_union(
                    rows.drop_last(),
                    routing.drop_last(),
                    n,
                    j,
                ));
            }
        }
    }
}

/// No row is lost and none is duplicated: across the union of all `n`
/// destinations the partitions carry exactly the source rows.
pub proof fn lemma_scatter_no_loss(rows: Seq<u64>, routing: Seq<u64>, n: int)
    requires
        routing.len() == rows.len(),
        n >= 1,
    ensures
        parts_union(rows, routing, n, n) == rows.to_multiset(),
    decreases rows.len(),
{
    if rows.len() == 0 {
        assert(rows.to_multiset() =~= Multiset::empty()) by {
            rows.to_multiset_ensures();
        }
        lemma_parts_union_empty(rows, routing, n, n);
    } else {
        let prefix = rows.drop_last();
        lemma_scatter_no_loss(prefix, routing.drop_last(), n);
        lemma_parts_union_step(rows, routing, n, n);
        let v = routing.last();
        assert(0 <= dest_index(v, n) < n) by {
            assert(v as int % n < n && v as int % n >= 0) by (nonlinear_arith)
                requires n >= 1;
        }
        assert(prefix.push(rows.last()) =~= rows);
        assert(prefix.push(rows.last()).to_multiset() =~= prefix.to_multiset().insert(rows.last()));
    }
}

/// All partitions of an empty batch are empty.
proof fn lemma_parts_union_empty(rows: Seq<u64>, routing: Seq<u64>, n: int, j: int)
    requires
        rows.len() == 0,
    ensures
        parts_union(rows, routing, n, j) == Multiset::<u64>::empty(),
    decreases j,
{
    if j <= 0 {
    } else {
        lemma_parts_union_empty(rows, routing, n, j - 1);
        assert(part_spec(rows, routing, n, j - 1) =~= Seq::empty());
        assert(Seq::<u64>::empty().to_multiset() =~= Multiset::empty()) by {
            Seq::<u64>::empty().to_multiset_ensures();
        }
        assert(parts_union(rows, routing, n, j) =~= Multiset::empty());
    }
}

} // verus!
