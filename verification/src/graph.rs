//! The branch dependency graph as a table of rows: what makes a table well
//! formed, how deep a branch stands in it, and what the stack of a branch is.

use crate::error::Failure;
use vstd::prelude::*;

verus! {

/// A row of the table of branches: a branch, the branch it is stacked on
/// (`None` for a root), and whether it has been published.
pub struct RowView {
    pub name: Seq<char>,
    pub parent: Option<Seq<char>>,
    pub submitted: bool,
}

/// A member of a stack: a branch and the branch it is stacked on.
pub struct BranchView {
    pub name: Seq<char>,
    pub parent: Seq<char>,
}

/// Some row of the table has this name.
pub open spec fn has_branch(rows: Seq<RowView>, name: Seq<char>) -> bool {
    exists|i: int| 0 <= i < rows.len() && (#[trigger] rows[i]).name == name
}

/// The position of the row with this name, where there is one.
pub open spec fn index_of(rows: Seq<RowView>, name: Seq<char>) -> int {
    choose|i: int| 0 <= i < rows.len() && (#[trigger] rows[i]).name == name
}

/// The position of the row that row `i` is stacked on.
pub open spec fn parent_index(rows: Seq<RowView>, i: int) -> Option<int> {
    match rows[i].parent {
        Some(p) => Some(index_of(rows, p)),
        None => None,
    }
}

/// The branch that the branch of this name is stacked on.
pub open spec fn parent_of(rows: Seq<RowView>, name: Seq<char>) -> Option<Seq<char>> {
    if has_branch(rows, name) {
        rows[index_of(rows, name)].parent
    } else {
        None
    }
}

/// Row `i` is a root: it is stacked on nothing.
pub open spec fn is_root(rows: Seq<RowView>, i: int) -> bool {
    0 <= i < rows.len() && rows[i].parent is None
}

/// The name of the first root of the table.
pub open spec fn root_of_table(rows: Seq<RowView>) -> Option<Seq<char>> {
    if rows.len() > 0 {
        Some(rows[0].name)
    } else {
        None
    }
}

/// Some row is stacked on the branch of this name.
pub open spec fn has_child(rows: Seq<RowView>, name: Seq<char>) -> bool {
    exists|i: int| 0 <= i < rows.len() && (#[trigger] rows[i]).parent == Some(name)
}

/// Some root has a branch stacked on it.
pub open spec fn root_has_child(rows: Seq<RowView>) -> bool {
    exists|i: int| #[trigger] is_root(rows, i) && has_child(rows, rows[i].name)
}

/// More than one row is a root.
pub open spec fn multiple_roots(rows: Seq<RowView>) -> bool {
    exists|i: int, j: int| i != j && #[trigger] is_root(rows, i) && #[trigger] is_root(rows, j)
}

/// The row that `set_root_branch` writes.
pub open spec fn root_row(name: Seq<char>) -> RowView {
    RowView { name, parent: None, submitted: false }
}

/// The row that `create_branch` writes.
pub open spec fn child_row(parent: Seq<char>, name: Seq<char>) -> RowView {
    RowView { name, parent: Some(parent), submitted: false }
}

/// What the store guarantees of its table: no name occurs twice, and every
/// row that is stacked on a branch comes after the row of that branch. The
/// parent relation is therefore a forest, listed parents first.
pub open spec fn well_formed(rows: Seq<RowView>) -> bool {
    &&& forall|i: int, j: int|
        0 <= i < j < rows.len() ==> (#[trigger] rows[i]).name != (#[trigger] rows[j]).name
    &&& forall|i: int|
        0 <= i < rows.len() && (#[trigger] rows[i]).parent is Some ==> {
            let p = index_of(rows, rows[i].parent->0);
            0 <= p < i && rows[p].name == rows[i].parent->0
        }
}

/// What is wrong with row `i` of a table that is read in order: its name
/// stands in an earlier row, or it is stacked on a branch that no earlier row
/// holds.
pub open spec fn fault_at(rows: Seq<RowView>, i: int) -> Option<Failure> {
    if has_branch(rows.take(i), rows[i].name) {
        Some(Failure::BranchAlreadyTracked)
    } else if rows[i].parent is Some && !has_branch(rows.take(i), rows[i].parent->0) {
        Some(Failure::UntrackedParent)
    } else {
        None
    }
}

/// In a well-formed table a name belongs to one row only.
pub proof fn lemma_index_of(rows: Seq<RowView>, i: int)
    requires
        well_formed(rows),
        0 <= i < rows.len(),
    ensures
        has_branch(rows, rows[i].name),
        index_of(rows, rows[i].name) == i,
{
}

/// A well-formed table stays so when it gets a row with a new name that is
/// a root or is stacked on a branch of the table.
pub proof fn lemma_push_well_formed(rows: Seq<RowView>, row: RowView)
    requires
        well_formed(rows),
        !has_branch(rows, row.name),
        row.parent is Some ==> has_branch(rows, row.parent->0),
    ensures
        well_formed(rows.push(row)),
{
    let next = rows.push(row);
    assert forall|i: int| 0 <= i < next.len() && (#[trigger] next[i]).parent is Some implies {
        let p = index_of(next, next[i].parent->0);
        0 <= p < i && next[p].name == next[i].parent->0
    } by {
        let name = next[i].parent->0;
        let q = index_of(rows, name);
        let p = index_of(next, name);
        if q < p {
            assert(next[q].name != next[p].name);
        }
    }
}

/// A row that is stacked on a branch adds no root to a table.
pub proof fn lemma_push_keeps_roots(rows: Seq<RowView>, row: RowView)
    requires
        row.parent is Some,
    ensures
        multiple_roots(rows.push(row)) == multiple_roots(rows),
{
    let next = rows.push(row);
    if multiple_roots(rows) {
        let (i, j) = choose|i: int, j: int|
            i != j && #[trigger] is_root(rows, i) && #[trigger] is_root(rows, j);
        assert(is_root(next, i) && is_root(next, j));
    }
    if multiple_roots(next) {
        let (i, j) = choose|i: int, j: int|
            i != j && #[trigger] is_root(next, i) && #[trigger] is_root(next, j);
        assert(is_root(rows, i) && is_root(rows, j));
    }
}

/// The first row of a well-formed table is a root.
pub proof fn lemma_first_row_is_root(rows: Seq<RowView>)
    requires
        well_formed(rows),
        rows.len() > 0,
    ensures
        is_root(rows, 0),
{
}

/// Where a well-formed table has a single root and a second row, that row
/// is stacked on the root.
pub proof fn lemma_single_root_has_child(rows: Seq<RowView>)
    requires
        well_formed(rows),
        !multiple_roots(rows),
        rows.len() >= 2,
    ensures
        is_root(rows, 0),
        has_child(rows, rows[0].name),
{
    lemma_first_row_is_root(rows);
    if rows[1].parent is None {
        assert(is_root(rows, 1));
    }
}

/// A table with a fault is not well formed.
pub proof fn lemma_fault_breaks_table(rows: Seq<RowView>, i: int)
    requires
        0 <= i < rows.len(),
        fault_at(rows, i) is Some,
    ensures
        !well_formed(rows),
{
    let front = rows.take(i);
    if !has_branch(front, rows[i].name) && well_formed(rows) {
        let p = index_of(rows, rows[i].parent->0);
        assert(front[p].name == rows[i].parent->0);
    }
}

/// How many branches lie between row `i` and the root of its tree, the
/// root included: 0 for a root.
pub open spec fn depth(rows: Seq<RowView>, i: int) -> nat
    decreases i,
{
    match parent_index(rows, i) {
        Some(p) => if 0 <= p < i {
            depth(rows, p) + 1
        } else {
            0
        },
        None => 0,
    }
}

/// The position of the root of the tree that holds row `i`.
pub open spec fn root_index(rows: Seq<RowView>, i: int) -> int
    decreases i,
{
    match parent_index(rows, i) {
        Some(p) => if 0 <= p < i {
            root_index(rows, p)
        } else {
            i
        },
        None => i,
    }
}

/// Row `a` lies on the way from row `i` up to its root.
pub open spec fn is_ancestor(rows: Seq<RowView>, a: int, i: int) -> bool
    decreases i,
{
    match parent_index(rows, i) {
        Some(p) => if 0 <= p < i {
            p == a || is_ancestor(rows, a, p)
        } else {
            false
        },
        None => false,
    }
}

/// A row is no deeper than its position.
pub proof fn lemma_depth_bound(rows: Seq<RowView>, i: int)
    requires
        0 <= i,
    ensures
        depth(rows, i) <= i,
    decreases i,
{
    match parent_index(rows, i) {
        Some(p) => {
            if 0 <= p < i {
                lemma_depth_bound(rows, p);
            }
        },
        None => {},
    }
}

/// An ancestor stands in the same tree as its descendant, before it and
/// nearer to the root.
pub proof fn lemma_ancestor(rows: Seq<RowView>, a: int, i: int)
    requires
        well_formed(rows),
        0 <= i < rows.len(),
        is_ancestor(rows, a, i),
    ensures
        0 <= a < i,
        root_index(rows, a) == root_index(rows, i),
        depth(rows, a) < depth(rows, i),
        rows[i].parent is Some,
    decreases i,
{
    let p = parent_index(rows, i)->0;
    if p != a {
        lemma_ancestor(rows, a, p);
    }
}

/// Row `i` belongs to the stack of `branch`: it is no root, and it stands in
/// the tree that holds `branch`.
pub open spec fn in_stack(rows: Seq<RowView>, branch: Seq<char>, i: int) -> bool {
    &&& 0 <= i < rows.len()
    &&& has_branch(rows, branch)
    &&& rows[i].parent is Some
    &&& root_index(rows, i) == root_index(rows, index_of(rows, branch))
}

/// Row `i` is processed before row `j`: it is nearer to the root, or as near
/// and was tracked earlier.
pub open spec fn comes_before(rows: Seq<RowView>, i: int, j: int) -> bool {
    depth(rows, i) < depth(rows, j) || (depth(rows, i) == depth(rows, j) && i < j)
}

/// `stack` is the stack of `branch`: its members are the rows that belong to
/// the stack, each with the branch it is stacked on; none is missing; and
/// they stand in processing order.
pub open spec fn is_stack_of(
    rows: Seq<RowView>,
    branch: Seq<char>,
    stack: Seq<BranchView>,
) -> bool {
    &&& forall|k: int|
        0 <= k < stack.len() ==> {
            &&& has_branch(rows, (#[trigger] stack[k]).name)
            &&& in_stack(rows, branch, index_of(rows, stack[k].name))
            &&& rows[index_of(rows, stack[k].name)].parent == Some(stack[k].parent)
        }
    &&& forall|i: int| #[trigger]
        in_stack(rows, branch, i) ==> exists|k: int|
            0 <= k < stack.len() && (#[trigger] stack[k]).name == rows[i].name
    &&& forall|k: int, l: int|
        0 <= k < l < stack.len() ==> comes_before(
            rows,
            index_of(rows, (#[trigger] stack[k]).name),
            index_of(rows, (#[trigger] stack[l]).name),
        )
}

/// The stack of `branch` in a table: the one sequence that `is_stack_of`
/// holds of.
pub open spec fn stack_of(rows: Seq<RowView>, branch: Seq<char>) -> Seq<BranchView> {
    choose|stack: Seq<BranchView>| is_stack_of(rows, branch, stack)
}

/// Row `i` stands before the point (`d`, `at`) of the walk that lists a
/// stack depth by depth and, within a depth, row by row.
pub open spec fn passed(rows: Seq<RowView>, i: int, d: int, at: int) -> bool {
    depth(rows, i) < d || (depth(rows, i) == d && i < at)
}

/// What the walk has gathered when it stands at (`d`, `at`): `order` holds
/// the positions of the rows of the stack that the walk has passed, in
/// processing order, and `stack` holds those rows.
pub open spec fn listed(
    rows: Seq<RowView>,
    branch: Seq<char>,
    stack: Seq<BranchView>,
    order: Seq<int>,
    d: int,
    at: int,
) -> bool {
    &&& order.len() == stack.len()
    &&& forall|k: int|
        0 <= k < order.len() ==> {
            &&& in_stack(rows, branch, #[trigger] order[k])
            &&& passed(rows, order[k], d, at)
            &&& stack[k].name == rows[order[k]].name
            &&& Some(stack[k].parent) == rows[order[k]].parent
        }
    &&& forall|k: int, l: int|
        0 <= k < l < order.len() ==> comes_before(rows, #[trigger] order[k], #[trigger] order[l])
    &&& forall|i: int|
        #[trigger] in_stack(rows, branch, i) && passed(rows, i, d, at) ==> exists|k: int|
            0 <= k < order.len() && #[trigger] order[k] == i
}

/// The positions of the rows of the stack of `branch` that a walk has passed
/// when it stands at (`d`, `at`), in the order in which it passed them.
pub open spec fn walked(rows: Seq<RowView>, branch: Seq<char>, d: int, at: int) -> Seq<int>
    decreases d, at,
{
    if d < 1 || at < 0 {
        Seq::empty()
    } else if at == 0 {
        walked(rows, branch, d - 1, rows.len() as int)
    } else {
        let before = walked(rows, branch, d, at - 1);
        if in_stack(rows, branch, at - 1) && depth(rows, at - 1) == d {
            before.push(at - 1)
        } else {
            before
        }
    }
}

/// The rows at the positions `order`, each as a member of a stack.
pub open spec fn members(rows: Seq<RowView>, order: Seq<int>) -> Seq<BranchView> {
    Seq::new(
        order.len(),
        |k: int| BranchView { name: rows[order[k]].name, parent: rows[order[k]].parent->0 },
    )
}

/// The walk passes a row that does not belong to the stack at this depth.
pub proof fn lemma_listed_skip(
    rows: Seq<RowView>,
    branch: Seq<char>,
    stack: Seq<BranchView>,
    order: Seq<int>,
    d: int,
    at: int,
)
    requires
        listed(rows, branch, stack, order, d, at),
        !(in_stack(rows, branch, at) && depth(rows, at) == d),
    ensures
        listed(rows, branch, stack, order, d, at + 1),
{
}

/// The walk takes up a row that belongs to the stack at this depth.
pub proof fn lemma_listed_push(
    rows: Seq<RowView>,
    branch: Seq<char>,
    stack: Seq<BranchView>,
    order: Seq<int>,
    d: int,
    at: int,
    member: BranchView,
)
    requires
        listed(rows, branch, stack, order, d, at),
        in_stack(rows, branch, at),
        depth(rows, at) == d,
        member.name == rows[at].name,
        Some(member.parent) == rows[at].parent,
    ensures
        listed(rows, branch, stack.push(member), order.push(at), d, at + 1),
{
    let order2 = order.push(at);
    assert forall|i: int| #[trigger]
        in_stack(rows, branch, i) && passed(rows, i, d, at + 1) implies exists|k: int|
        0 <= k < order2.len() && #[trigger] order2[k] == i by {
        if i == at {
            assert(order2[order.len() as int] == i);
        } else {
            let k = choose|k: int| 0 <= k < order.len() && #[trigger] order[k] == i;
            assert(order2[k] == i);
        }
    }
}

/// The walk goes on from the end of one depth to the beginning of the next.
pub proof fn lemma_listed_next_depth(
    rows: Seq<RowView>,
    branch: Seq<char>,
    stack: Seq<BranchView>,
    order: Seq<int>,
    d: int,
)
    requires
        listed(rows, branch, stack, order, d, rows.len() as int),
    ensures
        listed(rows, branch, stack, order, d + 1, 0),
{
}

/// A walk that has passed every depth has gathered the stack.
pub proof fn lemma_listed_complete(
    rows: Seq<RowView>,
    branch: Seq<char>,
    stack: Seq<BranchView>,
    order: Seq<int>,
    d: int,
)
    requires
        well_formed(rows),
        listed(rows, branch, stack, order, d, 0),
        d >= rows.len(),
    ensures
        is_stack_of(rows, branch, stack),
{
    assert forall|k: int| 0 <= k < stack.len() implies {
        &&& has_branch(rows, (#[trigger] stack[k]).name)
        &&& in_stack(rows, branch, index_of(rows, stack[k].name))
        &&& rows[index_of(rows, stack[k].name)].parent == Some(stack[k].parent)
    } by {
        lemma_index_of(rows, order[k]);
    }
    assert forall|i: int| #[trigger] in_stack(rows, branch, i) implies exists|k: int|
        0 <= k < stack.len() && (#[trigger] stack[k]).name == rows[i].name by {
        lemma_depth_bound(rows, i);
    }
    assert forall|k: int, l: int| 0 <= k < l < stack.len() implies comes_before(
        rows,
        index_of(rows, (#[trigger] stack[k]).name),
        index_of(rows, (#[trigger] stack[l]).name),
    ) by {
        lemma_index_of(rows, order[k]);
        lemma_index_of(rows, order[l]);
    }
}

/// A walk gathers what it has passed.
pub proof fn lemma_walked(rows: Seq<RowView>, branch: Seq<char>, d: int, at: int)
    requires
        well_formed(rows),
        1 <= d,
        0 <= at <= rows.len(),
    ensures
        listed(
            rows,
            branch,
            members(rows, walked(rows, branch, d, at)),
            walked(rows, branch, d, at),
            d,
            at,
        ),
    decreases d, at,
{
    if at == 0 {
        if d == 1 {
            assert(walked(rows, branch, 0, rows.len() as int) =~= Seq::<int>::empty());
        } else {
            lemma_walked(rows, branch, d - 1, rows.len() as int);
        }
    } else {
        let before = walked(rows, branch, d, at - 1);
        lemma_walked(rows, branch, d, at - 1);
        if in_stack(rows, branch, at - 1) && depth(rows, at - 1) == d {
            let member = BranchView { name: rows[at - 1].name, parent: rows[at - 1].parent->0 };
            lemma_listed_push(rows, branch, members(rows, before), before, d, at - 1, member);
        }
    }
}

/// The stack of a branch holds every ancestor of the branch but the root,
/// the branch itself unless it is the root, and every descendant of the
/// branch; it holds no branch twice; and no branch stands in it before the
/// branch it is stacked on.
pub proof fn lemma_stack_covers_lineage(
    rows: Seq<RowView>,
    branch: Seq<char>,
    stack: Seq<BranchView>,
)
    requires
        well_formed(rows),
        has_branch(rows, branch),
        is_stack_of(rows, branch, stack),
    ensures
        forall|a: int|
            is_ancestor(rows, a, index_of(rows, branch)) && !is_root(rows, a) ==> exists|k: int|
                0 <= k < stack.len() && (#[trigger] stack[k]).name == rows[a].name,
        !is_root(rows, index_of(rows, branch)) ==> exists|k: int|
            0 <= k < stack.len() && (#[trigger] stack[k]).name == branch,
        forall|d: int|
            0 <= d < rows.len() && is_ancestor(rows, index_of(rows, branch), d) ==> exists|k: int|
                0 <= k < stack.len() && (#[trigger] stack[k]).name == rows[d].name,
        forall|k: int, l: int|
            0 <= k < l < stack.len() ==> (#[trigger] stack[k]).name != (#[trigger] stack[l]).name,
        forall|k: int, l: int|
            0 <= k < stack.len() && 0 <= l < stack.len() && (#[trigger] stack[l]).name == (
            #[trigger] stack[k]).parent ==> l < k,
{
    assert(folded_stack(rows, branch, stack)) by {
        reveal(folded_stack);
    }
    lemma_lineage(rows, branch, stack);
}

/// What `lemma_stack_covers_lineage` states, of a stack that is kept folded.
proof fn lemma_lineage(rows: Seq<RowView>, branch: Seq<char>, stack: Seq<BranchView>)
    requires
        well_formed(rows),
        has_branch(rows, branch),
        folded_stack(rows, branch, stack),
    ensures
        forall|a: int|
            is_ancestor(rows, a, index_of(rows, branch)) && !is_root(rows, a) ==> exists|k: int|
                0 <= k < stack.len() && (#[trigger] stack[k]).name == rows[a].name,
        !is_root(rows, index_of(rows, branch)) ==> exists|k: int|
            0 <= k < stack.len() && (#[trigger] stack[k]).name == branch,
        forall|d: int|
            0 <= d < rows.len() && is_ancestor(rows, index_of(rows, branch), d) ==> exists|k: int|
                0 <= k < stack.len() && (#[trigger] stack[k]).name == rows[d].name,
        forall|k: int, l: int|
            0 <= k < l < stack.len() ==> (#[trigger] stack[k]).name != (#[trigger] stack[l]).name,
        forall|k: int, l: int|
            0 <= k < stack.len() && 0 <= l < stack.len() && (#[trigger] stack[l]).name == (
            #[trigger] stack[k]).parent ==> l < k,
{
    let here = index_of(rows, branch);
    assert forall|a: int|
        is_ancestor(rows, a, here) && !is_root(rows, a) implies exists|k: int|
        0 <= k < stack.len() && (#[trigger] stack[k]).name == rows[a].name by {
        lemma_ancestor(rows, a, here);
        let k = lemma_stack_finds(rows, branch, stack, a);
    }
    if !is_root(rows, here) {
        let k = lemma_stack_finds(rows, branch, stack, here);
    }
    assert forall|d: int|
        0 <= d < rows.len() && is_ancestor(rows, here, d) implies exists|k: int|
        0 <= k < stack.len() && (#[trigger] stack[k]).name == rows[d].name by {
        lemma_ancestor(rows, here, d);
        let k = lemma_stack_finds(rows, branch, stack, d);
    }
    assert forall|k: int, l: int| 0 <= k < l < stack.len() implies (#[trigger] stack[k]).name != (
    #[trigger] stack[l]).name by {
        lemma_stack_order(rows, branch, stack, k, l);
    }
    assert forall|k: int, l: int|
        0 <= k < stack.len() && 0 <= l < stack.len() && (#[trigger] stack[l]).name == (
        #[trigger] stack[k]).parent implies l < k by {
        let ik = lemma_stack_member(rows, branch, stack, k);
        let il = lemma_stack_member(rows, branch, stack, l);
        assert(parent_index(rows, ik) == Some(il));
        assert(depth(rows, ik) == depth(rows, il) + 1);
        if k < l {
            lemma_stack_order(rows, branch, stack, k, l);
        }
    }
}

/// `is_stack_of`, kept folded while two stacks are compared.
#[verifier::opaque]
spec fn folded_stack(rows: Seq<RowView>, branch: Seq<char>, stack: Seq<BranchView>) -> bool {
    is_stack_of(rows, branch, stack)
}

/// What a stack says of its member `k`, by the position `i` of that member's row.
proof fn lemma_stack_member(
    rows: Seq<RowView>,
    branch: Seq<char>,
    stack: Seq<BranchView>,
    k: int,
) -> (i: int)
    requires
        well_formed(rows),
        folded_stack(rows, branch, stack),
        0 <= k < stack.len(),
    ensures
        i == index_of(rows, stack[k].name),
        in_stack(rows, branch, i),
        rows[i].name == stack[k].name,
        rows[i].parent == Some(stack[k].parent),
{
    reveal(folded_stack);
    let i = index_of(rows, stack[k].name);
    i
}

/// Where the row `i` of a stack stands in it.
proof fn lemma_stack_finds(
    rows: Seq<RowView>,
    branch: Seq<char>,
    stack: Seq<BranchView>,
    i: int,
) -> (k: int)
    requires
        well_formed(rows),
        folded_stack(rows, branch, stack),
        in_stack(rows, branch, i),
    ensures
        0 <= k < stack.len(),
        stack[k].name == rows[i].name,
        index_of(rows, stack[k].name) == i,
{
    reveal(folded_stack);
    choose|k: int| 0 <= k < stack.len() && (#[trigger] stack[k]).name == rows[i].name
}

/// A stack lists its members in processing order.
proof fn lemma_stack_order(
    rows: Seq<RowView>,
    branch: Seq<char>,
    stack: Seq<BranchView>,
    k: int,
    l: int,
)
    requires
        folded_stack(rows, branch, stack),
        0 <= k < l < stack.len(),
    ensures
        comes_before(rows, index_of(rows, stack[k].name), index_of(rows, stack[l].name)),
{
    reveal(folded_stack);
}

/// The first `n` members of one stack of a branch are the first `n` members
/// of any other.
proof fn lemma_stack_prefix(
    rows: Seq<RowView>,
    branch: Seq<char>,
    first: Seq<BranchView>,
    second: Seq<BranchView>,
    n: int,
)
    requires
        well_formed(rows),
        folded_stack(rows, branch, first),
        folded_stack(rows, branch, second),
        0 <= n <= first.len(),
    ensures
        n <= second.len(),
        forall|k: int| 0 <= k < n ==> first[k] == second[k],
    decreases n,
{
    if n > 0 {
        lemma_stack_prefix(rows, branch, first, second, n - 1);
        let m = n - 1;
        let i = lemma_stack_member(rows, branch, first, m);
        // Where the row of `first[m]` stands in `second`.
        let j = lemma_stack_finds(rows, branch, second, i);
        if j < m {
            lemma_stack_order(rows, branch, first, j, m);
            assert(false);
        }
        if j > m {
            // Then `second[m]` comes before it, and stands in `first` too.
            let i2 = lemma_stack_member(rows, branch, second, m);
            lemma_stack_order(rows, branch, second, m, j);
            let l = lemma_stack_finds(rows, branch, first, i2);
            if l < m {
                lemma_stack_order(rows, branch, second, l, m);
            } else if l > m {
                lemma_stack_order(rows, branch, first, m, l);
            }
            assert(false);
        }
        lemma_stack_member(rows, branch, second, m);
    }
}

/// Two stacks of one branch are the same: table and branch decide the stack.
pub proof fn lemma_stack_unique(
    rows: Seq<RowView>,
    branch: Seq<char>,
    first: Seq<BranchView>,
    second: Seq<BranchView>,
)
    requires
        well_formed(rows),
        is_stack_of(rows, branch, first),
        is_stack_of(rows, branch, second),
    ensures
        first == second,
{
    assert(folded_stack(rows, branch, first) && folded_stack(rows, branch, second)) by {
        reveal(folded_stack);
    }
    lemma_stack_prefix(rows, branch, first, second, first.len() as int);
    lemma_stack_prefix(rows, branch, second, first, second.len() as int);
}

/// Every branch has a stack in a well-formed table, and has one only.
pub proof fn lemma_stack_of(rows: Seq<RowView>, branch: Seq<char>)
    requires
        well_formed(rows),
    ensures
        is_stack_of(rows, branch, stack_of(rows, branch)),
        forall|stack: Seq<BranchView>|
            is_stack_of(rows, branch, stack) ==> stack == stack_of(rows, branch),
{
    let d: int = rows.len() as int + 1;
    let order = walked(rows, branch, d, 0);
    lemma_walked(rows, branch, d, 0);
    lemma_listed_complete(rows, branch, members(rows, order), order, d);
    assert forall|stack: Seq<BranchView>| is_stack_of(rows, branch, stack) implies stack
        == stack_of(rows, branch) by {
        lemma_stack_unique(rows, branch, stack, stack_of(rows, branch));
    }
}

} // verus!
