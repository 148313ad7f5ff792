//! Trees stored as rows that name their next sibling and their first child.

use std::collections::{BTreeMap, BTreeSet};

use vstd::prelude::*;

verus! {

/// The two references that a row of a stored tree holds.
#[derive(Clone, Copy, Debug, PartialEq, Eq)]
pub struct Link {
    pub next: Option<i64>,
    pub first_child: Option<i64>,
}

/// Why references do not form a tree.
#[derive(Clone, Copy, Debug, PartialEq, Eq)]
pub enum LinkFault {
    /// A reference names a row that is not there.
    Missing(i64),
    /// A row is reached a second time.
    Repeated(i64),
    /// A row comes a second time in one chain.
    Cyclic(i64),
    /// A row lies deeper than allowed.
    Depth(u64),
}

/// A fault of a tree; one of a chain comes with the row below which it was found.
pub enum FaultModel {
    Missing { id: i64, parent: i64 },
    Repeated { id: i64, parent: i64 },
    Cyclic { id: i64, parent: i64 },
    Depth(u64),
}

/// The fault of a tree that a fault of a chain below a row is.
pub open spec fn fault_below(fault: LinkFault, parent: i64) -> FaultModel {
    match fault {
        LinkFault::Missing(id) => FaultModel::Missing { id, parent },
        LinkFault::Repeated(id) => FaultModel::Repeated { id, parent },
        LinkFault::Cyclic(id) => FaultModel::Cyclic { id, parent },
        LinkFault::Depth(depth) => FaultModel::Depth(depth),
    }
}

/// How many rows have not been reached yet.
pub open spec fn unvisited(links: Map<i64, Link>, visited: Set<i64>) -> nat {
    links.dom().difference(visited).len()
}

/// The siblings from `next` on, after the ones in `found`, and all rows reached by
/// then; `None` where a sibling is missing or was reached before.
pub open spec fn siblings_from(
    links: Map<i64, Link>,
    visited: Set<i64>,
    next: Option<i64>,
    found: Seq<i64>,
) -> Option<(Set<i64>, Seq<i64>)>
    decreases unvisited(links, visited),
    when links.dom().finite()
    via siblings_end
{
    match next {
        None => Some((visited, found)),
        Some(id) => if visited.contains(id) || !links.contains_key(id) {
            None
        } else {
            siblings_from(links, visited.insert(id), links[id].next, found.push(id))
        },
    }
}

/// Why a chain of siblings cannot be followed.
pub enum ChainFault {
    Missing(i64),
    Repeated(i64),
}

/// The fault that stops a chain of siblings: one that comes back to a row that it did not
/// start with is cyclic.
pub open spec fn stopped_chain(
    links: Map<i64, Link>,
    visited: Set<i64>,
    next: Option<i64>,
) -> LinkFault {
    match chain_fault(links, visited, next) {
        Some(ChainFault::Missing(id)) => LinkFault::Missing(id),
        Some(ChainFault::Repeated(id)) => if visited.contains(id) {
            LinkFault::Repeated(id)
        } else {
            LinkFault::Cyclic(id)
        },
        None => LinkFault::Depth(0),
    }
}

/// What stops a chain of siblings from `next` on, if something does.
pub open spec fn chain_fault(links: Map<i64, Link>, visited: Set<i64>, next: Option<i64>) -> Option<
    ChainFault,
>
    decreases unvisited(links, visited),
    when links.dom().finite()
    via chain_fault_ends
{
    match next {
        None => None,
        Some(id) => if visited.contains(id) {
            Some(ChainFault::Repeated(id))
        } else if !links.contains_key(id) {
            Some(ChainFault::Missing(id))
        } else {
            chain_fault(links, visited.insert(id), links[id].next)
        },
    }
}

#[via_fn]
proof fn chain_fault_ends(links: Map<i64, Link>, visited: Set<i64>, next: Option<i64>) {
    if let Some(id) = next {
        if !visited.contains(id) && links.contains_key(id) {
            one_fewer(links, visited, id);
        }
    }
}

#[via_fn]
proof fn siblings_end(
    links: Map<i64, Link>,
    visited: Set<i64>,
    next: Option<i64>,
    found: Seq<i64>,
) {
    if let Some(id) = next {
        if !visited.contains(id) && links.contains_key(id) {
            one_fewer(links, visited, id);
        }
    }
}

proof fn one_fewer(links: Map<i64, Link>, visited: Set<i64>, id: i64)
    requires
        links.dom().finite(),
        links.contains_key(id),
        !visited.contains(id),
    ensures
        unvisited(links, visited.insert(id)) + 1 == unvisited(links, visited),
{
    assert(links.dom().difference(visited.insert(id)) =~= links.dom().difference(visited).remove(
        id,
    ));
}

/// Whether the row at a position of a list exists and names the one after it.
pub open spec fn leads_on(links: Map<i64, Link>, list: Seq<i64>, i: int) -> bool {
    links.contains_key(list[i]) && links[list[i]].next == if i + 1 < list.len() {
        Some(list[i + 1])
    } else {
        None
    }
}

/// Whether a list is the chain of siblings that starts at `first`.
pub open spec fn is_chain(links: Map<i64, Link>, first: Option<i64>, list: Seq<i64>) -> bool {
    &&& first == if list.len() == 0 {
        None
    } else {
        Some(list[0])
    }
    &&& forall|i: int| 0 <= i < list.len() ==> #[trigger] leads_on(links, list, i)
}

/// What a chain of siblings that was followed to its end has reached.
#[verifier::spinoff_prover]
#[verifier::rlimit(40)]
pub proof fn followed_chain(
    links: Map<i64, Link>,
    visited: Set<i64>,
    next: Option<i64>,
    found: Seq<i64>,
)
    requires
        links.dom().finite(),
        siblings_from(links, visited, next, found) is Some,
    ensures
        ({
            let (after, list) = siblings_from(links, visited, next, found)->Some_0;
            &&& found.len() <= list.len()
            &&& list.take(found.len() as int) == found
            &&& is_chain(links, next, list.skip(found.len() as int))
            &&& unvisited(links, after) + list.len() == unvisited(links, visited) + found.len()
            &&& forall|id: i64| #[trigger] after.contains(id) <==> visited.contains(id) || list.skip(
                found.len() as int,
            ).contains(id)
            &&& forall|i: int|
                found.len() <= i < list.len() ==> !visited.contains(#[trigger] list[i])
            &&& list.skip(found.len() as int).no_duplicates()
        }),
    decreases unvisited(links, visited),
{
    match next {
        None => {
            assert(found.take(found.len() as int) =~= found);
            assert(found.skip(found.len() as int) =~= Seq::<i64>::empty());
        },
        Some(id) => {
            one_fewer(links, visited, id);
            let step = found.push(id);
            followed_chain(links, visited.insert(id), links[id].next, step);
            let (after, list) = siblings_from(links, visited, next, found)->Some_0;
            let rest = list.skip(found.len() as int);
            let later = list.skip(step.len() as int);
            assert(list.take(step.len() as int)[found.len() as int] == id);
            assert(list[found.len() as int] == id);
            assert(list.take(found.len() as int) =~= list.take(step.len() as int).take(
                found.len() as int,
            ));
            assert(step.take(found.len() as int) =~= found);
            assert(rest =~= seq![id] + later);
            assert forall|i: int| 0 <= i < rest.len() implies #[trigger] leads_on(links, rest, i) by {
                if i > 0 {
                    assert(leads_on(links, later, i - 1));
                    assert(later[i - 1] == rest[i]);
                    if i + 1 < rest.len() {
                        assert(later[i] == rest[i + 1]);
                    }
                } else if rest.len() > 1 {
                    assert(later[0] == rest[1]);
                }
            }
            assert forall|other: i64| #[trigger] after.contains(other) <==> visited.contains(other)
                || rest.contains(other) by {
                if later.contains(other) {
                    let i = choose|i: int| 0 <= i < later.len() && later[i] == other;
                    assert(rest[i + 1] == other);
                }
                if rest.contains(other) && other != id {
                    let i = choose|i: int| 0 <= i < rest.len() && rest[i] == other;
                    assert(later[i - 1] == other);
                }
                assert(rest[0] == id);
            }
            assert forall|i: int| found.len() <= i < list.len() implies !visited.contains(
                #[trigger] list[i],
            ) by {
                if i > found.len() {
                    assert(!visited.insert(id).contains(list[i]));
                }
            }
            assert forall|i: int, j: int| 0 <= i < j < rest.len() implies rest[i] != rest[j] by {
                assert(later[j - 1] == rest[j]);
                assert(list[j + found.len()] == rest[j]);
                assert(!visited.insert(id).contains(list[j + found.len()]));
                if i > 0 {
                    assert(later[i - 1] == rest[i]);
                }
            }
        },
    }
}

fn is_among(list: &Vec<i64>, id: i64) -> (found: bool)
    ensures
        found == list@.contains(id),
{
    let mut at: usize = 0;
    while at < list.len()
        invariant
            at <= list@.len(),
            forall|i: int| 0 <= i < at ==> list@[i] != id,
        decreases list@.len() - at,
    {
        if list[at] == id {
            return true;
        }
        at = at + 1;
    }
    false
}

/// Follows a chain of siblings to its end, and marks its rows as reached.
pub fn follow_siblings(
    links: &BTreeMap<i64, Link>,
    visited: &mut BTreeSet<i64>,
    first: Option<i64>,
) -> (list: Result<Vec<i64>, LinkFault>)
    ensures
        match list {
            Ok(list) => siblings_from(links@, old(visited)@, first, Seq::empty()) == Some(
                (final(visited)@, list@),
            ) && chain_fault(links@, old(visited)@, first) is None,
            Err(fault) => {
                &&& siblings_from(links@, old(visited)@, first, Seq::empty()) is None
                &&& chain_fault(links@, old(visited)@, first) is Some
                &&& fault == stopped_chain(links@, old(visited)@, first)
            },
        },
{
    let mut list: Vec<i64> = Vec::new();
    let mut next: Option<i64> = first;
    let ghost before = visited@;
    loop
        invariant
            links@.dom().finite(),
            before == old(visited)@,
            siblings_from(links@, before, first, Seq::empty()) == siblings_from(
                links@,
                visited@,
                next,
                list@,
            ),
            chain_fault(links@, before, first) == chain_fault(links@, visited@, next),
            forall|id: i64|
                #[trigger] visited@.contains(id) <==> before.contains(id) || list@.contains(id),
            forall|id: i64| #[trigger] list@.contains(id) ==> !before.contains(id),
        decreases unvisited(links@, visited@),
    {
        let id: i64 = match next {
            Some(id) => id,
            None => return Ok(list),
        };
        if visited.contains(&id) {
            return Err(
                if is_among(&list, id) {
                    LinkFault::Cyclic(id)
                } else {
                    LinkFault::Repeated(id)
                },
            );
        }
        let link: Link = match links.get(&id) {
            Some(link) => *link,
            None => return Err(LinkFault::Missing(id)),
        };
        proof {
            one_fewer(links@, visited@, id);
        }
        let ghost shorter = list@;
        visited.insert(id);
        list.push(id);
        proof {
            assert forall|other: i64| #[trigger] list@.contains(other) <==> shorter.contains(other)
                || other == id by {
                if shorter.contains(other) {
                    let i = choose|i: int| 0 <= i < shorter.len() && shorter[i] == other;
                    assert(list@[i] == other);
                }
                assert(list@[shorter.len() as int] == id);
            }
        }
        next = link.next;
    }
}

/// A tree that a walk has found.
pub struct TreeModel {
    /// The children of every row reached, in stored order.
    pub children: Map<i64, Seq<i64>>,
    /// The rows reached, in the order of the walk.
    pub order: Seq<i64>,
}

/// Rows waiting to be walked, each with its depth; the last one is next.
pub open spec fn with_children(
    stack: Seq<(i64, u64)>,
    list: Seq<i64>,
    depth: u64,
    last_first: bool,
) -> Seq<(i64, u64)> {
    stack + Seq::new(
        list.len(),
        |i: int|
            (
                if last_first {
                    list[i]
                } else {
                    list[list.len() - 1 - i]
                },
                depth,
            ),
    )
}

/// The depth below a depth.
pub open spec fn deeper(depth: u64) -> u64 {
    if depth == u64::MAX {
        u64::MAX
    } else {
        (depth + 1) as u64
    }
}

/// Where a walk ends that has the rows on `stack` before it.
pub open spec fn walk_from(
    links: Map<i64, Link>,
    depth_limit: u64,
    last_first: bool,
    stack: Seq<(i64, u64)>,
    visited: Set<i64>,
    tree: TreeModel,
) -> Result<TreeModel, FaultModel>
    decreases 2 * unvisited(links, visited) + stack.len(),
    when links.dom().finite()
    via walk_ends
{
    if stack.len() == 0 {
        Ok(tree)
    } else {
        let (id, depth) = stack.last();
        if depth > depth_limit {
            Err(FaultModel::Depth(depth))
        } else {
            match siblings_from(links, visited, links[id].first_child, Seq::empty()) {
                None => Err(
                    fault_below(stopped_chain(links, visited, links[id].first_child), id),
                ),
                Some((after, list)) => walk_from(
                    links,
                    depth_limit,
                    last_first,
                    with_children(stack.drop_last(), list, deeper(depth), last_first),
                    after,
                    TreeModel {
                        children: tree.children.insert(id, list),
                        order: tree.order.push(id),
                    },
                ),
            }
        }
    }
}

#[via_fn]
proof fn walk_ends(
    links: Map<i64, Link>,
    depth_limit: u64,
    last_first: bool,
    stack: Seq<(i64, u64)>,
    visited: Set<i64>,
    tree: TreeModel,
) {
    if stack.len() > 0 {
        let (id, depth) = stack.last();
        if siblings_from(links, visited, links[id].first_child, Seq::empty()) is Some {
            followed_chain(links, visited, links[id].first_child, Seq::empty());
        }
    }
}

/// The tree below `root`, or why there is none.
pub open spec fn tree_of(
    links: Map<i64, Link>,
    root: i64,
    depth_limit: u64,
    last_first: bool,
) -> Result<TreeModel, FaultModel> {
    walk_from(
        links,
        depth_limit,
        last_first,
        seq![(root, 0u64)],
        set![root],
        TreeModel { children: Map::empty(), order: Seq::empty() },
    )
}

/// The lists of a map.
pub open spec fn lists(map: Map<i64, Vec<i64>>) -> Map<i64, Seq<i64>> {
    map.map_values(|list: Vec<i64>| list@)
}

/// A tree that a walk has found.
pub struct Tree {
    /// The children of every row reached, in stored order.
    pub children: BTreeMap<i64, Vec<i64>>,
    /// The rows reached, in the order of the walk.
    pub order: Vec<i64>,
    /// Every row reached.
    pub visited: BTreeSet<i64>,
}

impl View for Tree {
    type V = TreeModel;

    open spec fn view(&self) -> TreeModel {
        TreeModel { children: lists(self.children@), order: self.order@ }
    }
}

/// What holds of a walk at every step: the rows reached are the ones walked and the
/// ones waiting, each once; each row walked has its stored chain of children; a row
/// is a child of one row only, once; and no child is the root.
pub open spec fn walk_in_order(
    links: Map<i64, Link>,
    root: i64,
    stack: Seq<(i64, u64)>,
    visited: Set<i64>,
    tree: TreeModel,
) -> bool {
    &&& forall|id: i64| visited.contains(id) ==> #[trigger] links.contains_key(id)
    &&& visited.contains(root)
    &&& forall|i: int| 0 <= i < stack.len() ==> visited.contains((#[trigger] stack[i]).0)
    &&& forall|i: int|
        0 <= i < stack.len() ==> !tree.children.contains_key((#[trigger] stack[i]).0)
    &&& forall|i: int, j: int|
        0 <= i < j < stack.len() ==> (#[trigger] stack[i]).0 != (#[trigger] stack[j]).0
    &&& tree.order.no_duplicates()
    &&& forall|id: i64| #[trigger] tree.order.contains(id) <==> tree.children.contains_key(id)
    &&& forall|id: i64|
        visited.contains(id) ==> #[trigger] tree.children.contains_key(id) || waits(stack, id)
    &&& forall|id: i64| #[trigger] tree.children.contains_key(id) ==> visited.contains(id)
        && is_chain(links, links[id].first_child, tree.children[id])
    &&& forall|id: i64, i: int|
        tree.children.contains_key(id) && 0 <= i < tree.children[id].len() ==> visited.contains(
            #[trigger] tree.children[id][i],
        ) && tree.children[id][i] != root
    &&& forall|id: i64, i: int, other: i64, j: int|
        tree.children.contains_key(id) && tree.children.contains_key(other) && 0 <= i
            < tree.children[id].len() && 0 <= j < tree.children[other].len()
            && #[trigger] tree.children[id][i] == #[trigger] tree.children[other][j] ==> id == other
            && i == j
    &&& forall|id: i64| #[trigger]
        visited.contains(id) && id != root ==> has_parent(tree.children, id)
}

/// Whether a row waits on a stack.
pub open spec fn waits(stack: Seq<(i64, u64)>, id: i64) -> bool {
    exists|i: int| 0 <= i < stack.len() && (#[trigger] stack[i]).0 == id
}

/// Whether a row is in one of the lists of children.
pub open spec fn has_parent(children: Map<i64, Seq<i64>>, id: i64) -> bool {
    exists|parent: i64, i: int|
        children.contains_key(parent) && 0 <= i < children[parent].len()
            && #[trigger] children[parent][i] == id
}

#[verifier::spinoff_prover]
#[verifier::rlimit(60)]
proof fn step_in_order(
    links: Map<i64, Link>,
    root: i64,
    stack: Seq<(i64, u64)>,
    visited: Set<i64>,
    tree: TreeModel,
    last_first: bool,
)
    requires
        links.dom().finite(),
        stack.len() > 0,
        walk_in_order(links, root, stack, visited, tree),
        siblings_from(links, visited, links[stack.last().0].first_child, Seq::empty()) is Some,
    ensures
        ({
            let (id, depth) = stack.last();
            let (after, list) = siblings_from(
                links,
                visited,
                links[id].first_child,
                Seq::empty(),
            )->Some_0;
            walk_in_order(
                links,
                root,
                with_children(stack.drop_last(), list, deeper(depth), last_first),
                after,
                TreeModel {
                    children: tree.children.insert(id, list),
                    order: tree.order.push(id),
                },
            )
        }),
{
    let (id, depth) = stack.last();
    let none = Seq::<i64>::empty();
    let (after, list) = siblings_from(links, visited, links[id].first_child, none)->Some_0;
    followed_chain(links, visited, links[id].first_child, none);
    assert(list.skip(0) =~= list);
    let later = with_children(stack.drop_last(), list, deeper(depth), last_first);
    let next = TreeModel {
        children: tree.children.insert(id, list),
        order: tree.order.push(id),
    };
    let base = stack.len() - 1;
    assert(stack[base].0 == id);
    assert forall|i: int| base <= i < later.len() implies (#[trigger] later[i]).0 == list[if last_first {
        i - base
    } else {
        list.len() - 1 - (i - base)
    }] && !visited.contains(later[i].0) by {}
    assert forall|i: int| 0 <= i < base implies (#[trigger] later[i]) == stack[i] by {}
    assert forall|other: i64| after.contains(other) implies #[trigger] links.contains_key(other) by {
        if list.contains(other) {
            let i = choose|i: int| 0 <= i < list.len() && list[i] == other;
            assert(leads_on(links, list, i));
        }
    }
    assert forall|other: i64| #[trigger] next.order.contains(other) <==> next.children.contains_key(
        other,
    ) by {
        if tree.order.contains(other) {
            let i = choose|i: int| 0 <= i < tree.order.len() && tree.order[i] == other;
            assert(next.order[i] == other);
        }
        assert(next.order[tree.order.len() as int] == id);
        if next.order.contains(other) && other != id {
            let i = choose|i: int| 0 <= i < next.order.len() && next.order[i] == other;
            assert(tree.order[i] == other);
        }
    }
    assert(next.order.no_duplicates()) by {
        assert(!tree.order.contains(id));
    }
    assert forall|other: i64| after.contains(other) implies #[trigger] next.children.contains_key(
        other,
    ) || waits(later, other) by {
        if list.contains(other) {
            let i = choose|i: int| 0 <= i < list.len() && list[i] == other;
            let at = base + if last_first {
                i
            } else {
                list.len() - 1 - i
            };
            assert(later[at].0 == other);
        } else if !tree.children.contains_key(other) && other != id {
            assert(waits(stack, other));
            let i = choose|i: int| 0 <= i < stack.len() && (#[trigger] stack[i]).0 == other;
            assert(later[i].0 == other);
        }
    }
    assert forall|other: i64| #[trigger]
        after.contains(other) && other != root implies has_parent(next.children, other) by {
        if visited.contains(other) {
            assert(has_parent(tree.children, other));
            let (parent, i) = choose|parent: i64, i: int|
                tree.children.contains_key(parent) && 0 <= i < tree.children[parent].len()
                    && #[trigger] tree.children[parent][i] == other;
            assert(parent != id);
            assert(next.children[parent][i] == other);
        } else {
            let i = choose|i: int| 0 <= i < list.len() && list[i] == other;
            assert(next.children[id][i] == other);
        }
    }
    assert forall|p: i64, i: int|
        next.children.contains_key(p) && 0 <= i < next.children[p].len() implies after.contains(
        #[trigger] next.children[p][i],
    ) && next.children[p][i] != root by {
        if p == id {
            assert(list.contains(list[i]));
        } else {
            assert(tree.children[p][i] == next.children[p][i]);
        }
    }
    assert forall|p: i64, i: int, q: i64, j: int|
        next.children.contains_key(p) && next.children.contains_key(q) && 0 <= i
            < next.children[p].len() && 0 <= j < next.children[q].len()
            && #[trigger] next.children[p][i] == #[trigger] next.children[q][j] implies p == q && i
        == j by {
        if p != id {
            assert(visited.contains(tree.children[p][i]));
        }
        if q != id {
            assert(visited.contains(tree.children[q][j]));
        }
    }
    assert forall|i: int, j: int| 0 <= i < j < later.len() implies (#[trigger] later[i]).0 != (
    #[trigger] later[j]).0 by {
        if j < base {
            assert(later[j] == stack[j]);
        }
        if i < base {
            assert(later[i] == stack[i]);
            assert(visited.contains(stack[i].0));
        }
    }
    assert forall|i: int| 0 <= i < later.len() implies after.contains((#[trigger] later[i]).0)
        && !next.children.contains_key(later[i].0) by {
        if i < base {
            assert(later[i] == stack[i]);
            assert(visited.contains(stack[i].0));
        } else {
            let k = if last_first {
                i - base
            } else {
                list.len() - 1 - (i - base)
            };
            assert(list.contains(list[k]));
        }
    }
}

proof fn walk_keeps_order(
    links: Map<i64, Link>,
    root: i64,
    depth_limit: u64,
    last_first: bool,
    stack: Seq<(i64, u64)>,
    visited: Set<i64>,
    tree: TreeModel,
) -> (last: Set<i64>)
    requires
        links.dom().finite(),
        walk_in_order(links, root, stack, visited, tree),
        walk_from(links, depth_limit, last_first, stack, visited, tree) is Ok,
    ensures
        walk_in_order(
            links,
            root,
            Seq::empty(),
            last,
            walk_from(links, depth_limit, last_first, stack, visited, tree)->Ok_0,
        ),
    decreases 2 * unvisited(links, visited) + stack.len(),
{
    if stack.len() == 0 {
        assert(stack =~= Seq::empty());
        visited
    } else {
        let (id, depth) = stack.last();
        step_in_order(links, root, stack, visited, tree, last_first);
        followed_chain(links, visited, links[id].first_child, Seq::empty());
        let (after, list) = siblings_from(
            links,
            visited,
            links[id].first_child,
            Seq::empty(),
        )->Some_0;
        walk_keeps_order(
            links,
            root,
            depth_limit,
            last_first,
            with_children(stack.drop_last(), list, deeper(depth), last_first),
            after,
            TreeModel { children: tree.children.insert(id, list), order: tree.order.push(id) },
        )
    }
}

/// Whether a tree has the shape of a tree: every row that it reaches is there once
/// and is walked once; the children of a row are its stored chain of children; every
/// row but the root is a child of exactly one row, once; and the root is no child.
pub open spec fn is_tree(links: Map<i64, Link>, root: i64, tree: TreeModel) -> bool {
    &&& tree.children.contains_key(root)
    &&& tree.order.no_duplicates()
    &&& forall|id: i64| #[trigger] tree.order.contains(id) <==> tree.children.contains_key(id)
    &&& forall|id: i64| #[trigger]
        tree.children.contains_key(id) ==> links.contains_key(id) && is_chain(
            links,
            links[id].first_child,
            tree.children[id],
        )
    &&& forall|id: i64, i: int|
        tree.children.contains_key(id) && 0 <= i < tree.children[id].len()
            ==> tree.children.contains_key(#[trigger] tree.children[id][i])
            && tree.children[id][i] != root
    &&& forall|id: i64, i: int, other: i64, j: int|
        tree.children.contains_key(id) && tree.children.contains_key(other) && 0 <= i
            < tree.children[id].len() && 0 <= j < tree.children[other].len()
            && #[trigger] tree.children[id][i] == #[trigger] tree.children[other][j] ==> id == other
            && i == j
    &&& forall|id: i64| #[trigger]
        tree.children.contains_key(id) && id != root ==> has_parent(tree.children, id)
}

/// A walk that succeeds has found a tree.
pub proof fn walked_tree_is_a_tree(
    links: Map<i64, Link>,
    root: i64,
    depth_limit: u64,
    last_first: bool,
)
    requires
        links.dom().finite(),
        links.contains_key(root),
        tree_of(links, root, depth_limit, last_first) is Ok,
    ensures
        is_tree(links, root, tree_of(links, root, depth_limit, last_first)->Ok_0),
{
    let stack = seq![(root, 0u64)];
    assert(stack[0].0 == root);
    let last = walk_keeps_order(
        links,
        root,
        depth_limit,
        last_first,
        stack,
        set![root],
        TreeModel { children: Map::empty(), order: Seq::empty() },
    );
    let tree = tree_of(links, root, depth_limit, last_first)->Ok_0;
    assert forall|id: i64| last.contains(id) implies #[trigger] tree.children.contains_key(id) by {
        assert(!waits(Seq::<(i64, u64)>::empty(), id));
    }
}

/// Whether `order` lists the trees below `roots` in depth-first preorder: the first root comes
/// first, directly followed by the whole subtrees of its children in order, and then the trees
/// below the other roots.
pub open spec fn in_preorder(children: Map<i64, Seq<i64>>, roots: Seq<i64>, order: Seq<i64>) -> bool
    decreases order.len(),
{
    if roots.len() == 0 {
        order.len() == 0
    } else {
        &&& order.len() > 0
        &&& order[0] == roots[0]
        &&& children.contains_key(roots[0])
        &&& exists|end: int|
            1 <= end <= order.len() && in_preorder(
                children,
                children[roots[0]],
                order.subrange(1, end),
            ) && in_preorder(children, roots.skip(1), #[trigger] order.skip(end))
    }
}

proof fn preorder_splits(
    children: Map<i64, Seq<i64>>,
    first: Seq<i64>,
    second: Seq<i64>,
    order: Seq<i64>,
) -> (middle: int)
    requires
        in_preorder(children, first + second, order),
    ensures
        0 <= middle <= order.len(),
        in_preorder(children, first, order.take(middle)),
        in_preorder(children, second, order.skip(middle)),
    decreases first.len(),
{
    if first.len() == 0 {
        assert(first + second =~= second);
        assert(order.skip(0) =~= order);
        assert(order.take(0).len() == 0);
        0
    } else {
        let roots = first + second;
        let end = choose|end: int|
            1 <= end <= order.len() && in_preorder(
                children,
                children[roots[0]],
                order.subrange(1, end),
            ) && in_preorder(children, roots.skip(1), #[trigger] order.skip(end));
        assert(roots.skip(1) =~= first.skip(1) + second);
        let more = preorder_splits(children, first.skip(1), second, order.skip(end));
        let middle = end + more;
        let taken = order.take(middle);
        assert(taken.subrange(1, end) =~= order.subrange(1, end));
        assert(taken.skip(end) =~= order.skip(end).take(more));
        assert(order.skip(middle) =~= order.skip(end).skip(more));
        assert(in_preorder(children, first, taken));
        middle
    }
}

/// The rows that wait on a stack, the one that is next first.
pub open spec fn waiting_rows(stack: Seq<(i64, u64)>) -> Seq<i64> {
    Seq::new(stack.len(), |i: int| stack[stack.len() - 1 - i].0)
}

#[verifier::spinoff_prover]
#[verifier::rlimit(40)]
proof fn walk_goes_on_in_preorder(
    links: Map<i64, Link>,
    root: i64,
    depth_limit: u64,
    stack: Seq<(i64, u64)>,
    visited: Set<i64>,
    tree: TreeModel,
)
    requires
        links.dom().finite(),
        walk_in_order(links, root, stack, visited, tree),
        walk_from(links, depth_limit, false, stack, visited, tree) is Ok,
    ensures
        ({
            let last = walk_from(links, depth_limit, false, stack, visited, tree)->Ok_0;
            &&& tree.order.len() <= last.order.len()
            &&& last.order.take(tree.order.len() as int) == tree.order
            &&& forall|id: i64| #[trigger]
                tree.children.contains_key(id) ==> last.children.contains_key(id)
                    && last.children[id] == tree.children[id]
            &&& in_preorder(
                last.children,
                waiting_rows(stack),
                last.order.skip(tree.order.len() as int),
            )
        }),
    decreases 2 * unvisited(links, visited) + stack.len(),
{
    let last = walk_from(links, depth_limit, false, stack, visited, tree)->Ok_0;
    if stack.len() == 0 {
        assert(last.order.take(tree.order.len() as int) =~= tree.order);
    } else {
        let (id, depth) = stack.last();
        step_in_order(links, root, stack, visited, tree, false);
        followed_chain(links, visited, links[id].first_child, Seq::empty());
        let (after, list) = siblings_from(
            links,
            visited,
            links[id].first_child,
            Seq::empty(),
        )->Some_0;
        let later = with_children(stack.drop_last(), list, deeper(depth), false);
        let next = TreeModel {
            children: tree.children.insert(id, list),
            order: tree.order.push(id),
        };
        walk_goes_on_in_preorder(links, root, depth_limit, later, after, next);
        let done = tree.order.len() as int;
        let rest = last.order.skip(done);
        let below = last.order.skip(done + 1);
        let others = waiting_rows(stack.drop_last());
        assert(waiting_rows(later) =~= list + others);
        let middle = preorder_splits(last.children, list, others, below);
        assert(next.order == last.order.take(done + 1));
        assert(last.order.take(done) =~= tree.order) by {
            assert(next.order.take(done) =~= tree.order);
            assert(last.order.take(done) =~= last.order.take(done + 1).take(done));
        }
        assert(rest[0] == next.order[done]);
        assert(next.children.contains_key(id));
        assert(last.children[id] == list);
        assert forall|other: i64| #[trigger] tree.children.contains_key(other) implies
            last.children.contains_key(other) && last.children[other] == tree.children[other] by {
            assert(stack[stack.len() - 1].0 == id);
            assert(other != id);
            assert(next.children.contains_key(other));
        }
        assert(rest.subrange(1, middle + 1) =~= below.take(middle));
        assert(rest.skip(middle + 1) =~= below.skip(middle));
        let roots = waiting_rows(stack);
        assert(roots.skip(1) =~= others);
        assert(roots[0] == id);
        assert(in_preorder(last.children, roots, rest));
    }
}

/// A walk that takes the first child first lists the rows in depth-first preorder: the root
/// first, and each row directly followed by the whole subtrees of its children in order.
pub proof fn walked_rows_are_in_preorder(links: Map<i64, Link>, root: i64, depth_limit: u64)
    requires
        links.dom().finite(),
        links.contains_key(root),
        tree_of(links, root, depth_limit, false) is Ok,
    ensures
        ({
            let tree = tree_of(links, root, depth_limit, false)->Ok_0;
            in_preorder(tree.children, seq![root], tree.order)
        }),
{
    let stack = seq![(root, 0u64)];
    assert(stack[0].0 == root);
    let start = TreeModel { children: Map::<i64, Seq<i64>>::empty(), order: Seq::<i64>::empty() };
    walk_goes_on_in_preorder(links, root, depth_limit, stack, set![root], start);
    let tree = tree_of(links, root, depth_limit, false)->Ok_0;
    assert(waiting_rows(stack) =~= seq![root]);
    assert(tree.order.skip(0) =~= tree.order);
}

/// Walks the tree below `root`. A fault comes with the row below which it was found.
pub fn walk_tree(
    links: &BTreeMap<i64, Link>,
    root: i64,
    depth_limit: u64,
    last_first: bool,
) -> (tree: Result<Tree, (LinkFault, i64)>)
    requires
        links@.contains_key(root),
    ensures
        match tree {
            Ok(tree) => tree_of(links@, root, depth_limit, last_first) == Ok::<
                TreeModel,
                FaultModel,
            >(tree@) && tree.visited@ == tree@.children.dom(),
            Err(fault) => tree_of(links@, root, depth_limit, last_first) == Err::<
                TreeModel,
                FaultModel,
            >(fault_below(fault.0, fault.1)),
        },
{
    let mut visited: BTreeSet<i64> = BTreeSet::new();
    visited.insert(root);
    let mut children: BTreeMap<i64, Vec<i64>> = BTreeMap::new();
    let mut order: Vec<i64> = Vec::new();
    let mut stack: Vec<(i64, u64)> = Vec::new();
    stack.push((root, 0));
    proof {
        assert(visited@ =~= set![root]);
        assert(stack@ =~= seq![(root, 0u64)]);
        assert(stack@[0].0 == root);
        assert(lists(children@) =~= Map::<i64, Seq<i64>>::empty());
    }
    while stack.len() > 0
        invariant
            links@.dom().finite(),
            tree_of(links@, root, depth_limit, last_first) == walk_from(
                links@,
                depth_limit,
                last_first,
                stack@,
                visited@,
                TreeModel { children: lists(children@), order: order@ },
            ),
            walk_in_order(
                links@,
                root,
                stack@,
                visited@,
                TreeModel { children: lists(children@), order: order@ },
            ),
        decreases 2 * unvisited(links@, visited@) + stack@.len(),
    {
        let ghost waiting = stack@;
        let ghost before = visited@;
        let ghost tree = TreeModel { children: lists(children@), order: order@ };
        let (id, depth) = stack[stack.len() - 1];
        stack.pop();
        if depth > depth_limit {
            return Err((LinkFault::Depth(depth), id));
        }
        assert(before.contains(waiting[waiting.len() - 1].0));
        assert(links@.contains_key(id));
        let first: Option<i64> = match links.get(&id) {
            Some(link) => link.first_child,
            None => None,
        };
        let list = match follow_siblings(links, &mut visited, first) {
            Ok(list) => list,
            Err(fault) => return Err((fault, id)),
        };
        proof {
            step_in_order(links@, root, waiting, before, tree, last_first);
            followed_chain(links@, before, first, Seq::empty());
        }
        let below: u64 = depth.saturating_add(1);
        let ghost rest = stack@;
        let mut next: usize = 0;
        while next < list.len()
            invariant
                next <= list@.len(),
                stack@.len() == rest.len() + next,
                forall|i: int| 0 <= i < rest.len() ==> #[trigger] stack@[i] == rest[i],
                forall|i: int|
                    rest.len() <= i < stack@.len() ==> #[trigger] stack@[i] == (
                        if last_first {
                            list@[i - rest.len()]
                        } else {
                            list@[list@.len() - 1 - (i - rest.len())]
                        },
                        below,
                    ),
            decreases list@.len() - next,
        {
            if last_first {
                stack.push((list[next], below));
            } else {
                stack.push((list[list.len() - 1 - next], below));
            }
            next = next + 1;
        }
        assert(stack@ =~= with_children(rest, list@, below, last_first));
        let ghost lists_before = lists(children@);
        children.insert(id, list);
        order.push(id);
        assert(lists(children@) =~= lists_before.insert(id, list@));
    }
    let found = Tree { children, order, visited };
    proof {
        assert(stack@ =~= Seq::empty());
        assert forall|id: i64| found.visited@.contains(id) <==> found@.children.dom().contains(id) by {
            assert(!waits(Seq::<(i64, u64)>::empty(), id));
            assert(visited@.contains(id) ==> found@.children.contains_key(id) || waits(stack@, id));
        }
        assert(found.visited@ =~= found@.children.dom());
    }
    Ok(found)
}

/// A list in increasing order with one more number, where it is not there yet.
pub open spec fn placed(list: Seq<i64>, value: i64) -> Seq<i64>
    decreases list.len(),
{
    if list.len() == 0 || list.last() < value {
        list.push(value)
    } else if list.last() == value {
        list
    } else {
        placed(list.drop_last(), value).push(list.last())
    }
}

/// Whether numbers stand in increasing order, none twice.
pub open spec fn increasing(list: Seq<i64>) -> bool {
    forall|i: int, j: int| 0 <= i < j < list.len() ==> list[i] < list[j]
}

/// Placing a number keeps a list in increasing order, and adds just that number.
pub proof fn placed_in_order(list: Seq<i64>, value: i64)
    requires
        increasing(list),
    ensures
        increasing(placed(list, value)),
        forall|other: i64| #[trigger] placed(list, value).contains(other) <==> other == value
            || list.contains(other),
    decreases list.len(),
{
    let result = placed(list, value);
    if list.len() == 0 || list.last() < value {
        assert(result[list.len() as int] == value);
        assert forall|other: i64| #[trigger] result.contains(other) <==> other == value
            || list.contains(other) by {
            if list.contains(other) {
                let i = choose|i: int| 0 <= i < list.len() && list[i] == other;
                assert(result[i] == other);
            }
        }
    } else if list.last() != value {
        let front = list.drop_last();
        placed_in_order(front, value);
        let inner = placed(front, value);
        assert(result.last() == list.last());
        assert forall|i: int, j: int| 0 <= i < j < result.len() implies result[i] < result[j] by {
            assert(inner.contains(inner[i]));
            if inner[i] != value {
                let k = choose|k: int| 0 <= k < front.len() && front[k] == inner[i];
                assert(list[k] == inner[i]);
            }
        }
        assert forall|other: i64| #[trigger] result.contains(other) <==> other == value
            || list.contains(other) by {
            if result.contains(other) {
                let i = choose|i: int| 0 <= i < result.len() && result[i] == other;
                if i < inner.len() {
                    assert(inner.contains(inner[i]));
                    if other != value {
                        let k = choose|k: int| 0 <= k < front.len() && front[k] == other;
                        assert(list[k] == other);
                    }
                } else {
                    assert(list[list.len() - 1] == other);
                }
            }
            if list.contains(other) {
                let k = choose|k: int| 0 <= k < list.len() && list[k] == other;
                if k < front.len() {
                    assert(front[k] == other);
                    assert(inner.contains(other));
                    let i = choose|i: int| 0 <= i < inner.len() && inner[i] == other;
                    assert(result[i] == other);
                } else {
                    assert(result[result.len() - 1] == other);
                }
            }
            if other == value {
                assert(inner.contains(other));
                let i = choose|i: int| 0 <= i < inner.len() && inner[i] == other;
                assert(result[i] == other);
            }
        }
    }
}

/// Places a number in a list in increasing order.
pub fn place(list: &mut Vec<i64>, value: i64)
    ensures
        final(list)@ == placed(old(list)@, value),
{
    let mut at: usize = list.len();
    let ghost whole = list@;
    assert(whole.take(at as int) =~= whole);
    assert(placed(whole, value) =~= placed(whole.take(at as int), value) + whole.skip(at as int));
    while at > 0 && list[at - 1] > value
        invariant
            at <= list@.len(),
            list@ == whole,
            placed(whole, value) == placed(whole.take(at as int), value) + whole.skip(at as int),
        decreases at,
    {
        let ghost front = whole.take(at as int);
        assert(front.drop_last() =~= whole.take(at - 1));
        assert(placed(front, value) == placed(whole.take(at - 1), value).push(whole[at - 1]));
        assert(placed(whole.take(at - 1), value).push(whole[at - 1]) + whole.skip(at as int)
            =~= placed(whole.take(at - 1), value) + whole.skip(at - 1));
        at = at - 1;
    }
    let ghost front = whole.take(at as int);
    if at > 0 && list[at - 1] == value {
        assert(front + whole.skip(at as int) =~= whole);
        return ;
    }
    list.insert(at, value);
    assert(list@ =~= front.push(value) + whole.skip(at as int));
}

} // verus!
