//! What a page-management file tells of its pages.

use vstd::prelude::*;

use crate::cmc;
use crate::cmc::CmcNode;
use crate::error;

verus! {

/// The pages are just the nodes with a stored link, in the order of the nodes.
pub proof fn pages_are_the_nodes_with_a_link(nodes: Seq<CmcNode>, count: int)
    requires
        0 <= count <= nodes.len(),
    ensures
        cmc::linked_among(nodes, count) == nodes.take(count).filter(
            |node: CmcNode| node.raw_link_path is Some,
        ),
    decreases count,
{
    reveal(Seq::filter);
    let linked = |node: CmcNode| node.raw_link_path is Some;
    if count > 0 {
        pages_are_the_nodes_with_a_link(nodes, count - 1);
        assert(nodes.take(count).drop_last() =~= nodes.take(count - 1));
        assert(nodes.take(count).last() == nodes[count - 1]);
    } else {
        assert(nodes.take(0).len() == 0);
    }
}

/// The page of a node is the one that the node with this ID has, and there is none for an ID
/// that no node has.
pub proof fn page_is_that_of_the_node(nodes: Seq<CmcNode>, id: i64)
    requires
        cmc::unique_nodes(error::views(nodes)),
    ensures
        forall|i: int|
            0 <= i < nodes.len() && (#[trigger] nodes[i]).id == id ==> cmc::page_of_node(nodes, id)
                == error::optional_text(nodes[i].page_file_name),
        (forall|i: int| 0 <= i < nodes.len() ==> (#[trigger] nodes[i]).id != id)
            ==> cmc::page_of_node(nodes, id) is None,
{
    assert forall|i: int| 0 <= i < nodes.len() && (#[trigger] nodes[i]).id == id implies
        cmc::page_of_node(nodes, id) == error::optional_text(nodes[i].page_file_name) by {
        cmc::every_node_is_found_by_its_id(nodes, i);
    }
    if forall|i: int| 0 <= i < nodes.len() ==> (#[trigger] nodes[i]).id != id {
        no_node_is_found(nodes, id, 0);
    }
}

proof fn no_node_is_found(nodes: Seq<CmcNode>, id: i64, at: int)
    requires
        0 <= at <= nodes.len(),
        forall|i: int| 0 <= i < nodes.len() ==> (#[trigger] nodes[i]).id != id,
    ensures
        cmc::first_with_id(nodes, id, at) == nodes.len(),
    decreases nodes.len() - at,
{
    if at < nodes.len() {
        no_node_is_found(nodes, id, at + 1);
    }
}

/// A name that stays in its directory is read from its link, and from no link of another form.
pub proof fn plain_link_gives_its_name(name: Seq<char>)
    requires
        name.len() > 0,
        name != seq!['.'],
        name != seq!['.', '.'],
        !name.contains('/'),
        !name.contains('\\'),
        !name.contains(':'),
        !name.contains('\0'),
    ensures
        cmc::page_name(seq!['.', ':'] + name) == Some(name),
        cmc::page_name(name) is None,
{
    let link = seq!['.', ':'] + name;
    assert(link.skip(2) =~= name);
    assert forall|i: int| 0 <= i < name.len() implies !cmc::unsafe_character(
        #[trigger] name[i],
    ) by {
        assert(name.contains(name[i]));
    }
    if name.len() > 2 {
        assert(name.contains(name[1]));
    }
}

} // verus!
