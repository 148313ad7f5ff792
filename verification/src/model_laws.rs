//! How the trees of a document follow from its layers.

use vstd::prelude::*;

use crate::links;
use crate::model;
use crate::model::{Canvas, LayerModel};

verus! {

/// Whether the children of a layer are those that its links lead to: the first one by its own
/// link, each other one by the link of the sibling before, until a link leads nowhere. All of
/// them are layers of the canvas.
pub open spec fn children_are_linked(
    layers: Seq<LayerModel>,
    canvas_id: i64,
    layer: LayerModel,
    children: Seq<i64>,
) -> bool {
    &&& layer.first_child_id == if children.len() == 0 {
        None
    } else {
        Some(children[0])
    }
    &&& forall|i: int|
        0 <= i < children.len() ==> exists|k: int|
            {
                &&& 0 <= k < layers.len()
                &&& (#[trigger] layers[k]).id == #[trigger] children[i]
                &&& layers[k].canvas_id == canvas_id
                &&& layers[k].next_sibling_id == if i + 1 < children.len() {
                    Some(children[i + 1])
                } else {
                    None
                }
            }
}

proof fn link_of_layer(layers: Seq<LayerModel>, canvas_id: i64, count: int, at: int)
    requires
        model::unique_layers(layers),
        0 <= at < count <= layers.len(),
        layers[at].canvas_id == canvas_id,
    ensures
        ({
            let links = model::canvas_links(layers, canvas_id, count);
            &&& links.contains_key(layers[at].id)
            &&& links[layers[at].id].next == layers[at].next_sibling_id
            &&& links[layers[at].id].first_child == layers[at].first_child_id
        }),
    decreases count,
{
    if at < count - 1 {
        link_of_layer(layers, canvas_id, count - 1, at);
        assert(layers[at].id != layers[count - 1].id);
    }
}

proof fn layer_of_link(layers: Seq<LayerModel>, canvas_id: i64, count: int, id: i64) -> (at: int)
    requires
        0 <= count <= layers.len(),
        model::canvas_links(layers, canvas_id, count).contains_key(id),
    ensures
        0 <= at < count,
        layers[at].id == id,
        layers[at].canvas_id == canvas_id,
    decreases count,
{
    if layers[count - 1].canvas_id == canvas_id && layers[count - 1].id == id {
        count - 1
    } else {
        layer_of_link(layers, canvas_id, count - 1, id)
    }
}

proof fn links_are_finite(layers: Seq<LayerModel>, canvas_id: i64, count: int)
    ensures
        model::canvas_links(layers, canvas_id, count).dom().finite(),
    decreases count,
{
    if count > 0 {
        links_are_finite(layers, canvas_id, count - 1);
    }
}

/// The tree of a canvas starts with its root layer, and each layer in it has the children that
/// the links of the layers lead to, in order.
pub proof fn tree_follows_the_links_of_layers(
    canvas: Canvas,
    layers: Seq<LayerModel>,
    depth_limit: u64,
)
    requires
        model::unique_layers(layers),
        model::layer_tree_of(canvas, layers, depth_limit) is Ok,
    ensures
        ({
            let tree = model::layer_tree_of(canvas, layers, depth_limit)->Ok_0;
            &&& tree.canvas_id == canvas.id
            &&& tree.root_layer_id == canvas.root_layer_id
            &&& tree.children.contains_key(canvas.root_layer_id)
            &&& forall|i: int|
                0 <= i < layers.len() && tree.children.contains_key((#[trigger] layers[i]).id)
                    ==> layers[i].canvas_id == canvas.id && children_are_linked(
                    layers,
                    canvas.id,
                    layers[i],
                    tree.children[layers[i].id],
                )
            &&& forall|id: i64, i: int|
                tree.children.contains_key(id) && 0 <= i < tree.children[id].len()
                    ==> tree.children.contains_key(#[trigger] tree.children[id][i])
        }),
{
    let count = layers.len() as int;
    let map = model::canvas_links(layers, canvas.id, count);
    let tree = model::layer_tree_of(canvas, layers, depth_limit)->Ok_0;
    links_are_finite(layers, canvas.id, count);
    links::walked_tree_is_a_tree(map, canvas.root_layer_id, depth_limit, true);
    assert forall|i: int|
        0 <= i < layers.len() && tree.children.contains_key(
            (#[trigger] layers[i]).id,
        ) implies layers[i].canvas_id == canvas.id && children_are_linked(
        layers,
        canvas.id,
        layers[i],
        tree.children[layers[i].id],
    ) by {
        let id = layers[i].id;
        let list = tree.children[id];
        let at = layer_of_link(layers, canvas.id, count, id);
        if i < at {
            assert(layers[i].id != layers[at].id);
        } else if at < i {
            assert(layers[at].id != layers[i].id);
        }
        link_of_layer(layers, canvas.id, count, at);
        assert(links::is_chain(map, map[id].first_child, list));
        assert forall|j: int| 0 <= j < list.len() implies exists|k: int|
            {
                &&& 0 <= k < layers.len()
                &&& (#[trigger] layers[k]).id == #[trigger] list[j]
                &&& layers[k].canvas_id == canvas.id
                &&& layers[k].next_sibling_id == if j + 1 < list.len() {
                    Some(list[j + 1])
                } else {
                    None
                }
            } by {
            assert(links::leads_on(map, list, j));
            let k = layer_of_link(layers, canvas.id, count, list[j]);
            link_of_layer(layers, canvas.id, count, k);
            assert(layers[k].id == list[j]);
        }
    }
}

} // verus!
