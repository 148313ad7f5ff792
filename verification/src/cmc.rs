//! Standalone `.cmc` page-management files.

use std::collections::{BTreeMap, BTreeSet};
use std::path::PathBuf;

use rusqlite::Connection;
use vstd::prelude::*;

use crate::columns;
use crate::database;
use crate::database::Database;
use crate::error;
use crate::error::{Error, Failure};
use crate::limits::Limits;
use crate::links;
use crate::links::{walk_tree, Link};
use crate::message;
use crate::message::Message;
use crate::sql;
use crate::sql::{open_serialized, query_all, FromRow, Reply, SqlModel, SqlRow};
use crate::text_codec::{characters, text_of};

verus! {

/// A path in the file system.
#[verifier::external_type_specification]
#[verifier::external_body]
pub struct ExPathBuf(std::path::PathBuf);

/// Whether a path was said to lie in a directory. How the machine writes paths decides
/// that, so two machines may differ.
pub uninterp spec fn may_lie_in(path: PathBuf, directory: Option<PathBuf>) -> bool;

/// Whether a path was said to lead to a file of a directory. How the machine writes paths
/// decides that, so two machines may differ.
pub uninterp spec fn may_lead_to(directory: PathBuf, file_name: Seq<char>, path: PathBuf) -> bool;

/// The directory that a path lies in, by `std::path::Path::parent`. The contract says no
/// more than that it was said to be the directory of that path.
#[verifier::external_body]
fn parent_directory(path: &PathBuf) -> (directory: Option<PathBuf>)
    ensures
        may_lie_in(*path, directory),
{
    path.parent().map(|directory| directory.to_path_buf())
}

/// A file of a directory, by `std::path::Path::join`. The contract says no more than that
/// it was said to be the path of that file in that directory.
#[verifier::external_body]
fn joined(directory: &PathBuf, file_name: &str) -> (path: PathBuf)
    ensures
        may_lead_to(*directory, file_name@, path),
{
    directory.join(file_name)
}

fn cmc_error(reason: Message) -> (error: Error)
    ensures
        error@ == (Failure::InvalidCmc { reason: reason@ }),
{
    Error::InvalidCmc { reason: reason.build() }
}

/// One node in a standalone CLIP STUDIO `.cmc` page-management file.
#[derive(Clone, Debug, PartialEq, Eq)]
pub struct CmcNode {
    pub id: i64,
    pub kind: i64,
    pub next_id: Option<i64>,
    pub first_child_id: Option<i64>,
    pub selected_id: Option<i64>,
    pub canvas_index: i64,
    pub page_flags: i64,
    pub raw_link_path: Option<String>,
    pub page_file_name: Option<String>,
}

/// The model of a [`CmcNode`].
#[verifier::ext_equal]
pub struct CmcNodeModel {
    pub id: i64,
    pub kind: i64,
    pub next_id: Option<i64>,
    pub first_child_id: Option<i64>,
    pub selected_id: Option<i64>,
    pub canvas_index: i64,
    pub page_flags: i64,
    pub raw_link_path: Option<Seq<char>>,
    pub page_file_name: Option<Seq<char>>,
}

impl View for CmcNode {
    type V = CmcNodeModel;

    open spec fn view(&self) -> CmcNodeModel {
        CmcNodeModel {
            id: self.id,
            kind: self.kind,
            next_id: self.next_id,
            first_child_id: self.first_child_id,
            selected_id: self.selected_id,
            canvas_index: self.canvas_index,
            page_flags: self.page_flags,
            raw_link_path: error::optional_text(self.raw_link_path),
            page_file_name: error::optional_text(self.page_file_name),
        }
    }
}

impl CmcNode {
    /// Positive `CanvasNode.MainId`.
    #[must_use]
    pub fn id(&self) -> (value: i64)
        ensures
            value == self.id,
    {
        self.id
    }

    /// Opaque `CanvasNode.Type` value.
    #[must_use]
    pub fn kind(&self) -> (value: i64)
        ensures
            value == self.kind,
    {
        self.kind
    }

    /// Next node in the stored sibling chain.
    #[must_use]
    pub fn next_id(&self) -> (value: Option<i64>)
        ensures
            value == self.next_id,
    {
        self.next_id
    }

    /// First child in the stored child chain.
    #[must_use]
    pub fn first_child_id(&self) -> (value: Option<i64>)
        ensures
            value == self.first_child_id,
    {
        self.first_child_id
    }

    /// Selected child/node reference, when present.
    #[must_use]
    pub fn selected_id(&self) -> (value: Option<i64>)
        ensures
            value == self.selected_id,
    {
        self.selected_id
    }

    /// Opaque `CanvasNode.CanvasIndex` value.
    #[must_use]
    pub fn canvas_index(&self) -> (value: i64)
        ensures
            value == self.canvas_index,
    {
        self.canvas_index
    }

    /// Opaque `CanvasNode.PageFlag` value.
    #[must_use]
    pub fn page_flags(&self) -> (value: i64)
        ensures
            value == self.page_flags,
    {
        self.page_flags
    }

    /// Original `CanvasNode.LinkPath` text.
    #[must_use]
    pub fn raw_link_path(&self) -> (text: Option<&str>)
        ensures
            text is Some == self.raw_link_path is Some,
            text matches Some(text) ==> text@ == self.raw_link_path.unwrap()@,
    {
        match &self.raw_link_path {
            Some(text) => Some(text.as_str()),
            None => None,
        }
    }

    /// Traversal-safe page file name decoded from the observed `.:name` form.
    ///
    /// Unknown, absolute, nested, or parent-traversing link forms return
    /// `None`; the original value remains available through
    /// [`Self::raw_link_path`].
    #[must_use]
    pub fn page_file_name(&self) -> (text: Option<&str>)
        ensures
            text is Some == self.page_file_name is Some,
            text matches Some(text) ==> text@ == self.page_file_name.unwrap()@,
    {
        match &self.page_file_name {
            Some(text) => Some(text.as_str()),
            None => None,
        }
    }

    fn duplicate(&self) -> (copy: CmcNode)
        ensures
            copy@ == self@,
    {
        CmcNode {
            id: self.id,
            kind: self.kind,
            next_id: self.next_id,
            first_child_id: self.first_child_id,
            selected_id: self.selected_id,
            canvas_index: self.canvas_index,
            page_flags: self.page_flags,
            raw_link_path: match &self.raw_link_path {
                Some(text) => Some(text.clone()),
                None => None,
            },
            page_file_name: match &self.page_file_name {
                Some(text) => Some(text.clone()),
                None => None,
            },
        }
    }
}

/// Whether a file name can lead out of a directory or hide a path.
pub open spec fn unsafe_character(character: char) -> bool {
    character == '/' || character == '\\' || character == ':' || character == '\0'
}

/// The file name in a link of the form `.:name`, when it names one file of the same
/// directory.
pub open spec fn page_name(link: Seq<char>) -> Option<Seq<char>> {
    let name = link.skip(2);
    if link.len() > 2 && link[0] == '.' && link[1] == ':' && name != seq!['.'] && name != seq![
        '.',
        '.',
    ] && forall|i: int| 0 <= i < name.len() ==> !unsafe_character(#[trigger] name[i]) {
        Some(name)
    } else {
        None
    }
}

/// The file name in a link of the form `.:name`.
pub fn observed_page_file_name(link: &str) -> (name: Option<String>)
    ensures
        error::optional_text(name) == page_name(link@),
{
    let list = characters(link);
    let length: usize = list.len();
    if length <= 2 || list[0] != '.' || list[1] != ':' {
        return None;
    }
    let ghost name = link@.skip(2);
    assert forall|i: int| 0 <= i < name.len() implies name[i] == list@[i + 2] by {}
    if length == 3 && list[2] == '.' {
        assert(name =~= seq!['.']);
        return None;
    }
    if length == 4 && list[2] == '.' && list[3] == '.' {
        assert(name =~= seq!['.', '.']);
        return None;
    }
    let mut at: usize = 2;
    while at < length
        invariant
            2 <= at <= length,
            length == list@.len(),
            list@ == link@,
            name == link@.skip(2),
            forall|i: int| 0 <= i < at - 2 ==> !unsafe_character(#[trigger] name[i]),
        decreases length - at,
    {
        let character: char = list[at];
        if character == '/' || character == '\\' || character == ':' || character == '\0' {
            assert(unsafe_character(name[at - 2]));
            return None;
        }
        assert(name[at - 2] == character);
        at = at + 1;
    }
    assert(name != seq!['.']) by {
        if name == seq!['.'] {
            assert(name[0] == '.');
        }
    }
    assert(name != seq!['.', '.']) by {
        if name == seq!['.', '.'] {
            assert(name[0] == '.' && name[1] == '.');
        }
    }
    assert(list@.subrange(2, length as int) =~= name);
    Some(text_of(list.as_slice(), 2, length))
}

/// A page name stays in the directory that it is joined to: it is not empty, it is
/// neither the directory nor its parent, and it holds no separator.
pub proof fn page_name_stays_in_its_directory(link: Seq<char>)
    requires
        page_name(link) is Some,
    ensures
        ({
            let name = page_name(link)->Some_0;
            &&& name.len() > 0
            &&& name != seq!['.']
            &&& name != seq!['.', '.']
            &&& !name.contains('/')
            &&& !name.contains('\\')
            &&& !name.contains(':')
            &&& link == seq!['.', ':'] + name
        }),
{
    let name = page_name(link)->Some_0;
    assert(link =~= seq!['.', ':'] + name);
    assert forall|i: int| 0 <= i < name.len() implies name[i] != '/' && name[i] != '\\' && name[i]
        != ':' by {
        assert(!unsafe_character(name[i]));
    }
}

/// A reference in which zero stands for none and nothing is negative.
pub open spec fn node_reference(value: i64, name: Seq<char>) -> Result<Option<i64>, Failure> {
    if value == 0 {
        Ok(None)
    } else if value > 0 {
        Ok(Some(value))
    } else {
        Err(
            Failure::InvalidCmc {
                reason: "CanvasNode "@ + name + " value "@ + message::decimal_signed(value as int)
                    + " is negative"@,
            },
        )
    }
}

fn optional_reference(value: i64, name: &str) -> (reference: Result<Option<i64>, Error>)
    ensures
        error::plain(reference) == node_reference(value, name@),
{
    if value == 0 {
        Ok(None)
    } else if value > 0 {
        Ok(Some(value))
    } else {
        Err(
            cmc_error(
                Message::new("CanvasNode ").text(name).text(" value ").integer(value).text(
                    " is negative",
                ),
            ),
        )
    }
}

impl FromRow for CmcNode {
    open spec fn row_model(row: Seq<SqlModel>) -> Result<CmcNodeModel, Failure> {
        match (
            sql::integer_at(row, 0),
            sql::integer_at(row, 1),
            sql::integer_at(row, 2),
            sql::integer_at(row, 3),
            sql::integer_at(row, 4),
            sql::integer_at(row, 5),
            sql::integer_at(row, 6),
            sql::optional_text_at(row, 7),
        ) {
            (
                Ok(id),
                Ok(kind),
                Ok(next),
                Ok(first_child),
                Ok(selected),
                Ok(canvas_index),
                Ok(page_flags),
                Ok(link),
            ) => match (
                node_reference(next, "NextIndex"@),
                node_reference(first_child, "FirstChildIndex"@),
                node_reference(selected, "SelectedIndex"@),
            ) {
                _ if id <= 0 => Err(
                    Failure::InvalidCmc {
                        reason: "CanvasNode MainId "@ + message::decimal_signed(id as int)
                            + " is not positive"@,
                    },
                ),
                (Ok(next_id), Ok(first_child_id), Ok(selected_id)) => Ok(
                    CmcNodeModel {
                        id,
                        kind,
                        next_id,
                        first_child_id,
                        selected_id,
                        canvas_index,
                        page_flags,
                        raw_link_path: link,
                        page_file_name: match link {
                            Some(link) => page_name(link),
                            None => None,
                        },
                    },
                ),
                (Err(failure), _, _) => Err(failure),
                (Ok(_), Err(failure), _) => Err(failure),
                (Ok(_), Ok(_), Err(failure)) => Err(failure),
            },
            _ => Err(Failure::Sqlite),
        }
    }

    fn read_row(row: &SqlRow) -> (value: Result<CmcNode, Error>) {
        let id: i64 = row.integer(0)?;
        let kind: i64 = row.integer(1)?;
        let next: i64 = row.integer(2)?;
        let first_child: i64 = row.integer(3)?;
        let selected: i64 = row.integer(4)?;
        let canvas_index: i64 = row.integer(5)?;
        let page_flags: i64 = row.integer(6)?;
        let link = row.optional_text(7)?;
        if id <= 0 {
            return Err(
                cmc_error(
                    Message::new("CanvasNode MainId ").integer(id).text(" is not positive"),
                ),
            );
        }
        Ok(
            CmcNode {
                id,
                kind,
                next_id: optional_reference(next, "NextIndex")?,
                first_child_id: optional_reference(first_child, "FirstChildIndex")?,
                selected_id: optional_reference(selected, "SelectedIndex")?,
                canvas_index,
                page_flags,
                page_file_name: match &link {
                    Some(link) => observed_page_file_name(link.as_str()),
                    None => None,
                },
                raw_link_path: link,
            },
        )
    }
}

/// The references between the first `count` nodes.
pub open spec fn node_links(nodes: Seq<CmcNodeModel>, count: int) -> Map<i64, Link>
    decreases count,
{
    if count <= 0 {
        Map::empty()
    } else {
        let node = nodes[count - 1];
        node_links(nodes, count - 1).insert(
            node.id,
            Link { next: node.next_id, first_child: node.first_child_id },
        )
    }
}

/// The nodes of a reply from `at` on, after the nodes `found` before.
pub open spec fn nodes_from(reply: sql::ReplyModel, at: int, found: Seq<CmcNodeModel>) -> Result<
    Seq<CmcNodeModel>,
    Failure,
>
    decreases reply.rows.len() - at,
{
    if at >= reply.rows.len() {
        if reply.failed {
            Err(Failure::Sqlite)
        } else {
            Ok(found)
        }
    } else {
        match CmcNode::row_model(reply.rows[at]) {
            Err(failure) => Err(failure),
            Ok(node) => if node_links(found, found.len() as int).contains_key(node.id) {
                Err(
                    Failure::InvalidCmc {
                        reason: "duplicate CanvasNode MainId "@ + message::decimal_signed(node.id as int),
                    },
                )
            } else {
                nodes_from(reply, at + 1, found.push(node))
            },
        }
    }
}

/// The nodes of a reply, no ID twice.
pub open spec fn nodes_of(reply: sql::ReplyModel) -> Result<Seq<CmcNodeModel>, Failure> {
    nodes_from(reply, 0, Seq::empty())
}

proof fn node_links_prefix(nodes: Seq<CmcNodeModel>, more: Seq<CmcNodeModel>, count: int)
    requires
        count <= nodes.len(),
        count <= more.len(),
        forall|i: int| 0 <= i < count ==> nodes[i] == more[i],
    ensures
        node_links(nodes, count) == node_links(more, count),
    decreases count,
{
    if count > 0 {
        node_links_prefix(nodes, more, count - 1);
    }
}

/// Reads the nodes of a reply, no ID twice.
pub fn nodes_from_reply(reply: &Reply) -> (nodes: Result<Vec<CmcNode>, Error>)
    ensures
        error::listed(nodes) == nodes_of(reply@),
{
    let mut nodes: Vec<CmcNode> = Vec::new();
    let mut seen: BTreeMap<i64, Link> = BTreeMap::new();
    let mut at: usize = 0;
    assert(error::views(nodes@) =~= Seq::<CmcNodeModel>::empty());
    assert(seen@ =~= node_links(error::views(nodes@), 0));
    while at < reply.rows.len()
        invariant
            at <= reply.rows@.len(),
            nodes_of(reply@) == nodes_from(reply@, at as int, error::views(nodes@)),
            seen@ == node_links(error::views(nodes@), nodes@.len() as int),
        decreases reply.rows@.len() - at,
    {
        assert(reply@.rows[at as int] == reply.rows@[at as int]@);
        let node = CmcNode::read_row(&reply.rows[at])?;
        if seen.contains_key(&node.id) {
            return Err(
                cmc_error(Message::new("duplicate CanvasNode MainId ").integer(node.id)),
            );
        }
        let ghost before = error::views(nodes@);
        proof {
            error::views_push(nodes@, node);
            node_links_prefix(before, before.push(node@), before.len() as int);
        }
        seen.insert(node.id, Link { next: node.next_id, first_child: node.first_child_id });
        nodes.push(node);
        at = at + 1;
    }
    match reply.failure() {
        Some(error) => Err(error),
        None => Ok(nodes),
    }
}

/// Whether the references of a node name nodes that exist.
pub open spec fn references_exist(links: Map<i64, Link>, node: CmcNodeModel) -> bool {
    &&& node.next_id matches Some(id) ==> links.contains_key(id)
    &&& node.first_child_id matches Some(id) ==> links.contains_key(id)
    &&& node.selected_id matches Some(id) ==> links.contains_key(id)
}

/// The position of a node among nodes whose IDs are unique.
pub open spec fn node_position(nodes: Seq<CmcNodeModel>, id: i64) -> int {
    choose|i: int| 0 <= i < nodes.len() && (#[trigger] nodes[i]).id == id
}

/// Whether no two nodes have one ID.
pub open spec fn unique_nodes(nodes: Seq<CmcNodeModel>) -> bool {
    forall|i: int, j: int|
        0 <= i < j < nodes.len() ==> (#[trigger] nodes[i]).id != (#[trigger] nodes[j]).id
}

/// The validated tree of a page-management file.
#[verifier::ext_equal]
pub struct CmcTreeModel {
    /// All nodes in depth-first order.
    pub nodes: Seq<CmcNodeModel>,
    /// The ordered children of every node.
    pub children: Map<i64, Seq<i64>>,
}

/// Whether a reference is set to a node that does not exist.
pub open spec fn dangles(links: Map<i64, Link>, reference: Option<i64>) -> bool {
    reference matches Some(id) && !links.contains_key(id)
}

/// What is said of a reference to a node that does not exist.
pub open spec fn dangling_complaint(node: i64, name: Seq<char>, id: i64) -> Seq<char> {
    "CanvasNode "@ + message::decimal_signed(node as int) + " "@ + name + " references missing node "@
        + message::decimal_signed(id as int)
}

/// What is said of the first of the nodes from `at` on that references a node that does not
/// exist.
pub open spec fn dangling(nodes: Seq<CmcNodeModel>, links: Map<i64, Link>, at: int) -> Seq<char>
    decreases nodes.len() - at,
{
    let node = nodes[at];
    if at >= nodes.len() {
        Seq::empty()
    } else if dangles(links, node.next_id) {
        dangling_complaint(node.id, "NextIndex"@, node.next_id->Some_0)
    } else if dangles(links, node.first_child_id) {
        dangling_complaint(node.id, "FirstChildIndex"@, node.first_child_id->Some_0)
    } else if dangles(links, node.selected_id) {
        dangling_complaint(node.id, "SelectedIndex"@, node.selected_id->Some_0)
    } else {
        dangling(nodes, links, at + 1)
    }
}

/// The parent of each child once a chain of children has been followed from `current` on, or
/// what is wrong with the chain: it comes back to one of its own children, `chain`, or holds
/// the child of another node.
pub open spec fn chain_parents(
    links: Map<i64, Link>,
    parent: i64,
    current: Option<i64>,
    chain: Set<i64>,
    parents: Map<i64, i64>,
    left: nat,
) -> Result<Map<i64, i64>, Seq<char>>
    decreases left,
{
    match current {
        None => Ok(parents),
        Some(child) => if left == 0 || chain.contains(child) {
            Err(
                "CanvasNode sibling chain under "@ + message::decimal_signed(parent as int)
                    + " contains a cycle at "@ + message::decimal_signed(child as int),
            )
        } else if parents.contains_key(child) {
            Err(
                "CanvasNode "@ + message::decimal_signed(child as int) + " has parents "@
                    + message::decimal_signed(
                        parents[child] as int,
                    ) + " and "@ + message::decimal_signed(parent as int),
            )
        } else {
            chain_parents(
                links,
                parent,
                if links.contains_key(child) {
                    links[child].next
                } else {
                    None
                },
                chain.insert(child),
                parents.insert(child, parent),
                (left - 1) as nat,
            )
        },
    }
}

/// What is wrong with the chains of children of the nodes from `at` on, if something is: one
/// that comes back to a node, a node in two of them, or the root in one.
pub open spec fn tangle(
    nodes: Seq<CmcNodeModel>,
    links: Map<i64, Link>,
    root: i64,
    at: int,
    parents: Map<i64, i64>,
) -> Option<Seq<char>>
    decreases nodes.len() - at,
{
    if at >= nodes.len() {
        if parents.contains_key(root) {
            Some(
                "root CanvasNode "@ + message::decimal_signed(root as int) + " is a child of "@
                    + message::decimal_signed(parents[root] as int),
            )
        } else {
            None
        }
    } else {
        match chain_parents(
            links,
            nodes[at].id,
            nodes[at].first_child_id,
            Set::empty(),
            parents,
            nodes.len(),
        ) {
            Err(reason) => Some(reason),
            Ok(parents) => tangle(nodes, links, root, at + 1, parents),
        }
    }
}

/// The tree that nodes form below a root, which has to reach all of them.
pub open spec fn page_tree_of(
    nodes: Seq<CmcNodeModel>,
    root: i64,
) -> Result<CmcTreeModel, Failure> {
    let links = node_links(nodes, nodes.len() as int);
    if links.contains_key(root) && forall|i: int|
        0 <= i < nodes.len() ==> references_exist(links, #[trigger] nodes[i]) {
        match links::tree_of(links, root, u64::MAX, false) {
            Err(_) => Err(
                Failure::InvalidCmc {
                    reason: match tangle(nodes, links, root, 0, Map::empty()) {
                        Some(reason) => reason,
                        None => "CanvasNode tree is broken"@,
                    },
                },
            ),
            Ok(tree) => if tree.order.len() != nodes.len() {
                Err(
                    Failure::InvalidCmc {
                        reason: match tangle(nodes, links, root, 0, Map::empty()) {
                            Some(reason) => reason,
                            None => ""@ + message::decimal(
                                if nodes.len() > tree.order.len() {
                                    (nodes.len() - tree.order.len()) as nat
                                } else {
                                    0
                                },
                            ) + " CanvasNode rows are unreachable from root "@
                                + message::decimal_signed(root as int),
                        },
                    },
                )
            } else {
                Ok(
                    CmcTreeModel {
                        nodes: Seq::new(
                            tree.order.len(),
                            |i: int| nodes[node_position(nodes, tree.order[i])],
                        ),
                        children: tree.children,
                    },
                )
            },
        }
    } else if !links.contains_key(root) {
        Err(
            Failure::InvalidCmc {
                reason: "root CanvasNode "@ + message::decimal_signed(root as int) + " does not exist"@,
            },
        )
    } else {
        Err(Failure::InvalidCmc { reason: dangling(nodes, links, 0) })
    }
}

/// The validated tree of a page-management file.
pub struct CmcTree {
    pub nodes: Vec<CmcNode>,
    pub children: BTreeMap<i64, Vec<i64>>,
}

impl View for CmcTree {
    type V = CmcTreeModel;

    open spec fn view(&self) -> CmcTreeModel {
        CmcTreeModel {
            nodes: error::views(self.nodes@),
            children: links::lists(self.children@),
        }
    }
}

/// What a table of references holds: each node by its ID.
pub proof fn linked_nodes(nodes: Seq<CmcNodeModel>, count: int)
    requires
        0 <= count <= nodes.len(),
        unique_nodes(nodes),
    ensures
        node_links(nodes, count).dom().finite(),
        node_links(nodes, count).dom().len() == count,
        forall|id: i64| #[trigger] node_links(nodes, count).contains_key(id) ==> exists|i: int|
            0 <= i < count && (#[trigger] nodes[i]).id == id,
        forall|i: int|
            0 <= i < count ==> node_links(nodes, count).contains_key((#[trigger] nodes[i]).id)
                && node_links(nodes, count)[nodes[i].id] == (Link {
                next: nodes[i].next_id,
                first_child: nodes[i].first_child_id,
            }),
    decreases count,
{
    if count > 0 {
        linked_nodes(nodes, count - 1);
        let before = node_links(nodes, count - 1);
        let node = nodes[count - 1];
        assert(!before.contains_key(node.id)) by {
            if before.contains_key(node.id) {
                let i = choose|i: int| 0 <= i < count - 1 && (#[trigger] nodes[i]).id == node.id;
                assert(nodes[i].id != nodes[count - 1].id);
            }
        }
        let now = node_links(nodes, count);
        assert(now.dom() =~= before.dom().insert(node.id));
        assert forall|id: i64| #[trigger] now.contains_key(id) implies exists|i: int|
            0 <= i < count && (#[trigger] nodes[i]).id == id by {
            if id == node.id {
                assert(nodes[count - 1].id == id);
            } else {
                assert(before.contains_key(id));
                let i = choose|i: int| 0 <= i < count - 1 && (#[trigger] nodes[i]).id == id;
                assert(nodes[i].id == id);
            }
        }
    }
}

/// A tree that is accepted holds every node once, in depth-first order; the children
/// of a node are its stored chain, and each node but the root has exactly one parent.
pub proof fn page_tree_holds_every_node_once(nodes: Seq<CmcNodeModel>, root: i64)
    requires
        unique_nodes(nodes),
        page_tree_of(nodes, root) is Ok,
    ensures
        ({
            let links = node_links(nodes, nodes.len() as int);
            let tree = page_tree_of(nodes, root)->Ok_0;
            let walked = links::tree_of(links, root, u64::MAX, false)->Ok_0;
            &&& walked.children == tree.children
            &&& links::is_tree(links, root, walked)
            &&& tree.nodes.len() == nodes.len()
            &&& unique_nodes(tree.nodes)
            &&& forall|i: int| 0 <= i < tree.nodes.len() ==> (#[trigger] tree.nodes[i]).id
                == walked.order[i]
            &&& forall|i: int| 0 <= i < tree.nodes.len() ==> nodes.contains(
                #[trigger] tree.nodes[i],
            )
            &&& tree.children.dom() == links.dom()
        }),
{
    let links = node_links(nodes, nodes.len() as int);
    linked_nodes(nodes, nodes.len() as int);
    links::walked_tree_is_a_tree(links, root, u64::MAX, false);
    let walked = links::tree_of(links, root, u64::MAX, false)->Ok_0;
    let tree = page_tree_of(nodes, root)->Ok_0;
    assert forall|i: int| 0 <= i < tree.nodes.len() implies (#[trigger] tree.nodes[i]).id
        == walked.order[i] && nodes.contains(tree.nodes[i]) by {
        let id = walked.order[i];
        assert(walked.order.contains(id));
        assert(walked.children.contains_key(id));
        assert(links.contains_key(id));
        let k = choose|k: int| 0 <= k < nodes.len() && (#[trigger] nodes[k]).id == id;
        let position = node_position(nodes, id);
        assert(nodes[position].id == id);
    }
    assert forall|i: int, j: int| 0 <= i < j < tree.nodes.len() implies (#[trigger] tree.nodes[i]).id
        != (#[trigger] tree.nodes[j]).id by {
        assert(walked.order[i] != walked.order[j]);
    }
    walked.order.unique_seq_to_set();
    assert(walked.order.to_set() =~= walked.children.dom());
    assert(walked.children.dom().subset_of(links.dom()));
    vstd::set_lib::lemma_subset_equality(walked.children.dom(), links.dom());
}

proof fn read_nodes_are_unique(reply: sql::ReplyModel, at: int, found: Seq<CmcNodeModel>)
    requires
        unique_nodes(found),
        nodes_from(reply, at, found) is Ok,
    ensures
        unique_nodes(nodes_from(reply, at, found)->Ok_0),
    decreases reply.rows.len() - at,
{
    if at < reply.rows.len() {
        let node = CmcNode::row_model(reply.rows[at])->Ok_0;
        linked_nodes(found, found.len() as int);
        let more = found.push(node);
        assert forall|i: int, j: int| 0 <= i < j < more.len() implies (#[trigger] more[i]).id != (
        #[trigger] more[j]).id by {
            if j == found.len() {
                assert(node_links(found, found.len() as int).contains_key(found[i].id));
            }
        }
        read_nodes_are_unique(reply, at + 1, more);
    }
}

/// The nodes that a reply gives all have their own ID.
pub proof fn nodes_of_a_reply_are_unique(reply: sql::ReplyModel)
    requires
        nodes_of(reply) is Ok,
    ensures
        unique_nodes(nodes_of(reply)->Ok_0),
{
    read_nodes_are_unique(reply, 0, Seq::empty());
}

/// The IDs of nodes.
pub open spec fn node_ids(nodes: Seq<CmcNodeModel>) -> Seq<i64> {
    Seq::new(nodes.len(), |i: int| nodes[i].id)
}

/// A tree that is accepted lists its nodes in depth-first preorder: the root first, and each
/// node directly followed by the whole subtrees of its children in order.
pub proof fn page_tree_is_in_preorder(nodes: Seq<CmcNodeModel>, root: i64)
    requires
        unique_nodes(nodes),
        page_tree_of(nodes, root) is Ok,
    ensures
        ({
            let tree = page_tree_of(nodes, root)->Ok_0;
            links::in_preorder(tree.children, seq![root], node_ids(tree.nodes))
        }),
{
    let links = node_links(nodes, nodes.len() as int);
    linked_nodes(nodes, nodes.len() as int);
    page_tree_holds_every_node_once(nodes, root);
    links::walked_rows_are_in_preorder(links, root, u64::MAX);
    let walked = links::tree_of(links, root, u64::MAX, false)->Ok_0;
    assert(node_ids(page_tree_of(nodes, root)->Ok_0.nodes) =~= walked.order);
}

proof fn read_nodes_match_the_rows(reply: sql::ReplyModel, at: int, found: Seq<CmcNodeModel>)
    requires
        0 <= at <= reply.rows.len(),
        found.len() == at,
        nodes_from(reply, at, found) is Ok,
    ensures
        nodes_from(reply, at, found)->Ok_0.len() == reply.rows.len(),
    decreases reply.rows.len() - at,
{
    if at < reply.rows.len() {
        let node = CmcNode::row_model(reply.rows[at])->Ok_0;
        read_nodes_match_the_rows(reply, at + 1, found.push(node));
    }
}

/// What is wrong with the chains of children of nodes, if something is: one that comes back to
/// a node, a node in two of them, or the root in one.
fn tangled(nodes: &[CmcNode], links: &BTreeMap<i64, Link>, root: i64) -> (error: Option<Error>)
    ensures
        match tangle(error::views(nodes@), links@, root, 0, Map::empty()) {
            Some(reason) => error matches Some(error) && error@ == (Failure::InvalidCmc { reason }),
            None => error is None,
        },
{
    let ghost models = error::views(nodes@);
    let mut parents: BTreeMap<i64, i64> = BTreeMap::new();
    let mut at: usize = 0;
    assert(parents@ =~= Map::<i64, i64>::empty());
    while at < nodes.len()
        invariant
            at <= nodes@.len(),
            models == error::views(nodes@),
            tangle(models, links@, root, 0, Map::empty()) == tangle(
                models,
                links@,
                root,
                at as int,
                parents@,
            ),
        decreases nodes@.len() - at,
    {
        let parent: i64 = nodes[at].id;
        let mut chain: BTreeSet<i64> = BTreeSet::new();
        let mut current: Option<i64> = nodes[at].first_child_id;
        let mut left: usize = nodes.len();
        assert(models[at as int] == nodes@[at as int]@);
        assert(chain@ =~= Set::<i64>::empty());
        let ghost followed = chain_parents(
            links@,
            parent,
            current,
            Set::empty(),
            parents@,
            left as nat,
        );
        while current.is_some() && left > 0
            invariant
                models == error::views(nodes@),
                followed == chain_parents(
                    links@,
                    parent,
                    current,
                    chain@,
                    parents@,
                    left as nat,
                ),
                followed matches Err(reason) ==> tangle(models, links@, root, 0, Map::empty())
                    == Some(reason),
            decreases left,
        {
            let child: i64 = match current {
                Some(child) => child,
                None => root,
            };
            if !chain.insert(child) {
                return Some(
                    cmc_error(
                        Message::new("CanvasNode sibling chain under ").integer(parent).text(
                            " contains a cycle at ",
                        ).integer(child),
                    ),
                );
            }
            if let Some(previous) = parents.get(&child) {
                return Some(
                    cmc_error(
                        Message::new("CanvasNode ").integer(child).text(" has parents ").integer(
                            *previous,
                        ).text(" and ").integer(parent),
                    ),
                );
            }
            parents.insert(child, parent);
            current =
            match links.get(&child) {
                Some(link) => link.next,
                None => None,
            };
            left = left - 1;
        }
        if let Some(child) = current {
            return Some(
                cmc_error(
                    Message::new("CanvasNode sibling chain under ").integer(parent).text(
                        " contains a cycle at ",
                    ).integer(child),
                ),
            );
        }
        at = at + 1;
    }
    match parents.get(&root) {
        Some(parent) => Some(
            cmc_error(
                Message::new("root CanvasNode ").integer(root).text(" is a child of ").integer(
                    *parent,
                ),
            ),
        ),
        None => None,
    }
}

/// Builds the tree that nodes form below a root, which has to reach all of them.
pub fn page_tree(nodes: &[CmcNode], root: i64) -> (tree: Result<CmcTree, Error>)
    requires
        unique_nodes(error::views(nodes@)),
    ensures
        error::outcome(tree) == page_tree_of(error::views(nodes@), root),
{
    let ghost models = error::views(nodes@);
    let mut links: BTreeMap<i64, Link> = BTreeMap::new();
    let mut positions: BTreeMap<i64, usize> = BTreeMap::new();
    let mut at: usize = 0;
    assert(links@ =~= node_links(models, 0));
    while at < nodes.len()
        invariant
            at <= nodes@.len(),
            models == error::views(nodes@),
            unique_nodes(models),
            links@ == node_links(models, at as int),
            forall|i: int|
                0 <= i < at ==> positions@.contains_key((#[trigger] models[i]).id)
                    && positions@[models[i].id] == i,
        decreases nodes@.len() - at,
    {
        let node = &nodes[at];
        assert(models[at as int] == node@);
        links.insert(node.id, Link { next: node.next_id, first_child: node.first_child_id });
        positions.insert(node.id, at);
        proof {
            assert forall|i: int| 0 <= i < at + 1 implies positions@.contains_key(
                (#[trigger] models[i]).id,
            ) && positions@[models[i].id] == i by {
                if i < at {
                    assert(models[i].id != models[at as int].id);
                }
            }
        }
        at = at + 1;
    }
    if !links.contains_key(&root) {
        return Err(
            cmc_error(Message::new("root CanvasNode ").integer(root).text(" does not exist")),
        );
    }
    let mut next: usize = 0;
    while next < nodes.len()
        invariant
            next <= nodes@.len(),
            models == error::views(nodes@),
            links@ == node_links(models, models.len() as int),
            forall|i: int| 0 <= i < next ==> references_exist(links@, #[trigger] models[i]),
            dangling(models, links@, 0) == dangling(models, links@, next as int),
            links@.contains_key(root),
        decreases nodes@.len() - next,
    {
        let node = &nodes[next];
        assert(models[next as int] == node@);
        if let Some(id) = node.next_id {
            if !links.contains_key(&id) {
                assert(!references_exist(links@, models[next as int]));
                return Err(missing_reference(node.id, "NextIndex", id));
            }
        }
        if let Some(id) = node.first_child_id {
            if !links.contains_key(&id) {
                assert(!references_exist(links@, models[next as int]));
                return Err(missing_reference(node.id, "FirstChildIndex", id));
            }
        }
        if let Some(id) = node.selected_id {
            if !links.contains_key(&id) {
                assert(!references_exist(links@, models[next as int]));
                return Err(missing_reference(node.id, "SelectedIndex", id));
            }
        }
        next = next + 1;
    }
    let walked = match walk_tree(&links, root, u64::MAX, false) {
        Ok(walked) => walked,
        Err(_) => {
            return Err(
                match tangled(nodes, &links, root) {
                    Some(error) => error,
                    None => cmc_error(Message::new("CanvasNode tree is broken")),
                },
            );
        },
    };
    if walked.order.len() != nodes.len() {
        if let Some(error) = tangled(nodes, &links, root) {
            return Err(error);
        }
        return Err(
            cmc_error(
                Message::new("").number(
                    (nodes.len() as u64).saturating_sub(walked.order.len() as u64),
                ).text(" CanvasNode rows are unreachable from root ").integer(root),
            ),
        );
    }
    proof {
        linked_nodes(models, models.len() as int);
        links::walked_tree_is_a_tree(links@, root, u64::MAX, false);
    }
    let mut ordered: Vec<CmcNode> = Vec::new();
    let mut step: usize = 0;
    while step < walked.order.len()
        invariant
            step <= walked.order@.len(),
            ordered@.len() == step,
            models == error::views(nodes@),
            unique_nodes(models),
            links@ == node_links(models, models.len() as int),
            links::is_tree(links@, root, walked@),
            forall|i: int|
                0 <= i < models.len() ==> positions@.contains_key((#[trigger] models[i]).id)
                    && positions@[models[i].id] == i,
            forall|id: i64| #[trigger] links@.contains_key(id) ==> exists|i: int|
                0 <= i < models.len() && (#[trigger] models[i]).id == id,
            forall|i: int|
                0 <= i < step ==> (#[trigger] ordered@[i])@ == models[node_position(
                    models,
                    walked.order@[i],
                )],
        decreases walked.order@.len() - step,
    {
        let id: i64 = walked.order[step];
        proof {
            assert(walked@.order.contains(id));
            assert(walked@.children.contains_key(id));
            assert(links@.contains_key(id));
            let k = choose|k: int| 0 <= k < models.len() && (#[trigger] models[k]).id == id;
            assert(models[k].id == id);
            let position = node_position(models, id);
            assert(models[position].id == id);
        }
        let position: usize = match positions.get(&id) {
            Some(position) => *position,
            None => 0,
        };
        assert(models[position as int] == nodes@[position as int]@);
        ordered.push(nodes[position].duplicate());
        step = step + 1;
    }
    let tree = CmcTree { nodes: ordered, children: walked.children };
    assert(tree@.nodes =~= page_tree_of(models, root)->Ok_0.nodes);
    Ok(tree)
}

fn missing_reference(node: i64, name: &str, id: i64) -> (error: Error)
    ensures
        error@ == (Failure::InvalidCmc { reason: dangling_complaint(node, name@, id) }),
{
    cmc_error(
        Message::new("CanvasNode ").integer(node).text(" ").text(name).text(
            " references missing node ",
        ).integer(id),
    )
}

/// What the `Project` row of a page-management file says.
pub struct CmcProject {
    pub internal_version: String,
    pub root_node_id: i64,
    pub max_canvas_file_index: i64,
}

/// The model of a [`CmcProject`].
pub struct CmcProjectModel {
    pub internal_version: Seq<char>,
    pub root_node_id: i64,
    pub max_canvas_file_index: i64,
}

impl View for CmcProject {
    type V = CmcProjectModel;

    open spec fn view(&self) -> CmcProjectModel {
        CmcProjectModel {
            internal_version: self.internal_version@,
            root_node_id: self.root_node_id,
            max_canvas_file_index: self.max_canvas_file_index,
        }
    }
}

impl FromRow for CmcProject {
    open spec fn row_model(row: Seq<SqlModel>) -> Result<CmcProjectModel, Failure> {
        match (sql::text_at(row, 0), sql::integer_at(row, 1), sql::integer_at(row, 2)) {
            (Ok(internal_version), Ok(root_node_id), Ok(max_canvas_file_index)) => if root_node_id
                <= 0 {
                Err(Failure::InvalidCmc { reason: "ProjectRootCanvasNode is not positive"@ })
            } else if max_canvas_file_index < 0 {
                Err(Failure::InvalidCmc { reason: "MaxCanvasFileIndex is negative"@ })
            } else {
                Ok(CmcProjectModel { internal_version, root_node_id, max_canvas_file_index })
            },
            _ => Err(Failure::Sqlite),
        }
    }

    fn read_row(row: &SqlRow) -> (value: Result<CmcProject, Error>) {
        let internal_version = row.text(0)?;
        let root_node_id: i64 = row.integer(1)?;
        let max_canvas_file_index: i64 = row.integer(2)?;
        if root_node_id <= 0 {
            return Err(cmc_error(Message::new("ProjectRootCanvasNode is not positive")));
        }
        if max_canvas_file_index < 0 {
            return Err(cmc_error(Message::new("MaxCanvasFileIndex is negative")));
        }
        Ok(CmcProject { internal_version, root_node_id, max_canvas_file_index })
    }
}

/// The project that a reply holds.
pub open spec fn cmc_project_of(reply: sql::ReplyModel) -> Result<CmcProjectModel, Failure> {
    match sql::only_row(reply) {
        Err(failure) => Err(failure),
        Ok(row) => CmcProject::row_model(row),
    }
}

/// The project that a reply holds.
pub fn cmc_project_from_reply(reply: &Reply) -> (project: Result<CmcProject, Error>)
    ensures
        error::outcome(project) == cmc_project_of(reply@),
{
    CmcProject::read_row(reply.only_row()?)
}

/// Validated, read-only access to a standalone CLIP STUDIO `.cmc` file.
pub struct CmcFile {
    pub database: Database,
    pub source_path: Option<PathBuf>,
    pub internal_version: String,
    pub root_node_id: i64,
    pub max_canvas_file_index: i64,
    pub nodes: Vec<CmcNode>,
    pub children: BTreeMap<i64, Vec<i64>>,
}

/// The model of a [`CmcFile`], apart from where it came from.
#[verifier::ext_equal]
pub struct CmcFileModel {
    pub internal_version: Seq<char>,
    pub root_node_id: i64,
    pub max_canvas_file_index: i64,
    pub nodes: Seq<CmcNodeModel>,
    pub children: Map<i64, Seq<i64>>,
}

impl View for CmcFile {
    type V = CmcFileModel;

    open spec fn view(&self) -> CmcFileModel {
        CmcFileModel {
            internal_version: self.internal_version@,
            root_node_id: self.root_node_id,
            max_canvas_file_index: self.max_canvas_file_index,
            nodes: error::views(self.nodes@),
            children: links::lists(self.children@),
        }
    }
}

/// The columns of `Project` that a page-management file has.
pub open spec fn cmc_project_columns() -> Seq<Seq<char>> {
    seq!["ProjectInternalVersion"@, "ProjectRootCanvasNode"@, "MaxCanvasFileIndex"@]
}

/// The columns of `CanvasNode` that a page-management file has.
pub open spec fn cmc_node_columns() -> Seq<Seq<char>> {
    seq![
        "MainId"@,
        "Type"@,
        "NextIndex"@,
        "FirstChildIndex"@,
        "SelectedIndex"@,
        "CanvasIndex"@,
        "PageFlag"@,
        "LinkPath"@,
    ]
}

/// What is asked for the project, in order.
pub open spec fn cmc_project_items() -> Seq<Seq<char>> {
    seq![
        "ProjectInternalVersion"@,
        "ProjectRootCanvasNode"@,
        "MaxCanvasFileIndex"@,
    ]
}

/// The question that asks for the project.
pub open spec fn cmc_project_question() -> Seq<char> {
    columns::asked(cmc_project_items(), " FROM Project"@)
}

/// What is asked for the nodes, in order.
pub open spec fn cmc_node_items() -> Seq<Seq<char>> {
    seq![
        "MainId"@,
        "Type"@,
        "NextIndex"@,
        "FirstChildIndex"@,
        "SelectedIndex"@,
        "CanvasIndex"@,
        "PageFlag"@,
        "LinkPath"@,
    ]
}

/// The question that lists the nodes.
pub open spec fn cmc_nodes_question() -> Seq<char> {
    columns::asked(cmc_node_items(), " FROM CanvasNode ORDER BY MainId"@)
}

/// Whether a quick check of a database can have this outcome.
pub open spec fn quick_checked(connection: Connection, outcome: Result<(), Failure>) -> bool {
    exists|reply: sql::ReplyModel|
        #[trigger] sql::may_answer(
            connection,
            "PRAGMA quick_check(1)"@,
            Seq::empty(),
            reply,
        ) && outcome
            == database::quick_check_of(reply)
}

/// Whether reading the project row can have this outcome.
pub open spec fn cmc_project_read(
    connection: Connection,
    outcome: Result<CmcProjectModel, Failure>,
) -> bool {
    exists|counted: Result<u64, Failure>|
        #[trigger] database::rows_counted(connection, "Project"@, counted) && match counted {
            Err(failure) => outcome == Err::<CmcProjectModel, Failure>(failure),
            Ok(count) => if count != 1 {
                outcome == Err::<CmcProjectModel, Failure>(
                    Failure::InvalidCmc {
                        reason: "Project has "@ + message::decimal(count as nat)
                            + " rows instead of one"@,
                    },
                )
            } else {
                exists|reply: sql::ReplyModel|
                    #[trigger] sql::may_answer(
                        connection,
                        cmc_project_question(),
                        Seq::empty(),
                        reply,
                    )
                        && outcome == cmc_project_of(reply)
            },
        }
}

/// Whether reading the nodes can have this outcome.
pub open spec fn cmc_nodes_read(
    connection: Connection,
    limits: Limits,
    outcome: Result<Seq<CmcNodeModel>, Failure>,
) -> bool {
    exists|counted: Result<u64, Failure>|
        #[trigger] database::rows_counted(connection, "CanvasNode"@, counted) && match counted {
            Err(failure) => outcome == Err::<Seq<CmcNodeModel>, Failure>(failure),
            Ok(count) => if count > limits.max_cmc_nodes {
                outcome == Err::<Seq<CmcNodeModel>, Failure>(
                    Failure::LimitExceeded {
                        resource: "CMC nodes"@,
                        value: count,
                        limit: limits.max_cmc_nodes,
                    },
                )
            } else {
                exists|reply: sql::ReplyModel|
                    #[trigger] sql::may_answer(
                        connection,
                        cmc_nodes_question(),
                        Seq::empty(),
                        reply,
                    )
                        && outcome == nodes_of(reply)
            },
        }
}

/// The file that a project row and its nodes make up.
pub open spec fn cmc_file_of(project: CmcProjectModel, nodes: Seq<CmcNodeModel>) -> Result<
    CmcFileModel,
    Failure,
> {
    match page_tree_of(nodes, project.root_node_id) {
        Err(failure) => Err(failure),
        Ok(tree) => Ok(
            CmcFileModel {
                internal_version: project.internal_version,
                root_node_id: project.root_node_id,
                max_canvas_file_index: project.max_canvas_file_index,
                nodes: tree.nodes,
                children: tree.children,
            },
        ),
    }
}

/// Whether reading a page-management database can have this outcome.
pub open spec fn cmc_read(
    connection: Connection,
    schema: Seq<database::TableModel>,
    limits: Limits,
    outcome: Result<CmcFileModel, Failure>,
) -> bool {
    exists|checked: Result<(), Failure>|
        #[trigger] quick_checked(connection, checked) && match checked {
            Err(failure) => outcome == Err::<CmcFileModel, Failure>(failure),
            Ok(()) => match (
                database::first_missing(schema, "Project"@, cmc_project_columns(), 0),
                database::first_missing(schema, "CanvasNode"@, cmc_node_columns(), 0),
            ) {
                (Some(failure), _) => outcome == Err::<CmcFileModel, Failure>(failure),
                (None, Some(failure)) => outcome == Err::<CmcFileModel, Failure>(failure),
                (None, None) => cmc_rows_read(connection, limits, outcome),
            },
        }
}

/// Whether reading the rows of a page-management database, all columns of which are
/// there, can have this outcome.
pub open spec fn cmc_rows_read(
    connection: Connection,
    limits: Limits,
    outcome: Result<CmcFileModel, Failure>,
) -> bool {
    exists|project: Result<CmcProjectModel, Failure>|
        #[trigger] cmc_project_read(connection, project) && match project {
            Err(failure) => outcome == Err::<CmcFileModel, Failure>(failure),
            Ok(project) => exists|nodes: Result<Seq<CmcNodeModel>, Failure>|
                #[trigger] cmc_nodes_read(connection, limits, nodes) && match nodes {
                    Err(failure) => outcome == Err::<CmcFileModel, Failure>(failure),
                    Ok(nodes) => outcome == cmc_file_of(project, nodes),
                },
        }
}

/// Whether a file holds the nodes that a reply gives: every row once, in depth-first
/// preorder, with the stored chain of children below each of them.
pub open spec fn holds_pages(file: CmcFileModel, reply: sql::ReplyModel) -> bool {
    let rows = nodes_of(reply)->Ok_0;
    &&& nodes_of(reply) is Ok
    &&& file.nodes.len() == reply.rows.len()
    &&& unique_nodes(file.nodes)
    &&& forall|i: int| 0 <= i < file.nodes.len() ==> rows.contains(#[trigger] file.nodes[i])
    &&& forall|i: int| 0 <= i < rows.len() ==> file.nodes.contains(#[trigger] rows[i])
    &&& links::in_preorder(file.children, seq![file.root_node_id], node_ids(file.nodes))
    &&& links::is_tree(
        node_links(rows, rows.len() as int),
        file.root_node_id,
        links::TreeModel { children: file.children, order: node_ids(file.nodes) },
    )
}

/// Whether a database counted this many nodes.
pub open spec fn counted_nodes(connection: Connection, count: u64) -> bool {
    database::rows_counted(connection, "CanvasNode"@, Ok(count))
}

proof fn read_file_holds_its_pages(
    project: CmcProjectModel,
    reply: sql::ReplyModel,
    file: CmcFileModel,
)
    requires
        nodes_of(reply) is Ok,
        cmc_file_of(project, nodes_of(reply)->Ok_0) == Ok::<CmcFileModel, Failure>(file),
    ensures
        holds_pages(file, reply),
{
    let rows = nodes_of(reply)->Ok_0;
    let root = project.root_node_id;
    let links = node_links(rows, rows.len() as int);
    nodes_of_a_reply_are_unique(reply);
    read_nodes_match_the_rows(reply, 0, Seq::empty());
    linked_nodes(rows, rows.len() as int);
    page_tree_holds_every_node_once(rows, root);
    page_tree_is_in_preorder(rows, root);
    let walked = links::tree_of(links, root, u64::MAX, false)->Ok_0;
    assert(node_ids(file.nodes) =~= walked.order);
    assert(walked == links::TreeModel { children: file.children, order: node_ids(file.nodes) });
    assert forall|i: int| 0 <= i < rows.len() implies file.nodes.contains(#[trigger] rows[i]) by {
        let id = rows[i].id;
        assert(links.contains_key(id));
        assert(walked.children.contains_key(id));
        assert(walked.order.contains(id));
        let k = choose|k: int| 0 <= k < walked.order.len() && walked.order[k] == id;
        assert(file.nodes[k].id == id);
        assert(rows.contains(file.nodes[k]));
        let j = choose|j: int| 0 <= j < rows.len() && rows[j] == file.nodes[k];
        assert(rows[j].id == rows[i].id);
        assert(i == j);
    }
}

/// A file that is read was given its nodes by one reply, and holds them all, once each and
/// in depth-first preorder. Before that they were counted, and were no more than the limit.
pub proof fn read_file_is_a_page_tree(
    connection: Connection,
    schema: Seq<database::TableModel>,
    limits: Limits,
    file: CmcFileModel,
)
    requires
        cmc_read(connection, schema, limits, Ok(file)),
    ensures
        exists|count: u64| #[trigger]
            counted_nodes(connection, count) && count <= limits.max_cmc_nodes,
        exists|reply: sql::ReplyModel|
            #[trigger] sql::may_answer(connection, cmc_nodes_question(), Seq::empty(), reply)
                && holds_pages(file, reply),
{
    let outcome = Ok::<CmcFileModel, Failure>(file);
    assert(cmc_rows_read(connection, limits, outcome));
    let project = choose|project: Result<CmcProjectModel, Failure>|
        #[trigger] cmc_project_read(connection, project) && match project {
            Err(failure) => outcome == Err::<CmcFileModel, Failure>(failure),
            Ok(project) => exists|nodes: Result<Seq<CmcNodeModel>, Failure>|
                #[trigger] cmc_nodes_read(connection, limits, nodes) && match nodes {
                    Err(failure) => outcome == Err::<CmcFileModel, Failure>(failure),
                    Ok(nodes) => outcome == cmc_file_of(project, nodes),
                },
        };
    let nodes = choose|nodes: Result<Seq<CmcNodeModel>, Failure>|
        #[trigger] cmc_nodes_read(connection, limits, nodes) && match nodes {
            Err(failure) => outcome == Err::<CmcFileModel, Failure>(failure),
            Ok(nodes) => outcome == cmc_file_of(project->Ok_0, nodes),
        };
    let counted = choose|counted: Result<u64, Failure>|
        #[trigger] database::rows_counted(connection, "CanvasNode"@, counted) && match counted {
            Err(failure) => nodes == Err::<Seq<CmcNodeModel>, Failure>(failure),
            Ok(count) => count <= limits.max_cmc_nodes && exists|reply: sql::ReplyModel|
                #[trigger] sql::may_answer(connection, cmc_nodes_question(), Seq::empty(), reply)
                    && nodes == nodes_of(reply),
        };
    assert(counted_nodes(connection, counted->Ok_0));
    let reply = choose|reply: sql::ReplyModel|
        #[trigger] sql::may_answer(connection, cmc_nodes_question(), Seq::empty(), reply) && nodes
            == nodes_of(reply);
    read_file_holds_its_pages(project->Ok_0, reply, file);
}

/// Whether opening a page-management file can have this outcome.
pub open spec fn cmc_opened(
    data: Seq<u8>,
    limits: Limits,
    outcome: Result<CmcFileModel, Failure>,
) -> bool {
    if data.len() > limits.max_database_size {
        outcome == Err::<CmcFileModel, Failure>(
            Failure::PayloadTooLarge {
                size: data.len() as u64,
                limit: limits.max_database_size,
            },
        )
    } else {
        exists|opened: Result<(Connection, Seq<database::TableModel>), Failure>|
            #[trigger] database::image_opened(data, opened) && match opened {
                Err(failure) => outcome == Err::<CmcFileModel, Failure>(failure),
                Ok((connection, schema)) => cmc_read(connection, schema, limits, outcome),
            }
    }
}

fn read_cmc_project(database: &Database) -> (project: Result<CmcProject, Error>)
    requires
        database::table_of(database.schema@, "Project"@) is Some,
    ensures
        cmc_project_read(database.connection, error::outcome(project)),
{
    let counted = database.row_count("Project");
    assert(database::rows_counted(database.connection, "Project"@, error::plain(counted)));
    let count: u64 = counted?;
    if count != 1 {
        return Err(
            cmc_error(Message::new("Project has ").number(count).text(" rows instead of one")),
        );
    }
    let asked: [&str; 3] = ["ProjectInternalVersion", "ProjectRootCanvasNode", "MaxCanvasFileIndex"];
    assert(database::names(asked@) =~= cmc_project_items());
    let reply = query_all(
        &database.connection,
        columns::ask(&asked, " FROM Project").as_str(),
    );
    assert(sql::may_answer(database.connection, cmc_project_question(), Seq::empty(), reply@));
    cmc_project_from_reply(&reply)
}

fn read_cmc_nodes(database: &Database, limits: Limits) -> (nodes: Result<Vec<CmcNode>, Error>)
    requires
        database::table_of(database.schema@, "CanvasNode"@) is Some,
    ensures
        cmc_nodes_read(database.connection, limits, error::listed(nodes)),
        nodes matches Ok(nodes) ==> unique_nodes(error::views(nodes@)),
{
    let counted = database.row_count("CanvasNode");
    assert(database::rows_counted(database.connection, "CanvasNode"@, error::plain(counted)));
    let count: u64 = counted?;
    if count > limits.max_cmc_nodes() {
        return Err(Error::limit("CMC nodes", count, limits.max_cmc_nodes()));
    }
    let asked: [&str; 8] = ["MainId", "Type", "NextIndex", "FirstChildIndex", "SelectedIndex", "CanvasIndex", "PageFlag", "LinkPath"];
    assert(database::names(asked@) =~= cmc_node_items());
    let reply = query_all(
        &database.connection,
        columns::ask(&asked, " FROM CanvasNode ORDER BY MainId").as_str(),
    );
    assert(sql::may_answer(database.connection, cmc_nodes_question(), Seq::empty(), reply@));
    let nodes = nodes_from_reply(&reply)?;
    proof {
        nodes_of_a_reply_are_unique(reply@);
    }
    Ok(nodes)
}

impl CmcFile {
    fn read(data: &[u8], source_path: Option<PathBuf>, limits: Limits) -> (file: Result<
        CmcFile,
        Error,
    >)
        ensures
            cmc_opened(data@, limits, error::outcome(file)),
            file matches Ok(file) ==> file.source_path == source_path,
    {
        assert(data.len() == data@.len());
        let size: u64 = data.len() as u64;
        if size > limits.max_database_size() {
            return Err(Error::PayloadTooLarge { size, limit: limits.max_database_size() });
        }
        let connection = match open_serialized(data) {
            Ok(connection) => connection,
            Err(error) => {
                assert(database::image_opened(data@, Err(error@)));
                return Err(error);
            },
        };
        assert(sql::holds_image(connection, data@));
        let database = Database::from_connection(connection);
        let ghost opened = database::database_given(database);
        assert(database::image_opened(data@, opened));
        let database = database?;
        CmcFile::from_database(database, source_path, limits)
    }

    /// Reads and validates the `.cmc` SQLite file that stands at a path.
    pub fn open(path: PathBuf, data: &[u8], limits: Limits) -> (file: Result<CmcFile, Error>)
        ensures
            cmc_opened(data@, limits, error::outcome(file)),
            file matches Ok(file) ==> file.source_path == Some(path),
    {
        CmcFile::read(data, Some(path), limits)
    }

    /// Reads and validates a `.cmc` SQLite file.
    ///
    /// Page references remain available, but [`Self::page_path`] returns
    /// `None` because plain bytes have no source directory.
    pub fn from_reader(data: &[u8], limits: Limits) -> (file: Result<CmcFile, Error>)
        ensures
            cmc_opened(data@, limits, error::outcome(file)),
            file matches Ok(file) ==> file.source_path is None,
    {
        CmcFile::read(data, None, limits)
    }

    /// Validates a page-management database that came from `source_path`.
    pub fn from_database(
        database: Database,
        source_path: Option<PathBuf>,
        limits: Limits,
    ) -> (file: Result<CmcFile, Error>)
        ensures
            cmc_read(database.connection, database.schema@, limits, error::outcome(file)),
            file matches Ok(file) ==> file.source_path == source_path && file.database == database,
    {
        let checked = database.quick_check();
        assert(quick_checked(database.connection, error::plain(checked)));
        checked?;
        let project_columns: [&str; 3] = [
            "ProjectInternalVersion",
            "ProjectRootCanvasNode",
            "MaxCanvasFileIndex",
        ];
        assert(database::names(project_columns@) =~= cmc_project_columns());
        if let Some(error) = database.schema.first_missing_column("Project", &project_columns) {
            return Err(error);
        }
        let node_columns: [&str; 8] = [
            "MainId",
            "Type",
            "NextIndex",
            "FirstChildIndex",
            "SelectedIndex",
            "CanvasIndex",
            "PageFlag",
            "LinkPath",
        ];
        assert(database::names(node_columns@) =~= cmc_node_columns());
        if let Some(error) = database.schema.first_missing_column("CanvasNode", &node_columns) {
            return Err(error);
        }
        proof {
            reveal_with_fuel(database::first_missing, 2);
            assert(database::missing(database.schema@, "Project"@, cmc_project_columns()[0])
                is None);
            assert(database::missing(database.schema@, "CanvasNode"@, cmc_node_columns()[0])
                is None);
        }
        let project = read_cmc_project(&database);
        assert(cmc_project_read(database.connection, error::outcome(project)));
        let project = project?;
        let nodes = read_cmc_nodes(&database, limits);
        assert(cmc_nodes_read(database.connection, limits, error::listed(nodes)));
        let nodes = nodes?;
        let tree = page_tree(nodes.as_slice(), project.root_node_id)?;
        Ok(
            CmcFile {
                database,
                source_path,
                internal_version: project.internal_version,
                root_node_id: project.root_node_id,
                max_canvas_file_index: project.max_canvas_file_index,
                nodes: tree.nodes,
                children: tree.children,
            },
        )
    }

    /// Underlying read-only SQLite database for advanced queries.
    #[must_use]
    pub fn database(&self) -> (value: &Database)
        ensures
            *value == self.database,
    {
        &self.database
    }

    /// Source path of the file, if it has one.
    #[must_use]
    pub fn source_path(&self) -> (value: Option<&PathBuf>)
        ensures
            value is Some == self.source_path is Some,
            value matches Some(value) ==> *value == self.source_path.unwrap(),
    {
        match &self.source_path {
            Some(value) => Some(value),
            None => None,
        }
    }

    /// `Project.ProjectInternalVersion`.
    #[must_use]
    pub fn internal_version(&self) -> (text: &str)
        ensures
            text@ == self.internal_version@,
    {
        self.internal_version.as_str()
    }

    /// Validated root `CanvasNode` ID.
    #[must_use]
    pub fn root_node_id(&self) -> (value: i64)
        ensures
            value == self.root_node_id,
    {
        self.root_node_id
    }

    /// Non-negative `Project.MaxCanvasFileIndex`.
    #[must_use]
    pub fn max_canvas_file_index(&self) -> (value: i64)
        ensures
            value == self.max_canvas_file_index,
    {
        self.max_canvas_file_index
    }

    /// All nodes in validated depth-first tree order.
    #[must_use]
    pub fn nodes(&self) -> (list: &[CmcNode])
        ensures
            list@ == self.nodes@,
    {
        self.nodes.as_slice()
    }

    /// Looks up a node by its positive `MainId`.
    #[must_use]
    pub fn node(&self, id: i64) -> (found: Option<&CmcNode>)
        ensures
            match found {
                Some(found) => first_with_id(self.nodes@, id, 0) < self.nodes@.len() && *found
                    == self.nodes@[first_with_id(self.nodes@, id, 0)],
                None => first_with_id(self.nodes@, id, 0) == self.nodes@.len(),
            },
    {
        let mut at: usize = 0;
        while at < self.nodes.len()
            invariant
                at <= self.nodes@.len(),
                first_with_id(self.nodes@, id, 0) == first_with_id(self.nodes@, id, at as int),
            decreases self.nodes@.len() - at,
        {
            if self.nodes[at].id == id {
                return Some(&self.nodes[at]);
            }
            at = at + 1;
        }
        None
    }

    /// Ordered children for a known node, or `None` for an unknown ID.
    #[must_use]
    pub fn children_of(&self, id: i64) -> (children: Option<&[i64]>)
        ensures
            children is Some == self@.children.contains_key(id),
            children matches Some(list) ==> list@ == self@.children[id],
    {
        match self.children.get(&id) {
            Some(list) => Some(list.as_slice()),
            None => None,
        }
    }

    /// Nodes with a stored page link, in validated tree order.
    pub fn page_nodes(&self) -> (pages: Vec<&CmcNode>)
        ensures
            pages@.len() == linked_among(self.nodes@, self.nodes@.len() as int).len(),
            forall|i: int|
                0 <= i < pages@.len() ==> *(#[trigger] pages@[i]) == linked_among(
                    self.nodes@,
                    self.nodes@.len() as int,
                )[i],
    {
        let mut pages: Vec<&CmcNode> = Vec::new();
        let mut at: usize = 0;
        while at < self.nodes.len()
            invariant
                at <= self.nodes@.len(),
                pages@.len() == linked_among(self.nodes@, at as int).len(),
                forall|i: int|
                    0 <= i < pages@.len() ==> *(#[trigger] pages@[i]) == linked_among(
                        self.nodes@,
                        at as int,
                    )[i],
            decreases self.nodes@.len() - at,
        {
            if self.nodes[at].raw_link_path.is_some() {
                pages.push(&self.nodes[at]);
            }
            at = at + 1;
        }
        pages
    }

    /// Resolves a traversal-safe page link relative to the `.cmc` directory.
    ///
    /// Returns `None` for files without a source path, unknown node IDs, and link
    /// forms other than the observed single-file `.:name` representation.
    #[must_use]
    pub fn page_path(&self, node_id: i64) -> (path: Option<PathBuf>)
        ensures
            match self.source_path {
                None => path is None,
                Some(source) => exists|directory: Option<PathBuf>|
                    #[trigger] may_lie_in(source, directory) && page_lies_in(
                        directory,
                        page_of_node(self.nodes@, node_id),
                        path,
                    ),
            },
    {
        let source = match &self.source_path {
            Some(source) => source,
            None => return None,
        };
        let found = parent_directory(source);
        assert(may_lie_in(*source, found));
        let directory = match &found {
            Some(directory) => directory,
            None => {
                assert(page_lies_in(found, page_of_node(self.nodes@, node_id), None));
                return None;
            },
        };
        let path = match self.node(node_id) {
            Some(node) => match &node.page_file_name {
                Some(name) => Some(joined(directory, name.as_str())),
                None => None,
            },
            None => None,
        };
        assert(page_lies_in(found, page_of_node(self.nodes@, node_id), path));
        path
    }
}

/// The position of the first node with an ID at or after `at`, or the number of nodes.
pub open spec fn first_with_id(nodes: Seq<CmcNode>, id: i64, at: int) -> int
    decreases nodes.len() - at,
{
    if at >= nodes.len() {
        nodes.len() as int
    } else if nodes[at].id == id {
        at
    } else {
        first_with_id(nodes, id, at + 1)
    }
}

/// Every node of a file whose nodes have IDs of their own is the one found by its ID.
pub proof fn every_node_is_found_by_its_id(nodes: Seq<CmcNode>, position: int)
    requires
        unique_nodes(error::views(nodes)),
        0 <= position < nodes.len(),
    ensures
        first_with_id(nodes, nodes[position].id, 0) == position,
{
    first_with_id_is(nodes, position, 0);
}

proof fn first_with_id_is(nodes: Seq<CmcNode>, position: int, at: int)
    requires
        unique_nodes(error::views(nodes)),
        0 <= at <= position < nodes.len(),
    ensures
        first_with_id(nodes, nodes[position].id, at) == position,
    decreases position - at,
{
    if at < position {
        assert(error::views(nodes)[at] == nodes[at]@);
        assert(error::views(nodes)[position] == nodes[position]@);
        first_with_id_is(nodes, position, at + 1);
    }
}

/// The name of the page file of a node.
pub open spec fn page_of_node(nodes: Seq<CmcNode>, id: i64) -> Option<Seq<char>> {
    let position = first_with_id(nodes, id, 0);
    if position < nodes.len() {
        error::optional_text(nodes[position].page_file_name)
    } else {
        None
    }
}

/// Whether a page file of that name in a directory is at a path; there is no path without a
/// directory and a name.
pub open spec fn page_lies_in(
    directory: Option<PathBuf>,
    name: Option<Seq<char>>,
    path: Option<PathBuf>,
) -> bool {
    match (directory, name) {
        (Some(directory), Some(name)) => path matches Some(path) && may_lead_to(
            directory,
            name,
            path,
        ),
        _ => path is None,
    }
}

/// The nodes among the first `count` that store a page link, in order.
pub open spec fn linked_among(nodes: Seq<CmcNode>, count: int) -> Seq<CmcNode>
    decreases count,
{
    if count <= 0 {
        Seq::empty()
    } else if nodes[count - 1].raw_link_path is Some {
        linked_among(nodes, count - 1).push(nodes[count - 1])
    } else {
        linked_among(nodes, count - 1)
    }
}

} // verus!
