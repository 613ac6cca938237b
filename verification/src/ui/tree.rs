//! Conventional hierarchical outline / file tree projection.
//!
//! An alternate projection of the spatial repository model for precision
//! keyboard navigation and screen-reader accessibility. Flattens into a
//! virtualized visible row list respecting node expansion state.
pub mod visibility;

use vstd::prelude::*;

use super::sidebar::{row_after, row_before};
use crate::identity::FileId;
use crate::model::{group_views, views};

verus! {

broadcast use group_views;

/// Unique identifier of a tree node within the projection.
pub type TreeNodeId = u64;

/// Kind of tree node (directory container vs source file leaf).
#[derive(Clone, Copy, Debug, PartialEq, Eq, Structural)]
pub enum TreeNodeKind {
    Directory,
    File,
}

/// A node in the conventional file tree projection.
#[derive(Debug, PartialEq, Eq)]
pub struct TreeNode<T = String> {
    pub id: TreeNodeId,
    pub parent_id: Option<TreeNodeId>,
    pub name: T,
    pub path: T,
    pub kind: TreeNodeKind,
    pub depth: usize,
    pub is_expanded: bool,
    pub file_id: Option<FileId>,
}

/// The model of a node: its texts as character sequences.
pub type NodeModel = TreeNode<Seq<char>>;

impl View for TreeNode {
    type V = TreeNode<Seq<char>>;

    open spec fn view(&self) -> TreeNode<Seq<char>> {
        TreeNode {
            id: self.id,
            parent_id: self.parent_id,
            name: self.name@,
            path: self.path@,
            kind: self.kind,
            depth: self.depth,
            is_expanded: self.is_expanded,
            file_id: self.file_id,
        }
    }
}

impl Clone for TreeNode {
    fn clone(&self) -> (r: Self)
        ensures
            r == *self,
    {
        TreeNode {
            id: self.id,
            parent_id: self.parent_id,
            name: self.name.clone(),
            path: self.path.clone(),
            kind: self.kind,
            depth: self.depth,
            is_expanded: self.is_expanded,
            file_id: self.file_id,
        }
    }
}

impl TreeNode {
    pub fn is_directory(&self) -> (r: bool)
        ensures
            r == (self.kind is Directory),
    {
        matches!(self.kind, TreeNodeKind::Directory)
    }

    pub fn is_file(&self) -> (r: bool)
        ensures
            r == (self.kind is File),
    {
        matches!(self.kind, TreeNodeKind::File)
    }
}

/// Errors originating from tree navigation or manipulation.
#[derive(Clone, Copy, Debug, PartialEq, Eq, Structural)]
pub enum TreeError {
    NodeNotFound,
    CannotExpandFile,
}

/// Position of the first node with this identifier, from `i` on.
pub open spec fn find_from(nodes: Seq<NodeModel>, id: TreeNodeId, i: int) -> Option<int>
    decreases nodes.len() - i,
{
    if i < 0 || i >= nodes.len() {
        None
    } else if nodes[i].id == id {
        Some(i)
    } else {
        find_from(nodes, id, i + 1)
    }
}

/// Position of the first child of `parent`, from `i` on.
pub open spec fn child_from(nodes: Seq<NodeModel>, parent: TreeNodeId, i: int) -> Option<int>
    decreases nodes.len() - i,
{
    if i < 0 || i >= nodes.len() {
        None
    } else if nodes[i].parent_id == Some(parent) {
        Some(i)
    } else {
        child_from(nodes, parent, i + 1)
    }
}

/// Position of the first row that shows this node, from `i` on.
pub open spec fn row_from(rows: Seq<TreeNodeId>, id: TreeNodeId, i: int) -> Option<usize>
    decreases rows.len() - i,
{
    if i < 0 || i >= rows.len() {
        None
    } else if rows[i] == id {
        Some(i as usize)
    } else {
        row_from(rows, id, i + 1)
    }
}

/// Every node stands below its parent by this height.
pub open spec fn ranked(nodes: Seq<NodeModel>, height: spec_fn(TreeNodeId) -> nat) -> bool {
    forall|i: int|
        0 <= i < nodes.len() ==> (#[trigger] nodes[i].parent_id matches Some(p) ==> height(
            nodes[i].id,
        ) < height(p))
}

/// No node is its own ancestor.
pub open spec fn acyclic(nodes: Seq<NodeModel>) -> bool {
    exists|height: spec_fn(TreeNodeId) -> nat| ranked(nodes, height)
}

/// A height that witnesses that no node is its own ancestor.
pub open spec fn height_of(nodes: Seq<NodeModel>) -> spec_fn(TreeNodeId) -> nat {
    choose|height: spec_fn(TreeNodeId) -> nat| ranked(nodes, height)
}

/// The rows below `parent` from node `i` on: each child, followed by its own
/// rows when it is an expanded directory.
pub open spec fn rows_below(
    nodes: Seq<NodeModel>,
    height: spec_fn(TreeNodeId) -> nat,
    parent: Option<TreeNodeId>,
    i: int,
) -> Seq<TreeNodeId>
    decreases
            if parent is None {
                1int
            } else {
                0int
            },
            match parent {
                Some(p) => height(p),
                None => 0,
            },
            nodes.len() - i,
{
    if i < 0 || i >= nodes.len() {
        Seq::empty()
    } else if nodes[i].parent_id != parent {
        rows_below(nodes, height, parent, i + 1)
    } else {
        let id = nodes[i].id;
        let inner = if nodes[i].kind is Directory && nodes[i].is_expanded && (parent matches Some(p)
            ==> height(id) < height(p)) {
            rows_below(nodes, height, Some(id), 0)
        } else {
            Seq::empty()
        };
        seq![id] + inner + rows_below(nodes, height, parent, i + 1)
    }
}

/// The rows of the whole tree, top to bottom.
pub open spec fn flattened(nodes: Seq<NodeModel>) -> Seq<TreeNodeId> {
    rows_below(nodes, height_of(nodes), None, 0)
}

/// The tree's nodes, its visible rows, and the two cursors.
#[verifier::ext_equal]
pub ghost struct TreeModel {
    pub nodes: Seq<NodeModel>,
    pub visible_rows: Seq<TreeNodeId>,
    pub selected_id: Option<TreeNodeId>,
    pub focused_id: Option<TreeNodeId>,
}

impl TreeModel {
    /// A tree without nodes.
    pub open spec fn blank() -> TreeModel {
        TreeModel {
            nodes: Seq::empty(),
            visible_rows: Seq::empty(),
            selected_id: None,
            focused_id: None,
        }
    }

    /// No node is its own ancestor, and the rows show the nodes as expanded.
    #[verifier::opaque]
    pub open spec fn wf(self) -> bool {
        acyclic(self.nodes) && self.visible_rows == flattened(self.nodes)
    }

    /// The first node with this identifier.
    pub open spec fn node(self, id: TreeNodeId) -> Option<NodeModel> {
        match find_from(self.nodes, id, 0) {
            Some(i) => Some(self.nodes[i]),
            None => None,
        }
    }

    /// The tree with one directory opened or closed.
    pub open spec fn with_expanded(self, id: TreeNodeId, open: bool) -> TreeModel {
        let i = find_from(self.nodes, id, 0)->0;
        let nodes = self.nodes.update(i, TreeNode { is_expanded: open, ..self.nodes[i] });
        TreeModel { nodes, visible_rows: flattened(nodes), ..self }
    }

    /// Why a node cannot be opened or closed, if it cannot.
    pub open spec fn refusal(self, id: TreeNodeId) -> Option<TreeError> {
        match self.node(id) {
            None => Some(TreeError::NodeNotFound),
            Some(node) => if node.kind is Directory {
                None
            } else {
                Some(TreeError::CannotExpandFile)
            },
        }
    }

    /// The tree after opening or closing, unchanged when that is refused.
    pub open spec fn set_expanded(self, id: TreeNodeId, open: bool) -> TreeModel {
        if self.refusal(id) is None {
            self.with_expanded(id, open)
        } else {
            self
        }
    }

    pub open spec fn toggle(self, id: TreeNodeId) -> TreeModel {
        match self.node(id) {
            Some(node) => self.set_expanded(id, !node.is_expanded),
            None => self,
        }
    }

    pub open spec fn select(self, id: TreeNodeId) -> TreeModel {
        if self.node(id) is Some {
            TreeModel { selected_id: Some(id), focused_id: Some(id), ..self }
        } else {
            self
        }
    }

    /// The row of the focused node, if it is visible.
    pub open spec fn focused_row(self) -> Option<usize> {
        match self.focused_id {
            Some(id) => row_from(self.visible_rows, id, 0),
            None => None,
        }
    }

    /// The tree with the focus on a row.
    pub open spec fn focus_row(self, row: Option<usize>) -> TreeModel {
        if self.visible_rows.len() == 0 {
            self
        } else {
            TreeModel { focused_id: Some(self.visible_rows[row->0 as int]), ..self }
        }
    }

    pub open spec fn move_up(self) -> TreeModel {
        self.focus_row(row_before(self.focused_row(), self.visible_rows.len()))
    }

    pub open spec fn move_down(self) -> TreeModel {
        self.focus_row(row_after(self.focused_row(), self.visible_rows.len()))
    }

    /// The node that has the focus.
    pub open spec fn focused_node(self) -> Option<NodeModel> {
        match self.focused_id {
            Some(id) => self.node(id),
            None => None,
        }
    }

    /// An open directory closes; anything else hands the focus to its parent.
    pub open spec fn move_left(self) -> TreeModel {
        match self.focused_node() {
            None => self,
            Some(node) => if node.kind is Directory && node.is_expanded {
                self.set_expanded(self.focused_id->0, false)
            } else if node.parent_id is Some {
                TreeModel { focused_id: node.parent_id, ..self }
            } else {
                self
            },
        }
    }

    /// A closed directory opens; an open one hands the focus to its first child.
    pub open spec fn move_right(self) -> TreeModel {
        match self.focused_node() {
            None => self,
            Some(node) => if node.kind is Directory && !node.is_expanded {
                self.set_expanded(self.focused_id->0, true)
            } else if node.kind is Directory {
                match child_from(self.nodes, self.focused_id->0, 0) {
                    Some(i) => TreeModel { focused_id: Some(self.nodes[i].id), ..self },
                    None => self,
                }
            } else {
                self
            },
        }
    }
}

/// The conventional hierarchical tree projection.
#[derive(Debug, PartialEq)]
pub struct TreeProjection {
    nodes: Vec<TreeNode>,
    visible_rows: Vec<TreeNodeId>,
    selected_id: Option<TreeNodeId>,
    focused_id: Option<TreeNodeId>,
}

impl View for TreeProjection {
    type V = TreeModel;

    closed spec fn view(&self) -> TreeModel {
        TreeModel {
            nodes: views(self.nodes@),
            visible_rows: self.visible_rows@,
            selected_id: self.selected_id,
            focused_id: self.focused_id,
        }
    }
}

impl Default for TreeProjection {
    fn default() -> (r: Self)
        ensures
            r@.wf(),
            r@ == TreeModel::blank(),
    {
        proof {
            reveal(TreeModel::wf);
        }
        let r = TreeProjection {
            nodes: Vec::new(),
            visible_rows: Vec::new(),
            selected_id: None,
            focused_id: None,
        };
        proof {
            assert(ranked(r@.nodes, |id: TreeNodeId| 0nat));
            assert(r@.visible_rows =~= flattened(r@.nodes));
            assert(r@ =~= TreeModel::blank());
        }
        r
    }
}

impl TreeProjection {
    pub fn new() -> (r: Self)
        ensures
            r@.wf(),
            r@ == TreeModel::blank(),
    {
        proof {
            reveal(TreeModel::wf);
        }
        TreeProjection::default()
    }

    /// A tree over these nodes, with the focus on the first visible row. No
    /// node may be its own ancestor.
    pub fn with_nodes(nodes: Vec<TreeNode>) -> (r: Self)
        requires
            acyclic(views(nodes@)),
        ensures
            r@.wf(),
            r@.nodes == views(nodes@),
            r@.selected_id is None,
            r@.focused_id == if r@.visible_rows.len() == 0 {
                None
            } else {
                Some(r@.visible_rows[0])
            },
    {
        proof {
            reveal(TreeModel::wf);
        }
        let mut tree = TreeProjection {
            nodes,
            visible_rows: Vec::new(),
            selected_id: None,
            focused_id: None,
        };
        tree.rebuild_visible_rows();
        if tree.visible_rows.len() > 0 {
            tree.focused_id = Some(tree.visible_rows[0]);
        }
        tree
    }

    pub fn nodes(&self) -> (r: &Vec<TreeNode>)
        ensures
            views(r@) == self@.nodes,
    {
        &self.nodes
    }

    pub fn visible_rows(&self) -> (r: &Vec<TreeNodeId>)
        ensures
            r@ == self@.visible_rows,
    {
        &self.visible_rows
    }

    pub fn selected_id(&self) -> (r: Option<TreeNodeId>)
        ensures
            r == self@.selected_id,
    {
        self.selected_id
    }

    pub fn focused_id(&self) -> (r: Option<TreeNodeId>)
        ensures
            r == self@.focused_id,
    {
        self.focused_id
    }

    fn position(&self, id: TreeNodeId) -> (r: Option<usize>)
        ensures
            r is Some <==> find_from(self@.nodes, id, 0) is Some,
            r matches Some(i) ==> Some(i as int) == find_from(self@.nodes, id, 0) && i
                < self.nodes.len(),
    {
        let mut i: usize = 0;
        while i < self.nodes.len()
            invariant
                i <= self.nodes.len(),
                find_from(self@.nodes, id, 0) == find_from(self@.nodes, id, i as int),
            decreases self.nodes.len() - i,
        {
            if self.nodes[i].id == id {
                return Some(i);
            }
            i = i + 1;
        }
        None
    }

    pub fn get_node(&self, id: TreeNodeId) -> (r: Option<&TreeNode>)
        ensures
            r is Some <==> self@.node(id) is Some,
            r matches Some(node) ==> Some(node@) == self@.node(id),
    {
        match self.position(id) {
            Some(i) => Some(&self.nodes[i]),
            None => None,
        }
    }

    /// The first node at a path.
    pub fn find_by_path(&self, path: &String) -> (r: Option<&TreeNode>)
        ensures
            match r {
                Some(node) => exists|i: int|
                    0 <= i < self@.nodes.len() && #[trigger] self@.nodes[i] == node@
                        && self@.nodes[i].path == path@ && forall|j: int|
                        0 <= j < i ==> #[trigger] self@.nodes[j].path != path@,
                None => forall|j: int|
                    0 <= j < self@.nodes.len() ==> #[trigger] self@.nodes[j].path != path@,
            },
    {
        let mut i: usize = 0;
        while i < self.nodes.len()
            invariant
                i <= self.nodes.len(),
                forall|j: int| 0 <= j < i ==> #[trigger] self@.nodes[j].path != path@,
            decreases self.nodes.len() - i,
        {
            if self.nodes[i].path == *path {
                assert(self@.nodes[i as int] == self.nodes@[i as int]@);
                return Some(&self.nodes[i]);
            }
            i = i + 1;
        }
        None
    }

    /// Rebuilds the flattened list of visible rows based on parent expansion state.
    pub fn rebuild_visible_rows(&mut self)
        requires
            acyclic(old(self)@.nodes),
        ensures
            final(self)@ == (TreeModel {
                visible_rows: flattened(old(self)@.nodes),
                ..old(self)@
            }),
            final(self)@.wf(),
    {
        proof {
            reveal(TreeModel::wf);
        }
        let mut visible: Vec<TreeNodeId> = Vec::new();
        let ghost height = height_of(self@.nodes);
        self.collect_visible(None, &mut visible, Ghost(height));
        self.visible_rows = visible;
        assert(self@.visible_rows =~= flattened(self@.nodes));
    }

    fn collect_visible(
        &self,
        parent_id: Option<TreeNodeId>,
        out: &mut Vec<TreeNodeId>,
        Ghost(height): Ghost<spec_fn(TreeNodeId) -> nat>,
    )
        requires
            ranked(self@.nodes, height),
        ensures
            final(out)@ == old(out)@ + rows_below(self@.nodes, height, parent_id, 0),
        decreases
                if parent_id is None {
                    1int
                } else {
                    0int
                },
                match parent_id {
                    Some(p) => height(p),
                    None => 0,
                },
    {
        let ghost all = out@ + rows_below(self@.nodes, height, parent_id, 0);
        let mut i: usize = 0;
        while i < self.nodes.len()
            invariant
                i <= self.nodes.len(),
                ranked(self@.nodes, height),
                all == out@ + rows_below(self@.nodes, height, parent_id, i as int),
            decreases self.nodes.len() - i,
        {
            let node = &self.nodes[i];
            let ghost before = out@;
            if same_parent(node.parent_id, parent_id) {
                assert(self@.nodes[i as int].parent_id == parent_id);
                out.push(node.id);
                if node.is_directory() && node.is_expanded {
                    self.collect_visible(Some(node.id), out, Ghost(height));
                }
                assert(all =~= out@ + rows_below(self@.nodes, height, parent_id, i + 1));
            }
            i = i + 1;
        }
        assert(all =~= out@);
    }

    /// Expand a directory node. Returns error if node is a file.
    pub fn expand(&mut self, id: TreeNodeId) -> (r: Result<(), TreeError>)
        requires
            old(self)@.wf(),
        ensures
            final(self)@.wf(),
            final(self)@ == old(self)@.set_expanded(id, true),
            r == match old(self)@.refusal(id) {
                None => Ok::<(), TreeError>(()),
                Some(e) => Err::<(), TreeError>(e),
            },
    {
        proof {
            reveal(TreeModel::wf);
        }
        self.set_expanded(id, true)
    }

    /// Collapse a directory node.
    pub fn collapse(&mut self, id: TreeNodeId) -> (r: Result<(), TreeError>)
        requires
            old(self)@.wf(),
        ensures
            final(self)@.wf(),
            final(self)@ == old(self)@.set_expanded(id, false),
            r == match old(self)@.refusal(id) {
                None => Ok::<(), TreeError>(()),
                Some(e) => Err::<(), TreeError>(e),
            },
    {
        proof {
            reveal(TreeModel::wf);
        }
        self.set_expanded(id, false)
    }

    fn set_expanded(&mut self, id: TreeNodeId, open: bool) -> (r: Result<(), TreeError>)
        requires
            old(self)@.wf(),
        ensures
            final(self)@.wf(),
            final(self)@ == old(self)@.set_expanded(id, open),
            r == match old(self)@.refusal(id) {
                None => Ok::<(), TreeError>(()),
                Some(e) => Err::<(), TreeError>(e),
            },
    {
        proof {
            reveal(TreeModel::wf);
        }
        let i: usize = match self.position(id) {
            Some(i) => i,
            None => {
                return Err(TreeError::NodeNotFound);
            },
        };
        if !self.nodes[i].is_directory() {
            return Err(TreeError::CannotExpandFile);
        }
        self.nodes[i].is_expanded = open;
        proof {
            let updated = old(self)@.nodes.update(
                i as int,
                TreeNode { is_expanded: open, ..old(self)@.nodes[i as int] },
            );
            assert(self@.nodes =~= updated);
            let height = height_of(old(self)@.nodes);
            assert forall|j: int| 0 <= j < updated.len() implies (
            #[trigger] updated[j].parent_id matches Some(p) ==> height(updated[j].id) < height(p))
                by {
                assert(updated[j].parent_id == old(self)@.nodes[j].parent_id);
            }
            assert(ranked(updated, height));
        }
        self.rebuild_visible_rows();
        Ok(())
    }

    /// Toggle expansion state of a directory node.
    pub fn toggle(&mut self, id: TreeNodeId) -> (r: Result<(), TreeError>)
        requires
            old(self)@.wf(),
        ensures
            final(self)@.wf(),
            final(self)@ == old(self)@.toggle(id),
            r == match old(self)@.refusal(id) {
                None => Ok::<(), TreeError>(()),
                Some(e) => Err::<(), TreeError>(e),
            },
    {
        proof {
            reveal(TreeModel::wf);
        }
        let expanded: bool = match self.get_node(id) {
            Some(node) => node.is_expanded,
            None => {
                return Err(TreeError::NodeNotFound);
            },
        };
        if expanded {
            self.collapse(id)
        } else {
            self.expand(id)
        }
    }

    /// Select a specific node by ID.
    pub fn select(&mut self, id: TreeNodeId) -> (r: Option<&TreeNode>)
        requires
            old(self)@.wf(),
        ensures
            final(self)@.wf(),
            final(self)@ == old(self)@.select(id),
            r is Some <==> old(self)@.node(id) is Some,
            r matches Some(node) ==> Some(node@) == old(self)@.node(id),
    {
        proof {
            reveal(TreeModel::wf);
        }
        match self.position(id) {
            Some(i) => {
                self.selected_id = Some(id);
                self.focused_id = Some(id);
                Some(&self.nodes[i])
            },
            None => None,
        }
    }

    fn row_of_focus(&self) -> (r: Option<usize>)
        ensures
            r == self@.focused_row(),
            r matches Some(row) ==> row < self@.visible_rows.len(),
    {
        match self.focused_id {
            Some(id) => {
                let mut i: usize = 0;
                while i < self.visible_rows.len()
                    invariant
                        i <= self.visible_rows.len(),
                        self.focused_id == Some(id),
                        row_from(self@.visible_rows, id, 0) == row_from(
                            self@.visible_rows,
                            id,
                            i as int,
                        ),
                    decreases self.visible_rows.len() - i,
                {
                    if self.visible_rows[i] == id {
                        return Some(i);
                    }
                    i = i + 1;
                }
                None
            },
            None => None,
        }
    }

    /// Set focus to the previous visible row.
    pub fn move_up(&mut self) -> (r: Option<&TreeNode>)
        requires
            old(self)@.wf(),
        ensures
            final(self)@.wf(),
            final(self)@ == old(self)@.move_up(),
            r is Some <==> old(self)@.visible_rows.len() > 0 && final(self)@.focused_node() is Some,
            r matches Some(node) ==> Some(node@) == final(self)@.focused_node(),
    {
        proof {
            reveal(TreeModel::wf);
        }
        if self.visible_rows.len() == 0 {
            return None;
        }
        let next: usize = match self.row_of_focus() {
            Some(row) => if row > 0 {
                row - 1
            } else {
                0
            },
            None => 0,
        };
        let target: TreeNodeId = self.visible_rows[next];
        self.focused_id = Some(target);
        self.get_node(target)
    }

    /// Set focus to the next visible row.
    pub fn move_down(&mut self) -> (r: Option<&TreeNode>)
        requires
            old(self)@.wf(),
        ensures
            final(self)@.wf(),
            final(self)@ == old(self)@.move_down(),
            r is Some <==> old(self)@.visible_rows.len() > 0 && final(self)@.focused_node() is Some,
            r matches Some(node) ==> Some(node@) == final(self)@.focused_node(),
    {
        proof {
            reveal(TreeModel::wf);
        }
        if self.visible_rows.len() == 0 {
            return None;
        }
        let next: usize = match self.row_of_focus() {
            Some(row) => if row + 1 < self.visible_rows.len() {
                row + 1
            } else {
                self.visible_rows.len() - 1
            },
            None => 0,
        };
        let target: TreeNodeId = self.visible_rows[next];
        self.focused_id = Some(target);
        self.get_node(target)
    }

    /// Handle Left arrow: if expanded directory, collapse it; if collapsed or file, jump to parent.
    pub fn move_left(&mut self) -> (r: Option<&TreeNode>)
        requires
            old(self)@.wf(),
        ensures
            final(self)@.wf(),
            final(self)@ == old(self)@.move_left(),
            r is Some <==> old(self)@.focused_node() is Some && final(self)@.focused_node() is Some,
            r matches Some(node) ==> Some(node@) == final(self)@.focused_node(),
    {
        proof {
            reveal(TreeModel::wf);
        }
        let focused: TreeNodeId = match self.focused_id {
            Some(id) => id,
            None => {
                return None;
            },
        };
        let i: usize = match self.position(focused) {
            Some(i) => i,
            None => {
                return None;
            },
        };
        if self.nodes[i].is_directory() && self.nodes[i].is_expanded {
            let _ = self.collapse(focused);
            self.get_node(focused)
        } else {
            match self.nodes[i].parent_id {
                Some(parent) => {
                    self.focused_id = Some(parent);
                    self.get_node(parent)
                },
                None => Some(&self.nodes[i]),
            }
        }
    }

    fn first_child(&self, parent: TreeNodeId) -> (r: Option<usize>)
        ensures
            r is Some <==> child_from(self@.nodes, parent, 0) is Some,
            r matches Some(i) ==> Some(i as int) == child_from(self@.nodes, parent, 0) && i
                < self.nodes.len(),
    {
        let mut i: usize = 0;
        while i < self.nodes.len()
            invariant
                i <= self.nodes.len(),
                child_from(self@.nodes, parent, 0) == child_from(self@.nodes, parent, i as int),
            decreases self.nodes.len() - i,
        {
            if same_parent(self.nodes[i].parent_id, Some(parent)) {
                return Some(i);
            }
            i = i + 1;
        }
        None
    }

    /// Handle Right arrow: if collapsed directory, expand it; if expanded, move to first child.
    pub fn move_right(&mut self) -> (r: Option<&TreeNode>)
        requires
            old(self)@.wf(),
        ensures
            final(self)@.wf(),
            final(self)@ == old(self)@.move_right(),
            r is Some <==> old(self)@.focused_node() is Some,
            r matches Some(node) ==> node@ == match child_from(
                old(self)@.nodes,
                old(self)@.focused_id->0,
                0,
            ) {
                Some(i) if old(self)@.focused_node()->0.kind is Directory
                    && old(self)@.focused_node()->0.is_expanded => old(self)@.nodes[i],
                _ => final(self)@.focused_node()->0,
            },
    {
        proof {
            reveal(TreeModel::wf);
        }
        let focused: TreeNodeId = match self.focused_id {
            Some(id) => id,
            None => {
                return None;
            },
        };
        let i: usize = match self.position(focused) {
            Some(i) => i,
            None => {
                return None;
            },
        };
        if self.nodes[i].is_directory() && !self.nodes[i].is_expanded {
            let _ = self.expand(focused);
            proof {
                lemma_update_keeps_position(
                    old(self)@.nodes,
                    i as int,
                    TreeNode { is_expanded: true, ..old(self)@.nodes[i as int] },
                    focused,
                    0,
                );
            }
            self.get_node(focused)
        } else if self.nodes[i].is_directory() {
            if let Some(j) = self.first_child(focused) {
                self.focused_id = Some(self.nodes[j].id);
                return Some(&self.nodes[j]);
            }
            Some(&self.nodes[i])
        } else {
            Some(&self.nodes[i])
        }
    }
}

fn same_parent(a: Option<TreeNodeId>, b: Option<TreeNodeId>) -> (r: bool)
    ensures
        r == (a == b),
{
    match (a, b) {
        (Some(x), Some(y)) => x == y,
        (None, None) => true,
        _ => false,
    }
}

/// Rewriting a node without renaming it leaves every first position in place.
proof fn lemma_update_keeps_position(
    nodes: Seq<NodeModel>,
    at: int,
    node: NodeModel,
    id: TreeNodeId,
    i: int,
)
    requires
        0 <= at < nodes.len(),
        node.id == nodes[at].id,
        0 <= i,
    ensures
        find_from(nodes.update(at, node), id, i) == find_from(nodes, id, i),
    decreases nodes.len() - i,
{
    if i < nodes.len() {
        lemma_update_keeps_position(nodes, at, node, id, i + 1);
    }
}

proof fn lemma_found(nodes: Seq<NodeModel>, id: TreeNodeId, i: int)
    requires
        0 <= i,
        find_from(nodes, id, i) is Some,
    ensures
        i <= find_from(nodes, id, i)->0 < nodes.len(),
        nodes[find_from(nodes, id, i)->0].id == id,
    decreases nodes.len() - i,
{
    if i < nodes.len() && nodes[i].id != id {
        lemma_found(nodes, id, i + 1);
    }
}

/// Opening a closed directory and closing it again changes nothing.
pub proof fn collapse_undoes_expand(tree: TreeModel, id: TreeNodeId)
    requires
        tree.wf(),
        tree.refusal(id) is None,
        !tree.node(id)->0.is_expanded,
    ensures
        tree.set_expanded(id, true).set_expanded(id, false) == tree,
{
    reveal(TreeModel::wf);
    let i = find_from(tree.nodes, id, 0)->0;
    lemma_found(tree.nodes, id, 0);
    let opened = TreeNode { is_expanded: true, ..tree.nodes[i] };
    lemma_update_keeps_position(tree.nodes, i, opened, id, 0);
    let again = tree.set_expanded(id, true).set_expanded(id, false);
    assert(again.nodes =~= tree.nodes);
}

/// Moving the keyboard focus never changes the selection or the nodes' places.
pub proof fn moves_keep_selection(tree: TreeModel)
    ensures
        tree.move_up().selected_id == tree.selected_id,
        tree.move_down().selected_id == tree.selected_id,
        tree.move_left().selected_id == tree.selected_id,
        tree.move_right().selected_id == tree.selected_id,
        tree.move_up().nodes == tree.nodes,
        tree.move_down().nodes == tree.nodes,
{
}

} // verus!
