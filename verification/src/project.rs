//! The project model: a declarative description of the instance tree.
//!
//! A project names its root node; each node names a class, a path on disk
//! whose snapshot becomes the node, or both, and holds child nodes by name.

use vstd::prelude::*;
use crate::path::{option_text, str_eq};
use crate::value::{copy_option_str, copy_props, option_str_eq, prop_pairs, props_identical, Value, ValueView};

verus! {

/// One node of a project tree.
#[derive(Debug, PartialEq, Eq)]
pub struct ProjectNode {
    /// The class of the instance, where the project states it.
    pub class_name: Option<String>,
    /// The path on disk whose snapshot becomes this node.
    pub path: Option<String>,
    /// The child nodes, by instance name, in order.
    pub children: Vec<(String, ProjectNode)>,
    /// The properties that the project sets on the instance.
    pub properties: Vec<(String, Value)>,
    /// Whether instances that the source does not describe are left alone.
    pub ignore_unknown_instances: Option<bool>,
}

/// What a [`ProjectNode`] holds.
pub struct ProjectNodeView {
    pub class_name: Option<Seq<char>>,
    pub path: Option<Seq<char>>,
    pub children: Seq<(Seq<char>, ProjectNodeView)>,
    pub properties: Seq<(Seq<char>, ValueView)>,
    pub ignore_unknown_instances: Option<bool>,
}

/// The view of a project node, level by level.
pub open spec fn project_node_view(n: ProjectNode) -> ProjectNodeView
    decreases n,
{
    ProjectNodeView {
        class_name: option_text(n.class_name),
        path: option_text(n.path),
        children: Seq::new(
            n.children@.len(),
            |i: int|
                if 0 <= i < n.children@.len() {
                    (n.children@[i].0@, project_node_view(n.children@[i].1))
                } else {
                    arbitrary()
                },
        ),
        properties: prop_pairs(n.properties@),
        ignore_unknown_instances: n.ignore_unknown_instances,
    }
}

impl View for ProjectNode {
    type V = ProjectNodeView;

    open spec fn view(&self) -> ProjectNodeView {
        project_node_view(*self)
    }
}

/// A node is usable when it names a class or a path.
pub open spec fn node_usable(n: ProjectNodeView) -> bool {
    n.class_name.is_some() || n.path.is_some()
}

impl ProjectNode {
    /// Whether two nodes describe the same tree.
    pub fn same(&self, other: &ProjectNode) -> (r: bool)
        ensures
            r == (self@ == other@),
        decreases self,
    {
        if !option_str_eq(&self.class_name, &other.class_name) {
            return false;
        }
        if !option_str_eq(&self.path, &other.path) {
            return false;
        }
        if !props_identical(&self.properties, &other.properties) {
            return false;
        }
        let flags_equal = match (self.ignore_unknown_instances, other.ignore_unknown_instances) {
            (Some(a), Some(b)) => a == b,
            (None, None) => true,
            _ => false,
        };
        if !flags_equal {
            return false;
        }
        if self.children.len() != other.children.len() {
            assert(self@.children.len() != other@.children.len());
            return false;
        }
        let mut i: usize = 0;
        while i < self.children.len()
            invariant
                0 <= i <= self.children.len(),
                self.children.len() == other.children.len(),
                forall|j: int|
                    0 <= j < i ==> self.children@[j].0@ == other.children@[j].0@
                        && self.children@[j].1@ == other.children@[j].1@,
            decreases self.children.len() - i,
        {
            if !str_eq(self.children[i].0.as_str(), other.children[i].0.as_str())
                || !self.children[i].1.same(&other.children[i].1) {
                assert(self@.children[i as int] != other@.children[i as int]);
                return false;
            }
            i = i + 1;
        }
        assert(self@.children =~= other@.children);
        true
    }
}

impl Clone for ProjectNode {
    fn clone(&self) -> (r: ProjectNode)
        ensures
            r@ == self@,
        decreases self,
    {
        let mut children: Vec<(String, ProjectNode)> = Vec::new();
        let mut i: usize = 0;
        while i < self.children.len()
            invariant
                0 <= i <= self.children.len(),
                children.len() == i,
                forall|j: int|
                    0 <= j < i ==> children@[j].0@ == self.children@[j].0@ && children@[j].1@
                        == self.children@[j].1@,
            decreases self.children.len() - i,
        {
            let child = self.children[i].1.clone();
            children.push((self.children[i].0.clone(), child));
            i = i + 1;
        }
        let r = ProjectNode {
            class_name: copy_option_str(&self.class_name),
            path: copy_option_str(&self.path),
            children,
            properties: copy_props(&self.properties),
            ignore_unknown_instances: self.ignore_unknown_instances,
        };
        assert(r@.children =~= self@.children);
        r
    }
}

/// A project: its name, its serving options and its root node.
#[derive(Debug, PartialEq, Eq)]
pub struct Project {
    pub name: String,
    pub serve_port: Option<u16>,
    pub serve_place_ids: Option<Vec<u64>>,
    pub glob_ignore_paths: Vec<String>,
    pub tree: ProjectNode,
    /// Where the project file was found.
    pub file_location: String,
}

/// The port that a project is served on when it names none.
pub const DEFAULT_PORT: u16 = 34872;

impl Project {
    /// The port to serve the project on.
    pub fn port(&self) -> (r: u16)
        ensures
            r == match self.serve_port {
                Some(p) => p,
                None => DEFAULT_PORT,
            },
    {
        match self.serve_port {
            Some(p) => p,
            None => DEFAULT_PORT,
        }
    }
}

} // verus!
