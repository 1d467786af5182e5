//! The lock graph: its nodes, their inputs, and the inputs of its root.

use vstd::prelude::*;
use crate::error::ModelError;
use crate::name_map::ascending;
use crate::name_map::holds;
use crate::name_map::lemma_same_names;
use crate::name_map::lookup;
use crate::name_map::Name;
use crate::name_map::named;
use crate::name_map::NameMap;
use crate::nix::ResolvedUrl;
use crate::nix::ResolvedUrlView;
use crate::outcome::collected;
use crate::outcome::lemma_collected_error;
use crate::outcome::lemma_collected_is_ok;
use crate::outcome::lemma_collected_values;
use crate::outcome::values;

verus! {

/// The name of a node of the lock graph.
#[derive(Debug, PartialEq, Eq, PartialOrd, Ord, Hash)]
pub struct NodeName(pub String);

/// The name of an input of a node.
#[derive(Debug, PartialEq, Eq, PartialOrd, Ord, Hash)]
pub struct InputName(pub String);

/// What an input of a node refers to.
#[derive(Debug, PartialEq, Eq)]
pub enum InputRef {
    /// The input is a node of its own.
    NodeRef(NodeName),
    /// The input is an alias: it follows the chain of names.
    Follows(Vec<NodeName>),
}

/// The nodes of a lock graph, by name.
pub type NodeMap = NameMap<NodeName, Node>;

/// The inputs of a node, by name.
pub type InputMap = NameMap<InputName, InputRef>;

/// A node of the lock graph. A node without inputs is a leaf.
#[derive(Debug, PartialEq, Eq)]
pub struct Node {
    pub inputs: Option<InputMap>,
}

/// The nodes of a locked dependency graph and the name of its root.
#[derive(Debug, PartialEq, Eq)]
pub struct Locks {
    pub nodes: NodeMap,
    pub root: NodeName,
}

/// What is known of a flake: its lock graph and the address it was resolved
/// to.
#[derive(Debug, PartialEq, Eq)]
pub struct Metadata {
    pub locks: Locks,
    pub resolved_url: ResolvedUrl,
}

impl View for NodeName {
    type V = Seq<char>;

    open spec fn view(&self) -> Seq<char> {
        self.0@
    }
}

impl View for InputName {
    type V = Seq<char>;

    open spec fn view(&self) -> Seq<char> {
        self.0@
    }
}

impl Name for NodeName {
    open spec fn spelling(&self) -> Seq<char> {
        self.0@
    }

    fn as_str(&self) -> (text: &str) {
        self.0.as_str()
    }

    fn duplicate(&self) -> (copy: Self) {
        NodeName(self.0.clone())
    }
}

impl Name for InputName {
    open spec fn spelling(&self) -> Seq<char> {
        self.0@
    }

    fn as_str(&self) -> (text: &str) {
        self.0.as_str()
    }

    fn duplicate(&self) -> (copy: Self) {
        InputName(self.0.clone())
    }
}

impl Clone for NodeName {
    fn clone(&self) -> (copy: Self)
        ensures
            copy == *self,
    {
        NodeName(self.0.clone())
    }
}

impl Clone for InputName {
    fn clone(&self) -> (copy: Self)
        ensures
            copy == *self,
    {
        InputName(self.0.clone())
    }
}

/// What an input refers to, as plain values.
pub enum InputRefView {
    NodeRef(Seq<char>),
    Follows(Seq<Seq<char>>),
}

/// The inputs of a node as plain values, in the order of their names.
pub type InputsView = Seq<(Seq<char>, InputRefView)>;

/// A node as plain values.
pub struct NodeView {
    pub inputs: Option<InputsView>,
}

/// The nodes of a graph as plain values, in the order of their names.
pub type NodesView = Seq<(Seq<char>, NodeView)>;

/// A lock graph as plain values.
pub struct LocksView {
    pub nodes: NodesView,
    pub root: Seq<char>,
}

/// The spellings of a chain of node names.
pub open spec fn chain_view(chain: Seq<NodeName>) -> Seq<Seq<char>> {
    chain.map_values(|name: NodeName| name@)
}

/// The entries of an input map as plain values.
pub open spec fn inputs_view(entries: Seq<(Seq<char>, InputRef)>) -> InputsView {
    entries.map_values(|entry: (Seq<char>, InputRef)| (entry.0, entry.1@))
}

/// The entries of a node map as plain values.
pub open spec fn nodes_view(entries: Seq<(Seq<char>, Node)>) -> NodesView {
    entries.map_values(|entry: (Seq<char>, Node)| (entry.0, entry.1@))
}

impl View for InputRef {
    type V = InputRefView;

    open spec fn view(&self) -> InputRefView {
        match self {
            InputRef::NodeRef(name) => InputRefView::NodeRef(name@),
            InputRef::Follows(chain) => InputRefView::Follows(chain_view(chain@)),
        }
    }
}

impl View for Node {
    type V = NodeView;

    open spec fn view(&self) -> NodeView {
        NodeView {
            inputs: match self.inputs {
                Some(inputs) => Some(inputs_view(inputs@)),
                None => None,
            },
        }
    }
}

impl View for Locks {
    type V = LocksView;

    open spec fn view(&self) -> LocksView {
        LocksView { nodes: nodes_view(self.nodes@), root: self.root@ }
    }
}

/// What is known of a flake, as plain values.
pub struct MetadataView {
    pub locks: LocksView,
    pub resolved_url: ResolvedUrlView,
}

impl View for Metadata {
    type V = MetadataView;

    open spec fn view(&self) -> MetadataView {
        MetadataView { locks: self.locks@, resolved_url: self.resolved_url@ }
    }
}

impl Clone for InputRef {
    fn clone(&self) -> (copy: Self)
        ensures
            copy@ == self@,
    {
        match self {
            InputRef::NodeRef(name) => InputRef::NodeRef(name.clone()),
            InputRef::Follows(chain) => {
                let copy = chain.clone();
                assert(chain_view(copy@) =~= chain_view(chain@));
                InputRef::Follows(copy)
            },
        }
    }
}

impl Clone for Node {
    fn clone(&self) -> (copy: Self)
        ensures
            copy@ == self@,
    {
        match &self.inputs {
            Some(inputs) => {
                let copy = inputs.clone();
                assert(inputs_view(copy@) =~= inputs_view(inputs@));
                Node { inputs: Some(copy) }
            },
            None => Node { inputs: None },
        }
    }
}

impl Clone for Locks {
    fn clone(&self) -> (copy: Self)
        ensures
            copy@ == self@,
    {
        let nodes = self.nodes.clone();
        assert(nodes_view(nodes@) =~= nodes_view(self.nodes@));
        Locks { nodes, root: self.root.clone() }
    }
}

impl Clone for Metadata {
    fn clone(&self) -> (copy: Self)
        ensures
            copy@ == self@,
    {
        Metadata { locks: self.locks.clone(), resolved_url: self.resolved_url.clone() }
    }
}

/// The inputs of the root, each with the node that it stands for, as plain
/// values.
pub type RootInputsView = Seq<(Seq<char>, NodeView)>;

/// The node behind an input of the root. An input of the root must name a
/// node of the graph: it may not follow another input.
pub open spec fn resolve_input(nodes: NodesView, input: (Seq<char>, InputRefView)) -> Result<
    (Seq<char>, NodeView),
    ModelError,
> {
    match input.1 {
        InputRefView::NodeRef(target) => match lookup(nodes, target) {
            Some(node) => Ok((input.0, node)),
            None => Err(ModelError::DanglingReference),
        },
        InputRefView::Follows(_) => Err(ModelError::RootInputFollows),
    }
}

/// Each input with the node behind it.
pub open spec fn resolve_inputs(nodes: NodesView, inputs: InputsView) -> Seq<
    Result<(Seq<char>, NodeView), ModelError>,
> {
    inputs.map_values(|input: (Seq<char>, InputRefView)| resolve_input(nodes, input))
}

/// The inputs of the root of a lock graph, each with the node that it names,
/// in the order of the input names; or what is wrong with the graph: that it
/// lacks its root, or else what is wrong with the first input of the root
/// that cannot be resolved.
pub open spec fn root_inputs_of(locks: LocksView) -> Result<RootInputsView, ModelError> {
    match lookup(locks.nodes, locks.root) {
        None => Err(ModelError::MissingRoot),
        Some(root) => match root.inputs {
            None => Ok(Seq::empty()),
            Some(inputs) => collected(resolve_inputs(locks.nodes, inputs)),
        },
    }
}

/// A list of inputs with their nodes, as plain values.
pub open spec fn root_inputs_view(inputs: Seq<(InputName, Node)>) -> RootInputsView {
    inputs.map_values(|input: (InputName, Node)| (input.0@, input.1@))
}

/// What `get` finds in a node map is, as plain values, what `lookup` finds in
/// the nodes as plain values.
pub proof fn lemma_lookup_node(nodes: Seq<(Seq<char>, Node)>, name: Seq<char>)
    requires
        ascending(nodes),
    ensures
        ascending(nodes_view(nodes)),
        holds(nodes_view(nodes), name) == holds(nodes, name),
        lookup(nodes_view(nodes), name) == match lookup(nodes, name) {
            Some(node) => Some(node@),
            None => None,
        },
{
    lemma_same_names(nodes, nodes_view(nodes), name);
}

impl Metadata {
    /// The node that the graph names as its root.
    pub fn root_node(&self) -> (root: Result<Node, ModelError>)
        ensures
            match root {
                Ok(node) => lookup(self@.locks.nodes, self@.locks.root) == Some(node@),
                Err(error) => error == ModelError::MissingRoot && lookup(
                    self@.locks.nodes,
                    self@.locks.root,
                ) is None,
            },
    {
        match self.locks.nodes.get(&self.locks.root) {
            Some(node) => {
                proof {
                    lemma_lookup_node(self.locks.nodes@, self.locks.root@);
                }
                Ok(node.clone())
            },
            None => {
                proof {
                    lemma_lookup_node(self.locks.nodes@, self.locks.root@);
                }
                Err(ModelError::MissingRoot)
            },
        }
    }

    /// The inputs of the root, each with the node that it names, in the
    /// order of the input names.
    ///
    /// Fails if the graph lacks its root, and at the first input of the root
    /// that follows another input or names a node that the graph lacks.
    pub fn root_inputs(&self) -> (inputs: Result<Vec<(InputName, Node)>, ModelError>)
        ensures
            match inputs {
                Ok(resolved) => root_inputs_of(self@.locks) == Ok::<RootInputsView, ModelError>(
                    root_inputs_view(resolved@),
                ),
                Err(error) => root_inputs_of(self@.locks) == Err::<RootInputsView, ModelError>(error),
            },
    {
        let ghost nodes = self@.locks.nodes;
        let found = self.locks.nodes.get(&self.locks.root);
        proof {
            lemma_lookup_node(self.locks.nodes@, self.locks.root@);
        }
        let root = match found {
            Some(node) => node,
            None => {
                return Err(ModelError::MissingRoot);
            },
        };
        let input_map = match &root.inputs {
            Some(input_map) => input_map,
            None => {
                let resolved: Vec<(InputName, Node)> = Vec::new();
                assert(root_inputs_view(resolved@) =~= Seq::empty());
                return Ok(resolved);
            },
        };
        let entries = input_map.entries();
        let ghost inputs = inputs_view(input_map@);
        let ghost outcomes = resolve_inputs(nodes, inputs);
        let mut resolved: Vec<(InputName, Node)> = Vec::new();
        let mut i: usize = 0;
        while i < entries.len()
            invariant
                i <= entries@.len(),
                named(entries@) == input_map@,
                inputs == inputs_view(input_map@),
                nodes == nodes_view(self.locks.nodes@),
                outcomes == resolve_inputs(nodes, inputs),
                ascending(self.locks.nodes@),
                root_inputs_of(self@.locks) == collected(outcomes),
                resolved@.len() == i,
                forall|j: int|
                    0 <= j < i ==> (#[trigger] outcomes[j]) == Ok::<(Seq<char>, NodeView), ModelError>(
                        (resolved@[j].0@, resolved@[j].1@),
                    ),
            decreases entries@.len() - i,
        {
            assert(inputs[i as int] == (entries@[i as int].0@, entries@[i as int].1@));
            match &entries[i].1 {
                InputRef::NodeRef(node_name) => {
                    let found = self.locks.nodes.get(node_name);
                    proof {
                        lemma_lookup_node(self.locks.nodes@, node_name@);
                    }
                    match found {
                        Some(node) => {
                            resolved.push((entries[i].0.clone(), node.clone()));
                        },
                        None => {
                            proof {
                                lemma_collected_error(outcomes, i as int);
                            }
                            return Err(ModelError::DanglingReference);
                        },
                    }
                },
                InputRef::Follows(_) => {
                    proof {
                        lemma_collected_error(outcomes, i as int);
                    }
                    return Err(ModelError::RootInputFollows);
                },
            }
            i += 1;
        }
        proof {
            lemma_collected_values(outcomes);
            assert(root_inputs_view(resolved@) =~= values(outcomes));
        }
        Ok(resolved)
    }

    /// The nodes of the graph, by name.
    pub fn nodes(&self) -> (nodes: NodeMap)
        ensures
            nodes_view(nodes@) == self@.locks.nodes,
    {
        let nodes = self.locks.nodes.clone();
        assert(nodes_view(nodes@) =~= nodes_view(self.locks.nodes@));
        nodes
    }
}

/// The inputs that the root of a lock graph declares; none where the graph
/// lacks its root or the root is a leaf.
pub open spec fn declared_root_inputs(locks: LocksView) -> InputsView {
    match lookup(locks.nodes, locks.root) {
        Some(root) => match root.inputs {
            Some(inputs) => inputs,
            None => Seq::empty(),
        },
        None => Seq::empty(),
    }
}

/// The inputs of the root that come out are exactly the inputs that the root
/// declares, one for one and in their order. Each of them names a node of the
/// graph and comes with that node: none of them follows another input.
pub proof fn lemma_root_inputs_are_direct(locks: LocksView, resolved: RootInputsView)
    requires
        root_inputs_of(locks) == Ok::<RootInputsView, ModelError>(resolved),
    ensures
        resolved.len() == declared_root_inputs(locks).len(),
        forall|i: int|
            0 <= i < resolved.len() ==> {
                let declared = #[trigger] declared_root_inputs(locks)[i];
                &&& declared.1 is NodeRef
                &&& resolved[i].0 == declared.0
                &&& lookup(locks.nodes, declared.1->NodeRef_0) == Some(resolved[i].1)
            },
{
    let declared = declared_root_inputs(locks);
    let outcomes = resolve_inputs(locks.nodes, declared);
    let root = lookup(locks.nodes, locks.root).unwrap();
    if root.inputs is Some {
        lemma_collected_is_ok(outcomes);
        assert forall|i: int| 0 <= i < resolved.len() implies {
            let input = #[trigger] declared[i];
            &&& input.1 is NodeRef
            &&& resolved[i].0 == input.0
            &&& lookup(locks.nodes, input.1->NodeRef_0) == Some(resolved[i].1)
        } by {
            assert(outcomes[i] is Ok);
            assert(resolved[i] == outcomes[i]->Ok_0);
        }
    }
}

/// Where an input of the root follows another input, no inputs come out at
/// all: neither the others nor an empty list.
pub proof fn lemma_root_alias_is_fatal(locks: LocksView, at: int)
    requires
        0 <= at < declared_root_inputs(locks).len(),
        declared_root_inputs(locks)[at].1 is Follows,
    ensures
        root_inputs_of(locks) is Err,
{
    let declared = declared_root_inputs(locks);
    let outcomes = resolve_inputs(locks.nodes, declared);
    lemma_collected_is_ok(outcomes);
    assert(outcomes[at] is Err);
}

/// Unless an input of the root names the root, the root is not among the
/// nodes that come out: each of them is found in the graph under a name other
/// than that of the root.
pub proof fn lemma_root_inputs_exclude_root(locks: LocksView, resolved: RootInputsView)
    requires
        root_inputs_of(locks) == Ok::<RootInputsView, ModelError>(resolved),
        forall|i: int|
            0 <= i < declared_root_inputs(locks).len() ==> (#[trigger] declared_root_inputs(
                locks,
            )[i]).1 != InputRefView::NodeRef(locks.root),
    ensures
        forall|i: int|
            0 <= i < resolved.len() ==> exists|name: Seq<char>|
                name != locks.root && #[trigger] lookup(locks.nodes, name) == Some(
                    (#[trigger] resolved[i]).1,
                ),
{
    lemma_root_inputs_are_direct(locks, resolved);
    assert forall|i: int| 0 <= i < resolved.len() implies exists|name: Seq<char>|
        name != locks.root && #[trigger] lookup(locks.nodes, name) == Some(
            (#[trigger] resolved[i]).1,
        ) by {
        let declared = declared_root_inputs(locks)[i];
        let name = declared.1->NodeRef_0;
        assert(declared.1 == InputRefView::NodeRef(name));
        assert(name != locks.root && lookup(locks.nodes, name) == Some(resolved[i].1));
    }
}

} // verus!
