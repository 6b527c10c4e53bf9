//! Values exchanged by the matching plan interpreter, and its context.
use vstd::prelude::*;

use crate::http::{MultiMap, mmap_view, strs_view};
use crate::json::{JsonV, JsonValue};
use crate::xml::{XmlElement, XmlV};

verus! {

broadcast use vstd::std_specs::vec::group_vec_axioms;

/// A value that a resolver or a plan step produces.
#[allow(non_camel_case_types)]
#[derive(Debug, PartialEq, Eq)]
pub enum NodeValue {
    /// No value.
    NULL,
    /// A string.
    STRING(String),
    /// A list of strings.
    SLIST(Vec<String>),
    /// A list of values.
    LIST(Vec<NodeValue>),
    /// Names, each with a list of strings, in the order of the part they come from: query
    /// parameters as written, headers by lower-case name with later values winning.
    MMAP(Vec<(String, Vec<String>)>),
    /// Bytes.
    BARRAY(Vec<u8>),
    /// A JSON document.
    JSON(JsonValue),
    /// An XML element.
    XML(XmlElement),
}

/// The mathematical form of a [`NodeValue`].
#[allow(non_camel_case_types)]
pub enum NodeView {
    NULL,
    STRING(Seq<char>),
    SLIST(Seq<Seq<char>>),
    LIST(Seq<NodeView>),
    MMAP(MultiMap),
    BARRAY(Seq<u8>),
    JSON(JsonV),
    XML(XmlV),
}

pub open spec fn node_view(v: NodeValue) -> NodeView
    decreases v, 0nat,
{
    match v {
        NodeValue::NULL => NodeView::NULL,
        NodeValue::STRING(s) => NodeView::STRING(s@),
        NodeValue::SLIST(l) => NodeView::SLIST(strs_view(l@)),
        NodeValue::LIST(items) => NodeView::LIST(nodes_view(items, items@.len() as int)),
        NodeValue::MMAP(m) => NodeView::MMAP(mmap_view(m@)),
        NodeValue::BARRAY(b) => NodeView::BARRAY(b@),
        NodeValue::JSON(j) => NodeView::JSON(j@),
        NodeValue::XML(x) => NodeView::XML(x@),
    }
}

/// The views of the first `n` values.
pub open spec fn nodes_view(items: Vec<NodeValue>, n: int) -> Seq<NodeView>
    decreases items, n,
{
    if n <= 0 || n > items@.len() {
        Seq::empty()
    } else {
        nodes_view(items, n - 1).push(node_view(items@[n - 1]))
    }
}

impl View for NodeValue {
    type V = NodeView;

    open spec fn view(&self) -> NodeView {
        node_view(*self)
    }
}

pub open spec fn view_nodes(s: Seq<NodeValue>) -> Seq<NodeView> {
    s.map_values(|x: NodeValue| node_view(x))
}

proof fn lemma_nodes_view(items: Vec<NodeValue>, n: int)
    requires
        0 <= n <= items@.len(),
    ensures
        nodes_view(items, n) == view_nodes(items@.subrange(0, n)),
    decreases n,
{
    if n > 0 {
        lemma_nodes_view(items, n - 1);
        assert(view_nodes(items@.subrange(0, n)) =~= view_nodes(items@.subrange(0, n - 1)).push(node_view(items@[n - 1])));
    } else {
        assert(view_nodes(items@.subrange(0, n)) =~= Seq::<NodeView>::empty());
    }
}

/// The view of a list is the views of its items.
pub proof fn lemma_list_view(items: Vec<NodeValue>)
    ensures
        NodeValue::LIST(items)@ == NodeView::LIST(view_nodes(items@)),
{
    lemma_nodes_view(items, items@.len() as int);
    assert(items@.subrange(0, items@.len() as int) =~= items@);
}

/// The outcome of a plan step.
#[allow(non_camel_case_types)]
#[derive(Debug, PartialEq, Eq)]
pub enum NodeResult {
    /// The step succeeded without a value.
    OK,
    /// The step produced a value.
    VALUE(NodeValue),
    /// The step failed.
    ERROR(String),
}

/// The state that a plan is resolved against: a stack of step outcomes.
#[derive(Debug, PartialEq, Eq)]
pub struct PlanMatchingContext {
    pub value_stack: Vec<Option<NodeResult>>,
}

/// The outcome at the top of the stack, where the stack is not empty and its top holds one.
pub open spec fn top_of(stack: Seq<Option<NodeResult>>) -> Option<NodeResult> {
    if stack.len() == 0 {
        None
    } else {
        stack.last()
    }
}

impl PlanMatchingContext {
    /// The outcome at the top of the value stack.
    pub fn stack_value(&self) -> (r: Option<&NodeResult>)
        ensures
            match top_of(self.value_stack@) {
                Some(x) => r is Some && *r->0 == x,
                None => r is None,
            },
    {
        let n = self.value_stack.len();
        if n == 0 {
            None
        } else {
            match &self.value_stack[n - 1] {
                Some(x) => Some(x),
                None => None,
            }
        }
    }

    /// Pushes an outcome, or an empty slot, on the value stack.
    pub fn push_value(&mut self, v: Option<NodeResult>)
        ensures
            final(self).value_stack@ == old(self).value_stack@.push(v),
    {
        self.value_stack.push(v);
    }
}

impl Default for PlanMatchingContext {
    /// A context with an empty value stack.
    fn default() -> (r: PlanMatchingContext)
        ensures
            r.value_stack@.len() == 0,
    {
        PlanMatchingContext { value_stack: Vec::new() }
    }
}

} // verus!
