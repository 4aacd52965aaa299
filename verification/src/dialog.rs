use vstd::prelude::*;

pub mod parse;

verus! {

/// Where a dialog goes after a node: another node of the graph, or the end.
pub enum NodeLink {
    Index(usize),
    End,
}

pub struct TextNode {
    pub text: String,
    pub speaker: String,
    pub next: NodeLink,
}

pub struct Choice {
    pub text: String,
    pub next: NodeLink,
    pub enabled: bool,
}

pub struct ChoiceNode {
    pub count: usize,
    pub choices: Vec<Choice>,
}

pub enum DialogNode {
    Text(TextNode),
    Choice(ChoiceNode),
}

pub struct DialogGraph {
    pub nodes: Vec<DialogNode>,
    pub current: usize,
}

} // verus!
