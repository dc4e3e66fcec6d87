//! The renderable plan: one node per item with positive throughput, one edge
//! per consuming relation, each colored for display.

use crate::rat::{flt, Frac, Ratio};
use vstd::prelude::*;

verus! {

/// A display color.
#[derive(Debug, Clone, Copy, PartialEq, Eq, Structural)]
pub enum Color {
    Green,
    Yellow,
    Orange,
    Red,
    Blue,
    Black,
}

/// A plan entry: an item with positive throughput, the facilities it needs,
/// and its display color.
#[derive(Debug)]
pub struct Node {
    pub id: String,
    pub name: String,
    pub amount: Ratio,
    pub source_amount: Ratio,
    pub source_name: String,
    pub color: Color,
}

/// Mathematical value of a [`Node`].
pub struct NodeV {
    pub id: Seq<char>,
    pub name: Seq<char>,
    pub amount: Frac,
    pub source_amount: Frac,
    pub source_name: Seq<char>,
    pub color: Color,
}

impl View for Node {
    type V = NodeV;

    open spec fn view(&self) -> NodeV {
        NodeV {
            id: self.id@,
            name: self.name@,
            amount: self.amount@,
            source_amount: self.source_amount@,
            source_name: self.source_name@,
            color: self.color,
        }
    }
}

impl Node {
    pub fn new(
        id: &str,
        name: &str,
        amount: Ratio,
        source_amount: Ratio,
        source_name: String,
        color: Color,
    ) -> (n: Node)
        ensures
            n@ == (NodeV {
                id: id@,
                name: name@,
                amount: amount@,
                source_amount: source_amount@,
                source_name: source_name@,
                color,
            }),
    {
        Node { id: id.to_owned(), name: name.to_owned(), amount, source_amount, source_name, color }
    }
}

/// A flow from a produced item to one of its consumers.
#[derive(Debug)]
pub struct Edge {
    pub from: String,
    pub to: String,
    pub amount: Ratio,
    pub source_amount: Ratio,
    pub color: Color,
}

/// Mathematical value of an [`Edge`].
pub struct EdgeV {
    pub from: Seq<char>,
    pub to: Seq<char>,
    pub amount: Frac,
    pub source_amount: Frac,
    pub color: Color,
}

impl View for Edge {
    type V = EdgeV;

    open spec fn view(&self) -> EdgeV {
        EdgeV {
            from: self.from@,
            to: self.to@,
            amount: self.amount@,
            source_amount: self.source_amount@,
            color: self.color,
        }
    }
}

impl Edge {
    pub fn new(from: &str, to: &str, amount: Ratio, source_amount: Ratio, color: Color) -> (e:
        Edge)
        ensures
            e@ == (EdgeV {
                from: from@,
                to: to@,
                amount: amount@,
                source_amount: source_amount@,
                color,
            }),
    {
        Edge { from: from.to_owned(), to: to.to_owned(), amount, source_amount, color }
    }
}

/// The load bucket of an edge carrying `flow` out of a total throughput of
/// `total`: red (high) above half, yellow (medium) above a quarter, green
/// (low) otherwise.
pub open spec fn spec_classify_edge(flow: Frac, total: Frac) -> Color {
    if flt(Frac { num: total.num, den: 2 * total.den }, flow) {
        Color::Red
    } else if flt(Frac { num: total.num, den: 4 * total.den }, flow) {
        Color::Yellow
    } else {
        Color::Green
    }
}

/// Classify an edge's load against its item's total throughput.
///
/// The comparisons are strict: a flow of exactly half the total is yellow,
/// not red, and a flow of exactly a quarter is green.
pub fn classify_edge(flow: &Ratio, total: &Ratio) -> (c: Color)
    requires
        flow.wf(),
        total.wf(),
    ensures
        c == spec_classify_edge(flow@, total@),
        flow@.num * (2 * total@.den) == total@.num * flow@.den ==> c != Color::Red,
        flow@.num * (4 * total@.den) == total@.num * flow@.den ==> c == Color::Green,
{
    proof {
        lemma_classify_bounds(flow@, total@);
    }
    let half_num = (total.num() as u128) * (flow.den() as u128);
    let flow_scaled_2 = 2u128 * (flow.num() as u128) * (total.den() as u128);
    let flow_scaled_4 = 4u128 * (flow.num() as u128) * (total.den() as u128);
    if flow_scaled_2 > half_num {
        Color::Red
    } else if flow_scaled_4 > half_num {
        Color::Yellow
    } else {
        Color::Green
    }
}

/// The scaled comparison products stay within `u128`.
proof fn lemma_classify_bounds(flow: Frac, total: Frac)
    by (nonlinear_arith)
    requires
        0 <= flow.num <= u32::MAX as int,
        1 <= flow.den <= u32::MAX as int,
        0 <= total.num <= u32::MAX as int,
        1 <= total.den <= u32::MAX as int,
    ensures
        0 <= total.num * flow.den <= u32::MAX as int * u32::MAX as int,
        0 <= 2 * flow.num * total.den <= 2 * (u32::MAX as int * u32::MAX as int),
        0 <= 4 * flow.num * total.den <= 4 * (u32::MAX as int * u32::MAX as int),
        (2 * flow.num * total.den > total.num * flow.den) == flt(
            Frac { num: total.num, den: 2 * total.den },
            flow,
        ),
        (4 * flow.num * total.den > total.num * flow.den) == flt(
            Frac { num: total.num, den: 4 * total.den },
            flow,
        ),
        flow.num * (4 * total.den) == total.num * flow.den ==> !(2 * flow.num * total.den
            > total.num * flow.den),
{
}

} // verus!
