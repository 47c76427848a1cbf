//! Structured interpolation problems.
//!
//! A problem records which test failed, where, and how badly (an exact
//! tolerance fraction), together with the two masters' names and
//! indices, by value: the problem list outlives the glyphs it was
//! derived from.

use vstd::prelude::*;

use crate::nums::Ratio;

verus! {

/// The particular problem found.
#[derive(Debug)]
pub enum ProblemDetails {
    /// The two masters have different numbers of contours.
    PathCount { count_1: usize, count_2: usize },
    /// A contour has different node counts in the two masters.
    NodeCount { count_1: usize, count_2: usize },
    /// A node is on-curve in one master and off-curve in the other.
    NodeIncompatibility { is_control_1: bool, is_control_2: bool },
    /// The contours match better in another order.
    ContourOrder { order_1: Vec<usize>, order_2: Vec<usize> },
    /// A contour matches better when started elsewhere (or reversed).
    WrongStartPoint { proposed_point: usize, reverse: bool },
    /// The midway contour is heavier than both masters.
    Overweight { value_1: Ratio, value_2: Ratio },
    /// The midway contour is lighter than the masters suggest.
    Underweight { value_1: Ratio, value_2: Ratio },
    /// A smooth junction becomes a visible corner midway.
    Kink,
}

/// Ghost model of the details, with mathematical sequences for orders.
pub enum DetailsModel {
    PathCount { count_1: int, count_2: int },
    NodeCount { count_1: int, count_2: int },
    NodeIncompatibility { is_control_1: bool, is_control_2: bool },
    ContourOrder { order_1: Seq<usize>, order_2: Seq<usize> },
    WrongStartPoint { proposed_point: int, reverse: bool },
    Overweight { value_1: Ratio, value_2: Ratio },
    Underweight { value_1: Ratio, value_2: Ratio },
    Kink,
}

pub open spec fn details_view(d: ProblemDetails) -> DetailsModel {
    match d {
        ProblemDetails::PathCount { count_1, count_2 } => DetailsModel::PathCount {
            count_1: count_1 as int,
            count_2: count_2 as int,
        },
        ProblemDetails::NodeCount { count_1, count_2 } => DetailsModel::NodeCount {
            count_1: count_1 as int,
            count_2: count_2 as int,
        },
        ProblemDetails::NodeIncompatibility { is_control_1, is_control_2 } => DetailsModel::NodeIncompatibility {
            is_control_1,
            is_control_2,
        },
        ProblemDetails::ContourOrder { order_1, order_2 } => DetailsModel::ContourOrder {
            order_1: order_1@,
            order_2: order_2@,
        },
        ProblemDetails::WrongStartPoint { proposed_point, reverse } => DetailsModel::WrongStartPoint {
            proposed_point: proposed_point as int,
            reverse,
        },
        ProblemDetails::Overweight { value_1, value_2 } => DetailsModel::Overweight {
            value_1,
            value_2,
        },
        ProblemDetails::Underweight { value_1, value_2 } => DetailsModel::Underweight {
            value_1,
            value_2,
        },
        ProblemDetails::Kink => DetailsModel::Kink,
    }
}

/// An interpolation problem between two masters.
#[derive(Debug)]
pub struct Problem {
    /// The name of the first master.
    pub master_1_name: String,
    /// The name of the second master.
    pub master_2_name: String,
    /// The index of the first master.
    pub master_1_index: usize,
    /// The index of the second master.
    pub master_2_index: usize,
    /// Describes the problem in detail.
    pub details: ProblemDetails,
    /// The tolerance of the problem, if applicable; always below the
    /// user threshold.
    pub tolerance: Option<Ratio>,
    /// The index of the contour in the glyph, if applicable.
    pub contour: Option<usize>,
    /// The index of the node in the contour, if applicable.
    pub node: Option<usize>,
}

/// Ghost model of a problem.
pub struct ProblemModel {
    pub master_1_name: Seq<char>,
    pub master_2_name: Seq<char>,
    pub master_1_index: int,
    pub master_2_index: int,
    pub details: DetailsModel,
    pub tolerance: Option<Ratio>,
    pub contour: Option<usize>,
    pub node: Option<usize>,
}

pub open spec fn problem_view(p: Problem) -> ProblemModel {
    ProblemModel {
        master_1_name: p.master_1_name@,
        master_2_name: p.master_2_name@,
        master_1_index: p.master_1_index as int,
        master_2_index: p.master_2_index as int,
        details: details_view(p.details),
        tolerance: p.tolerance,
        contour: p.contour,
        node: p.node,
    }
}

/// The masters named by a problem model.
pub open spec fn masters_of(
    p: ProblemModel,
    n1: Seq<char>,
    i1: int,
    n2: Seq<char>,
    i2: int,
) -> bool {
    p.master_1_name == n1 && p.master_2_name == n2 && p.master_1_index == i1 && p.master_2_index
        == i2
}

impl Problem {
    /// Returns the kind of problem as a string.
    pub fn problem_type(&self) -> (r: String)
        ensures
            r@ == match self.details {
                ProblemDetails::PathCount { .. } => "PathCount"@,
                ProblemDetails::NodeCount { .. } => "NodeCount"@,
                ProblemDetails::NodeIncompatibility { .. } => "NodeIncompatibility"@,
                ProblemDetails::ContourOrder { .. } => "ContourOrder"@,
                ProblemDetails::WrongStartPoint { .. } => "WrongStartPoint"@,
                ProblemDetails::Overweight { .. } => "Overweight"@,
                ProblemDetails::Underweight { .. } => "Underweight"@,
                ProblemDetails::Kink => "Kink"@,
            },
    {
        match self.details {
            ProblemDetails::PathCount { .. } => "PathCount".to_owned(),
            ProblemDetails::NodeCount { .. } => "NodeCount".to_owned(),
            ProblemDetails::NodeIncompatibility { .. } => "NodeIncompatibility".to_owned(),
            ProblemDetails::ContourOrder { .. } => "ContourOrder".to_owned(),
            ProblemDetails::WrongStartPoint { .. } => "WrongStartPoint".to_owned(),
            ProblemDetails::Overweight { .. } => "Overweight".to_owned(),
            ProblemDetails::Underweight { .. } => "Underweight".to_owned(),
            ProblemDetails::Kink => "Kink".to_owned(),
        }
    }
}


/// The models of a sequence of problems.
pub open spec fn views_of(s: Seq<Problem>) -> Seq<ProblemModel> {
    s.map_values(|p: Problem| problem_view(p))
}

/// Mapping to models distributes over push.
pub proof fn lemma_views_push(a: Seq<Problem>, p: Problem)
    ensures
        views_of(a.push(p)) == views_of(a).push(problem_view(p)),
{
    assert(views_of(a.push(p)) =~= views_of(a).push(problem_view(p)));
}


/// The detail record reports a contour reordering.
pub open spec fn is_contour_order(d: DetailsModel) -> bool {
    d is ContourOrder
}

} // verus!
