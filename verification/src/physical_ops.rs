//! Physical plan nodes of this layer: the partitioned window operator and
//! the two as-of join operators. Plan construction proper is an external
//! concern; a node here records its upstream operators (by their output
//! schemas) and the parameters of the computation it performs.

use vstd::prelude::*;
use vstd::string::*;
use crate::expr::{Expr, WindowSpec, spec_exprs_equal, spec_joined_display, exprs_equal,
    joined_display};
use crate::plan::JoinDirection;
use crate::schema::Schema;

verus! {

/// Stand-in for an upstream physical operator: this layer reads only the
/// schema its output carries.
#[derive(Debug)]
pub struct PhysicalPlanRef {
    pub schema: Schema,
}

#[derive(Debug)]
pub struct PartitionedWindow {
    pub input: PhysicalPlanRef,
    pub window_spec: WindowSpec,
    pub window_fns: Vec<Expr>,
    pub window_names: Vec<String>,
}

impl PartitionedWindow {
    pub fn new(
        input: PhysicalPlanRef,
        window_spec: WindowSpec,
        window_fns: Vec<Expr>,
        window_names: Vec<String>,
    ) -> (r: PartitionedWindow)
        ensures
            r.input == input,
            r.window_spec == window_spec,
            r.window_fns == window_fns,
            r.window_names == window_names,
    {
        PartitionedWindow { input, window_spec, window_fns, window_names }
    }

    /// The operator's display block: its name, then its functions and its
    /// partition and order keys, comma-joined.
    pub fn multiline_display(&self) -> (r: Vec<String>)
        ensures
            r@.len() == 4,
            r@[0]@ == "PartitionedWindow"@,
            r@[1]@ == "Functions: "@ + spec_joined_display(self.window_fns@),
            r@[2]@ == "Partition By: "@ + spec_joined_display(self.window_spec.partition_by@),
            r@[3]@ == "Order By: "@ + spec_joined_display(self.window_spec.order_by@),
    {
        let mut res: Vec<String> = Vec::new();
        res.push(String::from_str("PartitionedWindow"));
        let mut l1 = String::from_str("Functions: ");
        let j1 = joined_display(&self.window_fns);
        l1.append(j1.as_str());
        res.push(l1);
        let mut l2 = String::from_str("Partition By: ");
        let j2 = joined_display(&self.window_spec.partition_by);
        l2.append(j2.as_str());
        res.push(l2);
        let mut l3 = String::from_str("Order By: ");
        let j3 = joined_display(&self.window_spec.order_by);
        l3.append(j3.as_str());
        res.push(l3);
        res
    }
}

/// The display lines of one pair of key lists: a single combined line
/// when both sides are non-empty and equal, otherwise one line per
/// non-empty side.
pub open spec fn key_lines(
    label_both: Seq<char>,
    label_l: Seq<char>,
    label_r: Seq<char>,
    l: Seq<Expr>,
    rr: Seq<Expr>,
) -> Seq<Seq<char>> {
    if l.len() > 0 && rr.len() > 0 && spec_exprs_equal(l, rr) {
        seq![label_both + spec_joined_display(l)]
    } else {
        (if l.len() > 0 {
            seq![label_l + spec_joined_display(l)]
        } else {
            Seq::empty()
        }) + (if rr.len() > 0 {
            seq![label_r + spec_joined_display(rr)]
        } else {
            Seq::empty()
        })
    }
}

/// Pushes the display lines of one key-list pair.
pub(crate) fn push_key_lines(
    res: &mut Vec<String>,
    label_both: &str,
    label_l: &str,
    label_r: &str,
    l: &Vec<Expr>,
    rr: &Vec<Expr>,
)
    ensures
        crate::names::views_of(final(res)@) == crate::names::views_of(old(res)@) + key_lines(
            label_both@,
            label_l@,
            label_r@,
            l@,
            rr@,
        ),
{
    let ghost entry = res@;
    if l.len() > 0 && rr.len() > 0 && exprs_equal(l, rr) {
        let mut line = String::from_str(label_both);
        let j = joined_display(l);
        line.append(j.as_str());
        res.push(line);
    } else {
        if l.len() > 0 {
            let mut line = String::from_str(label_l);
            let j = joined_display(l);
            line.append(j.as_str());
            res.push(line);
        }
        if rr.len() > 0 {
            let mut line = String::from_str(label_r);
            let j = joined_display(rr);
            line.append(j.as_str());
            res.push(line);
        }
    }
    proof {
        assert(crate::names::views_of(res@) =~= crate::names::views_of(entry) + key_lines(
            label_both@,
            label_l@,
            label_r@,
            l@,
            rr@,
        ));
    }
}

#[derive(Debug)]
pub struct HashAsOfJoin {
    pub left: PhysicalPlanRef,
    pub right: PhysicalPlanRef,
    pub left_on: Vec<Expr>,
    pub right_on: Vec<Expr>,
    pub left_by: Vec<Expr>,
    pub right_by: Vec<Expr>,
    pub join_direction: JoinDirection,
    pub allow_exact_matches: bool,
}

impl HashAsOfJoin {
    pub fn new(
        left: PhysicalPlanRef,
        right: PhysicalPlanRef,
        left_on: Vec<Expr>,
        right_on: Vec<Expr>,
        left_by: Vec<Expr>,
        right_by: Vec<Expr>,
        join_direction: JoinDirection,
        allow_exact_matches: bool,
    ) -> (r: HashAsOfJoin)
        ensures
            r.left == left,
            r.right == right,
            r.left_on == left_on,
            r.right_on == right_on,
            r.left_by == left_by,
            r.right_by == right_by,
            r.join_direction == join_direction,
            r.allow_exact_matches == allow_exact_matches,
    {
        HashAsOfJoin {
            left,
            right,
            left_on,
            right_on,
            left_by,
            right_by,
            join_direction,
            allow_exact_matches,
        }
    }

    /// The operator's display block: the direction, then the on keys and
    /// the by keys (one combined line per pair when both sides agree).
    pub fn multiline_display(&self) -> (r: Vec<String>)
        ensures
            crate::names::views_of(r@) == seq![
                "AsOfJoin: Direction = "@ + self.join_direction.spec_display(),
            ] + key_lines("On = "@, "Left on = "@, "Right on = "@, self.left_on@, self.right_on@)
                + key_lines(
                "By = "@,
                "Left by = "@,
                "Right by = "@,
                self.left_by@,
                self.right_by@,
            ),
    {
        let mut res: Vec<String> = Vec::new();
        let mut l0 = String::from_str("AsOfJoin: Direction = ");
        let d = self.join_direction.display_string();
        l0.append(d.as_str());
        res.push(l0);
        push_key_lines(&mut res, "On = ", "Left on = ", "Right on = ", &self.left_on,
            &self.right_on);
        push_key_lines(&mut res, "By = ", "Left by = ", "Right by = ", &self.left_by,
            &self.right_by);
        proof {
            assert(crate::names::views_of(res@) =~= seq![
                "AsOfJoin: Direction = "@ + self.join_direction.spec_display(),
            ] + key_lines("On = "@, "Left on = "@, "Right on = "@, self.left_on@, self.right_on@)
                + key_lines(
                "By = "@,
                "Left by = "@,
                "Right by = "@,
                self.left_by@,
                self.right_by@,
            ));
        }
        res
    }
}

#[derive(Debug)]
pub struct RangeAsOfJoin {
    pub left: PhysicalPlanRef,
    pub right: PhysicalPlanRef,
    pub left_on: Vec<Expr>,
    pub right_on: Vec<Expr>,
    pub join_direction: JoinDirection,
    pub allow_exact_matches: bool,
    pub num_partitions: usize,
}

impl RangeAsOfJoin {
    pub fn new(
        left: PhysicalPlanRef,
        right: PhysicalPlanRef,
        left_on: Vec<Expr>,
        right_on: Vec<Expr>,
        join_direction: JoinDirection,
        allow_exact_matches: bool,
        num_partitions: usize,
    ) -> (r: RangeAsOfJoin)
        ensures
            r.left == left,
            r.right == right,
            r.left_on == left_on,
            r.right_on == right_on,
            r.join_direction == join_direction,
            r.allow_exact_matches == allow_exact_matches,
            r.num_partitions == num_partitions,
    {
        RangeAsOfJoin {
            left,
            right,
            left_on,
            right_on,
            join_direction,
            allow_exact_matches,
            num_partitions,
        }
    }

    /// The operator's display block: the direction, then the on keys.
    pub fn multiline_display(&self) -> (r: Vec<String>)
        ensures
            crate::names::views_of(r@) == seq![
                "AsOfJoin: Direction = "@ + self.join_direction.spec_display(),
            ] + key_lines("On = "@, "Left on = "@, "Right on = "@, self.left_on@, self.right_on@),
    {
        let mut res: Vec<String> = Vec::new();
        let mut l0 = String::from_str("AsOfJoin: Direction = ");
        let d = self.join_direction.display_string();
        l0.append(d.as_str());
        res.push(l0);
        push_key_lines(&mut res, "On = ", "Left on = ", "Right on = ", &self.left_on,
            &self.right_on);
        proof {
            assert(crate::names::views_of(res@) =~= seq![
                "AsOfJoin: Direction = "@ + self.join_direction.spec_display(),
            ] + key_lines("On = "@, "Left on = "@, "Right on = "@, self.left_on@, self.right_on@));
        }
        res
    }
}

} // verus!
