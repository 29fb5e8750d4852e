//! Join configuration enums: the join type, the execution strategy, and
//! the as-of join direction.

use vstd::prelude::*;
use vstd::string::*;
use crate::error::{DaftError, DaftResult};

verus! {

/// Exec comparison of two string slices by contents.
pub fn str_eq(a: &str, b: &str) -> (r: bool)
    ensures
        r == (a@ == b@),
{
    let sa = String::from_str(a);
    let sb = String::from_str(b);
    sa.eq(&sb)
}

/// Type of a join operation.
#[derive(Clone, Copy, Debug, PartialEq, Eq, Structural, Hash)]
pub enum JoinType {
    Inner,
    Left,
    Right,
}

impl JoinType {
    /// All join types, in declaration order.
    pub fn iterator() -> (r: Vec<JoinType>)
        ensures
            r@ == seq![JoinType::Inner, JoinType::Left, JoinType::Right],
    {
        let mut v: Vec<JoinType> = Vec::new();
        v.push(JoinType::Inner);
        v.push(JoinType::Left);
        v.push(JoinType::Right);
        proof {
            assert(v@ =~= seq![JoinType::Inner, JoinType::Left, JoinType::Right]);
        }
        v
    }

    /// Parses a join type from its lower-case name; any other string is a
    /// type error.
    pub fn from_str(join_type: &str) -> (r: DaftResult<JoinType>)
        ensures
            join_type@ == "inner"@ ==> r == Ok::<JoinType, DaftError>(JoinType::Inner),
            join_type@ == "left"@ ==> r == Ok::<JoinType, DaftError>(JoinType::Left),
            join_type@ == "right"@ ==> r == Ok::<JoinType, DaftError>(JoinType::Right),
            join_type@ != "inner"@ && join_type@ != "left"@ && join_type@ != "right"@ ==> (r
                matches Err(e) && e is TypeError),
    {
        proof {
            reveal_strlit("inner");
            reveal_strlit("left");
            reveal_strlit("right");
            assert("inner"@.len() == 5);
            assert("left"@.len() == 4);
            assert("right"@.len() == 5);
            assert("inner"@[0] == 'i' && "right"@[0] == 'r');
            assert("inner"@ != "left"@);
            assert("inner"@ != "right"@);
            assert("left"@ != "right"@);
        }
        if str_eq(join_type, "inner") {
            Ok(JoinType::Inner)
        } else if str_eq(join_type, "left") {
            Ok(JoinType::Left)
        } else if str_eq(join_type, "right") {
            Ok(JoinType::Right)
        } else {
            Err(DaftError::TypeError(String::from_str("Join type is not supported")))
        }
    }

    pub open spec fn spec_display(self) -> Seq<char> {
        match self {
            JoinType::Inner => "Inner"@,
            JoinType::Left => "Left"@,
            JoinType::Right => "Right"@,
        }
    }

    /// The display name of the variant.
    pub fn display_string(&self) -> (r: String)
        ensures
            r@ == self.spec_display(),
    {
        match self {
            JoinType::Inner => String::from_str("Inner"),
            JoinType::Left => String::from_str("Left"),
            JoinType::Right => String::from_str("Right"),
        }
    }
}

/// Strategy used to execute a join.
#[derive(Clone, Copy, Debug, PartialEq, Eq, Structural, Hash)]
pub enum JoinStrategy {
    Hash,
    SortMerge,
    Broadcast,
}

impl JoinStrategy {
    /// All join strategies, in declaration order.
    pub fn iterator() -> (r: Vec<JoinStrategy>)
        ensures
            r@ == seq![JoinStrategy::Hash, JoinStrategy::SortMerge, JoinStrategy::Broadcast],
    {
        let mut v: Vec<JoinStrategy> = Vec::new();
        v.push(JoinStrategy::Hash);
        v.push(JoinStrategy::SortMerge);
        v.push(JoinStrategy::Broadcast);
        proof {
            assert(v@ =~= seq![
                JoinStrategy::Hash,
                JoinStrategy::SortMerge,
                JoinStrategy::Broadcast,
            ]);
        }
        v
    }

    /// Parses a join strategy from its lower-case name; any other string
    /// is a type error.
    pub fn from_str(join_strategy: &str) -> (r: DaftResult<JoinStrategy>)
        ensures
            join_strategy@ == "hash"@ ==> r == Ok::<JoinStrategy, DaftError>(JoinStrategy::Hash),
            join_strategy@ == "sort_merge"@ ==> r == Ok::<JoinStrategy, DaftError>(
                JoinStrategy::SortMerge,
            ),
            join_strategy@ == "broadcast"@ ==> r == Ok::<JoinStrategy, DaftError>(
                JoinStrategy::Broadcast,
            ),
            join_strategy@ != "hash"@ && join_strategy@ != "sort_merge"@ && join_strategy@
                != "broadcast"@ ==> (r matches Err(e) && e is TypeError),
    {
        proof {
            reveal_strlit("hash");
            reveal_strlit("sort_merge");
            reveal_strlit("broadcast");
            assert("hash"@.len() == 4);
            assert("sort_merge"@.len() == 10);
            assert("broadcast"@.len() == 9);
            assert("hash"@ != "sort_merge"@);
            assert("hash"@ != "broadcast"@);
            assert("sort_merge"@ != "broadcast"@);
        }
        if str_eq(join_strategy, "hash") {
            Ok(JoinStrategy::Hash)
        } else if str_eq(join_strategy, "sort_merge") {
            Ok(JoinStrategy::SortMerge)
        } else if str_eq(join_strategy, "broadcast") {
            Ok(JoinStrategy::Broadcast)
        } else {
            Err(DaftError::TypeError(String::from_str("Join strategy is not supported")))
        }
    }

    pub open spec fn spec_display(self) -> Seq<char> {
        match self {
            JoinStrategy::Hash => "Hash"@,
            JoinStrategy::SortMerge => "SortMerge"@,
            JoinStrategy::Broadcast => "Broadcast"@,
        }
    }

    /// The display name of the variant.
    pub fn display_string(&self) -> (r: String)
        ensures
            r@ == self.spec_display(),
    {
        match self {
            JoinStrategy::Hash => String::from_str("Hash"),
            JoinStrategy::SortMerge => String::from_str("SortMerge"),
            JoinStrategy::Broadcast => String::from_str("Broadcast"),
        }
    }
}

/// Search direction of the as-of join. Only the backward direction has an
/// executing algorithm; the forward and nearest directions are a declared
/// extension surface.
#[derive(Clone, Copy, Debug, PartialEq, Eq, Structural, Hash)]
pub enum JoinDirection {
    Backward,
    Forward,
    Nearest,
}

impl JoinDirection {
    /// All join directions, in declaration order.
    pub fn iterator() -> (r: Vec<JoinDirection>)
        ensures
            r@ == seq![JoinDirection::Backward, JoinDirection::Forward, JoinDirection::Nearest],
    {
        let mut v: Vec<JoinDirection> = Vec::new();
        v.push(JoinDirection::Backward);
        v.push(JoinDirection::Forward);
        v.push(JoinDirection::Nearest);
        proof {
            assert(v@ =~= seq![
                JoinDirection::Backward,
                JoinDirection::Forward,
                JoinDirection::Nearest,
            ]);
        }
        v
    }

    /// Parses a join direction from its lower-case name; any other string
    /// is a type error.
    pub fn from_str(join_direction: &str) -> (r: DaftResult<JoinDirection>)
        ensures
            join_direction@ == "backward"@ ==> r == Ok::<JoinDirection, DaftError>(
                JoinDirection::Backward,
            ),
            join_direction@ == "forward"@ ==> r == Ok::<JoinDirection, DaftError>(
                JoinDirection::Forward,
            ),
            join_direction@ == "nearest"@ ==> r == Ok::<JoinDirection, DaftError>(
                JoinDirection::Nearest,
            ),
            join_direction@ != "backward"@ && join_direction@ != "forward"@ && join_direction@
                != "nearest"@ ==> (r matches Err(e) && e is TypeError),
    {
        proof {
            reveal_strlit("backward");
            reveal_strlit("forward");
            reveal_strlit("nearest");
            assert("backward"@.len() == 8);
            assert("forward"@.len() == 7);
            assert("nearest"@.len() == 7);
            assert("forward"@[0] == 'f' && "nearest"@[0] == 'n');
            assert("backward"@ != "forward"@);
            assert("backward"@ != "nearest"@);
            assert("forward"@ != "nearest"@);
        }
        if str_eq(join_direction, "backward") {
            Ok(JoinDirection::Backward)
        } else if str_eq(join_direction, "forward") {
            Ok(JoinDirection::Forward)
        } else if str_eq(join_direction, "nearest") {
            Ok(JoinDirection::Nearest)
        } else {
            Err(DaftError::TypeError(String::from_str("Join direction is not supported")))
        }
    }

    pub open spec fn spec_display(self) -> Seq<char> {
        match self {
            JoinDirection::Backward => "Backward"@,
            JoinDirection::Forward => "Forward"@,
            JoinDirection::Nearest => "Nearest"@,
        }
    }

    /// The display name of the variant.
    pub fn display_string(&self) -> (r: String)
        ensures
            r@ == self.spec_display(),
    {
        match self {
            JoinDirection::Backward => String::from_str("Backward"),
            JoinDirection::Forward => String::from_str("Forward"),
            JoinDirection::Nearest => String::from_str("Nearest"),
        }
    }
}

} // verus!
