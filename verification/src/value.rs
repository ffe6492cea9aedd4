//! Resolved values: what one variable resolves to in one resolution pass.

use vstd::prelude::*;

verus! {

/// The value a variable holds after a resolution pass.  `Null` means the
/// lookup failed and no data is available; it is deliberately distinct
/// from an empty list.
#[derive(Debug)]
pub enum ResolvedValue {
    /// A lookup failed: no data for this variable.
    Null,
    /// A constant's text.
    Str(String),
    /// An ordered list of strings: a literal list, or the sorted
    /// addresses (or reverse names) of a host variable.
    List(Vec<String>),
}

/// The mathematical shape of a `ResolvedValue`.
pub enum ValueModel {
    Null,
    Str(Seq<char>),
    List(Seq<Seq<char>>),
}

impl View for ResolvedValue {
    type V = ValueModel;

    open spec fn view(&self) -> ValueModel {
        match self {
            ResolvedValue::Null => ValueModel::Null,
            ResolvedValue::Str(s) => ValueModel::Str(s@),
            ResolvedValue::List(v) => ValueModel::List(v@.map_values(|t: String| t@)),
        }
    }
}

/// Structural equality of two resolved values: `Null` equals only `Null`,
/// texts must match exactly, lists must match in length and element for
/// element, in stored order.  No coercion across variants.
pub fn value_eq(a: &ResolvedValue, b: &ResolvedValue) -> (r: bool)
    ensures
        r == (a@ == b@),
{
    match (a, b) {
        (ResolvedValue::Null, ResolvedValue::Null) => true,
        (ResolvedValue::Str(x), ResolvedValue::Str(y)) => *x == *y,
        (ResolvedValue::List(x), ResolvedValue::List(y)) => {
            let n = x.len();
            if n != y.len() {
                assert(x@.map_values(|t: String| t@).len() != y@.map_values(|t: String| t@).len());
                return false;
            }
            let mut i: usize = 0;
            loop
                invariant
                    i <= n,
                    n == x@.len(),
                    n == y@.len(),
                    a@ == ValueModel::List(x@.map_values(|t: String| t@)),
                    b@ == ValueModel::List(y@.map_values(|t: String| t@)),
                    forall|j: int| 0 <= j < i ==> x@[j]@ == y@[j]@,
                decreases n - i,
            {
                if i >= n {
                    proof {
                        assert(x@.map_values(|t: String| t@) =~= y@.map_values(|t: String| t@));
                    }
                    return true;
                }
                if !(x[i] == y[i]) {
                    proof {
                        assert(x@.map_values(|t: String| t@)[i as int] != y@.map_values(
                            |t: String| t@,
                        )[i as int]);
                    }
                    return false;
                }
                i = i + 1;
            }
        },
        _ => false,
    }
}

} // verus!
