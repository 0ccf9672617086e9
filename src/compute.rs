use vstd::prelude::*;
use crate::entry::{Program, RangeValue};
use crate::error::WeError;

verus! {

/// The result of reducing a set of values with a program.
#[derive(Clone, Copy, Debug, PartialEq, Eq, Structural)]
pub enum Aggregate {
    /// Every value was an integer: the exact integer result.
    Integer(u32),
    /// Some value was a float: the result is the floating-point running total of the
    /// values, in order, divided by `divisor`. Integers seen before the first float
    /// are summed exactly; from the first float on, each value is added as a float.
    Float { divisor: usize },
}

/// Whether every value is an integer.
pub open spec fn all_integers(vs: Seq<RangeValue>) -> bool {
    forall|i: int| 0 <= i < vs.len() ==> #[trigger] vs[i] is Integer
}

/// The sum of the integer values.
pub open spec fn int_total(vs: Seq<RangeValue>) -> int
    decreases vs.len(),
{
    if vs.len() == 0 {
        0
    } else {
        int_total(vs.drop_last()) + match vs.last() {
            RangeValue::Integer(x) => x as int,
            RangeValue::Float(_) => 0,
        }
    }
}

/// What `program` gives on `vs`. Reducing nothing, or an integer result that does
/// not fit, is a computation error.
pub open spec fn aggregate(program: Program, vs: Seq<RangeValue>) -> Result<Aggregate, WeError> {
    match program {
        Program::Sum => if vs.len() == 0 {
            Err(WeError::ComputationError)
        } else if !all_integers(vs) {
            Ok(Aggregate::Float { divisor: 1 })
        } else if int_total(vs) <= u32::MAX {
            Ok(Aggregate::Integer(int_total(vs) as u32))
        } else {
            Err(WeError::ComputationError)
        },
        Program::Average => if vs.len() == 0 {
            Err(WeError::ComputationError)
        } else if !all_integers(vs) {
            Ok(Aggregate::Float { divisor: vs.len() as usize })
        } else if int_total(vs) <= u64::MAX {
            Ok(Aggregate::Integer((int_total(vs) / (vs.len() as int)) as u32))
        } else {
            Err(WeError::ComputationError)
        },
    }
}

/// The integer total never exceeds the count times the largest integer.
proof fn lemma_int_total_bound(vs: Seq<RangeValue>)
    ensures
        0 <= int_total(vs) <= vs.len() * (u32::MAX as int),
    decreases vs.len(),
{
    if vs.len() > 0 {
        lemma_int_total_bound(vs.drop_last());
    }
}

/// Reduces `values` with `program`.
pub fn compute_objective_assessment(program: Program, values: &Vec<RangeValue>) -> (r: Result<Aggregate, WeError>)
    ensures
        r == aggregate(program, values@),
{
    let n = values.len();
    let mut total: u64 = 0;
    let mut overflow = false;
    let mut is_int = true;
    let mut i: usize = 0;
    while i < n
        invariant
            n == values@.len(),
            i <= n,
            is_int == all_integers(values@.subrange(0, i as int)),
            overflow == (int_total(values@.subrange(0, i as int)) > u64::MAX),
            !overflow ==> total == int_total(values@.subrange(0, i as int)),
            int_total(values@.subrange(0, i as int)) >= 0,
        decreases n - i,
    {
        let ghost pre = values@.subrange(0, i as int);
        let ghost next = values@.subrange(0, i + 1);
        proof {
            assert(next.drop_last() =~= pre);
            assert(next.last() == values@[i as int]);
        }
        match values[i] {
            RangeValue::Integer(x) => {
                if !overflow {
                    match total.checked_add(x as u64) {
                        Some(t) => total = t,
                        None => overflow = true,
                    }
                }
            },
            RangeValue::Float(_) => {
                is_int = false;
                proof {
                    assert(!(next[i as int] is Integer));
                }
            },
        }
        proof {
            if is_int {
                assert forall|j: int| 0 <= j < next.len() implies #[trigger] next[j] is Integer by {
                    if j < i {
                        assert(next[j] == pre[j]);
                    }
                }
            }
        }
        i = i + 1;
    }
    proof {
        assert(values@.subrange(0, n as int) =~= values@);
    }
    match program {
        Program::Sum => {
            if n == 0 {
                Err(WeError::ComputationError)
            } else if !is_int {
                Ok(Aggregate::Float { divisor: 1 })
            } else if !overflow && total <= u32::MAX as u64 {
                Ok(Aggregate::Integer(total as u32))
            } else {
                Err(WeError::ComputationError)
            }
        },
        Program::Average => {
            if n == 0 {
                Err(WeError::ComputationError)
            } else if !is_int {
                Ok(Aggregate::Float { divisor: n })
            } else if overflow {
                Err(WeError::ComputationError)
            } else {
                let avg = total / (n as u64);
                proof {
                    lemma_int_total_bound(values@);
                    assert(total / (n as u64) <= u32::MAX) by (nonlinear_arith)
                        requires
                            total <= n * (u32::MAX as int),
                            n > 0,
                    ;
                }
                Ok(Aggregate::Integer(avg as u32))
            }
        },
    }
}

/// An integer sum is the exact total of the values.
pub proof fn lemma_sum_of_integers(vs: Seq<RangeValue>)
    requires
        vs.len() > 0,
        all_integers(vs),
        int_total(vs) <= u32::MAX,
    ensures
        aggregate(Program::Sum, vs) == Ok::<Aggregate, WeError>(Aggregate::Integer(int_total(vs) as u32)),
{
}

/// An average of integers truncates the exact mean toward zero (for any count of
/// values whose total fits the 64-bit accumulator, which every count up to `u32::MAX` does).
pub proof fn lemma_average_of_integers(vs: Seq<RangeValue>)
    requires
        0 < vs.len() <= u32::MAX,
        all_integers(vs),
    ensures
        aggregate(Program::Average, vs) == Ok::<Aggregate, WeError>(
            Aggregate::Integer((int_total(vs) / (vs.len() as int)) as u32),
        ),
{
    lemma_int_total_bound(vs);
    assert(int_total(vs) <= u64::MAX) by (nonlinear_arith)
        requires
            int_total(vs) <= vs.len() * (u32::MAX as int),
            vs.len() <= u32::MAX,
    ;
}

/// Reducing no values is a computation error, never a default value.
pub proof fn lemma_reduce_nothing(program: Program, vs: Seq<RangeValue>)
    requires
        vs.len() == 0,
    ensures
        aggregate(program, vs) == Err::<Aggregate, WeError>(WeError::ComputationError),
{
}

/// A single float among the values makes the result floating point, whatever program runs.
pub proof fn lemma_float_contaminates(program: Program, vs: Seq<RangeValue>, i: int)
    requires
        0 <= i < vs.len(),
        vs[i] is Float,
    ensures
        aggregate(program, vs) is Ok ==> aggregate(program, vs)->Ok_0 is Float,
{
}

} // verus!
