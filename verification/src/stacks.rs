//! Stacks of fields stored interleaved: value `x` of field `i` of a stack
//! of `nt` fields sits at `x * nt + i`.  The parallel drivers take the
//! fields apart, work on each, and put the results back together.
use vstd::prelude::*;
use crate::flat::{lemma_flat_index_bound, lemma_flat_index_unique};

verus! {

/// Field `k` of an interleaved stack of `nt` fields of `count` values.
pub fn extract_field<T: Copy>(stack: &Vec<T>, count: usize, nt: usize, k: usize) -> (field: Vec<T>)
    requires
        k < nt,
        stack@.len() == count * nt,
    ensures
        field@.len() == count,
        forall|x: int| 0 <= x < count ==> #[trigger] field@[x] == stack@[x * nt + k],
{
    let total = stack.len();
    let mut field: Vec<T> = Vec::new();
    let mut x: usize = 0;
    while x < count
        invariant
            k < nt,
            stack@.len() == count * nt,
            total == count * nt,
            x <= count,
            field@.len() == x,
            forall|y: int| 0 <= y < x ==> #[trigger] field@[y] == stack@[y * nt + k],
        decreases count - x,
    {
        proof {
            lemma_flat_index_bound(count as int, nt as int, x as int, k as int);
        }
        field.push(stack[x * nt + k]);
        x = x + 1;
    }
    field
}

/// The interleaved stack of the fields `fields`, each of `count` values.
pub fn interleave_fields<T: Copy>(fields: &Vec<Vec<T>>, count: usize) -> (stack: Vec<T>)
    requires
        forall|i: int| 0 <= i < fields@.len() ==> #[trigger] fields@[i]@.len() == count,
        count * fields@.len() <= usize::MAX,
    ensures
        stack@.len() == count * fields@.len(),
        forall|x: int, i: int|
            0 <= x < count && 0 <= i < fields@.len() ==> #[trigger] stack@[x * fields@.len() + i]
                == fields@[i]@[x],
{
    let nt = fields.len();
    let mut stack: Vec<T> = Vec::new();
    let mut x: usize = 0;
    while x < count
        invariant
            nt == fields@.len(),
            forall|i: int| 0 <= i < nt ==> #[trigger] fields@[i]@.len() == count,
            count * nt <= usize::MAX,
            x <= count,
            stack@.len() == x * nt,
            forall|y: int, i: int|
                0 <= y < x && 0 <= i < nt ==> #[trigger] stack@[y * nt + i] == fields@[i]@[y],
        decreases count - x,
    {
        let mut i: usize = 0;
        while i < nt
            invariant
                nt == fields@.len(),
                forall|i2: int| 0 <= i2 < nt ==> #[trigger] fields@[i2]@.len() == count,
                x < count,
                i <= nt,
                stack@.len() == x * nt + i,
                forall|y: int, i2: int|
                    0 <= y < x && 0 <= i2 < nt ==> #[trigger] stack@[y * nt + i2]
                        == fields@[i2]@[y],
                forall|i2: int| 0 <= i2 < i ==> #[trigger] stack@[x * nt + i2] == fields@[i2]@[x as int],
            decreases nt - i,
        {
            let ghost before = stack@;
            stack.push(fields[i][x]);
            proof {
                assert forall|y: int, i2: int|
                    0 <= y < x && 0 <= i2 < nt implies #[trigger] stack@[y * nt + i2]
                    == fields@[i2]@[y] by {
                    lemma_flat_index_bound(x as int, nt as int, y, i2);
                    assert(stack@[y * nt + i2] == before[y * nt + i2]);
                }
            }
            i = i + 1;
        }
        proof {
            assert((x + 1) * nt == x * nt + nt) by (nonlinear_arith);
        }
        x = x + 1;
    }
    stack
}

/// Taking every field out of an interleaved stack and interleaving them
/// again gives the stack back.
pub proof fn lemma_extract_interleave_roundtrip<T>(
    stack: Seq<T>,
    count: int,
    nt: int,
    fields: Seq<Seq<T>>,
    back: Seq<T>,
)
    requires
        count >= 0,
        nt >= 0,
        stack.len() == count * nt,
        fields.len() == nt,
        forall|i: int, x: int|
            0 <= i < nt && 0 <= x < count ==> #[trigger] fields[i][x] == stack[x * nt + i],
        back.len() == count * nt,
        forall|x: int, i: int|
            0 <= x < count && 0 <= i < nt ==> #[trigger] back[x * nt + i] == fields[i][x],
    ensures
        back == stack,
{
    assert forall|p: int| 0 <= p < count * nt implies #[trigger] back[p] == stack[p] by {
        let x = p / nt;
        let i = p % nt;
        assert(nt > 0) by (nonlinear_arith)
            requires
                0 <= p < count * nt,
                count >= 0,
        ;
        assert(p == x * nt + i && 0 <= i < nt) by (nonlinear_arith)
            requires
                nt > 0,
                x == p / nt,
                i == p % nt,
        ;
        assert(0 <= x < count) by (nonlinear_arith)
            requires
                p == x * nt + i,
                0 <= p < count * nt,
                0 <= i < nt,
        ;
        assert(back[x * nt + i] == fields[i][x]);
    }
    assert(back =~= stack);
}

} // verus!
