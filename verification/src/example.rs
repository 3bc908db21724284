//! The operand type of the server code the interface reader writes, the trait
//! that a registered function implements, and two such functions.
use vstd::prelude::*;

verus! {

/// A value passed to or returned by a remote function.
#[derive(Debug)]
pub enum Operand {
    Int(i64),
    Str(String),
}

/// A function that a server registers under a name and calls with the
/// operands of a request.
pub trait RpcFunction {
    /// The operand lists the function is written for.
    spec fn accepts(&self, operands: Seq<Operand>) -> bool;

    fn call(&self, operands: Vec<Operand>) -> Operand
        requires
            self.accepts(operands@),
    ;
}

/// The integer an operand holds (0 for a string).
pub open spec fn int_of(o: Operand) -> int {
    match o {
        Operand::Int(v) => v as int,
        Operand::Str(_) => 0,
    }
}

/// The product of the integers of `ops`.
pub open spec fn product(ops: Seq<Operand>) -> int
    decreases ops.len(),
{
    if ops.len() == 0 {
        1
    } else {
        product(ops.drop_last()) * int_of(ops.last())
    }
}

/// Answers every call with `Int(0)`.
#[allow(non_camel_case_types)]
pub struct hello_world_fn;

/// Multiplies two integer operands: the area of a rectangle with those sides.
#[allow(non_camel_case_types)]
pub struct area_of_square;

impl RpcFunction for hello_world_fn {
    open spec fn accepts(&self, operands: Seq<Operand>) -> bool {
        true
    }

    fn call(&self, operands: Vec<Operand>) -> (r: Operand)
        ensures
            r == Operand::Int(0),
    {
        Operand::Int(0)
    }
}

impl RpcFunction for area_of_square {
    /// Exactly two operands, both integers, whose product fits an `i64`.
    open spec fn accepts(&self, operands: Seq<Operand>) -> bool {
        &&& operands.len() == 2
        &&& operands[0] is Int
        &&& operands[1] is Int
        &&& i64::MIN <= int_of(operands[0]) * int_of(operands[1]) <= i64::MAX
    }

    fn call(&self, operands: Vec<Operand>) -> (r: Operand)
        ensures
            r matches Operand::Int(v) && v == product(operands@),
    {
        let n = operands.len();
        let mut ans: i64 = 1;
        let mut k: usize = 0;
        while k < n
            invariant
                n == operands@.len(),
                n == 2,
                k <= n,
                operands@[0] is Int,
                operands@[1] is Int,
                i64::MIN <= int_of(operands@[0]) * int_of(operands@[1]) <= i64::MAX,
                ans == product(operands@.take(k as int)),
            decreases n - k,
        {
            let ghost t = operands@.take(k + 1);
            assert(t.drop_last() =~= operands@.take(k as int));
            match &operands[k] {
                Operand::Int(var) => {
                    if k == 1 {
                        assert(operands@.take(1).drop_last() =~= Seq::<Operand>::empty());
                        assert(product(operands@.take(1).drop_last()) == 1);
                        assert(operands@.take(1).last() == operands@[0]);
                        assert(ans == int_of(operands@[0]));
                    }
                    ans = ans * *var;
                },
                Operand::Str(_) => {
                    assert(false);
                },
            }
            k = k + 1;
        }
        assert(operands@.take(n as int) =~= operands@);
        Operand::Int(ans)
    }
}

} // verus!
