//! Calibration equations: values combined strictly left to right by addition,
//! multiplication or decimal concatenation.
use vstd::prelude::*;

verus! {

/// How two neighbouring values are combined.
#[derive(Clone, Copy, Debug, PartialEq, Eq, Structural)]
pub enum Operator {
    Add,
    Multiply,
    Concatenate,
}

/// Values, the operators between them, and the result they should give.
pub struct Equation<'a> {
    pub values: &'a Vec<u32>,
    pub operators: &'a Vec<Operator>,
    pub expected_result: u64,
}

/// Ten to the number of decimal digits of `b` (one for zero, which has
/// none).
pub open spec fn digit_shift(b: nat) -> nat
    decreases b,
{
    if b == 0 {
        1
    } else {
        10 * digit_shift(b / 10)
    }
}

/// The decimal digits of `b` written after those of `a`.
pub open spec fn concat_spec(a: nat, b: nat) -> nat {
    a * digit_shift(b) + b
}

/// Combines two values by an operator.
pub open spec fn apply(op: Operator, a: nat, b: nat) -> nat {
    match op {
        Operator::Add => a + b,
        Operator::Multiply => a * b,
        Operator::Concatenate => concat_spec(a, b),
    }
}

/// The result of the first `n + 1` values with the operators between them.
pub open spec fn evaluate(values: Seq<u32>, operators: Seq<Operator>, n: nat) -> nat
    decreases n,
{
    if n == 0 {
        values[0] as nat
    } else {
        apply(operators[n - 1], evaluate(values, operators, (n - 1) as nat), values[n as int] as nat)
    }
}

/// No partial result of the equation exceeds `u64`.
pub open spec fn stays_in_u64(values: Seq<u32>, operators: Seq<Operator>) -> bool {
    forall|n: nat| n < values.len() ==> #[trigger] evaluate(values, operators, n) <= u64::MAX
}

impl<'a> Equation<'a> {
    /// An equation; there is one operator fewer than values.
    pub fn new(values: &'a Vec<u32>, operators: &'a Vec<Operator>, expected_result: u64) -> (r: Equation<'a>)
        requires
            values@.len() == operators@.len() + 1,
        ensures
            r.values == values,
            r.operators == operators,
            r.expected_result == expected_result,
    {
        Equation { values, operators, expected_result }
    }
}

proof fn lemma_digit_shift_positive(b: nat)
    ensures
        digit_shift(b) >= 1,
    decreases b,
{
    if b > 0 {
        lemma_digit_shift_positive(b / 10);
    }
}

/// Writes the decimal digits of `b` after those of `a`.
pub fn concatenate_numbers(a: u64, b: u64) -> (r: u64)
    requires
        concat_spec(a as nat, b as nat) <= u64::MAX,
    ensures
        r == concat_spec(a as nat, b as nat),
{
    let ghost total = a * digit_shift(b as nat);
    let mut result = a;
    let mut temp = b;
    proof {
        lemma_digit_shift_positive(b as nat);
    }
    while temp > 0
        invariant
            total == a * digit_shift(b as nat),
            total + b <= u64::MAX,
            result * digit_shift(temp as nat) == total,
        decreases temp,
    {
        proof {
            lemma_digit_shift_positive((temp / 10) as nat);
            assert(digit_shift(temp as nat) == 10 * digit_shift((temp / 10) as nat));
            assert(result * 10 <= total) by (nonlinear_arith)
                requires
                    result * digit_shift(temp as nat) == total,
                    digit_shift(temp as nat) == 10 * digit_shift((temp / 10) as nat),
                    digit_shift((temp / 10) as nat) >= 1,
                    result >= 0,
            ;
            assert((result * 10) * digit_shift((temp / 10) as nat) == total) by (nonlinear_arith)
                requires
                    result * digit_shift(temp as nat) == total,
                    digit_shift(temp as nat) == 10 * digit_shift((temp / 10) as nat),
            ;
        }
        result = result * 10;
        temp = temp / 10;
    }
    assert(digit_shift(temp as nat) == 1);
    assert(result == total) by (nonlinear_arith)
        requires
            result * digit_shift(temp as nat) == total,
            digit_shift(temp as nat) == 1,
    ;
    result + b
}

/// Evaluates the equation left to right.
pub fn calculate_equation(equation: &Equation) -> (r: u64)
    requires
        equation.values@.len() == equation.operators@.len() + 1,
        stays_in_u64(equation.values@, equation.operators@),
    ensures
        r == evaluate(equation.values@, equation.operators@, equation.operators@.len() as nat),
{
    let values = equation.values;
    let operators = equation.operators;
    let mut sum: u64 = values[0] as u64;
    let mut index: usize = 0;
    while index < operators.len()
        invariant
            values@.len() == operators@.len() + 1,
            stays_in_u64(values@, operators@),
            index <= operators@.len(),
            sum == evaluate(values@, operators@, index as nat),
        decreases operators@.len() - index,
    {
        let value = values[index + 1] as u64;
        assert(evaluate(values@, operators@, (index + 1) as nat) <= u64::MAX);
        sum = match operators[index] {
            Operator::Add => sum + value,
            Operator::Multiply => sum * value,
            Operator::Concatenate => concatenate_numbers(sum, value),
        };
        index = index + 1;
    }
    sum
}

/// Whether the equation gives its expected result.
pub fn is_valid_equation(equation: &Equation) -> (r: bool)
    requires
        equation.values@.len() == equation.operators@.len() + 1,
        stays_in_u64(equation.values@, equation.operators@),
    ensures
        r == (evaluate(equation.values@, equation.operators@, equation.operators@.len() as nat)
            == equation.expected_result),
{
    calculate_equation(equation) == equation.expected_result
}

} // verus!
