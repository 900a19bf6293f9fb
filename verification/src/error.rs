//! Errors, and the decimal numbers that their messages hold.

use vstd::prelude::*;

verus! {

/// `cudarc::nvrtc::CompileError`, an error of the run time compiler.
#[verifier::external_type_specification]
#[verifier::external_body]
pub struct ExCompileError(cudarc::nvrtc::CompileError);

/// `cudarc::driver::DriverError`, an error of the device driver.
#[verifier::external_type_specification]
#[verifier::external_body]
pub struct ExDriverError(cudarc::driver::DriverError);

/// `cudarc::curand::result::CurandError`, an error of the device's random generator.
#[verifier::external_type_specification]
#[verifier::external_body]
pub struct ExCurandError(cudarc::curand::result::CurandError);

/// What can go wrong when the backend is used.
#[derive(Debug, PartialEq)]
pub enum CudaError {
    /// An argument does not fit the backend, or a call came too early.
    Value(String),
    /// The kernels did not compile.
    Compile(cudarc::nvrtc::CompileError),
    /// The device driver reported an error.
    Driver(cudarc::driver::DriverError),
    /// The device's random generator reported an error.
    Rand(cudarc::curand::result::CurandError),
}

impl CudaError {
    /// This is a [`CudaError::Value`] with the given message.
    pub open spec fn is_value(self, message: Seq<char>) -> bool {
        self matches CudaError::Value(s) && s@ == message
    }

    /// A failure with a message.
    pub fn value_error<T>(msg: String) -> (r: Result<T, CudaError>)
        ensures
            r matches Err(e) && e.is_value(msg@),
    {
        Err(CudaError::Value(msg))
    }
}

impl From<cudarc::nvrtc::CompileError> for CudaError {
    fn from(value: cudarc::nvrtc::CompileError) -> (r: Self) {
        CudaError::Compile(value)
    }
}

impl vstd::std_specs::convert::FromSpecImpl<cudarc::nvrtc::CompileError> for CudaError {
    open spec fn obeys_from_spec() -> bool {
        true
    }

    open spec fn from_spec(value: cudarc::nvrtc::CompileError) -> Self {
        CudaError::Compile(value)
    }
}

impl From<cudarc::driver::DriverError> for CudaError {
    fn from(value: cudarc::driver::DriverError) -> (r: Self) {
        CudaError::Driver(value)
    }
}

impl vstd::std_specs::convert::FromSpecImpl<cudarc::driver::DriverError> for CudaError {
    open spec fn obeys_from_spec() -> bool {
        true
    }

    open spec fn from_spec(value: cudarc::driver::DriverError) -> Self {
        CudaError::Driver(value)
    }
}

impl From<cudarc::curand::result::CurandError> for CudaError {
    fn from(value: cudarc::curand::result::CurandError) -> (r: Self) {
        CudaError::Rand(value)
    }
}

impl vstd::std_specs::convert::FromSpecImpl<cudarc::curand::result::CurandError> for CudaError {
    open spec fn obeys_from_spec() -> bool {
        true
    }

    open spec fn from_spec(value: cudarc::curand::result::CurandError) -> Self {
        CudaError::Rand(value)
    }
}

/// The decimal digit of a number below ten.
pub open spec fn digit(n: nat) -> char {
    (('0' as u32) + n) as char
}

/// `n` in decimal notation, without leading zeros.
pub open spec fn decimal_chars(n: nat) -> Seq<char>
    decreases n,
{
    if n < 10 {
        seq![digit(n)]
    } else {
        decimal_chars(n / 10).push(digit(n % 10))
    }
}

/// The number that decimal digits stand for.
pub open spec fn decimal_value(digits: Seq<char>) -> int
    decreases digits.len(),
{
    if digits.len() == 0 {
        0
    } else {
        10 * decimal_value(digits.drop_last()) + (digits.last() as int - '0' as int)
    }
}

/// Decimal notation can be read: it consists of digits that stand for the number, and does
/// not begin with a zero unless it is one.
pub proof fn law_decimals_can_be_read(n: nat)
    ensures
        decimal_value(decimal_chars(n)) == n,
        decimal_chars(n).len() > 0,
        forall|i: int|
            0 <= i < decimal_chars(n).len() ==> '0' <= #[trigger] decimal_chars(n)[i] <= '9',
        decimal_chars(n).len() > 1 ==> decimal_chars(n)[0] != '0',
        n > 0 ==> decimal_chars(n)[0] != '0',
    decreases n,
{
    if n < 10 {
        assert(decimal_chars(n).drop_last() =~= Seq::<char>::empty());
        assert(decimal_value(decimal_chars(n).drop_last()) == 0);
    } else {
        law_decimals_can_be_read(n / 10);
        assert(decimal_chars(n).drop_last() =~= decimal_chars(n / 10));
        assert(decimal_chars(n)[0] == decimal_chars(n / 10)[0]);
    }
}

/// `numbers` in decimal notation with a comma and a blank between them.
pub open spec fn joined_chars(numbers: Seq<usize>) -> Seq<char>
    decreases numbers.len(),
{
    if numbers.len() == 0 {
        seq![]
    } else if numbers.len() == 1 {
        decimal_chars(numbers[0] as nat)
    } else {
        joined_chars(numbers.drop_last()) + ", "@ + decimal_chars(numbers.last() as nat)
    }
}

/// `numbers` as a list in square brackets.
pub open spec fn list_chars(numbers: Seq<usize>) -> Seq<char> {
    "["@ + joined_chars(numbers) + "]"@
}

/// The digit `n` as a string.
fn digit_str(n: usize) -> (r: &'static str)
    requires
        n < 10,
    ensures
        r@ == seq![digit(n as nat)],
{
    proof {
        reveal_strlit("0");
        reveal_strlit("1");
        reveal_strlit("2");
        reveal_strlit("3");
        reveal_strlit("4");
        reveal_strlit("5");
        reveal_strlit("6");
        reveal_strlit("7");
        reveal_strlit("8");
        reveal_strlit("9");
    }
    let r = if n == 0 {
        "0"
    } else if n == 1 {
        "1"
    } else if n == 2 {
        "2"
    } else if n == 3 {
        "3"
    } else if n == 4 {
        "4"
    } else if n == 5 {
        "5"
    } else if n == 6 {
        "6"
    } else if n == 7 {
        "7"
    } else if n == 8 {
        "8"
    } else {
        "9"
    };
    assert(r@ =~= seq![digit(n as nat)]);
    r
}

/// `n` in decimal notation.
pub fn decimal(n: usize) -> (r: String)
    ensures
        r@ == decimal_chars(n as nat),
    decreases n,
{
    if n < 10 {
        String::from_str(digit_str(n))
    } else {
        let mut s = decimal(n / 10);
        let ghost head = s@;
        s.append(digit_str(n % 10));
        assert(s@ =~= head.push(digit((n % 10) as nat)));
        s
    }
}

/// `numbers` as a list in square brackets.
pub fn decimal_list(numbers: &[usize]) -> (r: String)
    ensures
        r@ == list_chars(numbers@),
{
    let mut s = String::from_str("[");
    let mut i: usize = 0;
    assert(s@ =~= "["@ + joined_chars(numbers@.take(0)));
    while i < numbers.len()
        invariant
            i <= numbers@.len(),
            s@ == "["@ + joined_chars(numbers@.take(i as int)),
        decreases numbers@.len() - i,
    {
        let ghost before = s@;
        if i > 0 {
            s.append(", ");
        }
        let d = decimal(numbers[i]);
        s.append(d.as_str());
        proof {
            let now = numbers@.take(i + 1);
            assert(now.drop_last() =~= numbers@.take(i as int));
            assert(now.last() == numbers@[i as int]);
            assert(s@ =~= "["@ + joined_chars(now));
        }
        i += 1;
    }
    assert(numbers@.take(i as int) =~= numbers@);
    s.append("]");
    s
}

} // verus!
