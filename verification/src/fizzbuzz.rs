use vstd::prelude::*;

verus! {

/// The digit character for a value below ten.
pub open spec fn digit_char(d: nat) -> char {
    if d == 0 {
        '0'
    } else if d == 1 {
        '1'
    } else if d == 2 {
        '2'
    } else if d == 3 {
        '3'
    } else if d == 4 {
        '4'
    } else if d == 5 {
        '5'
    } else if d == 6 {
        '6'
    } else if d == 7 {
        '7'
    } else if d == 8 {
        '8'
    } else {
        '9'
    }
}

/// The decimal numeral of `n`: most significant digit first, no sign,
/// no leading zero.
pub open spec fn decimal_digits(n: nat) -> Seq<char>
    decreases n,
{
    if n < 10 {
        seq![digit_char(n)]
    } else {
        decimal_digits(n / 10).push(digit_char(n % 10))
    }
}

/// Relies on `u32`'s `Display` implementation, through
/// `ToString::to_string`: the result is the number's decimal numeral,
/// most significant digit first, without sign or leading zero.
#[verifier::external_body]
fn u32_to_decimal(i: u32) -> (r: String)
    ensures
        r@ == decimal_digits(i as nat),
{
    i.to_string()
}

/// The word said for `i` when counting: multiples of 15 get
/// "FizzBuzz", other multiples of 5 get "Buzz", other multiples of 3
/// get "Fizz", and every other number its decimal numeral.
pub fn fizzbuzz2(i: u32) -> (r: String)
    ensures
        i % 15 == 0 ==> r@ == "FizzBuzz"@,
        i % 15 != 0 && i % 5 == 0 ==> r@ == "Buzz"@,
        i % 15 != 0 && i % 5 != 0 && i % 3 == 0 ==> r@ == "Fizz"@,
        i % 15 != 0 && i % 5 != 0 && i % 3 != 0 ==> r@ == decimal_digits(i as nat),
{
    if i % 15 == 0 {
        "FizzBuzz".to_owned()
    } else if i % 5 == 0 {
        "Buzz".to_owned()
    } else if i % 3 == 0 {
        "Fizz".to_owned()
    } else {
        u32_to_decimal(i)
    }
}

} // verus!
