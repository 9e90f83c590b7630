use brainfuck::fizzbuzz::fizzbuzz2;

#[test]
fn multiples_of_fifteen_say_fizzbuzz() {
    assert_eq!("FizzBuzz", fizzbuzz2(15));
    assert_eq!("FizzBuzz", fizzbuzz2(0));
    assert_eq!("FizzBuzz", fizzbuzz2(45));
}

#[test]
fn other_multiples_of_five_say_buzz() {
    assert_eq!("Buzz", fizzbuzz2(5));
    assert_eq!("Buzz", fizzbuzz2(20));
}

#[test]
fn other_multiples_of_three_say_fizz() {
    assert_eq!("Fizz", fizzbuzz2(3));
    assert_eq!("Fizz", fizzbuzz2(9));
}

#[test]
fn other_numbers_say_their_numeral() {
    assert_eq!("1", fizzbuzz2(1));
    assert_eq!("7", fizzbuzz2(7));
    assert_eq!("12345677", fizzbuzz2(12345677));
    assert_eq!("4294967294", fizzbuzz2(u32::MAX - 1));
}
