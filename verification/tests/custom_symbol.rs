use rusty_peg::{Error, Input, ParseResult, Symbol};

/// A symbol made outside the library: one decimal digit.
struct Digit;

impl<'input> Symbol<'input, ()> for Digit {
    type Output = u32;

    fn pretty_print(&self) -> String {
        "Digit".to_string()
    }

    fn parse(&self, _: &mut (), input: Input<'input>) -> ParseResult<'input, u32> {
        match input.text[input.offset..].chars().next().and_then(|c| c.to_digit(10)) {
            Some(digit) => Ok((input.offset_by(1), digit)),
            None => Err(Error { expected: "digit", offset: input.offset }),
        }
    }
}

#[test]
fn symbol_of_ones_own_parses_with_the_default_parse_prefix() {
    let (rest, digit) = Digit.parse_prefix(&mut (), "7x").unwrap();
    assert_eq!(digit, 7);
    assert_eq!(rest.offset, 1);
    let error = Digit.parse_prefix(&mut (), "x7").unwrap_err();
    assert_eq!(error, Error { expected: "digit", offset: 0 });
    assert_eq!(Digit.pretty_print(), "Digit");
}
