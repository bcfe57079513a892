use std::rc::Rc;

use rusty_peg::matchers::{accept_match, is_keyword, match_identifier, match_literal};
use rusty_peg::memo::Memo;
use rusty_peg::silly_grammar::{
    eval_hi_or_ho, eval_rep, eval_sum, eval_sum1, should_parse_prefix, Foo, Hi, HiHo, HiOrHo,
    Ho, Parser, Rep, Sum, Sum1, HI, HI_OR_HO, REP, SUM,
};
use rusty_peg::text::{is_space_byte, skip_whitespace, slice, starts_with_at};
use rusty_peg::{
    Action, Body, Error, Grammar, Input, Kind, Node, Packrat, Symbol, SymbolRef, Value,
};

fn text_value(start: usize, end: usize) -> Value {
    Value::Text { start, end }
}

fn alt(index: usize, value: Value) -> Value {
    Value::Alt { index, value: Box::new(value) }
}

// The scenarios of the small grammar.

#[test]
fn hi_from_hi_ends_at_the_end() {
    let mut parser = Parser::new(Foo);
    let (rest, value) = Hi.parse_prefix(&mut parser, "Hi").unwrap();
    assert_eq!(value, 1);
    assert_eq!(rest.offset, 2);
    assert_eq!(rest.text, "Hi");
}

#[test]
fn hi_from_ho_expects_hi_at_the_start() {
    let mut parser = Parser::new(Foo);
    let error = Hi.parse_prefix(&mut parser, "Ho").unwrap_err();
    assert_eq!(error, Error { expected: "Hi", offset: 0 });
}

#[test]
fn ho_is_two() {
    assert_eq!(2, should_parse_prefix(&Ho, "Ho"));
}

#[test]
fn hiho_consumes_the_white_space_between() {
    let mut parser = Parser::new(Foo);
    let (rest, value) = HiHo.parse_prefix(&mut parser, "Hi Ho").unwrap();
    assert_eq!(value, ());
    assert_eq!(rest.offset, 5);
}

#[test]
fn hiho_leaves_white_space_after_the_match() {
    let mut parser = Parser::new(Foo);
    let (rest, _) = HiHo.parse_prefix(&mut parser, "Hi Ho  ").unwrap();
    assert_eq!(rest.offset, 5);
}

#[test]
fn hiho_fails_where_its_second_element_fails() {
    let mut parser = Parser::new(Foo);
    let error = HiHo.parse_prefix(&mut parser, "Hi  Hi").unwrap_err();
    assert_eq!(error, Error { expected: "Ho", offset: 4 });
}

#[test]
fn sum_of_two_is_x_plus_ten_y() {
    assert_eq!(21, should_parse_prefix(&Sum, "Hi + Ho"));
    assert_eq!(12, should_parse_prefix(&Sum, "Ho + Hi"));
    assert_eq!(12, should_parse_prefix(&Sum1, "Ho + Hi"));
}

#[test]
fn sum_of_one_is_the_number() {
    assert_eq!(2, should_parse_prefix(&Sum, "Ho"));
}

#[test]
fn sum_stops_before_a_plus_with_nothing_after_it() {
    let mut parser = Parser::new(Foo);
    let (rest, value) = Sum.parse_prefix(&mut parser, "Hi + Ho +").unwrap();
    assert_eq!(value, 21);
    assert_eq!(rest.offset, 7);
}

#[test]
fn sum_wraps_as_u32_does() {
    // Eleven terms: the last one counts 10^10 times, more than a u32 holds.
    let text = "Hi + Hi + Hi + Hi + Hi + Hi + Hi + Hi + Hi + Hi + Hi";
    let expected = (0..11).fold(0u32, |acc, _| acc.wrapping_mul(10).wrapping_add(1));
    assert_eq!(expected, 11_111_111_111u64 as u32);
    assert_eq!(expected, should_parse_prefix(&Sum, text));
}

#[test]
fn sum1_alone_needs_a_plus() {
    let mut parser = Parser::new(Foo);
    let error = Sum1.parse_prefix(&mut parser, "Hi").unwrap_err();
    assert_eq!(error, Error { expected: "+", offset: 2 });
}

#[test]
fn repetition_of_nothing_is_empty_and_does_not_move() {
    let mut parser = Parser::new(Foo);
    let (rest, value) = Rep.parse_prefix(&mut parser, "xyz").unwrap();
    assert_eq!(value, Vec::<u32>::new());
    assert_eq!(rest.offset, 0);

    let mut parser = Parser::new(Foo);
    let (rest, value) = Rep.parse_prefix(&mut parser, "").unwrap();
    assert!(value.is_empty());
    assert_eq!(rest.offset, 0);
}

#[test]
fn repetition_stops_before_the_first_failure() {
    let mut parser = Parser::new(Foo);
    let (rest, value) = Rep.parse_prefix(&mut parser, "Hi Ho Hu").unwrap();
    assert_eq!(value, vec![1, 2]);
    assert_eq!(rest.offset, 5);
}

#[test]
fn symbols_of_the_small_grammar_print_their_names() {
    assert_eq!(Symbol::<Parser>::pretty_print(&Hi), "Hi");
    assert_eq!(Symbol::<Parser>::pretty_print(&HiOrHo), "HiOrHo");
    assert_eq!(Symbol::<Parser>::pretty_print(&Rep), "Rep");
}

// Two runs give the same result.

#[test]
fn parsing_twice_gives_the_same_result() {
    let text = "Hi + Ho + Ho + Hi";
    let mut first = Packrat::new(Foo.grammar());
    let mut second = Packrat::new(Foo.grammar());
    let a = first.parse_rule(SUM, Input::start(text));
    let b = second.parse_rule(SUM, Input::start(text));
    let (rest_a, value_a) = a.unwrap();
    let (rest_b, value_b) = b.unwrap();
    assert_eq!(value_a, value_b);
    assert_eq!(rest_a.offset, rest_b.offset);

    let mut first = Packrat::new(Foo.grammar());
    let mut second = Packrat::new(Foo.grammar());
    let a = first.parse_rule(HI, Input::start("Ho")).unwrap_err();
    let b = second.parse_rule(HI, Input::start("Ho")).unwrap_err();
    assert_eq!(a, b);
}

// The cursor never moves backwards.

#[test]
fn match_never_ends_before_it_starts() {
    let text = "Hi Ho Ho Hi Ho";
    for rule in [HI, HI_OR_HO, SUM, REP] {
        for offset in [0, 2, 3, 5, 14] {
            let mut context = Packrat::new(Foo.grammar());
            match context.parse_rule(rule, Input { text, offset }) {
                Ok((rest, _)) => {
                    assert!(rest.offset >= offset);
                    assert!(rest.offset <= text.len());
                }
                Err(error) => {
                    assert!(error.offset >= offset);
                    assert!(error.offset <= text.len());
                }
            }
        }
    }
}

// The cache changes no result.

#[test]
fn a_filled_cache_gives_what_an_empty_one_gives() {
    let text = "Hi + Ho + Ho + Hi";
    let mut context = Packrat::new(Foo.grammar());
    let (_, cold) = context.parse_rule(SUM, Input::start(text)).unwrap();
    // Every rule has now been tried at every offset that the parse reached.
    let (rest, warm) = context.parse_rule(SUM, Input::start(text)).unwrap();
    assert_eq!(cold, warm);
    assert_eq!(rest.offset, text.len());
    for offset in [0, 2, 5, 10, 15] {
        let again = context.parse_rule(HI_OR_HO, Input { text, offset });
        let mut empty = Packrat::new(Foo.grammar());
        let fresh = empty.parse_rule(HI_OR_HO, Input { text, offset });
        match (again, fresh) {
            (Ok((a, x)), Ok((b, y))) => {
                assert_eq!(a.offset, b.offset);
                assert_eq!(x, y);
            }
            (Err(a), Err(b)) => assert_eq!(a, b),
            _ => panic!("the cache changed the result"),
        }
    }
}

#[test]
fn a_cleared_context_parses_another_text() {
    let mut context = Packrat::new(Foo.grammar());
    let (_, first) = context.parse_rule(HI_OR_HO, Input::start("Hi")).unwrap();
    assert_eq!(first.duplicate(), alt(0, text_value(0, 2)));
    context.clear();
    let (_, second) = context.parse_rule(HI_OR_HO, Input::start("Ho")).unwrap();
    assert_eq!(second.duplicate(), alt(1, text_value(0, 2)));
}

// Grammars made for one test each.

fn choice_of_groups<'a>(first: [&'a str; 2], second: [&'a str; 2]) -> (Grammar<'a>, usize) {
    let mut grammar = Grammar::new();
    let a0 = grammar.add(Node::Text(first[0]));
    let a1 = grammar.add(Node::Text(first[1]));
    let a = grammar.add(Node::Group(vec![a0, a1]));
    let b0 = grammar.add(Node::Text(second[0]));
    let b1 = grammar.add(Node::Text(second[1]));
    let b = grammar.add(Node::Group(vec![b0, b1]));
    let choice = grammar.add(Node::Choice(vec![a, b]));
    let rule = grammar.rule("Either", Body::Expr(choice));
    (grammar, rule)
}

#[test]
fn choice_takes_the_first_alternative_that_matches() {
    // Both alternatives match a prefix of the text; the second, longer one
    // is never tried.
    let mut grammar = Grammar::new();
    let short = grammar.add(Node::Text("a"));
    let long = grammar.add(Node::Text("ab"));
    let choice = grammar.add(Node::Choice(vec![short, long]));
    let rule = grammar.rule("Either", Body::Expr(choice));
    let mut context = Packrat::new(grammar);
    let (rest, value) = context.parse_rule(rule, Input::start("ab")).unwrap();
    assert_eq!(rest.offset, 1);
    assert_eq!(value.duplicate(), alt(0, text_value(0, 1)));

    let mut grammar = Grammar::new();
    let short = grammar.add(Node::Text("a"));
    let long = grammar.add(Node::Text("ab"));
    let choice = grammar.add(Node::Choice(vec![long, short]));
    let rule = grammar.rule("Either", Body::Expr(choice));
    let mut context = Packrat::new(grammar);
    let (rest, value) = context.parse_rule(rule, Input::start("ab")).unwrap();
    assert_eq!(rest.offset, 2);
    assert_eq!(value.duplicate(), alt(0, text_value(0, 2)));
}

#[test]
fn choice_reports_the_farthest_failure() {
    // The alternatives fail at the offsets 3 and 7.
    let (grammar, rule) = choice_of_groups(["abc", "X"], ["abcdefg", "Y"]);
    let mut context = Packrat::new(grammar);
    let error = context.parse_rule(rule, Input::start("abcdefgh")).unwrap_err();
    assert_eq!(error, Error { expected: "Y", offset: 7 });

    // In the other order they fail at 7 and 3.
    let (grammar, rule) = choice_of_groups(["abcdefg", "Y"], ["abc", "X"]);
    let mut context = Packrat::new(grammar);
    let error = context.parse_rule(rule, Input::start("abcdefgh")).unwrap_err();
    assert_eq!(error, Error { expected: "Y", offset: 7 });
}

#[test]
fn choice_keeps_the_last_of_two_failures_at_one_offset() {
    let (grammar, rule) = choice_of_groups(["abc", "X"], ["abc", "Y"]);
    let mut context = Packrat::new(grammar);
    let error = context.parse_rule(rule, Input::start("abcdefgh")).unwrap_err();
    assert_eq!(error, Error { expected: "Y", offset: 3 });
}

#[test]
fn choice_without_alternatives_fails_where_it_stands() {
    let mut grammar = Grammar::new();
    let choice = grammar.add(Node::Choice(vec![]));
    let rule = grammar.rule("Never", Body::Expr(choice));
    let mut context = Packrat::new(grammar);
    let error = context.parse_rule(rule, Input { text: "abc", offset: 1 }).unwrap_err();
    assert_eq!(error, Error { expected: "", offset: 1 });
}

#[test]
fn optional_yields_the_value_or_leaves_the_cursor() {
    let mut grammar = Grammar::new();
    let a = grammar.add(Node::Text("a"));
    let maybe = grammar.add(Node::Option(a));
    let rule = grammar.rule("Maybe", Body::Expr(maybe));
    let mut context = Packrat::new(grammar);
    let (rest, value) = context.parse_rule(rule, Input::start(" a")).unwrap();
    assert_eq!(rest.offset, 2);
    assert_eq!(value.duplicate(), Value::Present(Box::new(text_value(1, 2))));
    context.clear();
    let (rest, value) = context.parse_rule(rule, Input::start(" b")).unwrap();
    assert_eq!(rest.offset, 0);
    assert_eq!(value.duplicate(), Value::Absent);
}

#[test]
fn repetition_of_a_match_of_no_width_ends() {
    let mut grammar = Grammar::new();
    let a = grammar.add(Node::Text("a"));
    let maybe = grammar.add(Node::Option(a));
    let many = grammar.add(Node::Repeat(maybe));
    let rule = grammar.rule("Many", Body::Expr(many));
    let mut context = Packrat::new(grammar);
    let (rest, value) = context.parse_rule(rule, Input::start("aab")).unwrap();
    assert_eq!(rest.offset, 2);
    assert_eq!(
        value.duplicate(),
        Value::List(vec![
            Value::Present(Box::new(text_value(0, 1))),
            Value::Present(Box::new(text_value(1, 2))),
            Value::Absent,
        ])
    );
}

#[test]
fn repetition_of_the_empty_text_ends() {
    let mut grammar = Grammar::new();
    let nothing = grammar.add(Node::Text(""));
    let many = grammar.add(Node::Repeat(nothing));
    let rule = grammar.rule("Many", Body::Expr(many));
    let mut context = Packrat::new(grammar);
    let (rest, value) = context.parse_rule(rule, Input::start("  x")).unwrap();
    // The first match skips the white space, the second does not move.
    assert_eq!(rest.offset, 2);
    assert_eq!(value.duplicate(), Value::List(vec![text_value(2, 2), text_value(2, 2)]));
}

#[test]
fn group_keeps_the_bound_elements_only() {
    let mut grammar = Grammar::new();
    let a = grammar.add(Node::Text("a"));
    let b = grammar.add(Node::Text("b"));
    let c = grammar.add(Node::Text("c"));
    let keep_a = grammar.add(Node::Elem(a));
    let keep_c = grammar.add(Node::Elem(c));
    let group = grammar.add(Node::Group(vec![keep_a, b, keep_c]));
    let rule = grammar.rule("Abc", Body::Expr(group));
    let mut context = Packrat::new(grammar);
    let (rest, value) = context.parse_rule(rule, Input::start("a b c")).unwrap();
    assert_eq!(rest.offset, 5);
    assert_eq!(value.duplicate(), Value::Tuple(vec![text_value(0, 1), text_value(4, 5)]));
    let (rest, value) = context.parse_node(group, Input::start("a b c")).unwrap();
    assert_eq!(rest.offset, 5);
    assert_eq!(value.duplicate(), Value::Tuple(vec![text_value(0, 1), text_value(4, 5)]));
}

#[test]
fn empty_group_matches_nothing() {
    let mut grammar = Grammar::new();
    let group = grammar.add(Node::Group(vec![]));
    let rule = grammar.rule("Nothing", Body::Expr(group));
    let mut context = Packrat::new(grammar);
    let (rest, value) = context.parse_rule(rule, Input { text: "abc", offset: 2 }).unwrap();
    assert_eq!(rest.offset, 2);
    assert_eq!(value.duplicate(), Value::Tuple(vec![]));
}

#[test]
fn rule_defined_after_it_is_named() {
    // List = "(" List ")" / "x": the rule names itself after a text.
    let mut grammar = Grammar::new();
    let list = grammar.rule("List", Body::Pending);
    let open = grammar.add(Node::Text("("));
    let inner = grammar.add(Node::Symbol(list));
    let keep = grammar.add(Node::Elem(inner));
    let close = grammar.add(Node::Text(")"));
    let nested = grammar.add(Node::Group(vec![open, keep, close]));
    let leaf = grammar.add(Node::Text("x"));
    let choice = grammar.add(Node::Choice(vec![nested, leaf]));
    grammar.define(list, Body::Expr(choice));
    assert_eq!(grammar.len(), 7);
    assert_eq!(grammar.rule_count(), 1);
    let mut context = Packrat::new(grammar);
    let (rest, value) = context.parse_rule(list, Input::start("((x))")).unwrap();
    assert_eq!(rest.offset, 5);
    let x = alt(1, text_value(2, 3));
    let one = alt(0, Value::Tuple(vec![x]));
    let two = alt(0, Value::Tuple(vec![one]));
    assert_eq!(value.duplicate(), two);
    context.clear();
    let error = context.parse_rule(list, Input::start("((x)")).unwrap_err();
    assert_eq!(error, Error { expected: ")", offset: 4 });
}

#[test]
fn kinds_of_symbols() {
    let grammar = Foo.grammar();
    assert!(matches!(grammar.kind(0), Kind::Text));
    assert!(matches!(grammar.kind(2), Kind::Symbol(HI)));
    assert!(matches!(grammar.kind(4), Kind::Group));
    assert!(matches!(grammar.kind(8), Kind::Elem));
    assert!(matches!(grammar.kind(12), Kind::Group));
    assert!(matches!(grammar.kind(14), Kind::Repeat));
    let mut grammar = Grammar::new();
    let a = grammar.add(Node::Text("a"));
    let maybe = grammar.add(Node::Option(a));
    assert!(matches!(grammar.kind(maybe), Kind::Option));
}

#[test]
fn symbol_ref_parses_its_rule_and_prints_its_name() {
    let mut context = Packrat::new(Foo.grammar());
    let sum = SymbolRef::new(&context, SUM);
    assert_eq!(sum.pretty_print(), "Sum");
    let (rest, value) = sum.parse_prefix(&mut context, "Hi + Ho").unwrap();
    assert_eq!(rest.offset, 7);
    assert_eq!(eval_sum(&value), 21);
    let error = sum.parse(&mut context, Input { text: "Hi + Ho", offset: 2 }).unwrap_err();
    assert_eq!(error, Error { expected: "Ho", offset: 3 });
}

// The parts.

#[test]
fn offset_by_moves_the_cursor() {
    let input = Input::start("Hi Ho");
    assert_eq!(input.offset, 0);
    let moved = input.offset_by(3);
    assert_eq!(moved.offset, 3);
    assert_eq!(moved.text, "Hi Ho");
    assert_eq!(moved.offset_by(0).offset, 3);
    assert_eq!(moved.offset_by(2).offset, 5);
}

#[test]
fn farther_failure_wins_and_the_newer_at_a_tie() {
    let near = Error { expected: "near", offset: 3 };
    let far = Error { expected: "far", offset: 7 };
    let also_far = Error { expected: "also far", offset: 7 };
    assert_eq!(near.farther(far), far);
    assert_eq!(far.farther(near), far);
    assert_eq!(far.farther(also_far), also_far);
    assert_eq!(also_far.farther(far), far);
}

#[test]
fn white_space_is_skipped_up_to_the_first_other_byte() {
    assert_eq!(skip_whitespace(b"  \t\r\n\x0b\x0cx  ", 0), 7);
    assert_eq!(skip_whitespace(b"  x", 2), 2);
    assert_eq!(skip_whitespace(b"   ", 1), 3);
    assert_eq!(skip_whitespace(b"", 0), 0);
    assert_eq!(skip_whitespace("\u{a0}x".as_bytes(), 0), 0);
    for b in [b' ', b'\t', b'\n', 0x0b, 0x0c, b'\r'] {
        assert!(is_space_byte(b));
    }
    for b in [0x08, 0x0e, 0x1f, b'a', 0x85, 0xa0] {
        assert!(!is_space_byte(b));
    }
}

#[test]
fn literal_is_found_at_an_offset() {
    assert!(starts_with_at(b"abcdef", 2, b"cd"));
    assert!(!starts_with_at(b"abcdef", 2, b"ce"));
    assert!(!starts_with_at(b"abcdef", 5, b"fg"));
    assert!(starts_with_at(b"abcdef", 6, b""));
    assert!(starts_with_at(b"abcdef", 0, b"abcdef"));
}

#[test]
fn slice_borrows_from_the_text() {
    let text = "h\u{e9}llo w\u{f6}rld";
    assert_eq!(slice(text, 0, 3), "h\u{e9}");
    assert_eq!(slice(text, 7, 13), "w\u{f6}rld");
    assert_eq!(slice(text, 4, 4), "");
}

#[test]
fn literal_matcher_skips_white_space_and_fails_after_it() {
    assert_eq!(match_literal("  Hi", 0, "Hi"), Ok((4, text_value(2, 4))));
    assert_eq!(match_literal("  Ho", 0, "Hi"), Err(Error { expected: "Hi", offset: 2 }));
    assert_eq!(match_literal("Hi", 2, "Hi"), Err(Error { expected: "Hi", offset: 2 }));
    assert_eq!(match_literal("H", 0, "Hi"), Err(Error { expected: "Hi", offset: 0 }));
    assert_eq!(match_literal("a \u{e9}t\u{e9}", 1, "\u{e9}t\u{e9}"), Ok((7, text_value(2, 7))));
}

#[test]
fn identifier_matcher_follows_the_pattern_and_the_keywords() {
    let keywords = vec!["class", "fn"];
    let pattern = "^[a-z]+";
    assert_eq!(
        match_identifier(" abc1", 1, pattern, &keywords, "word"),
        Ok((4, text_value(1, 4)))
    );
    assert_eq!(
        match_identifier("fn x", 0, pattern, &keywords, "word"),
        Err(Error { expected: "word", offset: 0 })
    );
    assert_eq!(
        match_identifier("fn x", 3, pattern, &keywords, "word"),
        Ok((4, text_value(3, 4)))
    );
    assert_eq!(
        match_identifier("123", 0, pattern, &keywords, "word"),
        Err(Error { expected: "word", offset: 0 })
    );
}

#[test]
fn identifier_matcher_skips_no_white_space() {
    let pattern = "^[a-z]+";
    assert_eq!(
        match_identifier(" abc1", 0, pattern, &vec![], "word"),
        Err(Error { expected: "word", offset: 0 })
    );
    assert_eq!(
        match_identifier("fn x", 2, pattern, &vec![], "word"),
        Err(Error { expected: "word", offset: 2 })
    );
    // A pattern that takes white space takes it from the cursor on.
    assert_eq!(
        match_identifier("a  b", 1, "^\\s*[a-z]", &vec![], "word"),
        Ok((4, text_value(1, 4)))
    );
}

#[test]
fn identifier_matcher_takes_only_a_match_at_the_cursor() {
    // Without the anchor the first match starts at offset 3.
    assert_eq!(
        match_identifier("123abc", 0, "[a-z]+", &vec![], "word"),
        Err(Error { expected: "word", offset: 0 })
    );
    assert_eq!(
        match_identifier("123abc", 3, "[a-z]+", &vec![], "word"),
        Ok((6, text_value(3, 6)))
    );
}

#[test]
fn identifier_matcher_fails_on_what_is_no_pattern() {
    assert_eq!(
        match_identifier("abc", 0, "(", &vec![], "word"),
        Err(Error { expected: "word", offset: 0 })
    );
}

#[test]
fn keywords_are_whole_words() {
    let keywords = vec!["class", "fn"];
    assert!(is_keyword(b"class x", 5, &keywords));
    assert!(is_keyword(b"fn", 2, &keywords));
    assert!(!is_keyword(b"class x", 4, &keywords));
    assert!(!is_keyword(b"classy", 6, &keywords));
    assert!(!is_keyword(b"", 0, &keywords));
    assert!(!is_keyword(b"class", 5, &vec![]));
}

#[test]
fn values_are_copied_whole() {
    let value = Value::Tuple(vec![
        text_value(0, 1),
        Value::List(vec![alt(1, Value::Absent), Value::Present(Box::new(text_value(2, 3)))]),
    ]);
    assert_eq!(value.duplicate(), value);
    let copies = Value::duplicate_all(&vec![text_value(1, 2), Value::Absent]);
    assert_eq!(copies, vec![text_value(1, 2), Value::Absent]);
}

#[test]
fn copies_and_peeled_values_carry_no_mark_of_a_rule() {
    let inner = Rc::new(alt(1, Value::Rule(Rc::new(text_value(0, 2)))));
    let marked = Value::Rule(Rc::new(Value::Rule(inner)));
    assert_eq!(marked.duplicate(), alt(1, text_value(0, 2)));
    assert!(matches!(marked.peel(), Value::Alt { index: 1, .. }));
    assert_eq!(text_value(3, 4).peel(), &text_value(3, 4));
}

#[test]
fn memo_returns_what_was_stored() {
    let mut memo = Memo::new(2);
    assert_eq!(memo.lookup(0, 5), None);
    let kept = Rc::new(text_value(5, 7));
    memo.store(0, 5, Ok((7, Rc::clone(&kept))));
    memo.store(1, 5, Err(Error { expected: "x", offset: 6 }));
    match memo.lookup(0, 5) {
        Some(Ok((7, Value::Rule(shared)))) => assert!(Rc::ptr_eq(&shared, &kept)),
        other => panic!("not the entry: {:?}", other),
    }
    assert_eq!(memo.lookup(1, 5), Some(Err(Error { expected: "x", offset: 6 })));
    assert_eq!(memo.lookup(0, 6), None);
    assert_eq!(memo.lookup(1, 7), None);
}

#[test]
fn a_hit_gives_out_the_value_that_the_cache_holds() {
    let text = "Hi + Ho + Ho + Hi";
    let mut context = Packrat::new(Foo.grammar());
    let (_, cold) = context.parse_rule(SUM, Input::start(text)).unwrap();
    let (_, warm) = context.parse_rule(SUM, Input::start(text)).unwrap();
    match (cold, warm) {
        (Value::Rule(first), Value::Rule(second)) => assert!(Rc::ptr_eq(&first, &second)),
        other => panic!("not the values of a rule: {:?}", other),
    }
}

#[test]
fn numbers_of_trees() {
    assert_eq!(eval_hi_or_ho(&alt(0, text_value(0, 2))), 1);
    assert_eq!(eval_hi_or_ho(&alt(1, text_value(0, 2))), 2);
    assert_eq!(eval_hi_or_ho(&Value::Absent), 0);
    let one = alt(0, text_value(0, 2));
    let two = alt(1, text_value(5, 7));
    let pair = Value::Tuple(vec![one, alt(1, two)]);
    assert_eq!(eval_sum1(&pair), 21);
    assert_eq!(eval_sum(&alt(0, pair)), 21);
    assert_eq!(eval_sum1(&Value::Tuple(vec![])), 0);
    let list = Value::List(vec![alt(1, text_value(0, 2)), alt(0, text_value(3, 5))]);
    assert_eq!(eval_rep(&list), vec![2, 1]);
    assert_eq!(eval_rep(&Value::Absent), Vec::<u32>::new());
}

#[test]
fn match_counts_only_at_the_cursor_inside_the_text_and_off_the_keywords() {
    let keywords = vec!["def"];
    let text = "abc def h\u{e9}";
    // A match of the first three bytes of the rest.
    assert_eq!(accept_match(text, 0, Some((0, 3)), &keywords, "word"), Ok((3, text_value(0, 3))));
    assert_eq!(accept_match(text, 8, Some((0, 1)), &keywords, "word"), Ok((9, text_value(8, 9))));
    // A match of no width.
    assert_eq!(accept_match(text, 4, Some((0, 0)), &keywords, "word"), Ok((4, text_value(4, 4))));
    // No match.
    assert_eq!(
        accept_match(text, 0, None, &keywords, "word"),
        Err(Error { expected: "word", offset: 0 })
    );
    // A match that starts later.
    assert_eq!(
        accept_match(text, 0, Some((1, 3)), &keywords, "word"),
        Err(Error { expected: "word", offset: 0 })
    );
    // A keyword.
    assert_eq!(
        accept_match(text, 4, Some((0, 3)), &keywords, "word"),
        Err(Error { expected: "word", offset: 4 })
    );
    // A match that ends after the text.
    assert_eq!(
        accept_match(text, 8, Some((0, 4)), &keywords, "word"),
        Err(Error { expected: "word", offset: 8 })
    );
    // A match that ends inside a code point.
    assert_eq!(
        accept_match(text, 8, Some((0, 2)), &keywords, "word"),
        Err(Error { expected: "word", offset: 8 })
    );
    assert_eq!(accept_match(text, 8, Some((0, 3)), &keywords, "word"), Ok((11, text_value(8, 11))));
}

#[test]
fn action_turns_the_value_of_its_rule_into_the_output() {
    let mut context = Packrat::new(Foo.grammar());
    let sum = Action {
        target: SymbolRef::new(&context, SUM),
        action: |_text: &str, value: Value| eval_sum(&value),
    };
    assert_eq!(sum.pretty_print(), "Sum");
    let (rest, number) = sum.parse_prefix(&mut context, "Hi + Ho + Ho + Hi").unwrap();
    assert_eq!(number, 1221);
    assert_eq!(rest.offset, 17);
    let error = sum.parse_prefix(&mut context, "Hi + Ho + Ho + Hi").map(|_| ()).err();
    assert_eq!(error, None);

    let mut context = Packrat::new(Foo.grammar());
    let shout = Action {
        target: SymbolRef::new(&context, HI),
        action: |text: &str, value: Value| match value.peel() {
            Value::Text { start, end } => text[*start..*end].to_uppercase(),
            _ => String::new(),
        },
    };
    let (_, loud) = shout.parse_prefix(&mut context, "  Hi").unwrap();
    assert_eq!(loud, "HI");
    context.clear();
    let error = shout.parse_prefix(&mut context, "Ho").unwrap_err();
    assert_eq!(error, Error { expected: "Hi", offset: 0 });
}
