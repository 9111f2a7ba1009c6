use binc::number::{BitsIndex, BitsIndexRange};
use binc::operators::Operator;
use binc::syntax::{
    parse, syntax_accessor, syntax_index, syntax_letter, LeftOperandSource, ParsingIterator,
    RightOperandSource,
};

#[test]
fn syntax_parsing_iterator_from_non_ascii() {
    ParsingIterator::from("これは変な文です").unwrap();
}

#[test]
fn syntax_parsing_iterator_from() {
    let mut it = ParsingIterator::from("").unwrap();
    assert_eq!(0, it.offset());
    match it.current() {
        None => {}, // success
        _ => panic!("next value for iterator with empty string must be None")
    }
    assert_eq!(0, it.offset());
    match it.next() {
        None => {}, // success
        _ => panic!("next value for iterator with empty string must be None")
    }
    assert_eq!(0, it.offset());

    let mut it = ParsingIterator::from("abc").unwrap();
    assert_eq!(0, it.offset());
    match it.current() {
        Some('a') => {}, // success
        Some(_) => panic!("current value of fresh iterator must be the first letter in source string"),
        None => panic!("current value of fresh iterator with non-empty string must be Some letter")
    }
    match it.next() {
        Some('b') => {}, // success
        x => panic!("next value for iterator with empty string must be Some letter, was {:?}, index {}", x, it.offset())
    }
    assert_eq!(1, it.offset());
}

#[test]
fn syntax_parsing_iterator_match_from_current() {
    let mut it = ParsingIterator::from("abc").unwrap();
    assert_eq!(0, it.offset());
    assert!(it.match_from_current("a"));
    assert!(it.match_from_current("ab"));
    assert!(it.match_from_current("abc"));

    assert_eq!(Some('b'), it.next());
    assert_eq!(Some('b'), it.current());

    assert!(!it.match_from_current("a"));
    assert!(it.match_from_current("b"));
    assert!(it.match_from_current("bc"));

    assert_eq!(Some('c'), it.next());
    assert_eq!(Some('c'), it.current());

    assert!(!it.match_from_current("b"));
    assert!(it.match_from_current("c"));

    assert_eq!(None, it.next());
    assert_eq!(None, it.current());
    assert!(!it.match_from_current("c"));
    assert!(!it.match_from_current("abc"));

    let it = ParsingIterator::from(">> 2").unwrap();
    assert!(it.match_from_current(">>"));
    assert!(!it.match_from_current(">>>"));
}

#[test]
fn parsing_iterator_skip_whitespaces() {
    let mut it = ParsingIterator::from("   ").unwrap();
    assert_eq!(None, it.current());
    assert_eq!(None, it.next());

    let mut it = ParsingIterator::from("  a  ").unwrap();
    assert_eq!(Some('a'), it.current());
    assert_eq!(None, it.next());

    let mut it = ParsingIterator::from(" 12\t 3  ").unwrap();
    assert!(!it.match_from_current("123"));

    while let Some(c) = it.current() {
        assert_ne!(' ', c);
        assert_ne!('\t', c);
        it.next();
    }

    let mut it = ParsingIterator::from(" 12\t 3  ").unwrap();
    assert_ne!(Some(' '), it.current());
    while let Some(c) = it.next() {
        assert_ne!(' ', c);
        assert_ne!('\t', c);
    }
    let it = ParsingIterator::from(" 12\t 3abc").unwrap();
    let it = it.rewind_n(3);
    assert_eq!(6, it.offset());
    assert!(it.match_from_current("abc"));

    let mut it = ParsingIterator::from(" \t[ 0 ]   =  1").unwrap();
    let pat = "[0]=1".as_bytes();
    assert_eq!(Some(*pat.first().unwrap() as char), it.current());
    for i in 1..pat.len() {
        it = it.rewind_n(1);
        assert_eq!(Some(pat[i] as char), it.current());
    }
}

#[test]
fn syntax_syntax_index_test() {
    match syntax_index(ParsingIterator::from("").unwrap()) {
        (_, Some(_)) => panic!("syntax_index() must return no value if source string was empty"),
        (it, None) if it.current() == None => (), // success
        _ => panic!("syntax_index() must exhaust iterator with empty string")
    }
    match syntax_index(ParsingIterator::from("0").unwrap()) {
        (it, Some(parsed)) if it.current() == None => assert_eq!(0, parsed),
        (_, None) => panic!("syntax_index() must parse 0"),
        _ => panic!("syntax_index() must exhaust iterator with string containing one number")
    }
    match syntax_index(ParsingIterator::from(&usize::MAX.to_string()).unwrap()) {
        (it, Some(parsed)) if it.current() == None => assert_eq!(usize::MAX, parsed),
        (_, None) => panic!("syntax_index() must parse usize::MAX"),
        _ => panic!("syntax_index() must exhaust iterator with empty string")
    }
    let test_string = "a1fasd";
    match syntax_index(ParsingIterator::from(test_string).unwrap()) {
        (_, Some(_)) => panic!("syntax_index() must return no value if source string has no leading digits"),
        (mut it, None) => {
            let mut count = 0;
            while let Some(_) = it.next() {
                count += 1;
            }
            assert_eq!(test_string.len() - 1, count);
        }
    }
    match syntax_index(ParsingIterator::from("123adf").unwrap()) {
        (mut it, Some(parsed)) => {
            assert_eq!(123, parsed);
            assert_eq!(Some('a'), it.current());
            let mut count = 0;
            while let Some(_) = it.next() {
                count += 1;
            }
            assert_eq!("adf".len() - 1, count);
        },
        (_, None) => panic!("syntax_index() must return value if source string has leading digits")
    }
}

#[test]
fn syntax_letter_test() {
    match syntax_letter(ParsingIterator::from("'a'").unwrap()) {
        Ok((it, right_operand_source)) => {
            if let Some(_) = it.current() {
                panic!("syntax_letter() did not parse the whole string to the end")
            }
            match right_operand_source {
                RightOperandSource::DirectSource(n) => {
                    assert_eq!(0b01100001u128, n.get_bits(BitsIndexRange(BitsIndex::HighestBit, BitsIndex::LowestBit)))
                }
                _ => panic!("syntax_letter() returned not a DirectSource")
            }
        }
        Err(_) => panic!("syntax_letter() failed to parse letter literal")
    }

    match syntax_letter(ParsingIterator::from("'aa'").unwrap()) {
        Ok((_, _)) => {
            panic!("syntax_letter() failed to detect that there are several chars")
        }
        Err(_) => {} // OK
    }

    match syntax_letter(ParsingIterator::from("''").unwrap()) {
        Ok((_, _)) => {
            panic!("syntax_letter() failed to detect that there are no chars")
        }
        Err(_) => {} // OK
    }

    match syntax_letter(ParsingIterator::from("  ' '  ").unwrap()) {
        Ok((_, RightOperandSource::DirectSource(number))) => {
            if !number.to_string_as_char().eq("' '") {
                panic!("syntax_letter() cannot parse space character literal")
            }
        }
        Ok((_, _)) => {
            panic!("syntax_letter() wrong parsing")
        }
        Err(_) => {
            panic!("syntax_letter() failed to detect that there are several chars")
        }
    }
}

#[test]
fn syntax_accessor_test() {
    match syntax_accessor(ParsingIterator::from("[]").unwrap()) {
        Ok((_, Some(range))) => {
            if !(range.0 == BitsIndex::HighestBit && range.1 == BitsIndex::LowestBit) {
                panic!("syntax_accessor() parses wrong range")
            }
        }
        Ok(_) => panic!("syntax_accessor() cannot parse [] properly"),
        Err(_) => panic!("syntax_accessor() cannot parse")
    }

    match syntax_accessor(ParsingIterator::from("[:]").unwrap()) {
        Ok((_, Some(range))) => {
            if !(range.0 == BitsIndex::HighestBit && range.1 == BitsIndex::LowestBit) {
                panic!("syntax_accessor() parses wrong range")
            }
        }
        Ok(_) => panic!("syntax_accessor() cannot parse [:] properly"),
        Err(_) => panic!("syntax_accessor() cannot parse")
    }

    match syntax_accessor(ParsingIterator::from("[3:5]").unwrap()) {
        Ok((_, Some(BitsIndexRange(BitsIndex::IndexedBit(left), BitsIndex::IndexedBit(right))))) => {
            if !(left == 3 && right == 5) {
                panic!("syntax_accessor() parses wrong range")
            }
        }
        Ok(_) => panic!("syntax_accessor() cannot parse [i:j] properly"),
        Err(_) => panic!("syntax_accessor() cannot parse")
    }

    match syntax_accessor(ParsingIterator::from("[3:]").unwrap()) {
        Ok((_, Some(BitsIndexRange(BitsIndex::IndexedBit(left), BitsIndex::LowestBit)))) => {
            if !(left == 3) {
                panic!("syntax_accessor() parses wrong range")
            }
        }
        Ok(_) => panic!("syntax_accessor() cannot parse [i:] properly"),
        Err(_) => panic!("syntax_accessor() cannot parse")
    }

    match syntax_accessor(ParsingIterator::from("[:5]").unwrap()) {
        Ok((_, Some(BitsIndexRange(BitsIndex::HighestBit, BitsIndex::IndexedBit(right))))) => {
            if !(right == 5) {
                panic!("syntax_accessor() parses wrong range")
            }
        }
        Ok(_) => panic!("syntax_accessor() cannot parse [:j] properly"),
        Err(_) => panic!("syntax_accessor() cannot parse")
    }
}

#[test]
fn single_index_accessor_is_one_bit() {
    match syntax_accessor(ParsingIterator::from("[7]").unwrap()) {
        Ok((_, Some(range))) => {
            assert!(range.0 == BitsIndex::IndexedBit(7) && range.1 == BitsIndex::IndexedBit(7));
        }
        _ => panic!("[7] must parse"),
    }
    assert!(syntax_accessor(ParsingIterator::from("[7").unwrap()).is_err());
}

#[test]
fn parse_operators_longest_match() {
    let cases = [
        (">>>1", Operator::UnsignedShiftRight),
        (">>1", Operator::SignedShiftRight),
        (">1", Operator::Greater),
        ("<<~1", Operator::UnsignedCyclicShiftLeft),
        ("~>>1", Operator::UnsignedCyclicShiftRight),
        ("<>[1]", Operator::Swap),
        ("==1", Operator::Equals),
        ("+=1", Operator::Sum),
        ("|=1", Operator::Or),
        ("%=3", Operator::Mod),
        ("=1", Operator::Assign),
        ("1", Operator::Assign),
        ("unsigned", Operator::Unsigned),
        ("signed", Operator::Signed),
        ("pow", Operator::Pow),
        ("root 3", Operator::Root),
        ("cnt 0", Operator::Count),
        ("int 16", Operator::IntBitsWidth),
        ("?", Operator::ShowHelp),
        ("!", Operator::Negate),
    ];
    for (text, op) in cases {
        match parse(text) {
            Ok((_, parsed, _)) => assert_eq!(op, parsed, "{}", text),
            Err(m) => panic!("{}: {}", text, m),
        }
    }
}

#[test]
fn parse_errors() {
    assert!(parse("[3:1").is_err());
    assert!(parse("1 2 x").is_err());
    assert!(parse("=0b102").is_err());
    assert!(parse("=0(38)1").is_err());
    assert!(parse("='ab'").is_err());
    assert!(parse("=0q").is_err());
    assert!(parse("+ @").is_err());
}

#[test]
fn parse_literal_forms() {
    let value = |text: &str| match parse(text) {
        Ok((_, _, RightOperandSource::DirectSource(n))) => n.to_u128(),
        _ => panic!("{} must give an immediate", text),
    };
    assert_eq!(0b101, value("=0b101"));
    assert_eq!(0o17, value("=0o17"));
    assert_eq!(99, value("=0d99"));
    assert_eq!(0xff, value("=0xff"));
    assert_eq!(0xff, value("=0hFF"));
    assert_eq!(35, value("=0(36)f") + 20);
    assert_eq!(0, value("=0"));
    assert_eq!(0xff, value("=-1"));
    assert_eq!(0x3bb, value("='λ'"));
    match parse(" [ 7 : 0 ] + [15:8]") {
        Ok((LeftOperandSource::RangeSource(l), Operator::Sum, RightOperandSource::RangeSource(r))) => {
            assert!(l == BitsIndexRange(BitsIndex::IndexedBit(7), BitsIndex::IndexedBit(0)));
            assert!(r == BitsIndexRange(BitsIndex::IndexedBit(15), BitsIndex::IndexedBit(8)));
        }
        _ => panic!("range operands must parse"),
    }
    match parse("~") {
        Ok((LeftOperandSource::RangeSource(l), Operator::Not, RightOperandSource::Empty)) => {
            assert!(l == BitsIndexRange(BitsIndex::HighestBit, BitsIndex::LowestBit));
        }
        _ => panic!("~ must parse"),
    }
}

#[test]
fn mod_parsing_iterator_from() {
    let mut it = ParsingIterator::from("").unwrap();
    assert_eq!(0, it.offset());
    match it.current() {
        None => {}, // success
        _ => panic!("next value for iterator with empty string must be None")
    }
    assert_eq!(0, it.offset());
    match it.next() {
        None => {}, // success
        _ => panic!("next value for iterator with empty string must be None")
    }
    assert_eq!(0, it.offset());

    let mut it = ParsingIterator::from("abc").unwrap();
    assert_eq!(0, it.offset());
    match it.current() {
        Some('a') => {}, // success
        Some(_) => panic!("current value of fresh iterator must be the first letter in source string"),
        None => panic!("current value of fresh iterator with non-empty string must be Some letter")
    }
    match it.next() {
        Some('b') => {}, // success
        _ => panic!("next value for iterator with empty string must be Some letter")
    }
    assert_eq!(1, it.offset());
}

#[test]
fn mod_parsing_iterator_match_from_current() {
    let mut it = ParsingIterator::from("abc").unwrap();
    assert_eq!(0, it.offset());
    assert!(it.match_from_current("a"));
    assert!(it.match_from_current("ab"));
    assert!(it.match_from_current("abc"));

    assert_eq!(Some('b'), it.next());
    assert_eq!(Some('b'), it.current());

    assert!(!it.match_from_current("a"));
    assert!(it.match_from_current("b"));
    assert!(it.match_from_current("bc"));

    assert_eq!(Some('c'), it.next());
    assert_eq!(Some('c'), it.current());

    assert!(!it.match_from_current("b"));
    assert!(it.match_from_current("c"));

    assert_eq!(None, it.next());
    assert_eq!(None, it.current());
    assert!(!it.match_from_current("c"));
    assert!(!it.match_from_current("abc"));
}

#[test]
fn mod_syntax_index_test() {
    match syntax_index(ParsingIterator::from("").unwrap()) {
        (_, Some(_)) => panic!("syntax_index() must return no value if source string was empty"),
        (it, None) if it.current() == None => (), // success
        _ => panic!("syntax_index() must exhaust iterator with empty string")
    }
    match syntax_index(ParsingIterator::from("0").unwrap()) {
        (it, Some(parsed)) if it.current() == None => assert_eq!(0, parsed),
        (_, None) => panic!("syntax_index() must parse 0"),
        _ => panic!("syntax_index() must exhaust iterator with string containing one number")
    }
    match syntax_index(ParsingIterator::from(&usize::MAX.to_string()).unwrap()) {
        (it, Some(parsed)) if it.current() == None => assert_eq!(usize::MAX, parsed),
        (_, None) => panic!("syntax_index() must parse usize::MAX"),
        _ => panic!("syntax_index() must exhaust iterator with empty string")
    }
    let test_string = "a1fasd";
    match syntax_index(ParsingIterator::from(test_string).unwrap()) {
        (_, Some(_)) => panic!("syntax_index() must return no value if source string has no leading digits"),
        (mut it, None) => {
            let mut count = 0;
            while let Some(_) = it.next() {
                count += 1;
            }
            assert_eq!(test_string.len() - 1, count);
        }
    }
    match syntax_index(ParsingIterator::from("123adf").unwrap()) {
        (mut it, Some(parsed)) => {
            assert_eq!(123, parsed);
            assert_eq!(Some('a'), it.current());
            let mut count = 0;
            while let Some(_) = it.next() {
                count += 1;
            }
            assert_eq!("adf".len() - 1, count);
        },
        (_, None) => panic!("syntax_index() must return value if source string has leading digits")
    }
}
