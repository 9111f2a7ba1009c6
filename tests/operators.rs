use binc::number::{BitsIndex, BitsIndexRange, Number, NumberType};
use binc::operators::{execute, HandlerResult};
use binc::syntax::parse;

fn register(width: usize, value: u128) -> Number {
    let mut n = Number::new(NumberType::Integer, false, width).unwrap();
    n.set_bits(BitsIndexRange(BitsIndex::HighestBit, BitsIndex::LowestBit), value);
    n
}

fn run(buffer: &mut Number, command: &str) -> Result<(HandlerResult, Option<String>), String> {
    let (left, op, right) = parse(command)?;
    execute(buffer, op, left, right)
}

#[test]
fn add_wraps_inside_range() {
    let mut n = Number::from_str("ffff00", 16).unwrap();
    let r = run(&mut n, "[23:8]+=1").unwrap();
    assert_eq!(HandlerResult::Historical, r.0);
    assert_eq!(0, n.to_u128());
}

#[test]
fn assign_single_bit() {
    let mut n = register(32, 0);
    run(&mut n, "[7:7]=1").unwrap();
    assert_eq!("128", n.to_string(10, false, false));
    run(&mut n, "[0]=1").unwrap();
    assert_eq!(129, n.to_u128());
}

#[test]
fn negative_literal_is_sign_extended() {
    let mut n = register(32, 0);
    run(&mut n, "=-1").unwrap();
    assert_eq!(0xffff_ffff, n.to_u128());
    run(&mut n, "-=-1").unwrap();
    assert_eq!(0, n.to_u128());
    run(&mut n, "+1").unwrap();
    run(&mut n, "*=6").unwrap();
    assert_eq!(6, n.to_u128());
    run(&mut n, "= 'a'").unwrap();
    assert_eq!(97, n.to_u128());
}

#[test]
fn divide_by_zero_is_an_error() {
    let mut n = register(16, 77);
    assert!(run(&mut n, "/0").is_err());
    assert!(run(&mut n, "%0").is_err());
    assert!(run(&mut n, "/[15:8]").is_err());
    assert_eq!(77, n.to_u128());
    run(&mut n, "%10").unwrap();
    assert_eq!(7, n.to_u128());
}

#[test]
fn missing_operand_errors() {
    let mut n = register(16, 3);
    assert!(run(&mut n, "+").is_err());
    assert!(run(&mut n, "=").is_err());
    assert!(run(&mut n, ">").is_err());
    assert!(run(&mut n, "<>").is_err());
    assert!(run(&mut n, "<>5").is_err());
    assert!(run(&mut n, "int").is_err());
    assert!(run(&mut n, "int 0").is_err());
    assert!(run(&mut n, "int 513").is_err());
    assert!(run(&mut n, "~5").is_err());
    assert!(run(&mut n, "rev [1]").is_err());
    assert!(run(&mut n, "cnt 2").is_err());
    assert!(run(&mut n, "[40:0]=1").is_err());
    assert_eq!(3, n.to_u128());
}

#[test]
fn negate_needs_whole_register() {
    let mut n = register(8, 5);
    assert!(run(&mut n, "[3:0]!").is_err());
    assert!(run(&mut n, "[:0]!").is_err());
    assert!(run(&mut n, "[:]!").is_ok());
    assert_eq!(0xfb, n.to_u128());
    assert!(n.signed());
    assert!(run(&mut n, "!1").is_err());
    run(&mut n, "!").unwrap();
    assert_eq!(5, n.to_u128());
}

#[test]
fn power_and_root_defaults() {
    let mut n = register(16, 12);
    run(&mut n, "pow").unwrap();
    assert_eq!(144, n.to_u128());
    run(&mut n, "root").unwrap();
    assert_eq!(12, n.to_u128());
    run(&mut n, "pow 3").unwrap();
    assert_eq!(1728, n.to_u128());
    run(&mut n, "root 3").unwrap();
    assert_eq!(12, n.to_u128());
    assert!(run(&mut n, "root 0").is_err());
}

#[test]
fn shift_operators() {
    let mut n = register(8, 0b1000_0001);
    run(&mut n, "<<").unwrap();
    assert_eq!(0b0000_0010, n.to_u128());
    run(&mut n, "=0b10000001").unwrap();
    run(&mut n, ">>").unwrap();
    assert_eq!(0b1100_0000, n.to_u128());
    run(&mut n, ">>>2").unwrap();
    assert_eq!(0b0011_0000, n.to_u128());
    run(&mut n, "<<~4").unwrap();
    assert_eq!(0b0000_0011, n.to_u128());
    run(&mut n, "~>>1").unwrap();
    assert_eq!(0b1000_0001, n.to_u128());
    run(&mut n, "[7:4]>>>[1:0]").unwrap();
    assert_eq!(0b0100_0001, n.to_u128());
}

#[test]
fn bitwise_and_complement() {
    let mut n = register(8, 0b1100_1010);
    run(&mut n, "^0xff").unwrap();
    assert_eq!(0b0011_0101, n.to_u128());
    run(&mut n, "&0x0f").unwrap();
    assert_eq!(0b0000_0101, n.to_u128());
    run(&mut n, "|0x80").unwrap();
    assert_eq!(0b1000_0101, n.to_u128());
    run(&mut n, "~").unwrap();
    assert_eq!(0b0111_1010, n.to_u128());
    run(&mut n, "[7:4]~[3:0]").unwrap();
    assert_eq!(0b0101_1010, n.to_u128());
}

#[test]
fn comparisons_and_count() {
    let mut n = register(16, 0x0f01);
    assert_eq!(Some("yes".to_owned()), run(&mut n, "[15:8]>[7:0]").unwrap().1);
    assert_eq!(Some("no".to_owned()), run(&mut n, "<3").unwrap().1);
    assert_eq!(Some("yes".to_owned()), run(&mut n, "[7:0]==1").unwrap().1);
    let (effect, message) = run(&mut n, "cnt").unwrap();
    assert_eq!(HandlerResult::Nonhistorical, effect);
    assert_eq!(Some("5".to_owned()), message);
    assert_eq!(Some("11".to_owned()), run(&mut n, "cnt 0").unwrap().1);
    assert_eq!(0x0f01, n.to_u128());
}

#[test]
fn swap_reverse_and_width() {
    let mut n = register(16, 0x12ab);
    run(&mut n, "[15:8]<>[7:0]").unwrap();
    assert_eq!(0xab12, n.to_u128());
    run(&mut n, "[7:0] rev").unwrap();
    assert_eq!(0xab48, n.to_u128());
    run(&mut n, "int 8").unwrap();
    assert_eq!(8, n.max_size());
    assert_eq!(0x48, n.to_u128());
    run(&mut n, "signed").unwrap();
    assert!(n.signed());
    run(&mut n, "unsigned").unwrap();
    assert!(!n.signed());
}

#[test]
fn random_and_shuffle_stay_in_range() {
    let mut n = register(32, 0x00ff_0000);
    run(&mut n, "[7:0] rnd").unwrap();
    assert_eq!(0x00ff_0000, n.to_u128() & 0xffff_ff00);
    run(&mut n, "[23:16] shf").unwrap();
    assert_eq!(0x00ff_0000, n.to_u128() & 0xffff_ff00);
    assert!(run(&mut n, "shf 1").is_err());
}

#[test]
fn undo_redo_and_help_tags() {
    let mut n = register(8, 1);
    assert_eq!(HandlerResult::Undo, run(&mut n, "undo").unwrap().0);
    assert_eq!(HandlerResult::Redo, run(&mut n, "redo").unwrap().0);
    let (effect, message) = run(&mut n, "help").unwrap();
    assert_eq!(HandlerResult::Nonhistorical, effect);
    assert!(message.unwrap().contains("operator X:"));
    assert_eq!(1, n.to_u128());
}
