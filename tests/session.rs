use binc::history::History;
use binc::number::{Number, NumberType};
use binc::session::{interactive_command, not_interactive_routine, read_output_format, split_commands};

#[test]
fn empty_commands_dont_cause_any_errors() {
    assert!(not_interactive_routine("", "", false).unwrap().is_empty());
    assert!(not_interactive_routine(";", "", false).unwrap().is_empty());
    assert!(not_interactive_routine(";;", "", false).unwrap().is_empty());
    assert!(not_interactive_routine("1", "", false).unwrap().is_empty());
    assert_eq!("0", not_interactive_routine(";;;", "d", false).unwrap());
    assert_eq!("1", not_interactive_routine("1", "d", false).unwrap());
    assert_eq!("1", not_interactive_routine("1;", "d", false).unwrap());
    assert_eq!("1", not_interactive_routine("1;", "d", false).unwrap());
}

#[test]
fn split_and_run_with_empty_pieces() {
    let pieces = split_commands("1;;;");
    assert_eq!(vec!["1".to_owned(), String::new(), String::new(), String::new()], pieces);
    assert_eq!("1", not_interactive_routine("1;;;", "d", false).unwrap());
}

#[test]
fn batch_formats_and_errors() {
    assert_eq!("0xff", not_interactive_routine("=255", "0x", false).unwrap());
    assert_eq!("ff", not_interactive_routine("=255", "h", false).unwrap());
    assert_eq!("0o377", not_interactive_routine("=255", "0o", false).unwrap());
    assert_eq!("000000ff", not_interactive_routine("=255", "x", true).unwrap());
    assert_eq!("-1", not_interactive_routine("=-1", "d", false).unwrap());
    assert_eq!("11", not_interactive_routine("=1;<<;+1", "b", false).unwrap());
    assert!(not_interactive_routine("[3:1", "d", false).is_err());
    assert!(not_interactive_routine("/0", "d", false).is_err());
    assert_eq!(None, read_output_format("0z"));
    assert_eq!(Some((16, true)), read_output_format("0h"));
}

#[test]
fn history_undo_redo() {
    let mut history = History::new(2);
    let mut a = Number::new(NumberType::Integer, false, 8).unwrap();
    history.save(&a);
    a.range_add_bits(binc::number::BitsIndexRange::full(), 1);
    history.save(&a);
    a.range_add_bits(binc::number::BitsIndexRange::full(), 1);
    history.save(&a);
    assert_eq!(1, history.backward().to_u128());
    assert_eq!(1, history.backward().to_u128());
    assert_eq!(2, history.forward().to_u128());
    assert_eq!(2, history.forward().to_u128());
}

#[test]
fn interactive_commands_keep_history_in_step() {
    let mut buffer = Number::new(NumberType::Integer, true, 32).unwrap();
    let mut history = History::new(10);
    history.save(&buffer);
    assert_eq!(Ok(None), interactive_command(&mut buffer, &mut history, "=5"));
    assert_eq!(Ok(None), interactive_command(&mut buffer, &mut history, "+1"));
    assert_eq!(6, buffer.to_u128());
    assert_eq!(Ok(None), interactive_command(&mut buffer, &mut history, "undo"));
    assert_eq!(5, buffer.to_u128());
    assert_eq!(Ok(None), interactive_command(&mut buffer, &mut history, "redo"));
    assert_eq!(6, buffer.to_u128());
    assert_eq!(Ok(Some("yes".to_owned())), interactive_command(&mut buffer, &mut history, ">5"));
    let err = interactive_command(&mut buffer, &mut history, "/0").unwrap_err();
    assert!(err.starts_with("operation error: "));
    let err = interactive_command(&mut buffer, &mut history, "[3").unwrap_err();
    assert!(err.starts_with("parsing error: "));
    assert_eq!(6, buffer.to_u128());
    assert_eq!(Ok(None), interactive_command(&mut buffer, &mut history, "undo"));
    assert_eq!(Ok(None), interactive_command(&mut buffer, &mut history, "undo"));
    assert_eq!(Ok(None), interactive_command(&mut buffer, &mut history, "undo"));
    assert_eq!(0, buffer.to_u128());
    assert!(interactive_command(&mut buffer, &mut history, "help").unwrap().is_some());
    assert_eq!(0, buffer.to_u128());
}
