//! Running a line of `;`-separated commands against a register.
use crate::history::History;
use crate::number::{printable_radix, Number, NumberType};
use crate::operators::{execute, handler_outcome, HandlerResult, OperationResult, Operator};
use crate::syntax::{parse, parses, reads_command, LeftOperandSource, RightOperandSource};
use crate::text::{chars_of, string_of};
use vstd::prelude::*;
use vstd::string::StringExecFns;

verus! {

/// The pieces of `s` between semicolons, in order; `s` without a semicolon
/// is one piece.
pub open spec fn split_semicolons(s: Seq<char>) -> Seq<Seq<char>>
    decreases s.len(),
{
    if s.len() == 0 {
        seq![Seq::<char>::empty()]
    } else {
        let rest = split_semicolons(s.drop_last());
        if s.last() == ';' {
            rest.push(Seq::<char>::empty())
        } else {
            rest.update(rest.len() - 1, rest.last().push(s.last()))
        }
    }
}

proof fn lemma_split_nonempty(s: Seq<char>)
    ensures
        split_semicolons(s).len() >= 1,
    decreases s.len(),
{
    if s.len() > 0 {
        lemma_split_nonempty(s.drop_last());
    }
}

/// Splits a line into its commands at each `;`.
pub fn split_commands(commands: &str) -> (r: Vec<String>)
    ensures
        r@.len() == split_semicolons(commands@).len(),
        forall|i: int| 0 <= i < r@.len() ==> #[trigger] r@[i]@ == split_semicolons(commands@)[i],
{
    let s = chars_of(commands);
    let mut pieces: Vec<String> = Vec::new();
    let mut current: Vec<char> = Vec::new();
    let mut i: usize = 0;
    while i < s.len()
        invariant
            i <= s.len(),
            s@ == commands@,
            pieces@.len() + 1 == split_semicolons(s@.subrange(0, i as int)).len(),
            forall|j: int| 0 <= j < pieces@.len() ==> #[trigger] pieces@[j]@ == split_semicolons(
                s@.subrange(0, i as int),
            )[j],
            current@ == split_semicolons(s@.subrange(0, i as int)).last(),
        decreases s.len() - i,
    {
        let c = s[i];
        proof {
            assert(s@.subrange(0, i + 1).drop_last() =~= s@.subrange(0, i as int));
            lemma_split_nonempty(s@.subrange(0, i as int));
        }
        if c == ';' {
            pieces.push(string_of(&current));
            current = Vec::new();
        } else {
            current.push(c);
        }
        i = i + 1;
    }
    pieces.push(string_of(&current));
    proof {
        assert(s@.subrange(0, s@.len() as int) =~= s@);
    }
    pieces
}

/// The radix and prefix an output format names: `b`, `o`, `d`, `h` or `x`,
/// after `0` for a prefixed output.
pub open spec fn output_format(f: Seq<char>) -> Option<(u32, bool)> {
    if f == seq!['0', 'x'] || f == seq!['0', 'h'] {
        Some((16u32, true))
    } else if f == seq!['x'] || f == seq!['h'] {
        Some((16u32, false))
    } else if f == seq!['0', 'd'] {
        Some((10u32, true))
    } else if f == seq!['d'] {
        Some((10u32, false))
    } else if f == seq!['0', 'o'] {
        Some((8u32, true))
    } else if f == seq!['o'] {
        Some((8u32, false))
    } else if f == seq!['0', 'b'] {
        Some((2u32, true))
    } else if f == seq!['b'] {
        Some((2u32, false))
    } else {
        Option::<(u32, bool)>::None
    }
}

/// Reads an output format.
pub fn read_output_format(format: &str) -> (r: Option<(u32, bool)>)
    ensures
        r == output_format(format@),
        r matches Some((radix, _)) ==> printable_radix(radix as nat),
{
    let f = chars_of(format);
    let n = f.len();
    let (prefixed, letter) = if n == 1 {
        (false, f[0])
    } else if n == 2 && f[0] == '0' {
        (true, f[1])
    } else {
        proof {
            if f@.len() == 2 {
                assert(f@[0] != '0');
                assert(f@ != seq!['0', 'x']);
            }
        }
        return None;
    };
    proof {
        if prefixed {
            assert(f@ =~= seq!['0', letter]);
        } else {
            assert(f@ =~= seq![letter]);
        }
    }
    let radix: u32 = if letter == 'x' || letter == 'h' {
        16
    } else if letter == 'd' {
        10
    } else if letter == 'o' {
        8
    } else if letter == 'b' {
        2
    } else {
        return None;
    };
    Some((radix, prefixed))
}

/// What an interactive session does after a handler ran with `effect` and
/// left the register as `mid`: history `h0` becomes `h1` and the register
/// becomes `b1`.
pub open spec fn session_effect(
    effect: HandlerResult,
    mid: Number,
    h0: History,
    h1: History,
    b1: Number,
) -> bool {
    match effect {
        HandlerResult::Historical => {
            &&& b1 == mid
            &&& h1.back() == h0.back_after_save(mid)
            &&& h1.ahead() == Seq::<Number>::empty()
        },
        HandlerResult::Nonhistorical => b1 == mid && h1 == h0,
        HandlerResult::Undo => {
            &&& h0.back().len() == 1 ==> h1 == h0
            &&& h0.back().len() > 1 ==> h1.back() == h0.back().drop_last() && h1.ahead()
                == h0.ahead().push(h0.back().last())
            &&& b1 == h1.back().last()
        },
        HandlerResult::Redo => {
            &&& h0.ahead().len() == 0 ==> h1 == h0 && b1 == h0.back().last()
            &&& h0.ahead().len() > 0 ==> h1.ahead() == h0.ahead().drop_last() && h1.back()
                == h0.back().push(h0.ahead().last()) && b1 == h0.ahead().last()
        },
    }
}

/// Command `s` parses, and its handler fails on register `prev`.
pub open spec fn handler_fails(s: Seq<char>, prev: Number) -> bool {
    exists|
        left: LeftOperandSource,
        op: Operator,
        right: RightOperandSource,
        next: Number,
        res: OperationResult,
    |
        #![trigger handler_outcome(op, prev, next, left, right, res)]
        reads_command(s, left, op, right) && res is Err && handler_outcome(
            op,
            prev,
            next,
            left,
            right,
            res,
        )
}

/// Runs one command of an interactive session: parses it and runs it on the
/// register, then records the register after a change, or puts back the
/// previous or next snapshot for undo and redo. Returns the handler's message
/// to show, or the error, after which register and history are as they were.
/// The current snapshot of the history stays the register.
pub fn interactive_command(buffer: &mut Number, history: &mut History, command: &str) -> (r: Result<
    Option<String>,
    String,
>)
    requires
        old(buffer).wf(),
        old(history).holds_registers(),
        old(history).back().last() == *old(buffer),
    ensures
        final(buffer).wf(),
        final(history).holds_registers(),
        final(history).back().last() == *final(buffer),
        final(history).limit() == old(history).limit(),
        !parses(command@) ==> r is Err,
        r is Err ==> *final(buffer) == *old(buffer) && *final(history) == *old(history) && (!parses(
            command@,
        ) || handler_fails(command@, *old(buffer))),
        r is Ok ==> exists|
            left: LeftOperandSource,
            op: Operator,
            right: RightOperandSource,
            mid: Number,
            res: OperationResult,
        |
            #![trigger handler_outcome(op, *old(buffer), mid, left, right, res)]
            reads_command(command@, left, op, right) && handler_outcome(
                op,
                *old(buffer),
                mid,
                left,
                right,
                res,
            ) && (res matches Ok((effect, message)) && r == Ok::<Option<String>, String>(message)
                && session_effect(effect, mid, *old(history), *final(history), *final(buffer))),
{
    let (left, op, right) = match parse(command) {
        Ok(parsed) => parsed,
        Err(message) => {
            let mut text = "parsing error: ".to_owned();
            text.append(message.as_str());
            return Err(text);
        },
    };
    let ghost before = *buffer;
    let res = execute(buffer, op, left, right);
    let ghost mid = *buffer;
    match res {
        Ok((effect, message)) => {
            let ghost h0 = *history;
            match effect {
                HandlerResult::Historical => {
                    history.save(buffer);
                    proof {
                        let b = history.back();
                        assert forall|i: int| 0 <= i < b.len() implies #[trigger] b[i].wf() by {
                            if i < b.len() - 1 {
                                let ob = old(history).back();
                                if ob.len() >= old(history).limit() && ob.len() > 0 {
                                    assert(b[i] == ob[i + 1]);
                                } else {
                                    assert(b[i] == ob[i]);
                                }
                            }
                        }
                    }
                },
                HandlerResult::Undo => {
                    *buffer = history.backward();
                },
                HandlerResult::Redo => {
                    *buffer = history.forward();
                    proof {
                        let b = history.back();
                        assert forall|i: int| 0 <= i < b.len() implies #[trigger] b[i].wf() by {
                            if i < old(history).back().len() {
                                assert(b[i] == old(history).back()[i]);
                            }
                        }
                    }
                },
                HandlerResult::Nonhistorical => {
                    proof {
                        assert(handler_outcome(op, before, mid, left, right, res));
                    }
                },
            }
            proof {
                assert(handler_outcome(op, before, mid, left, right, res));
                assert(session_effect(effect, mid, h0, *history, *buffer));
            }
            Ok(message)
        },
        Err(message) => {
            proof {
                assert(handler_outcome(op, before, mid, left, right, res));
                assert(handler_fails(command@, before));
            }
            let mut text = "operation error: ".to_owned();
            text.append(message.as_str());
            Err(text)
        },
    }
}

/// A fresh register: a signed 32-bit integer holding zero.
pub open spec fn fresh_register(n: Number) -> bool {
    &&& n.wf()
    &&& n.magnitude() == 0
    &&& n.width() == 32
    &&& n.is_signed_spec()
    &&& n.kind() == NumberType::Integer
    &&& !n.carry_flag()
}

/// Running one piece of a line takes register `prev` to `next`: an empty
/// piece does nothing, any other parses and its handler succeeds.
pub open spec fn runs_piece(piece: Seq<char>, prev: Number, next: Number) -> bool {
    if piece.len() == 0 {
        next == prev
    } else {
        exists|left: LeftOperandSource, op: Operator, right: RightOperandSource, res: OperationResult|
            #![trigger handler_outcome(op, prev, next, left, right, res)]
            reads_command(piece, left, op, right) && res is Ok && handler_outcome(
                op,
                prev,
                next,
                left,
                right,
                res,
            )
    }
}

/// A piece that stops a run on register `prev`: it is not empty, and it does
/// not parse or its handler fails.
pub open spec fn fails_on(piece: Seq<char>, prev: Number) -> bool {
    piece.len() > 0 && (!parses(piece) || handler_fails(piece, prev))
}

/// `regs` are the registers a run of the first `regs.len() - 1` pieces goes
/// through, from a fresh register.
pub open spec fn runs_through(pieces: Seq<Seq<char>>, regs: Seq<Number>) -> bool
    decreases regs.len(),
{
    if regs.len() <= 1 {
        regs.len() == 1 && fresh_register(regs[0])
    } else {
        &&& regs.len() <= pieces.len() + 1
        &&& runs_through(pieces, regs.drop_last())
        &&& runs_piece(pieces[regs.len() - 2], regs[regs.len() - 2], regs.last())
    }
}

/// What a run that ends on `last` writes in `format`.
pub open spec fn batch_output(last: Number, format: Seq<char>, prepend0: bool) -> Seq<char> {
    match output_format(format) {
        Some((radix, prefixed)) => last.formatted(radix as nat, prefixed, prepend0),
        None => Seq::<char>::empty(),
    }
}

/// Runs one piece of a line on the register: nothing for an empty piece,
/// else parses and runs it. On failure the register is as it was.
fn run_piece(buffer: &mut Number, command: &str) -> (r: Result<(), String>)
    requires
        old(buffer).wf(),
    ensures
        final(buffer).wf(),
        r is Ok ==> runs_piece(command@, *old(buffer), *final(buffer)),
        r is Err ==> fails_on(command@, *old(buffer)) && *final(buffer) == *old(buffer),
{
    if command.unicode_len() == 0 {
        return Ok(());
    }
    let ghost prev = *buffer;
    match parse(command) {
        Ok((left, op, right)) => {
            let res = execute(buffer, op, left, right);
            proof {
                assert(handler_outcome(op, prev, *buffer, left, right, res));
            }
            match res {
                Ok(_) => Ok(()),
                Err(message) => {
                    let mut text = "operation error: ".to_owned();
                    text.append(message.as_str());
                    Err(text)
                },
            }
        },
        Err(message) => {
            let mut text = "parsing error: ".to_owned();
            text.append(message.as_str());
            Err(text)
        },
    }
}

/// Runs `;`-separated commands on a fresh signed 32-bit register, skipping
/// empty ones, and writes the result in `format` (nothing for a format it
/// does not name). The first failing command ends the run with its error.
pub fn not_interactive_routine(commands: &str, format: &str, prepend0: bool) -> (r: Result<
    String,
    String,
>)
    ensures
        r matches Ok(out) ==> exists|regs: Seq<Number>|
            #[trigger] runs_through(split_semicolons(commands@), regs) && regs.len()
                == split_semicolons(commands@).len() + 1 && out@ == batch_output(
                regs.last(),
                format@,
                prepend0,
            ),
        r is Err ==> exists|regs: Seq<Number>|
            #[trigger] runs_through(split_semicolons(commands@), regs) && regs.len()
                <= split_semicolons(commands@).len() && fails_on(
                split_semicolons(commands@)[regs.len() - 1],
                regs.last(),
            ),
{
    let ghost pieces = split_semicolons(commands@);
    let mut main_buffer = match Number::new(NumberType::Integer, true, 32) {
        Ok(n) => n,
        Err(m) => {
            return Err(m);
        },
    };
    let ghost mut regs: Seq<Number> = seq![main_buffer];
    let command_list = split_commands(commands);
    let mut i: usize = 0;
    while i < command_list.len()
        invariant
            main_buffer.wf(),
            i <= command_list.len(),
            pieces == split_semicolons(commands@),
            command_list@.len() == pieces.len(),
            forall|j: int| 0 <= j < command_list@.len() ==> #[trigger] command_list@[j]@ == pieces[j],
            regs.len() == i + 1,
            runs_through(pieces, regs),
            regs.last() == main_buffer,
        decreases command_list.len() - i,
    {
        let command = &command_list[i];
        let ghost prev = main_buffer;
        match run_piece(&mut main_buffer, command.as_str()) {
            Ok(()) => {},
            Err(message) => {
                proof {
                    assert(runs_through(split_semicolons(commands@), regs));
                }
                return Err(message);
            },
        }
        proof {
            let next = regs.push(main_buffer);
            assert(next.drop_last() =~= regs);
            regs = next;
        }
        i = i + 1;
    }
    match read_output_format(format) {
        Some((radix, prefixed)) => Ok(main_buffer.to_string(radix, prefixed, prepend0)),
        None => Ok(String::new()),
    }
}

} // verus!
