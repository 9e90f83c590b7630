use vstd::prelude::*;
use crate::context::Context;
use crate::errors::VmError;
use crate::instruction::Instruction;
use crate::instruction::parse_spec;
use crate::jump_table::{
    ScanState, lemma_scan_invariant, make_jump_table, scan_invariant, scan_result, stack_view,
    table_view,
};
use crate::semantics::{Config, StepResult, config_of, init_config, run, step};

verus! {

broadcast use vstd::std_specs::hash::group_hash_axioms;

/// How a budgeted run ended: either the program ran to completion, or
/// the step budget ran out first and the state reached so far is
/// handed back, for the caller to abort on its own terms.
pub enum ExecStatus {
    Halted(Context),
    Exhausted(Context),
}

/// The run from `c0` reaches the end of the program, at snapshot `c`,
/// within `n` dispatches.
pub open spec fn halts_within(
    insts: Seq<Instruction>,
    jt: Map<int, int>,
    c0: Config,
    n: nat,
    c: Config,
) -> bool {
    exists|m: nat|
        m <= n && #[trigger] run(insts, jt, c0, m) == StepResult::Next(c) && c.pc == insts.len()
}

/// The run from `c0` drives the head below the address space within
/// `n` dispatches.
pub open spec fn underflows_within(
    insts: Seq<Instruction>,
    jt: Map<int, int>,
    c0: Config,
    n: nat,
) -> bool {
    exists|m: nat| m <= n && #[trigger] run(insts, jt, c0, m) == StepResult::Underflow
}

/// The run from `c0` drives the head above the address space within
/// `n` dispatches.
pub open spec fn overflows_within(
    insts: Seq<Instruction>,
    jt: Map<int, int>,
    c0: Config,
    n: nat,
) -> bool {
    exists|m: nat| m <= n && #[trigger] run(insts, jt, c0, m) == StepResult::Overflow
}

/// After `n` dispatches the run from `c0` is still going, and the
/// context `rc` together with the program counter of the snapshot is
/// exactly that snapshot.
pub open spec fn exhausted_at(
    insts: Seq<Instruction>,
    jt: Map<int, int>,
    c0: Config,
    n: nat,
    rc: Context,
) -> bool {
    match run(insts, jt, c0, n) {
        StepResult::Next(c) => c.pc < insts.len() && c == config_of(rc, c.pc),
        _ => false,
    }
}

/// Build the jump table for the program and, if it is well bracketed,
/// dispatch at most `max_steps` instructions against the given context.
/// The outcome is exactly what the machine's transition relation
/// yields: the halting snapshot, a head error, or — when the budget ran
/// out first — the snapshot after `max_steps` dispatches. Malformed
/// bracket nesting is reported without starting execution.
pub fn execute_bounded(context: Context, insts: &Vec<Instruction>, max_steps: u64) -> (r: Result<
    ExecStatus,
    VmError,
>)
    ensures
        scan_result(insts@) matches ScanState::Failed { at } ==> r == Err::<ExecStatus, VmError>(
            VmError::UnmatchedLoopEnd(at as usize),
        ),
        scan_result(insts@) matches ScanState::Going { table, stack } ==> if stack.len() > 0 {
            r matches Err(VmError::UnmatchedLoopBegin(v)) && stack_view(v@) == stack
        } else {
            {
                ||| (r matches Ok(ExecStatus::Halted(rc)) && halts_within(
                    insts@,
                    table,
                    config_of(context, 0),
                    max_steps as nat,
                    config_of(rc, insts@.len() as int),
                ))
                ||| (r == Err::<ExecStatus, VmError>(VmError::HeadUnderflow) && underflows_within(
                    insts@,
                    table,
                    config_of(context, 0),
                    max_steps as nat,
                ))
                ||| (r == Err::<ExecStatus, VmError>(VmError::HeadOverflow) && overflows_within(
                    insts@,
                    table,
                    config_of(context, 0),
                    max_steps as nat,
                ))
                ||| (r matches Ok(ExecStatus::Exhausted(rc)) && exhausted_at(
                    insts@,
                    table,
                    config_of(context, 0),
                    max_steps as nat,
                    rc,
                ))
            }
        },
{
    let ghost cfg0 = config_of(context, 0);
    let table = match make_jump_table(insts) {
        Ok(t) => t,
        Err(e) => {
            return Err(e);
        },
    };
    let ghost t = table_view(table@);
    proof {
        lemma_scan_invariant(insts@, insts@.len());
    }
    let mut ctx = context;
    let n = insts.len();
    let mut pc: usize = 0;
    let mut steps: u64 = 0;
    #[verifier::loop_isolation(false)]
    while pc < n && steps < max_steps
        invariant
            n == insts@.len(),
            pc <= n,
            steps <= max_steps,
            t == table_view(table@),
            scan_result(insts@) == (ScanState::Going { table: t, stack: Seq::<int>::empty() }),
            scan_invariant(insts@, n as int, t, Seq::<int>::empty()),
            run(insts@, t, cfg0, steps as nat) == StepResult::Next(config_of(ctx, pc as int)),
        decreases max_steps - steps,
    {
        let ghost cur = config_of(ctx, pc as int);
        proof {
            assert(run(insts@, t, cfg0, (steps + 1) as nat) == step(insts@, t, cur));
        }
        let inst = insts[pc];
        match inst {
            Instruction::MoveToRight => {
                let moved = ctx.tape.move_to_right();
                match moved {
                    Ok(_) => {},
                    Err(e) => {
                        proof {
                            assert(run(insts@, t, cfg0, (steps + 1) as nat)
                                == StepResult::Overflow);
                            assert(overflows_within(insts@, t, cfg0, max_steps as nat));
                        }
                        return Err(e);
                    },
                }
                pc = pc + 1;
            },
            Instruction::MoveToLeft => {
                let moved = ctx.tape.move_to_left();
                match moved {
                    Ok(_) => {},
                    Err(e) => {
                        proof {
                            assert(run(insts@, t, cfg0, (steps + 1) as nat)
                                == StepResult::Underflow);
                            assert(underflows_within(insts@, t, cfg0, max_steps as nat));
                        }
                        return Err(e);
                    },
                }
                pc = pc + 1;
            },
            Instruction::Increment => {
                ctx.tape.increment();
                pc = pc + 1;
            },
            Instruction::Decrement => {
                ctx.tape.decrement();
                pc = pc + 1;
            },
            Instruction::Output => {
                ctx.output();
                pc = pc + 1;
            },
            Instruction::Input => {
                ctx.read_input();
                pc = pc + 1;
            },
            Instruction::LoopBegin => {
                proof {
                    assert(t.contains_key(pc as int));
                    assert(t.contains_key(t[pc as int]));
                    assert(0 <= t[pc as int] < n as int);
                }
                let v = ctx.tape.read();
                if v == 0 {
                    let target = match table.get(&pc) {
                        Some(tg) => *tg,
                        None => {
                            proof {
                                assert(false);
                            }
                            0
                        },
                    };
                    proof {
                        assert(target as int == t[pc as int]);
                    }
                    pc = target + 1;
                } else {
                    pc = pc + 1;
                }
            },
            Instruction::LoopEnd => {
                proof {
                    assert(t.contains_key(pc as int));
                    assert(t.contains_key(t[pc as int]));
                    assert(0 <= t[pc as int] < n as int);
                }
                let v = ctx.tape.read();
                if v != 0 {
                    let target = match table.get(&pc) {
                        Some(tg) => *tg,
                        None => {
                            proof {
                                assert(false);
                            }
                            0
                        },
                    };
                    proof {
                        assert(target as int == t[pc as int]);
                    }
                    pc = target;
                } else {
                    pc = pc + 1;
                }
            },
            Instruction::Ignore(_) => {
                pc = pc + 1;
            },
        }
        proof {
            let c2 = config_of(ctx, pc as int);
            match step(insts@, t, cur) {
                StepResult::Next(cs) => {
                    assert(cs =~= c2);
                },
                _ => {
                    assert(false);
                },
            }
        }
        steps = steps + 1;
    }
    if pc == n {
        proof {
            if let ScanState::Going { table: tb, stack: st } = scan_result(insts@) {
                assert(tb == t);
                assert(st.len() == 0);
                assert(halts_within(
                    insts@,
                    tb,
                    config_of(context, 0),
                    max_steps as nat,
                    config_of(ctx, insts@.len() as int),
                ));
            }
        }
        return Ok(ExecStatus::Halted(ctx));
    } else {
        proof {
            assert(steps == max_steps);
            if let ScanState::Going { table: tb, stack: st } = scan_result(insts@) {
                assert(tb == t);
                assert(st.len() == 0);
                assert(run(insts@, tb, config_of(context, 0), max_steps as nat)
                    == StepResult::Next(config_of(ctx, pc as int)));
                assert(exhausted_at(insts@, tb, config_of(context, 0), max_steps as nat, ctx));
            }
        }
        return Ok(ExecStatus::Exhausted(ctx));
    }
}

/// Run the program against the given context until it halts, with a
/// step budget of `u64::MAX` dispatches — about 1.8e19, far beyond any
/// run a machine can carry out; if that bound were ever hit, the state
/// reached is handed back as the result. A malformed program is
/// reported without starting execution; a head that leaves the address
/// space stops the run with its error.
pub fn execute_with(context: Context, insts: &Vec<Instruction>) -> (r: Result<Context, VmError>)
    ensures
        scan_result(insts@) matches ScanState::Failed { at } ==> r == Err::<Context, VmError>(
            VmError::UnmatchedLoopEnd(at as usize),
        ),
        scan_result(insts@) matches ScanState::Going { table, stack } ==> if stack.len() > 0 {
            r matches Err(VmError::UnmatchedLoopBegin(v)) && stack_view(v@) == stack
        } else {
            {
                ||| (r matches Ok(rc) && halts_within(
                    insts@,
                    table,
                    config_of(context, 0),
                    u64::MAX as nat,
                    config_of(rc, insts@.len() as int),
                ))
                ||| (r == Err::<Context, VmError>(VmError::HeadUnderflow) && underflows_within(
                    insts@,
                    table,
                    config_of(context, 0),
                    u64::MAX as nat,
                ))
                ||| (r == Err::<Context, VmError>(VmError::HeadOverflow) && overflows_within(
                    insts@,
                    table,
                    config_of(context, 0),
                    u64::MAX as nat,
                ))
                ||| (r matches Ok(rc) && exhausted_at(
                    insts@,
                    table,
                    config_of(context, 0),
                    u64::MAX as nat,
                    rc,
                ))
            }
        },
{
    match execute_bounded(context, insts, u64::MAX) {
        Ok(ExecStatus::Halted(c)) => Ok(c),
        Ok(ExecStatus::Exhausted(c)) => Ok(c),
        Err(e) => Err(e),
    }
}

/// Parse a source text and execute it against a fresh context with no
/// input, as `execute_with` does.
pub fn execute(insts: &str) -> (r: Result<Context, VmError>)
    ensures
        scan_result(parse_spec(insts@)) matches ScanState::Failed { at } ==> r == Err::<
            Context,
            VmError,
        >(VmError::UnmatchedLoopEnd(at as usize)),
        scan_result(parse_spec(insts@)) matches ScanState::Going { table, stack } ==> if stack.len()
            > 0 {
            r matches Err(VmError::UnmatchedLoopBegin(v)) && stack_view(v@) == stack
        } else {
            {
                ||| (r matches Ok(rc) && halts_within(
                    parse_spec(insts@),
                    table,
                    init_config(Seq::<u8>::empty()),
                    u64::MAX as nat,
                    config_of(rc, parse_spec(insts@).len() as int),
                ))
                ||| (r == Err::<Context, VmError>(VmError::HeadUnderflow) && underflows_within(
                    parse_spec(insts@),
                    table,
                    init_config(Seq::<u8>::empty()),
                    u64::MAX as nat,
                ))
                ||| (r == Err::<Context, VmError>(VmError::HeadOverflow) && overflows_within(
                    parse_spec(insts@),
                    table,
                    init_config(Seq::<u8>::empty()),
                    u64::MAX as nat,
                ))
                ||| (r matches Ok(rc) && exhausted_at(
                    parse_spec(insts@),
                    table,
                    init_config(Seq::<u8>::empty()),
                    u64::MAX as nat,
                    rc,
                ))
            }
        },
{
    let prog = Instruction::parse(insts);
    let ctx = Context::new();
    proof {
        assert(config_of(ctx, 0) =~= init_config(Seq::<u8>::empty()));
    }
    execute_with(ctx, &prog)
}

/// Parse a source text and execute it against a fresh context whose
/// input bytes are consumed, in order, by the input instruction.
pub fn execute_with_input(insts: &str, input: Vec<u8>) -> (r: Result<Context, VmError>)
    ensures
        scan_result(parse_spec(insts@)) matches ScanState::Failed { at } ==> r == Err::<
            Context,
            VmError,
        >(VmError::UnmatchedLoopEnd(at as usize)),
        scan_result(parse_spec(insts@)) matches ScanState::Going { table, stack } ==> if stack.len()
            > 0 {
            r matches Err(VmError::UnmatchedLoopBegin(v)) && stack_view(v@) == stack
        } else {
            {
                ||| (r matches Ok(rc) && halts_within(
                    parse_spec(insts@),
                    table,
                    init_config(input@),
                    u64::MAX as nat,
                    config_of(rc, parse_spec(insts@).len() as int),
                ))
                ||| (r == Err::<Context, VmError>(VmError::HeadUnderflow) && underflows_within(
                    parse_spec(insts@),
                    table,
                    init_config(input@),
                    u64::MAX as nat,
                ))
                ||| (r == Err::<Context, VmError>(VmError::HeadOverflow) && overflows_within(
                    parse_spec(insts@),
                    table,
                    init_config(input@),
                    u64::MAX as nat,
                ))
                ||| (r matches Ok(rc) && exhausted_at(
                    parse_spec(insts@),
                    table,
                    init_config(input@),
                    u64::MAX as nat,
                    rc,
                ))
            }
        },
{
    let prog = Instruction::parse(insts);
    let ctx = Context::with_input(input);
    proof {
        assert(config_of(ctx, 0) =~= init_config(ctx.input@));
    }
    execute_with(ctx, &prog)
}

} // verus!
