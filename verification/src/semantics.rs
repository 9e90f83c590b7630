use vstd::prelude::*;
use crate::context::Context;
use crate::instruction::Instruction;
use crate::tape::{cell_value, wrap_dec, wrap_inc};

verus! {

/// One snapshot of a run: the materialized cells, the head address,
/// the output written so far, the input with its cursor, and the
/// program counter.
#[verifier::ext_equal]
pub ghost struct Config {
    pub cells: Map<i64, u8>,
    pub head: i64,
    pub out: Seq<u8>,
    pub input: Seq<u8>,
    pub cursor: int,
    pub pc: int,
}

/// What one dispatch yields: the next snapshot, or a head that was
/// driven past an edge of the address space.
#[verifier::ext_equal]
pub ghost enum StepResult {
    Next(Config),
    Underflow,
    Overflow,
}

/// A context as the executor sees it, at program counter `pc`.
pub open spec fn config_of(ctx: Context, pc: int) -> Config {
    Config {
        cells: ctx.tape.map@,
        head: ctx.tape.head,
        out: ctx.output@,
        input: ctx.input@,
        cursor: ctx.cursor as int,
        pc: pc,
    }
}

/// The snapshot a run starts from: empty tape, head at the origin, no
/// output yet, the given input with its cursor at the front, and the
/// program counter at the first instruction.
pub open spec fn init_config(input: Seq<u8>) -> Config {
    Config {
        cells: Map::<i64, u8>::empty(),
        head: 0,
        out: Seq::<u8>::empty(),
        input: input,
        cursor: 0,
        pc: 0,
    }
}

/// The machine's transition: dispatch the instruction at the program
/// counter against the snapshot, consulting the jump table `jt` for
/// loop control. Cell arithmetic wraps modulo 256; reading exhausted
/// input writes 0; an unrecognized character is a no-op.
pub open spec fn step(insts: Seq<Instruction>, jt: Map<int, int>, c: Config) -> StepResult
    recommends
        0 <= c.pc < insts.len(),
{
    match insts[c.pc] {
        Instruction::MoveToRight => if c.head == i64::MAX {
            StepResult::Overflow
        } else {
            StepResult::Next(Config { head: (c.head + 1) as i64, pc: c.pc + 1, ..c })
        },
        Instruction::MoveToLeft => if c.head == i64::MIN {
            StepResult::Underflow
        } else {
            StepResult::Next(Config { head: (c.head - 1) as i64, pc: c.pc + 1, ..c })
        },
        Instruction::Increment => StepResult::Next(
            Config {
                cells: c.cells.insert(c.head, wrap_inc(cell_value(c.cells, c.head))),
                pc: c.pc + 1,
                ..c
            },
        ),
        Instruction::Decrement => StepResult::Next(
            Config {
                cells: c.cells.insert(c.head, wrap_dec(cell_value(c.cells, c.head))),
                pc: c.pc + 1,
                ..c
            },
        ),
        Instruction::Output => StepResult::Next(
            Config { out: c.out.push(cell_value(c.cells, c.head)), pc: c.pc + 1, ..c },
        ),
        Instruction::Input => if c.cursor < c.input.len() {
            StepResult::Next(
                Config {
                    cells: c.cells.insert(c.head, c.input[c.cursor]),
                    cursor: c.cursor + 1,
                    pc: c.pc + 1,
                    ..c
                },
            )
        } else {
            StepResult::Next(Config { cells: c.cells.insert(c.head, 0), pc: c.pc + 1, ..c })
        },
        Instruction::LoopBegin => if cell_value(c.cells, c.head) == 0 {
            StepResult::Next(Config { pc: jt[c.pc] + 1, ..c })
        } else {
            StepResult::Next(Config { pc: c.pc + 1, ..c })
        },
        Instruction::LoopEnd => if cell_value(c.cells, c.head) != 0 {
            StepResult::Next(Config { pc: jt[c.pc], ..c })
        } else {
            StepResult::Next(Config { pc: c.pc + 1, ..c })
        },
        Instruction::Ignore(_) => StepResult::Next(Config { pc: c.pc + 1, ..c }),
    }
}

/// The state of a run after at most `n` dispatches: a run rests once
/// the program counter reaches the end of the program, and rests at a
/// head error once one occurred.
pub open spec fn run(insts: Seq<Instruction>, jt: Map<int, int>, c0: Config, n: nat) -> StepResult
    decreases n,
{
    if n == 0 {
        StepResult::Next(c0)
    } else {
        match run(insts, jt, c0, (n - 1) as nat) {
            StepResult::Next(c) => if c.pc == insts.len() {
                StepResult::Next(c)
            } else {
                step(insts, jt, c)
            },
            r => r,
        }
    }
}

/// A run that reached the end of the program rests there: dispatching
/// further changes nothing.
pub proof fn lemma_run_rests(insts: Seq<Instruction>, jt: Map<int, int>, c0: Config, n: nat, m: nat)
    requires
        n <= m,
        match run(insts, jt, c0, n) {
            StepResult::Next(c) => c.pc == insts.len(),
            _ => true,
        },
    ensures
        run(insts, jt, c0, m) == run(insts, jt, c0, n),
    decreases m,
{
    if m > n {
        lemma_run_rests(insts, jt, c0, n, (m - 1) as nat);
    }
}

/// A run has a single outcome: once it has reached the end of the
/// program, no further dispatching can turn it into a head error.
pub proof fn lemma_halted_run_never_errs(
    insts: Seq<Instruction>,
    jt: Map<int, int>,
    c0: Config,
    n: nat,
    c: Config,
)
    requires
        run(insts, jt, c0, n) == StepResult::Next(c),
        c.pc == insts.len(),
    ensures
        forall|k: nat| !((#[trigger] run(insts, jt, c0, k)) is Underflow) && !(run(
            insts,
            jt,
            c0,
            k,
        ) is Overflow),
{
    assert forall|k: nat|
        !((#[trigger] run(insts, jt, c0, k)) is Underflow) && !(run(insts, jt, c0, k) is Overflow) by {
        if k >= n {
            lemma_run_rests(insts, jt, c0, n, k);
        } else {
            if run(insts, jt, c0, k) is Underflow || run(insts, jt, c0, k) is Overflow {
                lemma_run_rests(insts, jt, c0, k, n);
            }
        }
    }
}

/// A program of `n` increments followed by a single output.
pub open spec fn increments_then_output(n: nat) -> Seq<Instruction> {
    Seq::new(n + 1, |i: int| if i < n {
        Instruction::Increment
    } else {
        Instruction::Output
    })
}

/// The cells after `k` increments at the origin: nothing materialized
/// before the first write, then the origin cell holding `k` modulo 256.
pub open spec fn cells_after_increments(k: nat) -> Map<i64, u8> {
    if k == 0 {
        Map::<i64, u8>::empty()
    } else {
        Map::<i64, u8>::empty().insert(0, (k % 256) as u8)
    }
}

proof fn lemma_increment_prefix(n: nat, k: nat)
    requires
        k <= n,
    ensures
        run(increments_then_output(n), Map::<int, int>::empty(), init_config(Seq::<u8>::empty()), k)
            == StepResult::Next(
            (Config {
                cells: cells_after_increments(k),
                head: 0,
                out: Seq::<u8>::empty(),
                input: Seq::<u8>::empty(),
                cursor: 0,
                pc: k as int,
            }),
        ),
    decreases k,
{
    let prog = increments_then_output(n);
    let jt = Map::<int, int>::empty();
    let c0 = init_config(Seq::<u8>::empty());
    if k == 0 {
        assert(c0 =~= (Config {
            cells: cells_after_increments(0),
            head: 0,
            out: Seq::<u8>::empty(),
            input: Seq::<u8>::empty(),
            cursor: 0,
            pc: 0,
        }));
    } else {
        lemma_increment_prefix(n, (k - 1) as nat);
        let prev = Config {
            cells: cells_after_increments((k - 1) as nat),
            head: 0,
            out: Seq::<u8>::empty(),
            input: Seq::<u8>::empty(),
            cursor: 0,
            pc: k - 1,
        };
        assert(prog[k - 1] == Instruction::Increment);
        assert(cell_value(prev.cells, 0) == (((k - 1) as nat) % 256) as u8);
        vstd::arithmetic::div_mod::lemma_add_mod_noop((k - 1) as int, 1, 256);
        vstd::arithmetic::div_mod::lemma_small_mod(1, 256);
        let r = ((k - 1) as nat) % 256;
        assert(k as int % 256 == (r + 1) % 256);
        if r == 255 {
            assert((r + 1) % 256 == 0);
        } else {
            vstd::arithmetic::div_mod::lemma_small_mod((r + 1) as nat, 256);
        }
        assert(wrap_inc((r as u8)) == (k % 256) as u8);
        assert(prev.cells.insert(0, wrap_inc(cell_value(prev.cells, 0))) =~= cells_after_increments(
            k,
        ));
        assert(run(prog, jt, c0, k) == step(prog, jt, prev));
        assert(step(prog, jt, prev) == StepResult::Next(
            (Config {
                cells: cells_after_increments(k),
                head: 0,
                out: Seq::<u8>::empty(),
                input: Seq::<u8>::empty(),
                cursor: 0,
                pc: k as int,
            }),
        ));
    }
}

/// Parsing a source text of `n` plus signs followed by one dot yields
/// exactly the program of `n` increments followed by a single output.
pub proof fn lemma_parse_increments_then_output(s: Seq<char>, n: nat)
    requires
        s.len() == n + 1,
        forall|i: int| 0 <= i < n ==> s[i] == '+',
        s[n as int] == '.',
    ensures
        crate::instruction::parse_spec(s) == increments_then_output(n),
{
    assert(crate::instruction::parse_spec(s) =~= increments_then_output(n));
}

/// Law: a program of `n` increments followed by one output halts, with
/// exactly one byte of output, `n` modulo 256. Its jump table is empty,
/// as its bracket scan shows.
pub proof fn lemma_increments_then_output(n: nat)
    ensures
        crate::jump_table::scan_result(increments_then_output(n))
            == (crate::jump_table::ScanState::Going {
            table: Map::<int, int>::empty(),
            stack: Seq::<int>::empty(),
        }),
        run(
            increments_then_output(n),
            Map::<int, int>::empty(),
            init_config(Seq::<u8>::empty()),
            n + 1,
        ) == StepResult::Next(
            (Config {
                cells: cells_after_increments(n),
                head: 0,
                out: seq![(n % 256) as u8],
                input: Seq::<u8>::empty(),
                cursor: 0,
                pc: (n + 1) as int,
            }),
        ),
{
    let prog = increments_then_output(n);
    let jt = Map::<int, int>::empty();
    let c0 = init_config(Seq::<u8>::empty());
    assert forall|i: int| 0 <= i < prog.len() implies !((#[trigger] prog[i]) is LoopBegin) && !(
    prog[i] is LoopEnd) by {}
    crate::jump_table::lemma_scan_no_brackets(prog, prog.len());
    lemma_increment_prefix(n, n);
    let prev = Config {
        cells: cells_after_increments(n),
        head: 0,
        out: Seq::<u8>::empty(),
        input: Seq::<u8>::empty(),
        cursor: 0,
        pc: n as int,
    };
    assert(prog[n as int] == Instruction::Output);
    assert(cell_value(prev.cells, 0) == (n % 256) as u8);
    assert(run(prog, jt, c0, n + 1) == step(prog, jt, prev));
    assert(Seq::<u8>::empty().push((n % 256) as u8) =~= seq![(n % 256) as u8]);
}

/// Law: a loop whose cell is 0 when its begin is dispatched is skipped
/// whole: with the two-instruction program `[` `]` and its own jump
/// table, a single dispatch from any snapshot whose current cell is 0
/// moves the program counter past the loop and changes nothing else —
/// the loop body is never entered.
pub proof fn lemma_empty_loop_skips(c: Config)
    requires
        c.pc == 0,
        cell_value(c.cells, c.head) == 0,
    ensures
        crate::jump_table::scan_result(seq![Instruction::LoopBegin, Instruction::LoopEnd])
            == (crate::jump_table::ScanState::Going {
            table: map![0int => 1int, 1int => 0int],
            stack: Seq::<int>::empty(),
        }),
        run(
            seq![Instruction::LoopBegin, Instruction::LoopEnd],
            map![0int => 1int, 1int => 0int],
            c,
            1,
        ) == StepResult::Next((Config { pc: 2, ..c })),
{
    let prog = seq![Instruction::LoopBegin, Instruction::LoopEnd];
    let jt = map![0int => 1int, 1int => 0int];
    assert(crate::jump_table::scan(prog, 0) == (crate::jump_table::ScanState::Going {
        table: Map::<int, int>::empty(),
        stack: Seq::<int>::empty(),
    }));
    assert(prog[0] is LoopBegin);
    assert(Seq::<int>::empty().push(0int) =~= seq![0int]);
    assert(crate::jump_table::scan(prog, 1) == (crate::jump_table::ScanState::Going {
        table: Map::<int, int>::empty(),
        stack: seq![0int],
    }));
    assert(prog[1] is LoopEnd);
    assert(seq![0int].last() == 0int);
    assert(seq![0int].drop_last() =~= Seq::<int>::empty());
    assert(Map::<int, int>::empty().insert(0int, 1int).insert(1int, 0int) =~= map![0int => 1int, 1int => 0int]);
    assert(crate::jump_table::scan(prog, 2) == (crate::jump_table::ScanState::Going {
        table: map![0int => 1int, 1int => 0int],
        stack: Seq::<int>::empty(),
    }));
    assert(run(prog, jt, c, 0) == StepResult::Next(c));
    assert(jt[0int] == 1int);
    assert(run(prog, jt, c, 1) == step(prog, jt, c));
    assert(step(prog, jt, c) == StepResult::Next((Config { pc: 2, ..c })));
}

} // verus!
