use vstd::prelude::*;
use std::collections::HashMap;
use crate::errors::VmError;
use crate::instruction::Instruction;

verus! {

broadcast use vstd::std_specs::hash::group_hash_axioms;

/// The state of the bracket scan after reading a prefix of the program:
/// either the pairs matched so far together with the indices of the
/// loop begins still open, or the index of the first loop end that had
/// no open loop.
#[verifier::ext_equal]
pub ghost enum ScanState {
    Going { table: Map<int, int>, stack: Seq<int> },
    Failed { at: int },
}

/// The bracket scan over the first `n` instructions: a loop begin is
/// stacked; a loop end pops the most recent open begin and records the
/// pair in both directions, or fails at its own index when no begin is
/// open; every other instruction changes nothing.
pub open spec fn scan(insts: Seq<Instruction>, n: nat) -> ScanState
    decreases n,
{
    if n == 0 {
        ScanState::Going { table: Map::empty(), stack: Seq::empty() }
    } else {
        let prev = scan(insts, (n - 1) as nat);
        match prev {
            ScanState::Failed { at: _ } => prev,
            ScanState::Going { table, stack } => {
                let i = n - 1;
                match insts[i] {
                    Instruction::LoopBegin => ScanState::Going { table, stack: stack.push(i) },
                    Instruction::LoopEnd => {
                        if stack.len() == 0 {
                            ScanState::Failed { at: i }
                        } else {
                            ScanState::Going {
                                table: table.insert(stack.last(), i).insert(i, stack.last()),
                                stack: stack.drop_last(),
                            }
                        }
                    },
                    _ => prev,
                }
            },
        }
    }
}

/// The outcome of the bracket scan over the whole program.
pub open spec fn scan_result(insts: Seq<Instruction>) -> ScanState {
    scan(insts, insts.len())
}

/// What holds of a scan state that read `n` instructions: recorded
/// pairs form an involution between a loop begin and the loop end to
/// its right; open begins are stacked in increasing order, unpaired;
/// and every bracket among the first `n` instructions is accounted for.
pub open spec fn scan_invariant(
    insts: Seq<Instruction>,
    n: int,
    table: Map<int, int>,
    stack: Seq<int>,
) -> bool {
    &&& forall|k: int| #[trigger] table.contains_key(k) ==> 0 <= k < n
    &&& forall|k: int| #[trigger]
        table.contains_key(k) ==> table.contains_key(table[k]) && table[table[k]] == k
    &&& forall|k: int| #[trigger]
        table.contains_key(k) ==> (insts[k] is LoopBegin <==> k < table[k])
    &&& forall|k: int| #[trigger]
        table.contains_key(k) ==> (insts[k] is LoopBegin || insts[k] is LoopEnd)
    &&& forall|k: int| #[trigger]
        table.contains_key(k) && insts[k] is LoopBegin ==> insts[table[k]] is LoopEnd
    &&& forall|j: int|
        0 <= j < stack.len() ==> 0 <= #[trigger] stack[j] < n && insts[stack[j]] is LoopBegin
            && !table.contains_key(stack[j])
    &&& forall|a: int, b: int| 0 <= a < b < stack.len() ==> stack[a] < stack[b]
    &&& forall|k: int|
        0 <= k < n && #[trigger] insts[k] is LoopBegin ==> table.contains_key(k)
            || stack.contains(k)
    &&& forall|k: int| 0 <= k < n && #[trigger] insts[k] is LoopEnd ==> table.contains_key(k)
}

/// As long as the scan goes on, the scan invariant holds of its state.
pub proof fn lemma_scan_invariant(insts: Seq<Instruction>, n: nat)
    ensures
        scan(insts, n) matches ScanState::Going { table, stack } ==> scan_invariant(
            insts,
            n as int,
            table,
            stack,
        ),
    decreases n,
{
    if n > 0 {
        lemma_scan_invariant(insts, (n - 1) as nat);
        let prev = scan(insts, (n - 1) as nat);
        if let ScanState::Going { table, stack } = prev {
            let i = n - 1;
            match insts[i] {
                Instruction::LoopBegin => {
                    let stack1 = stack.push(i);
                    assert forall|k: int| 0 <= k < n && #[trigger] insts[k] is LoopBegin implies
                        table.contains_key(k) || stack1.contains(k) by {
                        if k == i {
                            assert(stack1[stack1.len() - 1] == i);
                        } else {
                            if stack.contains(k) {
                                let j = choose|j: int| 0 <= j < stack.len() && stack[j] == k;
                                assert(stack1[j] == k);
                            }
                        }
                    }
                },
                Instruction::LoopEnd => {
                    if stack.len() > 0 {
                        let j = stack.last();
                        let table1 = table.insert(j, i).insert(i, j);
                        let stack1 = stack.drop_last();
                        assert(!table.contains_key(i));
                        assert(!table.contains_key(j));
                        assert(j < i);
                        assert forall|k: int| #[trigger] table1.contains_key(k) implies
                            table1.contains_key(table1[k]) && table1[table1[k]] == k by {
                            if k != i && k != j {
                                assert(table.contains_key(k));
                                assert(table[k] != i && table[k] != j);
                            }
                        }
                        assert forall|k: int| 0 <= k < n && #[trigger] insts[k] is LoopBegin implies
                            table1.contains_key(k) || stack1.contains(k) by {
                            if k < i && !table.contains_key(k) {
                                assert(stack.contains(k));
                                let a = choose|a: int| 0 <= a < stack.len() && stack[a] == k;
                                if k != j {
                                    assert(a < stack.len() - 1);
                                    assert(stack1[a] == k);
                                }
                            }
                        }
                    }
                },
                _ => {},
            }
        }
    }
}

/// A program without brackets scans to the empty table with no open
/// loop.
pub proof fn lemma_scan_no_brackets(insts: Seq<Instruction>, n: nat)
    requires
        forall|i: int|
            0 <= i < insts.len() ==> !((#[trigger] insts[i]) is LoopBegin) && !(insts[i] is LoopEnd),
        n <= insts.len(),
    ensures
        scan(insts, n) == (ScanState::Going {
            table: Map::<int, int>::empty(),
            stack: Seq::<int>::empty(),
        }),
    decreases n,
{
    if n > 0 {
        lemma_scan_no_brackets(insts, (n - 1) as nat);
    }
}

/// Once the scan has failed, reading further instructions changes
/// nothing.
pub proof fn lemma_scan_failed_persists(insts: Seq<Instruction>, n: nat, m: nat)
    requires
        n <= m,
        scan(insts, n) is Failed,
    ensures
        scan(insts, m) == scan(insts, n),
    decreases m,
{
    if m > n {
        lemma_scan_failed_persists(insts, n, (m - 1) as nat);
    }
}

/// The executable jump table seen as the scan's mathematical table with
/// unbounded indices.
pub open spec fn table_view(m: Map<usize, usize>) -> Map<int, int> {
    Map::new(
        |i: int| 0 <= i <= usize::MAX && m.contains_key(i as usize),
        |i: int| m[i as usize] as int,
    )
}

/// The pending loop-begin indices of the executable scan, as the
/// scan's mathematical stack.
pub open spec fn stack_view(s: Seq<usize>) -> Seq<int> {
    s.map_values(|x: usize| x as int)
}

/// Scan the program once, left to right, and produce the bidirectional
/// map between matching loop-begin and loop-end positions; fail with
/// `UnmatchedLoopEnd` at the first loop end with no open begin, or with
/// `UnmatchedLoopBegin` listing the begins still open at the end.
/// Execution must not be started on a program whose table failed.
pub fn make_jump_table(insts: &Vec<Instruction>) -> (r: Result<HashMap<usize, usize>, VmError>)
    ensures
        scan_result(insts@) matches ScanState::Failed { at } ==> r == Err::<
            HashMap<usize, usize>,
            VmError,
        >(VmError::UnmatchedLoopEnd(at as usize)),
        scan_result(insts@) matches ScanState::Going { table, stack } ==> if stack.len() == 0 {
            r matches Ok(h) && table_view(h@) == table
        } else {
            r matches Err(VmError::UnmatchedLoopBegin(v)) && stack_view(v@) == stack
        },
{
    let mut table: HashMap<usize, usize> = HashMap::new();
    let mut stack: Vec<usize> = Vec::new();
    let n = insts.len();
    let mut i: usize = 0;
    proof {
        assert(table_view(table@) =~= Map::<int, int>::empty());
        assert(stack_view(stack@) =~= Seq::<int>::empty());
    }
    while i < n
        invariant
            n == insts@.len(),
            i <= n,
            scan(insts@, i as nat) == (ScanState::Going {
                table: table_view(table@),
                stack: stack_view(stack@),
            }),
        decreases n - i,
    {
        let ghost table0 = table_view(table@);
        let ghost stack0 = stack_view(stack@);
        match insts[i] {
            Instruction::LoopBegin => {
                stack.push(i);
                proof {
                    assert(stack_view(stack@) =~= stack0.push(i as int));
                }
            },
            Instruction::LoopEnd => {
                let popped = stack.pop();
                match popped {
                    Some(to) => {
                        table.insert(to, i);
                        table.insert(i, to);
                        proof {
                            assert(stack0.last() == to as int);
                            assert(stack_view(stack@) =~= stack0.drop_last());
                            assert(table_view(table@) =~= table0.insert(to as int, i as int).insert(
                                i as int,
                                to as int,
                            ));
                        }
                    },
                    None => {
                        proof {
                            assert(scan(insts@, (i + 1) as nat) == (ScanState::Failed {
                                at: i as int,
                            }));
                            lemma_scan_failed_persists(insts@, (i + 1) as nat, insts@.len());
                        }
                        return Err(VmError::UnmatchedLoopEnd(i));
                    },
                }
            },
            _ => {},
        }
        i += 1;
    }
    if stack.len() > 0 {
        return Err(VmError::UnmatchedLoopBegin(stack));
    }
    Ok(table)
}

/// Law: the jump table of a well-bracketed program is involutive — for
/// every recorded pair `(i, j)`, the pair `(j, i)` is recorded too.
pub proof fn lemma_jump_table_involutive(insts: Seq<Instruction>)
    ensures
        scan_result(insts) matches ScanState::Going { table, stack } ==> forall|i: int| #[trigger]
            table.contains_key(i) ==> table.contains_key(table[i]) && table[table[i]] == i,
{
    lemma_scan_invariant(insts, insts.len());
}

} // verus!
