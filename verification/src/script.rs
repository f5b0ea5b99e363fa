//! Task scripts: a task given as a line of steps, such as `10a1a`, where a
//! run of digits is a sleep for that many seconds and `a` is one arithmetic
//! step.
use vstd::prelude::*;
use std::collections::VecDeque;
use crate::message::TaskId;

verus! {

/// One step of a task script.
#[derive(Debug, Clone, Copy, PartialEq, Eq)]
pub enum ProcessStep {
    /// Sleep for this many seconds.
    Sleep(u64),
    /// Do one arithmetic step on the task's variables.
    Arithmetic,
}

/// A task built from a script: its id, its variables and its steps in order.
pub struct ScriptTask {
    pub id: TaskId,
    pub variables: Vec<i64>,
    pub steps: VecDeque<ProcessStep>,
}

/// `c` is an ASCII decimal digit.
pub open spec fn is_digit(c: char) -> bool {
    '0' <= c && c <= '9'
}

/// The value of the decimal digit `c`.
pub open spec fn digit_value(c: char) -> nat {
    (c as nat - '0' as nat) as nat
}

/// `n`, or the largest `u64` when `n` does not fit.
pub open spec fn saturate(n: nat) -> u64 {
    if n > u64::MAX {
        u64::MAX
    } else {
        n as u64
    }
}

/// The sleep that a finished run of digits worth `pending` stands for, if any.
pub open spec fn flush(pending: Option<nat>) -> Seq<ProcessStep> {
    match pending {
        Some(n) => seq![ProcessStep::Sleep(saturate(n))],
        None => Seq::empty(),
    }
}

/// The steps of the script `s`, read from the left, after a run of digits
/// worth `pending` (or none): each maximal run of digits is one sleep of its
/// decimal value (the largest `u64` if it is larger), each `a` is one
/// arithmetic step, and any other character only ends a run of digits.
pub open spec fn script_steps(s: Seq<char>, pending: Option<nat>) -> Seq<ProcessStep>
    decreases s.len(),
{
    if s.len() == 0 {
        flush(pending)
    } else if is_digit(s[0]) {
        let before = match pending {
            Some(n) => n,
            None => 0,
        };
        script_steps(s.drop_first(), Some(before * 10 + digit_value(s[0])))
    } else if s[0] == 'a' {
        flush(pending) + seq![ProcessStep::Arithmetic] + script_steps(s.drop_first(), None)
    } else {
        flush(pending) + script_steps(s.drop_first(), None)
    }
}

/// `p * 10 + d`, saturating at the largest `u64`, agrees with the saturated
/// exact value.
proof fn lemma_saturate_step(p: nat, d: nat)
    requires
        d < 10,
    ensures
        saturate((saturate(p) * 10 + d) as nat) == saturate(p * 10 + d),
{
    if p > u64::MAX {
        assert(saturate(p) * 10 + d > u64::MAX) by (nonlinear_arith)
            requires
                saturate(p) == u64::MAX,
        ;
        assert(p * 10 + d > u64::MAX) by (nonlinear_arith)
            requires
                p > u64::MAX,
        ;
    }
}

/// Builds task `id` with `variables` from `script`.
pub fn task_init(id: TaskId, script: &str, variables: Vec<i64>) -> (task: ScriptTask)
    ensures
        task.id == id,
        task.variables == variables,
        task.steps@ == script_steps(script@, None),
{
    let n = script.unicode_len();
    let mut steps: VecDeque<ProcessStep> = VecDeque::new();
    let mut pending: Option<u64> = None;
    let ghost mut exact: Option<nat> = None;
    let mut i: usize = 0;
    proof {
        assert(script@.skip(0) =~= script@);
    }
    while i < n
        invariant
            n == script@.len(),
            i <= n,
            script_steps(script@, None) == steps@ + script_steps(script@.skip(i as int), exact),
            exact is Some == pending is Some,
            exact is Some ==> pending->0 == saturate(exact->0),
        decreases n - i,
    {
        let c = script.get_char(i);
        let ghost rest = script@.skip(i as int);
        proof {
            assert(rest[0] == c);
            assert(rest.drop_first() =~= script@.skip(i + 1));
        }
        if '0' <= c && c <= '9' {
            let d: u64 = (c as u32 - '0' as u32) as u64;
            let before: u64 = match pending {
                Some(p) => p,
                None => 0,
            };
            let next: u64 = if before > 1844674407370955161 {
                u64::MAX
            } else if before * 10 > u64::MAX - d {
                u64::MAX
            } else {
                before * 10 + d
            };
            proof {
                let b: nat = match exact {
                    Some(x) => x,
                    None => 0,
                };
                assert(d == digit_value(c));
                assert(before == saturate(b));
                lemma_saturate_step(b, d as nat);
                if before <= 1844674407370955161 {
                    assert(before * 10 <= u64::MAX) by (nonlinear_arith)
                        requires
                            before <= 1844674407370955161,
                    ;
                } else {
                    assert(before * 10 + d > u64::MAX) by (nonlinear_arith)
                        requires
                            before > 1844674407370955161,
                    ;
                }
                exact = Some(b * 10 + digit_value(c));
            }
            pending = Some(next);
        } else {
            proof {
                assert(steps@ + flush(exact) + (if c == 'a' {
                    seq![ProcessStep::Arithmetic]
                } else {
                    Seq::empty()
                }) + script_steps(rest.drop_first(), None) =~= steps@ + script_steps(rest, exact));
            }
            if let Some(p) = pending {
                steps.push_back(ProcessStep::Sleep(p));
            }
            if c == 'a' {
                steps.push_back(ProcessStep::Arithmetic);
            }
            pending = None;
            proof {
                exact = None;
            }
        }
        i = i + 1;
    }
    proof {
        assert(script@.skip(n as int) =~= Seq::<char>::empty());
    }
    if let Some(p) = pending {
        steps.push_back(ProcessStep::Sleep(p));
    }
    proof {
        assert(steps@ =~= script_steps(script@, None));
    }
    ScriptTask { id, variables, steps }
}

} // verus!
