//! The evaluation engine: an operand stack that doubles as the pending
//! instruction queue, and a register store keyed by 8-bit integers.

use std::collections::HashMap;
use vstd::prelude::*;

use crate::op::Number;
use crate::op::NumberV;
use crate::op::Op;
use crate::op::OpV;
use crate::text::key_text;
use crate::text::op_str;
use crate::text::padded;
use crate::text::reg_text;
use crate::text::regs_text;
use crate::text::render_text;
use crate::text::stack_text;

verus! {

broadcast use vstd::std_specs::hash::group_hash_axioms;

/// The evaluation engine: the stack (top at the end) and the registers.
pub struct Env {
    pub stack: Vec<Op>,
    regs: HashMap<u8, Op>,
}

/// Spec-level image of an `Env`.
pub ghost struct EnvV {
    pub stack: Seq<OpV>,
    pub regs: Map<u8, OpV>,
}

/// The spec image of a stack of operations.
pub open spec fn stack_view(s: Seq<Op>) -> Seq<OpV> {
    s.map_values(|o: Op| o@)
}

/// The spec image of a register store.
pub open spec fn regs_view(m: Map<u8, Op>) -> Map<u8, OpV> {
    m.map_values(|o: Op| o@)
}

impl View for Env {
    type V = EnvV;

    closed spec fn view(&self) -> EnvV {
        EnvV { stack: stack_view(self.stack@), regs: regs_view(self.regs@) }
    }
}

/// What one evaluation step reported.
#[derive(Debug, PartialEq)]
pub enum Outcome {
    /// A reduction was applied and the stack was mutated; evaluation may
    /// continue.
    Reduced,
    /// The popped operation was a bare numeric value, pushed back unchanged:
    /// nothing left to reduce, but no error either.
    NoReduction,
    /// Underflow, a non-numeric operand, or an unbound register key: the
    /// caller stops evaluating. Operands already popped are not restored.
    Stuck,
    /// A binary arithmetic operator (the first field) popped its two numeric
    /// operands `a` and `b` (`a` was nearer the top). The host computes the
    /// combined floating-point value and pushes it as a single numeric; the
    /// step then counts as a reduction.
    Pending(Op, Number, Number),
}

/// Spec-level image of an `Outcome`.
pub ghost enum OutcomeV {
    Reduced,
    NoReduction,
    Stuck,
    Pending(OpV, NumberV, NumberV),
}

impl View for Outcome {
    type V = OutcomeV;

    open spec fn view(&self) -> OutcomeV {
        match self {
            Outcome::Reduced => OutcomeV::Reduced,
            Outcome::NoReduction => OutcomeV::NoReduction,
            Outcome::Stuck => OutcomeV::Stuck,
            Outcome::Pending(op, a, b) => OutcomeV::Pending(op@, a@, b@),
        }
    }
}

/// How one step relates the state before (`pre`), the state after (`post`)
/// and the reported outcome, for a binary arithmetic operator `op` already
/// popped off `pre.stack`, leaving `rest`. Both operands are popped before
/// anything is checked, so a failed step still consumes them.
pub open spec fn arith_rel(op: OpV, pre: EnvV, rest: Seq<OpV>, post: EnvV, r: OutcomeV) -> bool {
    post.regs == pre.regs && if rest.len() == 0 {
        post.stack == rest && r == OutcomeV::Stuck
    } else {
        let a = rest.last();
        let rest2 = rest.drop_last();
        if rest2.len() == 0 {
            post.stack == rest2 && r == OutcomeV::Stuck
        } else {
            let b = rest2.last();
            let rest3 = rest2.drop_last();
            match (a, b) {
                (OpV::Num(x), OpV::Num(y)) => post.stack == rest3 && r == OutcomeV::Pending(
                    op,
                    x,
                    y,
                ),
                _ => post.stack == rest3 && r == OutcomeV::Stuck,
            }
        }
    }
}

/// How one evaluation step relates the engine before (`pre`), the engine
/// after (`post`) and the reported outcome `r`. The last element of the
/// stack is popped and interpreted as the operation to apply; operands are
/// popped below it, and are not restored when the step fails.
pub open spec fn step_rel(pre: EnvV, post: EnvV, r: OutcomeV) -> bool {
    if pre.stack.len() == 0 {
        post.stack == pre.stack && post.regs == pre.regs && r == OutcomeV::Stuck
    } else {
        let op = pre.stack.last();
        let rest = pre.stack.drop_last();
        match op {
            OpV::Num(_) => post.stack == pre.stack && post.regs == pre.regs && r
                == OutcomeV::NoReduction,
            OpV::Drp => {
                post.regs == pre.regs && if rest.len() == 0 {
                    post.stack == rest && r == OutcomeV::Stuck
                } else {
                    post.stack == rest.drop_last() && r == OutcomeV::Reduced
                }
            },
            OpV::Swp => {
                post.regs == pre.regs && if rest.len() == 0 {
                    post.stack == rest && r == OutcomeV::Stuck
                } else {
                    let a = rest.last();
                    let rest2 = rest.drop_last();
                    if rest2.len() == 0 {
                        post.stack == rest2 && r == OutcomeV::Stuck
                    } else {
                        let b = rest2.last();
                        let rest3 = rest2.drop_last();
                        if a is Num && b is Num {
                            post.stack == rest3.push(a).push(b) && r == OutcomeV::Reduced
                        } else {
                            post.stack == rest3 && r == OutcomeV::Stuck
                        }
                    }
                }
            },
            OpV::Dup => {
                post.regs == pre.regs && if rest.len() == 0 {
                    post.stack == rest && r == OutcomeV::Stuck
                } else {
                    let a = rest.last();
                    if a is Num {
                        post.stack == rest.push(a) && r == OutcomeV::Reduced
                    } else {
                        post.stack == rest.drop_last() && r == OutcomeV::Stuck
                    }
                }
            },
            OpV::Sto => {
                if rest.len() == 0 {
                    post.stack == rest && post.regs == pre.regs && r == OutcomeV::Stuck
                } else {
                    let a = rest.last();
                    let rest2 = rest.drop_last();
                    if rest2.len() == 0 {
                        post.stack == rest2 && post.regs == pre.regs && r == OutcomeV::Stuck
                    } else {
                        let val = rest2.last();
                        let rest3 = rest2.drop_last();
                        match a {
                            OpV::Num(k) => post.stack == rest3 && post.regs == pre.regs.insert(
                                k.key,
                                val,
                            ) && r == OutcomeV::Reduced,
                            _ => post.stack == rest3 && post.regs == pre.regs && r
                                == OutcomeV::Stuck,
                        }
                    }
                }
            },
            OpV::Get => {
                if rest.len() == 0 {
                    post.stack == rest && post.regs == pre.regs && r == OutcomeV::Stuck
                } else {
                    let a = rest.last();
                    let rest2 = rest.drop_last();
                    match a {
                        OpV::Num(k) => {
                            if pre.regs.contains_key(k.key) {
                                post.stack == rest2.push(pre.regs[k.key]) && post.regs
                                    == pre.regs.remove(k.key) && r == OutcomeV::Reduced
                            } else {
                                post.stack == rest2 && post.regs == pre.regs && r
                                    == OutcomeV::Stuck
                            }
                        },
                        _ => post.stack == rest2 && post.regs == pre.regs && r == OutcomeV::Stuck,
                    }
                }
            },
            _ => arith_rel(op, pre, rest, post, r),
        }
    }
}

proof fn lemma_view_drop(s: Seq<Op>)
    requires
        s.len() > 0,
    ensures
        stack_view(s).last() == s.last()@,
        stack_view(s).drop_last() =~= stack_view(s.drop_last()),
{
}

proof fn lemma_view_push(s: Seq<Op>, o: Op)
    ensures
        stack_view(s.push(o)) =~= stack_view(s).push(o@),
{
}

proof fn lemma_regs_insert(m: Map<u8, Op>, k: u8, v: Op)
    ensures
        regs_view(m.insert(k, v)) =~= regs_view(m).insert(k, v@),
{
}

proof fn lemma_regs_remove(m: Map<u8, Op>, k: u8)
    ensures
        regs_view(m.remove(k)) =~= regs_view(m).remove(k),
{
}

/// Underflow policy: popping a lone `Drp` off an otherwise empty stack
/// reports the stuck outcome — its one operand is missing — and leaves
/// both the stack and the registers of the engine empty.
pub proof fn lemma_drop_underflow(pre: EnvV, post: EnvV, r: OutcomeV)
    requires
        pre.stack == seq![OpV::Drp],
        step_rel(pre, post, r),
    ensures
        r == OutcomeV::Stuck,
        post.stack == Seq::<OpV>::empty(),
        post.regs == pre.regs,
{
    assert(pre.stack.drop_last() =~= Seq::<OpV>::empty());
}

impl Env {
    /// A fresh engine: empty stack, empty registers.
    pub fn new() -> (r: Env)
        ensures
            r@.stack == Seq::<OpV>::empty(),
            r@.regs == Map::<u8, OpV>::empty(),
    {
        let e = Env { stack: Vec::new(), regs: HashMap::new() };
        proof {
            assert(e@.stack =~= Seq::<OpV>::empty());
            assert(e@.regs =~= Map::<u8, OpV>::empty());
        }
        e
    }

    /// Append an operation to the end (the top) of the stack, whether a
    /// not-yet-evaluated instruction or an operand value.
    pub fn push(&mut self, op: Op)
        ensures
            final(self)@.stack == old(self)@.stack.push(op@),
            final(self)@.regs == old(self)@.regs,
    {
        proof {
            lemma_view_push(self.stack@, op);
        }
        self.stack.push(op);
    }

    /// True iff both the stack and the register store are empty.
    pub fn is_empty(&self) -> (r: bool)
        ensures
            r == (self@.stack.len() == 0 && self@.regs.dom().is_empty()),
    {
        proof {
            assert(regs_view(self.regs@).dom() =~= self.regs@.dom());
        }
        self.stack.len() == 0 && self.regs.is_empty()
    }

    /// How many registers are bound.
    pub fn regs_len(&self) -> (n: usize)
        ensures
            n == self@.regs.len(),
    {
        proof {
            assert(regs_view(self.regs@).dom() =~= self.regs@.dom());
        }
        self.regs.len()
    }

    /// Push every operation of `ops` in order.
    pub fn fill_from(&mut self, ops: &Vec<Op>)
        ensures
            final(self)@.stack == old(self)@.stack + stack_view(ops@),
            final(self)@.regs == old(self)@.regs,
    {
        let mut i: usize = 0;
        proof {
            assert(self@.stack =~= old(self)@.stack + stack_view(ops@.subrange(0, 0)));
        }
        while i < ops.len()
            invariant
                i <= ops.len(),
                self@.stack == old(self)@.stack + stack_view(ops@.subrange(0, i as int)),
                self@.regs == old(self)@.regs,
            decreases ops.len() - i,
        {
            let op = ops[i].clone();
            proof {
                lemma_view_push(self.stack@, op);
                assert(ops@.subrange(0, i + 1) =~= ops@.subrange(0, i as int).push(
                    ops@[i as int],
                ));
                assert(stack_view(ops@.subrange(0, i + 1)) =~= stack_view(
                    ops@.subrange(0, i as int),
                ).push(op@));
            }
            self.stack.push(op);
            proof {
                assert(self@.stack =~= old(self)@.stack + stack_view(ops@.subrange(0, i + 1)));
            }
            i = i + 1;
        }
        proof {
            assert(ops@.subrange(0, ops@.len() as int) =~= ops@);
        }
    }

    /// Render the engine state: each register binding as `(key: value) ` in
    /// ascending key order, then the stack left-to-right, every entry
    /// right-aligned to a minimum width of five characters and separated by
    /// single spaces.
    pub fn render(&self) -> (r: String)
        ensures
            r@ == render_text(self@),
    {
        let mut out = String::new();
        let mut k: usize = 0;
        while k < 256
            invariant
                k <= 256,
                out@ == regs_text(self@.regs, k as int),
            decreases 256 - k,
        {
            let key = k as u8;
            match self.regs.get(&key) {
                Some(v) => {
                    let mut entry = "(".to_owned();
                    let kt = key_text(key);
                    entry.append(kt.as_str());
                    entry.append(": ");
                    let vt = op_str(v);
                    entry.append(vt.as_str());
                    entry.append(") ");
                    proof {
                        assert(self@.regs.contains_key(key));
                        assert(self@.regs[key] == v@);
                        assert(entry@ =~= reg_text(key, v@));
                        assert(out@ + entry@ =~= regs_text(self@.regs, k as int + 1));
                    }
                    out.append(entry.as_str());
                },
                None => {
                    proof {
                        assert(!self@.regs.contains_key(key));
                        assert(out@ =~= regs_text(self@.regs, k as int + 1));
                    }
                },
            }
            k = k + 1;
        }
        let mut i: usize = 0;
        while i < self.stack.len()
            invariant
                i <= self.stack.len(),
                out@ == regs_text(self@.regs, 256) + stack_text(self@.stack, i as int),
            decreases self.stack.len() - i,
        {
            if i != 0 {
                out.append(" ");
            }
            let o = &self.stack[i];
            let t = padded(op_str(o));
            out.append(t.as_str());
            proof {
                assert(self@.stack[i as int] == self.stack@[i as int]@);
                assert(out@ =~= regs_text(self@.regs, 256) + stack_text(
                    self@.stack,
                    i as int + 1,
                ));
            }
            i = i + 1;
        }
        proof {
            assert(self@.stack.len() == self.stack@.len());
            assert(out@ =~= render_text(self@));
        }
        out
    }

    /// Remove the last operation of the stack and apply it: one step of the
    /// reduction described by `step_rel`.
    pub fn eval(&mut self) -> (r: Outcome)
        ensures
            step_rel(old(self)@, final(self)@, r@),
    {
        let ghost pre = self@;
        let op = match self.stack.pop() {
            Some(op) => op,
            None => {
                return Outcome::Stuck;
            },
        };
        proof {
            lemma_view_drop(old(self).stack@);
        }
        let ghost rest = self@.stack;
        match op {
            Op::Num(n) => {
                proof {
                    lemma_view_push(self.stack@, Op::Num(n));
                    assert(rest.push(pre.stack.last()) =~= pre.stack);
                }
                self.stack.push(Op::Num(n));
                Outcome::NoReduction
            },
            Op::Drp => {
                match self.stack.pop() {
                    Some(_) => {
                        proof {
                            lemma_view_drop(old(self).stack@.drop_last());
                        }
                        Outcome::Reduced
                    },
                    None => Outcome::Stuck,
                }
            },
            Op::Swp => {
                match self.stack.pop() {
                    None => Outcome::Stuck,
                    Some(a_op) => match self.stack.pop() {
                        None => {
                            proof {
                                lemma_view_drop(old(self).stack@.drop_last());
                            }
                            Outcome::Stuck
                        },
                        Some(b_op) => {
                            proof {
                                lemma_view_drop(old(self).stack@.drop_last());
                                lemma_view_drop(old(self).stack@.drop_last().drop_last());
                            }
                            match (a_op, b_op) {
                                (Op::Num(a), Op::Num(b)) => {
                                    proof {
                                        lemma_view_push(self.stack@, Op::Num(a));
                                        lemma_view_push(
                                            self.stack@.push(Op::Num(a)),
                                            Op::Num(b),
                                        );
                                    }
                                    self.stack.push(Op::Num(a));
                                    self.stack.push(Op::Num(b));
                                    Outcome::Reduced
                                },
                                _ => Outcome::Stuck,
                            }
                        },
                    },
                }
            },
            Op::Dup => {
                match self.stack.pop() {
                    None => Outcome::Stuck,
                    Some(a_op) => {
                        proof {
                            lemma_view_drop(old(self).stack@.drop_last());
                        }
                        match a_op {
                            Op::Num(a) => {
                                let a2 = a.clone();
                                proof {
                                    lemma_view_push(self.stack@, Op::Num(a2));
                                    lemma_view_push(self.stack@.push(Op::Num(a2)), Op::Num(a));
                                    assert(rest.drop_last().push(rest.last()) =~= rest);
                                }
                                self.stack.push(Op::Num(a2));
                                self.stack.push(Op::Num(a));
                                Outcome::Reduced
                            },
                            _ => Outcome::Stuck,
                        }
                    },
                }
            },
            Op::Sto => {
                match self.stack.pop() {
                    None => Outcome::Stuck,
                    Some(a_op) => match self.stack.pop() {
                        None => {
                            proof {
                                lemma_view_drop(old(self).stack@.drop_last());
                            }
                            Outcome::Stuck
                        },
                        Some(val) => {
                            proof {
                                lemma_view_drop(old(self).stack@.drop_last());
                                lemma_view_drop(old(self).stack@.drop_last().drop_last());
                            }
                            match a_op {
                                Op::Num(k) => {
                                    proof {
                                        lemma_regs_insert(self.regs@, k.key, val);
                                    }
                                    let _ = self.regs.insert(k.key, val);
                                    Outcome::Reduced
                                },
                                _ => Outcome::Stuck,
                            }
                        },
                    },
                }
            },
            Op::Get => {
                match self.stack.pop() {
                    None => Outcome::Stuck,
                    Some(a_op) => {
                        proof {
                            lemma_view_drop(old(self).stack@.drop_last());
                        }
                        match a_op {
                            Op::Num(k) => {
                                proof {
                                    lemma_regs_remove(self.regs@, k.key);
                                }
                                match self.regs.remove(&k.key) {
                                    Some(v) => {
                                        proof {
                                            lemma_view_push(self.stack@, v);
                                        }
                                        self.stack.push(v);
                                        Outcome::Reduced
                                    },
                                    None => {
                                        proof {
                                            assert(self.regs@ =~= old(self).regs@);
                                        }
                                        Outcome::Stuck
                                    },
                                }
                            },
                            _ => Outcome::Stuck,
                        }
                    },
                }
            },
            _ => {
                // one of the six binary arithmetic operators
                match self.stack.pop() {
                    None => Outcome::Stuck,
                    Some(a_op) => match self.stack.pop() {
                        None => {
                            proof {
                                lemma_view_drop(old(self).stack@.drop_last());
                            }
                            Outcome::Stuck
                        },
                        Some(b_op) => {
                            proof {
                                lemma_view_drop(old(self).stack@.drop_last());
                                lemma_view_drop(old(self).stack@.drop_last().drop_last());
                            }
                            match (a_op, b_op) {
                                (Op::Num(a), Op::Num(b)) => Outcome::Pending(op, a, b),
                                _ => Outcome::Stuck,
                            }
                        },
                    },
                }
            },
        }
    }
}

} // verus!
