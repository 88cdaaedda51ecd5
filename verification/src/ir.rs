//! The low-level typed instruction representation the backend emits.
//!
//! A function body is a graph of blocks. Each block takes typed arguments
//! (integer registers of explicit bit widths), holds a list of operations in
//! SSA form — every operation appends one new value — and ends in a
//! terminator. The semantics of every operation is given by spec functions
//! over the mathematical values of the registers, so that lowered code can
//! be proved to compute what the opcode demands.

use vstd::prelude::*;
use vstd::arithmetic::power2::pow2;

use crate::bignum::big;
use crate::utils::bit_len;

verus! {

broadcast use crate::utils::lemma_push_drop_last;

/// A comparison predicate: equality, and the unsigned/signed orders.
#[derive(Clone, Copy, Debug, PartialEq, Eq, Structural)]
pub enum CmpPred {
    Eq,
    Ult,
    Ule,
    Uge,
    Slt,
    Sge,
}

/// One operation. Value operands are indices of earlier values of the same
/// block (block arguments first, then one value per operation).
#[derive(Debug)]
pub enum Op {
    /// Materialize a constant in a `w`-bit register.
    ConstInt { w: u64, c: num_bigint::BigUint },
    /// Zero-extend to `w` bits.
    ExtUi { v: usize, w: u64 },
    /// Sign-extend to `w` bits.
    ExtSi { v: usize, w: u64 },
    /// Modular addition in the operands' width.
    AddI { a: usize, b: usize },
    /// Modular subtraction in the operands' width.
    SubI { a: usize, b: usize },
    /// Modular multiplication in the operands' width.
    MulI { a: usize, b: usize },
    /// Unsigned division (quotient), 0 on a zero divisor.
    DivUi { a: usize, b: usize },
    /// Unsigned remainder, 0 on a zero divisor.
    RemUi { a: usize, b: usize },
    /// Comparison, producing a 1-bit register.
    Cmpi { pred: CmpPred, a: usize, b: usize },
    /// Truncate to `w` bits.
    TruncI { v: usize, w: u64 },
    /// `if c { a } else { b }`; `c` is a 1-bit register.
    Select { c: usize, a: usize, b: usize },
    /// Left shift in the operands' width; 0 when the shift reaches the width.
    Shli { a: usize, b: usize },
    /// Unsigned right shift; 0 when the shift reaches the width.
    Shrui { a: usize, b: usize },
    /// Bitwise and.
    Andi { a: usize, b: usize },
    /// Bitwise xor.
    Xori { a: usize, b: usize },
    /// Count of leading zero bits, in the operand's width.
    Ctlz { v: usize },
}

/// The two's-complement reading of a `w`-bit register value.
pub open spec fn sint_of(v: nat, w: nat) -> int {
    if w == 0 {
        0
    } else if v < pow2((w - 1) as nat) {
        v as int
    } else {
        v - pow2(w)
    }
}

/// The width of the value an operation produces, given the widths of all
/// earlier values.
pub open spec fn op_width(op: Op, ws: Seq<u64>) -> u64 {
    match op {
        Op::ConstInt { w, .. } => w,
        Op::ExtUi { w, .. } => w,
        Op::ExtSi { w, .. } => w,
        Op::AddI { a, .. } => ws[a as int],
        Op::SubI { a, .. } => ws[a as int],
        Op::MulI { a, .. } => ws[a as int],
        Op::DivUi { a, .. } => ws[a as int],
        Op::RemUi { a, .. } => ws[a as int],
        Op::Cmpi { .. } => 1,
        Op::TruncI { w, .. } => w,
        Op::Select { a, .. } => ws[a as int],
        Op::Shli { a, .. } => ws[a as int],
        Op::Shrui { a, .. } => ws[a as int],
        Op::Andi { a, .. } => ws[a as int],
        Op::Xori { a, .. } => ws[a as int],
        Op::Ctlz { v } => ws[v as int],
    }
}

/// Well-formedness of one operation against the widths of earlier values.
pub open spec fn op_wf(op: Op, ws: Seq<u64>) -> bool {
    match op {
        Op::ConstInt { w, c } => big(c) < pow2(w as nat),
        Op::ExtUi { v, w } => v < ws.len() && ws[v as int] <= w,
        Op::ExtSi { v, w } => v < ws.len() && 1 <= ws[v as int] <= w,
        Op::AddI { a, b } => a < ws.len() && b < ws.len() && ws[a as int] == ws[b as int],
        Op::SubI { a, b } => a < ws.len() && b < ws.len() && ws[a as int] == ws[b as int],
        Op::MulI { a, b } => a < ws.len() && b < ws.len() && ws[a as int] == ws[b as int],
        Op::DivUi { a, b } => a < ws.len() && b < ws.len() && ws[a as int] == ws[b as int],
        Op::RemUi { a, b } => a < ws.len() && b < ws.len() && ws[a as int] == ws[b as int],
        Op::Cmpi { pred, a, b } => a < ws.len() && b < ws.len() && ws[a as int] == ws[b as int],
        Op::TruncI { v, w } => v < ws.len() && w <= ws[v as int],
        Op::Select { c, a, b } => c < ws.len() && a < ws.len() && b < ws.len()
            && ws[c as int] == 1 && ws[a as int] == ws[b as int],
        Op::Shli { a, b } => a < ws.len() && b < ws.len() && ws[a as int] == ws[b as int],
        Op::Shrui { a, b } => a < ws.len() && b < ws.len() && ws[a as int] == ws[b as int],
        Op::Andi { a, b } => a < ws.len() && b < ws.len() && ws[a as int] == ws[b as int]
            && ws[a as int] < 128,
        Op::Xori { a, b } => a < ws.len() && b < ws.len() && ws[a as int] == ws[b as int]
            && ws[a as int] < 128,
        Op::Ctlz { v } => v < ws.len(),
    }
}

/// The value an operation produces, as a mathematical function of the
/// earlier values and their widths.
pub open spec fn sem_op(op: Op, vals: Seq<nat>, ws: Seq<u64>) -> nat {
    match op {
        Op::ConstInt { w, c } => big(c) % pow2(w as nat),
        Op::ExtUi { v, .. } => vals[v as int],
        Op::ExtSi { v, w } => {
            let wv = ws[v as int] as nat;
            if wv == 0 {
                0
            } else if vals[v as int] < pow2((wv - 1) as nat) {
                vals[v as int]
            } else {
                (vals[v as int] + pow2(w as nat) - pow2(wv)) as nat
            }
        },
        Op::AddI { a, b } => ((vals[a as int] + vals[b as int]) % pow2(ws[a as int] as nat)) as nat,
        Op::SubI { a, b } => ((vals[a as int] - vals[b as int]) % (pow2(
            ws[a as int] as nat,
        ) as int)) as nat,
        Op::MulI { a, b } => ((vals[a as int] * vals[b as int]) % pow2(ws[a as int] as nat)) as nat,
        Op::DivUi { a, b } => if vals[b as int] == 0 {
            0
        } else {
            vals[a as int] / vals[b as int]
        },
        Op::RemUi { a, b } => if vals[b as int] == 0 {
            0
        } else {
            vals[a as int] % vals[b as int]
        },
        Op::Cmpi { pred, a, b } => {
            let w = ws[a as int] as nat;
            let holds = match pred {
                CmpPred::Eq => vals[a as int] == vals[b as int],
                CmpPred::Ult => vals[a as int] < vals[b as int],
                CmpPred::Ule => vals[a as int] <= vals[b as int],
                CmpPred::Uge => vals[a as int] >= vals[b as int],
                CmpPred::Slt => sint_of(vals[a as int], w) < sint_of(vals[b as int], w),
                CmpPred::Sge => sint_of(vals[a as int], w) >= sint_of(vals[b as int], w),
            };
            if holds {
                1
            } else {
                0
            }
        },
        Op::TruncI { v, w } => vals[v as int] % pow2(w as nat),
        Op::Select { c, a, b } => if vals[c as int] != 0 {
            vals[a as int]
        } else {
            vals[b as int]
        },
        Op::Shli { a, b } => {
            let w = ws[a as int] as nat;
            if vals[b as int] >= w {
                0
            } else {
                (vals[a as int] * pow2(vals[b as int])) % pow2(w)
            }
        },
        Op::Shrui { a, b } => {
            let w = ws[a as int] as nat;
            if vals[b as int] >= w {
                0
            } else {
                vals[a as int] / pow2(vals[b as int])
            }
        },
        Op::Andi { a, b } => ((vals[a as int] as u128) & (vals[b as int] as u128)) as nat,
        Op::Xori { a, b } => ((vals[a as int] as u128) ^ (vals[b as int] as u128)) as nat,
        Op::Ctlz { v } => {
            let w = ws[v as int] as nat;
            if bit_len(vals[v as int]) <= w {
                (w - bit_len(vals[v as int])) as nat
            } else {
                0
            }
        },
    }
}

/// The widths of all values of a block: the block parameters followed by
/// one width per operation.
pub open spec fn widths_after(params: Seq<u64>, ops: Seq<Op>) -> Seq<u64>
    decreases ops.len(),
{
    if ops.len() == 0 {
        params
    } else {
        widths_after(params, ops.drop_last()).push(
            op_width(ops.last(), widths_after(params, ops.drop_last())),
        )
    }
}

/// The values of a block, given its arguments: the arguments followed by
/// one value per operation.
pub open spec fn vals_after(args: Seq<nat>, params: Seq<u64>, ops: Seq<Op>) -> Seq<nat>
    decreases ops.len(),
{
    if ops.len() == 0 {
        args
    } else {
        vals_after(args, params, ops.drop_last()).push(
            sem_op(
                ops.last(),
                vals_after(args, params, ops.drop_last()),
                widths_after(params, ops.drop_last()),
            ),
        )
    }
}

/// Every operation of the list is well-formed against what precedes it.
pub open spec fn ops_wf(params: Seq<u64>, ops: Seq<Op>) -> bool
    decreases ops.len(),
{
    if ops.len() == 0 {
        true
    } else {
        ops_wf(params, ops.drop_last()) && op_wf(ops.last(), widths_after(params, ops.drop_last()))
    }
}

pub proof fn lemma_widths_after_len(params: Seq<u64>, ops: Seq<Op>)
    ensures
        widths_after(params, ops).len() == params.len() + ops.len(),
    decreases ops.len(),
{
    if ops.len() > 0 {
        lemma_widths_after_len(params, ops.drop_last());
    }
}

pub proof fn lemma_vals_after_len(args: Seq<nat>, params: Seq<u64>, ops: Seq<Op>)
    ensures
        vals_after(args, params, ops).len() == args.len() + ops.len(),
    decreases ops.len(),
{
    if ops.len() > 0 {
        lemma_vals_after_len(args, params, ops.drop_last());
    }
}

/// Block arguments fit their declared widths.
pub open spec fn args_fit(args: Seq<nat>, params: Seq<u64>) -> bool {
    &&& args.len() == params.len()
    &&& forall|i: int| 0 <= i < args.len() ==> args[i] < pow2(#[trigger] params[i] as nat)
}

/// A well-formed operation's value fits the operation's width.
pub proof fn lemma_sem_op_fits(op: Op, vals: Seq<nat>, ws: Seq<u64>)
    requires
        op_wf(op, ws),
        vals.len() == ws.len(),
        forall|i: int| 0 <= i < vals.len() ==> vals[i] < pow2(#[trigger] ws[i] as nat),
    ensures
        sem_op(op, vals, ws) < pow2(op_width(op, ws) as nat),
{
    vstd::arithmetic::power2::lemma2_to64();
    match op {
        Op::ConstInt { w, c } => {
            vstd::arithmetic::power2::lemma_pow2_pos(w as nat);
            vstd::arithmetic::div_mod::lemma_mod_bound(big(c) as int, pow2(w as nat) as int);
        },
        Op::ExtUi { v, w } => {
            lemma_pow2_le(ws[v as int] as nat, w as nat);
        },
        Op::ExtSi { v, w } => {
            let wv = ws[v as int] as nat;
            lemma_pow2_le(wv, w as nat);
            if wv > 0 {
                lemma_pow2_le((wv - 1) as nat, w as nat);
            }
        },
        Op::AddI { a, b } => {
            let w = ws[a as int] as nat;
            vstd::arithmetic::power2::lemma_pow2_pos(w);
            vstd::arithmetic::div_mod::lemma_mod_bound(
                (vals[a as int] + vals[b as int]) as int,
                pow2(w) as int,
            );
        },
        Op::SubI { a, b } => {
            let w = ws[a as int] as nat;
            vstd::arithmetic::power2::lemma_pow2_pos(w);
            vstd::arithmetic::div_mod::lemma_mod_bound(
                vals[a as int] - vals[b as int],
                pow2(w) as int,
            );
        },
        Op::MulI { a, b } => {
            let w = ws[a as int] as nat;
            vstd::arithmetic::power2::lemma_pow2_pos(w);
            vstd::arithmetic::div_mod::lemma_mod_bound(
                (vals[a as int] * vals[b as int]) as int,
                pow2(w) as int,
            );
        },
        Op::DivUi { a, b } => {
            let w = ws[a as int] as nat;
            if vals[b as int] != 0 {
                vstd::arithmetic::div_mod::lemma_div_nonincreasing(
                    vals[a as int] as int,
                    vals[b as int] as int,
                );
            }
            vstd::arithmetic::power2::lemma_pow2_pos(w);
        },
        Op::RemUi { a, b } => {
            if vals[b as int] != 0 {
                vstd::arithmetic::div_mod::lemma_mod_bound(
                    vals[a as int] as int,
                    vals[b as int] as int,
                );
            }
            vstd::arithmetic::power2::lemma_pow2_pos(ws[a as int] as nat);
        },
        Op::Cmpi { .. } => {
        },
        Op::TruncI { v, w } => {
            vstd::arithmetic::power2::lemma_pow2_pos(w as nat);
            vstd::arithmetic::div_mod::lemma_mod_bound(
                vals[v as int] as int,
                pow2(w as nat) as int,
            );
        },
        Op::Select { .. } => {
        },
        Op::Shli { a, b } => {
            let w = ws[a as int] as nat;
            vstd::arithmetic::power2::lemma_pow2_pos(w);
            if vals[b as int] < w {
                vstd::arithmetic::div_mod::lemma_mod_bound(
                    (vals[a as int] * pow2(vals[b as int])) as int,
                    pow2(w) as int,
                );
            }
        },
        Op::Shrui { a, b } => {
            let w = ws[a as int] as nat;
            vstd::arithmetic::power2::lemma_pow2_pos(w);
            if vals[b as int] < w {
                vstd::arithmetic::power2::lemma_pow2_pos(vals[b as int]);
                vstd::arithmetic::div_mod::lemma_div_nonincreasing(
                    vals[a as int] as int,
                    pow2(vals[b as int]) as int,
                );
            }
        },
        Op::Andi { a, b } => {
            let w = ws[a as int] as nat;
            lemma_pow2_u128(w);
            let x = vals[a as int] as u128;
            let y = vals[b as int] as u128;
            assert(x & y <= x) by (bit_vector);
            assert(vals[a as int] as u128 == vals[a as int]);
        },
        Op::Xori { a, b } => {
            let w = ws[a as int] as nat;
            let x = vals[a as int] as u128;
            let y = vals[b as int] as u128;
            lemma_pow2_u128(w);
            let wb = w as u128;
            assert(vals[a as int] as u128 == vals[a as int]);
            assert(vals[b as int] as u128 == vals[b as int]);
            assert(x < (1u128 << wb) && y < (1u128 << wb) && wb < 128 ==> (x ^ y) < (1u128
                << wb)) by (bit_vector);
        },
        Op::Ctlz { v } => {
            let w = ws[v as int] as nat;
            if bit_len(vals[v as int]) <= w {
                lemma_pow2_le((w - bit_len(vals[v as int])) as nat, w);
                vstd::arithmetic::power2::lemma_pow2_pos(w);
                assert(((w - bit_len(vals[v as int])) as nat) < pow2(w)) by {
                    lemma_small_under_pow2(w);
                }
            } else {
                vstd::arithmetic::power2::lemma_pow2_pos(w);
            }
        },
    }
}

/// Powers of two do not decrease.
pub proof fn lemma_pow2_le(e1: nat, e2: nat)
    requires
        e1 <= e2,
    ensures
        pow2(e1) <= pow2(e2),
{
    if e1 < e2 {
        vstd::arithmetic::power2::lemma_pow2_strictly_increases(e1, e2);
    }
}

/// Any exponent is below its own power of two.
pub proof fn lemma_small_under_pow2(e: nat)
    ensures
        e < pow2(e),
    decreases e,
{
    vstd::arithmetic::power2::lemma2_to64();
    if e > 0 {
        lemma_small_under_pow2((e - 1) as nat);
        vstd::arithmetic::power2::lemma_pow2_adds((e - 1) as nat, 1);
    }
}

/// For widths under 128 bits, `pow2` agrees with a `u128` shift.
pub proof fn lemma_pow2_u128(w: nat)
    requires
        w < 128,
    ensures
        pow2(w) == (1u128 << (w as u128)),
    decreases w,
{
    vstd::arithmetic::power2::lemma2_to64();
    let wb = w as u128;
    if w == 0 {
        assert(1u128 << 0u128 == 1) by (bit_vector);
    } else {
        lemma_pow2_u128((w - 1) as nat);
        vstd::arithmetic::power2::lemma_pow2_adds((w - 1) as nat, 1);
        assert(1u128 <= wb < 128 ==> (1u128 << wb) == 2 * (1u128 << (wb - 1) as u128))
            by (bit_vector);
    }
}

/// All values of a block fit their widths, given fitting arguments.
pub proof fn lemma_vals_fit(args: Seq<nat>, params: Seq<u64>, ops: Seq<Op>)
    requires
        ops_wf(params, ops),
        args_fit(args, params),
    ensures
        vals_after(args, params, ops).len() == widths_after(params, ops).len(),
        forall|i: int|
            0 <= i < vals_after(args, params, ops).len() ==> vals_after(args, params, ops)[i]
                < pow2(#[trigger] widths_after(params, ops)[i] as nat),
    decreases ops.len(),
{
    lemma_widths_after_len(params, ops);
    lemma_vals_after_len(args, params, ops);
    if ops.len() > 0 {
        lemma_vals_fit(args, params, ops.drop_last());
        lemma_widths_after_len(params, ops.drop_last());
        lemma_vals_after_len(args, params, ops.drop_last());
        lemma_sem_op_fits(
            ops.last(),
            vals_after(args, params, ops.drop_last()),
            widths_after(params, ops.drop_last()),
        );
    }
}

/// How a block hands control on.
#[derive(Debug)]
pub enum Terminator {
    /// Jump to another block of the same body with the given values.
    Jump { target: usize, args: Vec<usize> },
    /// Jump to one of two blocks of the same body on a 1-bit condition.
    CondJump {
        cond: usize,
        target_true: usize,
        args_true: Vec<usize>,
        target_false: usize,
        args_false: Vec<usize>,
    },
    /// Leave the lowered libfunc through one of its declared branches.
    BranchOut { branch: usize, args: Vec<usize> },
    /// Leave the lowered libfunc through one of two branches, on a 1-bit
    /// condition.
    CondBranchOut {
        cond: usize,
        branch_true: usize,
        args_true: Vec<usize>,
        branch_false: usize,
        args_false: Vec<usize>,
    },
    /// Return from the whole function with the given values.
    Ret { args: Vec<usize> },
}

/// One block: typed parameters, operations, and a terminator once finished.
#[derive(Debug)]
pub struct Block {
    pub params: Vec<u64>,
    pub ops: Vec<Op>,
    pub term: Option<Terminator>,
}

impl Block {
    /// The widths of all values of this block.
    pub open spec fn widths(&self) -> Seq<u64> {
        widths_after(self.params@, self.ops@)
    }

    /// How many values (parameters and operation results) exist so far.
    pub open spec fn n_vals(&self) -> int {
        self.params@.len() + self.ops@.len() as int
    }

    /// All operations are well-formed.
    pub open spec fn wf_ops(&self) -> bool {
        ops_wf(self.params@, self.ops@)
    }

    pub fn new(params: Vec<u64>) -> (r: Block)
        ensures
            r.params == params,
            r.ops@ == Seq::<Op>::empty(),
            r.term is None,
    {
        Block { params, ops: Vec::new(), term: None }
    }
}

/// The body of one function being built: its blocks.
#[derive(Debug)]
pub struct FuncBody {
    pub blocks: Vec<Block>,
}

impl FuncBody {
    pub fn new() -> (r: FuncBody)
        ensures
            r.blocks@ == Seq::<Block>::empty(),
    {
        FuncBody { blocks: Vec::new() }
    }

    /// Append a fresh block with the given parameter widths; returns its id.
    pub fn add_block(&mut self, params: Vec<u64>) -> (r: usize)
        ensures
            r == old(self).blocks@.len(),
            final(self).blocks@.len() == old(self).blocks@.len() + 1,
            final(self).blocks@ == old(self).blocks@.push(final(self).blocks@[r as int]),
            final(self).blocks@[r as int].params == params,
            final(self).blocks@[r as int].ops@ == Seq::<Op>::empty(),
            final(self).blocks@[r as int].term is None,
    {
        let r = self.blocks.len();
        self.blocks.push(Block::new(params));
        r
    }

    /// Append one operation to a block; returns the new value's index.
    pub fn push_op(&mut self, bid: usize, op: Op) -> (r: usize)
        requires
            bid < old(self).blocks@.len(),
            op_wf(op, old(self).blocks@[bid as int].widths()),
            old(self).blocks@[bid as int].ops@.len() + old(self).blocks@[bid as
                int].params@.len() < usize::MAX,
    ensures
            r == old(self).blocks@[bid as int].n_vals(),
            final(self).blocks@ == old(self).blocks@.update(
                bid as int,
                final(self).blocks@[bid as int],
            ),
            final(self).blocks@[bid as int].params == old(self).blocks@[bid as int].params,
            final(self).blocks@[bid as int].term == old(self).blocks@[bid as int].term,
            final(self).blocks@[bid as int].ops@ == old(self).blocks@[bid as int].ops@.push(op),
            final(self).blocks@[bid as int].widths() == old(self).blocks@[bid as
                int].widths().push(op_width(op, old(self).blocks@[bid as int].widths())),
            old(self).blocks@[bid as int].wf_ops() ==> final(self).blocks@[bid as int].wf_ops(),
    {
        proof {
            lemma_widths_after_len(
                self.blocks@[bid as int].params@,
                self.blocks@[bid as int].ops@,
            );
        }
        let blk = &mut self.blocks[bid];
        let r = blk.params.len() + blk.ops.len();
        blk.ops.push(op);
        r
    }

    /// Install a block's terminator; each block is terminated exactly once.
    pub fn set_term(&mut self, bid: usize, t: Terminator)
        requires
            bid < old(self).blocks@.len(),
            old(self).blocks@[bid as int].term is None,
        ensures
            final(self).blocks@ == old(self).blocks@.update(
                bid as int,
                final(self).blocks@[bid as int],
            ),
            final(self).blocks@[bid as int].params == old(self).blocks@[bid as int].params,
            final(self).blocks@[bid as int].ops == old(self).blocks@[bid as int].ops,
            final(self).blocks@[bid as int].term == Some(t),
    {
        let blk = &mut self.blocks[bid];
        blk.term = Some(t);
    }
}

/// What evaluating a body yields.
pub enum Outcome {
    /// The lowered libfunc left through the given branch with these values.
    Branches { branch: nat, vals: Seq<nat> },
    /// The function returned with these values.
    Returns { vals: Seq<nat> },
    /// Evaluation got stuck: a malformed body, or fuel ran out.
    Stuck,
}

/// The values a terminator hands on: the chosen indices, read from `vals`.
pub open spec fn pick_vals(vals: Seq<nat>, idxs: Seq<usize>) -> Seq<nat> {
    idxs.map_values(|i: usize| if i < vals.len() { vals[i as int] } else { 0 })
}

/// Evaluate a body from the given block on the given arguments. Fuel bounds
/// the number of jumps taken.
pub open spec fn eval_body_from(body: FuncBody, bid: int, args: Seq<nat>, fuel: nat) -> Outcome
    decreases fuel,
{
    if fuel == 0 {
        Outcome::Stuck
    } else if !(0 <= bid < body.blocks@.len()) {
        Outcome::Stuck
    } else {
        let blk = body.blocks@[bid];
        if !args_fit(args, blk.params@) || !blk.wf_ops() {
            Outcome::Stuck
        } else {
            let vals = vals_after(args, blk.params@, blk.ops@);
            match blk.term {
                None => Outcome::Stuck,
                Some(t) => match t {
                    Terminator::Jump { target, args: ax } => eval_body_from(
                        body,
                        target as int,
                        pick_vals(vals, ax@),
                        (fuel - 1) as nat,
                    ),
                    Terminator::CondJump {
                        cond,
                        target_true,
                        args_true,
                        target_false,
                        args_false,
                    } => {
                        if !(cond < vals.len()) {
                            Outcome::Stuck
                        } else if vals[cond as int] != 0 {
                            eval_body_from(
                                body,
                                target_true as int,
                                pick_vals(vals, args_true@),
                                (fuel - 1) as nat,
                            )
                        } else {
                            eval_body_from(
                                body,
                                target_false as int,
                                pick_vals(vals, args_false@),
                                (fuel - 1) as nat,
                            )
                        }
                    },
                    Terminator::BranchOut { branch, args: ax } => Outcome::Branches {
                        branch: branch as nat,
                        vals: pick_vals(vals, ax@),
                    },
                    Terminator::CondBranchOut {
                        cond,
                        branch_true,
                        args_true,
                        branch_false,
                        args_false,
                    } => {
                        if !(cond < vals.len()) {
                            Outcome::Stuck
                        } else if vals[cond as int] != 0 {
                            Outcome::Branches {
                                branch: branch_true as nat,
                                vals: pick_vals(vals, args_true@),
                            }
                        } else {
                            Outcome::Branches {
                                branch: branch_false as nat,
                                vals: pick_vals(vals, args_false@),
                            }
                        }
                    },
                    Terminator::Ret { args: ax } => Outcome::Returns {
                        vals: pick_vals(vals, ax@),
                    },
                },
            }
        }
    }
}

} // verus!
