//! Structured control flow: blocks, loops, conditionals and branches.
//!
//! Every open construct has a frame on the control stack. A branch to a loop jumps back to the
//! loop's start; a branch to any other construct jumps forward to its end, whose address is not
//! known yet: the jump is emitted with a zero displacement and recorded as a fixup of the frame,
//! to be patched when the construct's `end` is reached.

use vstd::prelude::*;

use crate::emit::{
    emit_jump_placeholder, emit_jump_to, emit_push_int, keeps_prefix, lemma_keeps_prefix_append,
    lemma_keeps_prefix_patch, lemma_keeps_prefix_shorter, lemma_keeps_prefix_trans,
    lemma_patched_jump_reaches_target, patch_jump, patched, placeholder_bytes,
    displacement_fits, push_int_bytes, values_after, StackValue,
};
use crate::errors::TranslateError;
use crate::le::{le_encode_signed, le_signed};
use crate::module::{BlockKind, FuncSig, ValKind};
use crate::opcodes::{DROP, DUP, JMPIFNOT_L, JMPIF_L, JMP_L, NUMEQUAL, PUSH0, XDROP};

verus! {

/// The kinds of structured constructs.
#[derive(Debug, Clone, Copy, PartialEq, Eq, Structural)]
pub enum ControlKind {
    Block,
    Loop,
    If,
    Function,
}

/// One open construct.
#[derive(Debug, Clone)]
pub struct ControlFrame {
    pub kind: ControlKind,
    /// Height of the operand stack when the construct was entered.
    pub stack_height: usize,
    /// Number of values the construct yields.
    pub result_count: usize,
    /// Address a branch to a loop jumps back to (for an `if`, where its current arm starts).
    pub start_offset: usize,
    /// Positions of the forward jumps to be patched to the construct's end.
    pub end_fixups: Vec<usize>,
    /// Position of the jump that skips the `then` arm of an `if`.
    pub if_false_fixup: Option<usize>,
    pub has_else: bool,
    /// Whether the instruction that opened the construct was reachable.
    pub entry_reachable: bool,
    /// Whether a reachable branch targets the construct's end.
    pub end_reachable_from_branch: bool,
    /// For an `if` whose `else` was seen: whether the `then` arm can reach the end.
    pub if_then_end_reachable: Option<bool>,
}

/// A value the translator knows nothing about.
pub open spec fn unknown_value() -> StackValue {
    StackValue { const_value: None, bytecode_start: None }
}

/// `s` repeated `n` times.
pub open spec fn repeat_bytes(s: Seq<u8>, n: nat) -> Seq<u8>
    decreases n,
{
    if n == 0 {
        Seq::empty()
    } else {
        repeat_bytes(s, (n - 1) as nat) + s
    }
}

/// The instructions that remove `count` values lying just beneath the top `keep_top` values.
pub open spec fn discard_bytes(keep_top: nat, count: nat) -> Seq<u8> {
    repeat_bytes(push_int_bytes(keep_top as int) + seq![XDROP], count)
}

/// How many values stay on top of the stack when branching to a construct.
pub open spec fn keep_top_of(frame: ControlFrame) -> nat {
    match frame.kind {
        ControlKind::Loop => 0,
        _ => frame.result_count as nat,
    }
}

/// How many values beneath the kept ones survive a branch to a construct.
pub open spec fn base_of(frame: ControlFrame) -> nat {
    match frame.kind {
        ControlKind::Function => 0,
        _ => frame.stack_height as nat,
    }
}

/// Whether two frames agree on everything but their recorded forward jumps.
pub open spec fn same_but_fixups(a: ControlFrame, b: ControlFrame) -> bool {
    &&& a.kind == b.kind
    &&& a.stack_height == b.stack_height
    &&& a.result_count == b.result_count
    &&& a.start_offset == b.start_offset
    &&& a.if_false_fixup == b.if_false_fixup
    &&& a.has_else == b.has_else
    &&& a.entry_reachable == b.entry_reachable
    &&& a.end_reachable_from_branch == b.end_reachable_from_branch
    &&& a.if_then_end_reachable == b.if_then_end_reachable
}

/// Whether the forward jumps recorded in a frame lie at or after position `n`.
pub open spec fn frame_after(f: ControlFrame, n: int) -> bool {
    &&& forall|j: int| 0 <= j < f.end_fixups@.len() ==> n <= #[trigger] f.end_fixups@[j]
    &&& (f.if_false_fixup is Some ==> n <= f.if_false_fixup->0)
}

/// Whether every forward jump recorded on the control stack lies at or after position `n`.
pub open spec fn frames_after(frames: Seq<ControlFrame>, n: int) -> bool {
    forall|i: int| 0 <= i < frames.len() ==> #[trigger] frame_after(frames[i], n)
}

/// Whether frame `b` records the jumps of `a`, plus jumps at or after position `p`.
pub open spec fn frame_grows(a: ControlFrame, b: ControlFrame, p: int) -> bool {
    &&& b.if_false_fixup == a.if_false_fixup
    &&& forall|k: int|
        0 <= k < b.end_fixups@.len() ==> p <= #[trigger] b.end_fixups@[k] || (k
            < a.end_fixups@.len() && b.end_fixups@[k] == a.end_fixups@[k])
}

/// Whether the control stack `b` is `a` with jumps at or after position `p` recorded.
pub open spec fn fixups_grow(a: Seq<ControlFrame>, b: Seq<ControlFrame>, p: int) -> bool {
    &&& a.len() == b.len()
    &&& forall|i: int| 0 <= i < a.len() ==> #[trigger] frame_grows(a[i], b[i], p)
}

/// A control stack is its own growth.
pub proof fn lemma_fixups_grow_refl(a: Seq<ControlFrame>, p: int)
    ensures
        fixups_grow(a, a, p),
{
    assert forall|i: int| 0 <= i < a.len() implies #[trigger] frame_grows(a[i], a[i], p) by {}
}

/// Growth of the recorded jumps composes.
pub proof fn lemma_fixups_grow_trans(a: Seq<ControlFrame>, b: Seq<ControlFrame>, c: Seq<ControlFrame>, p: int)
    requires
        fixups_grow(a, b, p),
        fixups_grow(b, c, p),
    ensures
        fixups_grow(a, c, p),
{
    assert forall|i: int| 0 <= i < a.len() implies #[trigger] frame_grows(a[i], c[i], p) by {
        assert(frame_grows(a[i], b[i], p));
        assert(frame_grows(b[i], c[i], p));
        assert forall|k: int| 0 <= k < c[i].end_fixups@.len() implies p
            <= #[trigger] c[i].end_fixups@[k] || (k < a[i].end_fixups@.len()
            && c[i].end_fixups@[k] == a[i].end_fixups@[k]) by {
            if p > c[i].end_fixups@[k] {
                assert(b[i].end_fixups@[k] == c[i].end_fixups@[k]);
            }
        }
    }
}

/// Jumps recorded at or after `p` are recorded at or after any `q <= p`.
pub proof fn lemma_fixups_grow_weaken(a: Seq<ControlFrame>, b: Seq<ControlFrame>, p: int, q: int)
    requires
        fixups_grow(a, b, p),
        q <= p,
    ensures
        fixups_grow(a, b, q),
{
    assert forall|i: int| 0 <= i < a.len() implies #[trigger] frame_grows(a[i], b[i], q) by {
        assert(frame_grows(a[i], b[i], p));
    }
}

/// Jumps recorded at or after `p` keep every jump at or after `n <= p`.
pub proof fn lemma_frames_after_grow(a: Seq<ControlFrame>, b: Seq<ControlFrame>, p: int, n: int)
    requires
        frames_after(a, n),
        fixups_grow(a, b, p),
        n <= p,
    ensures
        frames_after(b, n),
{
    assert forall|i: int| 0 <= i < b.len() implies #[trigger] frame_after(b[i], n) by {
        assert(frame_after(a[i], n));
        assert(frame_grows(a[i], b[i], p));
        assert forall|j: int| 0 <= j < b[i].end_fixups@.len() implies n
            <= #[trigger] b[i].end_fixups@[j] by {
            if p > b[i].end_fixups@[j] {
                assert(a[i].end_fixups@[j] == b[i].end_fixups@[j]);
            }
        }
    }
}

/// Recording one more jump, at or after `p`, in frame `t` grows the control stack.
pub proof fn lemma_fixup_pushed(a: Seq<ControlFrame>, b: Seq<ControlFrame>, t: int, p: int)
    requires
        a.len() == b.len(),
        0 <= t < a.len(),
        forall|i: int| 0 <= i < a.len() && i != t ==> #[trigger] b[i] == a[i],
        b[t].if_false_fixup == a[t].if_false_fixup,
        b[t].end_fixups@.len() == a[t].end_fixups@.len() + 1,
        b[t].end_fixups@.drop_last() == a[t].end_fixups@,
        p <= b[t].end_fixups@.last(),
    ensures
        fixups_grow(a, b, p),
{
    assert forall|i: int| 0 <= i < a.len() implies #[trigger] frame_grows(a[i], b[i], p) by {
        if i == t {
            assert forall|k: int| 0 <= k < b[i].end_fixups@.len() implies p
                <= #[trigger] b[i].end_fixups@[k] || (k < a[i].end_fixups@.len()
                && b[i].end_fixups@[k] == a[i].end_fixups@[k]) by {
                if k < a[i].end_fixups@.len() {
                    assert(b[i].end_fixups@.drop_last()[k] == b[i].end_fixups@[k]);
                }
            }
        }
    }
}

/// Cutting the operand stack keeps the constants' positions.
pub proof fn lemma_values_after_truncated(stack: Seq<StackValue>, len: nat, n: int)
    requires
        values_after(stack, n),
    ensures
        values_after(truncated_stack(stack, len), n),
{
    let t = truncated_stack(stack, len);
    assert forall|i: int| 0 <= i < t.len() && (#[trigger] t[i]).bytecode_start is Some implies n
        <= t[i].bytecode_start->0 by {
        assert(t[i] == stack[i]);
    }
}

/// Branching keeps the constants' positions.
pub proof fn lemma_values_after_branch(stack: Seq<StackValue>, base: nat, keep_top: nat, n: int)
    requires
        values_after(stack, n),
    ensures
        values_after(branch_stack(stack, base, keep_top), n),
{
    let needed = base + keep_top;
    let padded = if stack.len() < needed {
        stack + Seq::new((needed - stack.len()) as nat, |i: int| unknown_value())
    } else {
        stack
    };
    assert forall|i: int| 0 <= i < padded.len() && (#[trigger] padded[i]).bytecode_start is Some implies n
        <= padded[i].bytecode_start->0 by {
        if i < stack.len() {
            assert(padded[i] == stack[i]);
        }
    }
    let t = branch_stack(stack, base, keep_top);
    assert forall|i: int| 0 <= i < t.len() && (#[trigger] t[i]).bytecode_start is Some implies n
        <= t[i].bytecode_start->0 by {
        if i < base {
            assert(t[i] == padded[i]);
        } else {
            assert(t[i] == padded[padded.len() - keep_top + (i - base)]);
        }
    }
}

/// Pushes `count` zero placeholders for operands the branch needs.
fn pad_operands(script: &mut Vec<u8>, stack: &mut Vec<StackValue>, count: usize)
    ensures
        final(script)@ == old(script)@ + repeat_bytes(seq![PUSH0], count as nat),
        final(stack)@ == old(stack)@ + Seq::new(count as nat, |i: int| unknown_value()),
{
    let mut i: usize = 0;
    proof {
        assert(script@ =~= old(script)@ + repeat_bytes(seq![PUSH0], 0));
        assert(stack@ =~= old(stack)@ + Seq::new(0, |j: int| unknown_value()));
    }
    while i < count
        invariant
            i <= count,
            script@ == old(script)@ + repeat_bytes(seq![PUSH0], i as nat),
            stack@ == old(stack)@ + Seq::new(i as nat, |j: int| unknown_value()),
        decreases count - i,
    {
        script.push(PUSH0);
        stack.push(StackValue::unknown());
        i = i + 1;
        proof {
            assert(script@ =~= old(script)@ + repeat_bytes(seq![PUSH0], i as nat));
            assert(stack@ =~= old(stack)@ + Seq::new(i as nat, |j: int| unknown_value()));
        }
    }
}

/// Removes the `count` values lying just beneath the top `keep_top` values.
fn discard_buried(script: &mut Vec<u8>, stack: &mut Vec<StackValue>, keep_top: usize, count: usize)
    requires
        keep_top + count <= old(stack)@.len(),
    ensures
        final(script)@ == old(script)@ + discard_bytes(keep_top as nat, count as nat),
        final(stack)@ == old(stack)@.subrange(0, old(stack)@.len() - keep_top - count) + old(stack)@.subrange(old(stack)@.len() - keep_top, old(stack)@.len() as int),
{
    let ghost s0 = stack@;
    let ghost n = s0.len();
    let mut i: usize = 0;
    proof {
        assert(script@ =~= old(script)@ + discard_bytes(keep_top as nat, 0));
        assert(stack@ =~= s0.subrange(0, n - keep_top) + s0.subrange(n - keep_top, n as int));
    }
    while i < count
        invariant
            i <= count,
            keep_top + count <= n,
            n == s0.len(),
            script@ == old(script)@ + discard_bytes(keep_top as nat, i as nat),
            stack@ == s0.subrange(0, n - keep_top - i) + s0.subrange(n - keep_top, n as int),
        decreases count - i,
    {
        let _ = emit_push_int(script, keep_top as i128);
        script.push(XDROP);
        let ghost before = stack@;
        stack.remove(stack.len() - 1 - keep_top);
        i = i + 1;
        proof {
            assert(script@ =~= old(script)@ + discard_bytes(keep_top as nat, i as nat));
            assert(stack@ =~= s0.subrange(0, n - keep_top - i) + s0.subrange(
                n - keep_top,
                n as int,
            ));
        }
    }
}

/// Records a forward jump at `pos` in the frame at `index`.
fn add_fixup(control_stack: &mut Vec<ControlFrame>, index: usize, pos: usize)
    requires
        index < old(control_stack)@.len(),
    ensures
        final(control_stack)@.len() == old(control_stack)@.len(),
        forall|i: int|
            0 <= i < old(control_stack)@.len() && i != index ==> #[trigger] final(control_stack)@[i]
                == old(control_stack)@[i],
        final(control_stack)@[index as int].end_fixups@ == old(control_stack)@[index as int].end_fixups@.push(pos),
        same_but_fixups(final(control_stack)@[index as int], old(control_stack)@[index as int]),
{
    control_stack[index].end_fixups.push(pos);
}


/// Records that a reachable branch targets the end of the frame at `index`.
fn mark_end_reachable(control_stack: &mut Vec<ControlFrame>, index: usize)
    requires
        index < old(control_stack)@.len(),
    ensures
        final(control_stack)@ == old(control_stack)@.update(
            index as int,
            ControlFrame { end_reachable_from_branch: true, ..old(control_stack)@[index as int] },
        ),
{
    control_stack[index].end_reachable_from_branch = true;
}

/// The operand stack after an unconditional branch taken from reachable code: the values the
/// target keeps on top, above the values beneath the target's entry height.
pub open spec fn branch_stack(stack: Seq<StackValue>, base: nat, keep_top: nat) -> Seq<StackValue> {
    let needed = base + keep_top;
    let padded = if stack.len() < needed {
        stack + Seq::new((needed - stack.len()) as nat, |i: int| unknown_value())
    } else {
        stack
    };
    padded.subrange(0, base as int) + padded.subrange(padded.len() - keep_top, padded.len() as int)
}

/// `stack` cut to at most `len` values, as `Vec::truncate` does.
pub open spec fn truncated_stack(stack: Seq<StackValue>, len: nat) -> Seq<StackValue> {
    if len <= stack.len() {
        stack.subrange(0, len as int)
    } else {
        stack
    }
}

/// Whether the conditional forward branch of [`branch_forward_if`] from `script` succeeds: its
/// skip over the operand adjustment reaches.
pub open spec fn forward_if_ok(script: Seq<u8>, n: nat, base: nat, keep_top: nat, unreachable: bool) -> bool {
    let needed = base + keep_top;
    let discard = if n > needed {
        (n - needed) as nat
    } else {
        0nat
    };
    let pad = if n < needed {
        (needed - n) as nat
    } else {
        0nat
    };
    let full = script + placeholder_bytes(JMPIFNOT_L) + repeat_bytes(seq![PUSH0], pad)
        + discard_bytes(keep_top, discard) + placeholder_bytes(JMP_L);
    unreachable || (discard == 0 && pad == 0) || displacement_fits(
        script.len() as int,
        full.len() as int,
    )
}

/// Whether a branch `relative_depth` levels out, from `script` with `n` operands on the stack,
/// succeeds: the target exists; a branch to a loop finds the loop's entry height (in reachable
/// code) and reaches its start; a branch out of the function from reachable code finds its
/// results; a conditional forward branch can skip its operand adjustment.
pub open spec fn branch_ok(
    script: Seq<u8>,
    n: nat,
    frames: Seq<ControlFrame>,
    relative_depth: int,
    conditional: bool,
    unreachable: bool,
) -> bool {
    &&& 0 <= relative_depth < frames.len()
    &&& ({
        let f = frames[frames.len() - 1 - relative_depth];
        if f.kind == ControlKind::Loop {
            (unreachable || n == f.stack_height) && displacement_fits(
                script.len() as int,
                f.start_offset as int,
            )
        } else {
            let base = base_of(f);
            let needed = base + keep_top_of(f);
            &&& needed <= usize::MAX
            &&& !(f.kind == ControlKind::Function && !unreachable && n < needed)
            &&& (conditional ==> forward_if_ok(script, n, base, keep_top_of(f), unreachable))
        }
    })
}

/// What a successful branch to the construct `depth` levels out does to the script, the
/// operands, the frames and reachability: a branch to a loop jumps back to its start; one to
/// another construct removes the values beneath those the target keeps (padding missing ones
/// with zeros from reachable code) and jumps to its end, recorded as a fixup of the frame; a
/// conditional branch does this work only on the taken path.
pub open spec fn branch_outcome(
    script0: Seq<u8>,
    script1: Seq<u8>,
    stack0: Seq<StackValue>,
    stack1: Seq<StackValue>,
    frames0: Seq<ControlFrame>,
    frames1: Seq<ControlFrame>,
    depth: int,
    conditional: bool,
    u0: bool,
    u1: bool,
) -> bool {
    let t = frames0.len() - 1 - depth;
    let f = frames0[t];
    let u = u0;
    let n = stack0.len();
    let keep = keep_top_of(f);
    let base = base_of(f);
    let needed = base + keep;
    &&& forall|i: int|
        0 <= i < frames0.len() && i != t ==> #[trigger] frames1[i]
            == frames0[i]
    &&& if f.kind == ControlKind::Loop {
        &&& frames1[t] == f
        &&& (!u ==> n == f.stack_height)
        &&& script1 == script0 + seq![if conditional { JMPIF_L } else { JMP_L }]
            + le_encode_signed(f.start_offset - script0.len(), 4)
        &&& stack1 == stack0
        &&& u1 == (u || !conditional)
    } else {
        let g = frames1[t];
        &&& g.kind == f.kind && g.stack_height == f.stack_height
        &&& g.result_count == f.result_count && g.start_offset == f.start_offset
        &&& g.if_false_fixup == f.if_false_fixup && g.has_else == f.has_else
        &&& g.entry_reachable == f.entry_reachable
        &&& g.if_then_end_reachable == f.if_then_end_reachable
        &&& g.end_reachable_from_branch == (f.end_reachable_from_branch || !u)
        &&& (f.kind == ControlKind::Function && !u ==> n >= needed)
        &&& if !conditional {
            let pad = if !u && n < needed {
                (needed - n) as nat
            } else {
                0nat
            };
            let discard = if !u && n > needed {
                (n - needed) as nat
            } else {
                0nat
            };
            let prefix = script0 + repeat_bytes(seq![PUSH0], pad) + discard_bytes(
                keep,
                discard,
            );
            &&& script1 == prefix + placeholder_bytes(JMP_L)
            &&& g.end_fixups@ == f.end_fixups@.push(prefix.len() as usize)
            &&& stack1 == if u {
                truncated_stack(stack0, needed)
            } else {
                branch_stack(stack0, base, keep)
            }
            &&& u1
        } else {
            let discard = if n > needed {
                (n - needed) as nat
            } else {
                0nat
            };
            let pad = if n < needed {
                (needed - n) as nat
            } else {
                0nat
            };
            &&& stack1 == stack0
            &&& u1 == u
            &&& if u || (discard == 0 && pad == 0) {
                &&& script1 == script0 + placeholder_bytes(JMPIF_L)
                &&& g.end_fixups@ == f.end_fixups@.push(script0.len() as usize)
            } else {
                let body = script0 + placeholder_bytes(JMPIFNOT_L) + repeat_bytes(
                    seq![PUSH0],
                    pad,
                ) + discard_bytes(keep, discard);
                let full = body + placeholder_bytes(JMP_L);
                &&& script1 == patched(
                    full,
                    script0.len() as int,
                    full.len() as int,
                )
                &&& g.end_fixups@ == f.end_fixups@.push(body.len() as usize)
            }
        }
    }
}

/// Emits a branch to the construct `relative_depth` levels out (`br` or, when `conditional`,
/// `br_if` whose condition is on the NeoVM stack).
///
/// A branch to a loop jumps back to its start. A branch to any other construct jumps to its end
/// (recorded as a fixup of the frame), after the values beneath the ones the target keeps are
/// removed; from reachable code, missing operands of a block are padded with zeros. A
/// conditional branch does this work only on the taken path.
#[verifier::spinoff_prover]
#[verifier::rlimit(60)]
pub fn handle_branch(
    script: &mut Vec<u8>,
    value_stack: &mut Vec<StackValue>,
    control_stack: &mut Vec<ControlFrame>,
    relative_depth: usize,
    conditional: bool,
    is_unreachable: &mut bool,
) -> (r: Result<(), TranslateError>)
    ensures
        relative_depth >= old(control_stack)@.len() ==> r == Err::<(), TranslateError>(
            TranslateError::BranchTooDeep {
                depth: relative_depth,
                frames: old(control_stack)@.len() as usize,
            },
        ),
        r is Ok <==> branch_ok(
            old(script)@,
            old(value_stack)@.len(),
            old(control_stack)@,
            relative_depth as int,
            conditional,
            *old(is_unreachable),
        ),
        r is Ok ==> relative_depth < old(control_stack)@.len() && final(control_stack)@.len()
            == old(control_stack)@.len(),
        r is Ok ==> keeps_prefix(old(script)@, final(script)@, old(script)@.len() as int),
        r is Ok ==> fixups_grow(
            old(control_stack)@,
            final(control_stack)@,
            old(script)@.len() as int,
        ),
        r is Ok ==> forall|m: int|
            values_after(old(value_stack)@, m) ==> #[trigger] values_after(final(value_stack)@, m),
        r is Ok ==> branch_outcome(
            old(script)@,
            final(script)@,
            old(value_stack)@,
            final(value_stack)@,
            old(control_stack)@,
            final(control_stack)@,
            relative_depth as int,
            conditional,
            *old(is_unreachable),
            *final(is_unreachable),
        ),
{
    let frames = control_stack.len();
    if relative_depth >= frames {
        return Err(TranslateError::BranchTooDeep { depth: relative_depth, frames });
    }
    let t = frames - 1 - relative_depth;
    let kind = control_stack[t].kind;
    let stack_height = control_stack[t].stack_height;
    let result_count = control_stack[t].result_count;
    let start_offset = control_stack[t].start_offset;
    if kind == ControlKind::Loop {
        if !*is_unreachable && value_stack.len() != stack_height {
            return Err(
                TranslateError::BranchStackMismatch {
                    expected: stack_height,
                    found: value_stack.len(),
                },
            );
        }
        let opcode = if conditional { JMPIF_L } else { JMP_L };
        emit_jump_to(script, opcode, start_offset)?;
        if !conditional {
            *is_unreachable = true;
        }
        proof {
            assert(script@.subrange(0, old(script)@.len() as int) =~= old(script)@);
            assert(old(script)@.subrange(0, old(script)@.len() as int) =~= old(script)@);
            lemma_fixups_grow_refl(control_stack@, old(script)@.len() as int);
        }
        return Ok(());
    }
    if !*is_unreachable {
        mark_end_reachable(control_stack, t);
    }
    let keep_top = result_count;
    let base = if kind == ControlKind::Function { 0 } else { stack_height };
    let needed = match base.checked_add(keep_top) {
        Some(n) => n,
        None => {
            return Err(TranslateError::StackHeightOverflow);
        },
    };
    if kind == ControlKind::Function && !*is_unreachable && value_stack.len() < needed {
        return Err(
            TranslateError::BranchStackMismatch { expected: keep_top, found: value_stack.len() },
        );
    }
    let ghost marked = control_stack@;
    let ghost stack0 = value_stack@;
    if !conditional {
        branch_forward(script, value_stack, control_stack, t, base, keep_top, is_unreachable);
        proof {
            assert(script@.subrange(0, old(script)@.len() as int) =~= old(script)@);
            assert(old(script)@.subrange(0, old(script)@.len() as int) =~= old(script)@);
            assert(control_stack@[t as int].end_fixups@.drop_last() =~= old(
                control_stack,
            )@[t as int].end_fixups@);
            lemma_fixup_pushed(old(control_stack)@, control_stack@, t as int, old(script)@.len() as int);
            assert forall|m: int| values_after(stack0, m) implies #[trigger] values_after(
                value_stack@,
                m,
            ) by {
                if *old(is_unreachable) {
                    lemma_values_after_truncated(stack0, (base + keep_top) as nat, m);
                } else {
                    lemma_values_after_branch(stack0, base as nat, keep_top as nat, m);
                }
            }
        }
        Ok(())
    } else {
        let r = branch_forward_if(
            script,
            value_stack,
            control_stack,
            t,
            base,
            keep_top,
            *is_unreachable,
        );
        proof {
            assert(old(script)@.subrange(0, old(script)@.len() as int) =~= old(script)@);
            if r is Ok {
                let n = value_stack@.len();
                let needed = base + keep_top;
                let discard = if n > needed { (n - needed) as nat } else { 0nat };
                let pad = if n < needed { (needed - n) as nat } else { 0nat };
                if !(*is_unreachable || (discard == 0 && pad == 0)) {
                    let body = old(script)@ + placeholder_bytes(JMPIFNOT_L) + repeat_bytes(
                        seq![PUSH0],
                        pad,
                    ) + discard_bytes(keep_top as nat, discard);
                    let full = body + placeholder_bytes(JMP_L);
                    assert(full.subrange(0, old(script)@.len() as int) =~= old(script)@);
                    lemma_keeps_prefix_patch(
                        full,
                        old(script)@.len() as int,
                        full.len() as int,
                        old(script)@.len() as int,
                    );
                } else {
                    assert(script@.subrange(0, old(script)@.len() as int) =~= old(script)@);
                }
                assert(control_stack@[t as int].end_fixups@.drop_last() =~= old(
                    control_stack,
                )@[t as int].end_fixups@);
                lemma_fixup_pushed(
                    old(control_stack)@,
                    control_stack@,
                    t as int,
                    old(script)@.len() as int,
                );
            }
        }
        r
    }
}

/// The unconditional part of [`handle_branch`] for a construct that is not a loop.
fn branch_forward(
    script: &mut Vec<u8>,
    value_stack: &mut Vec<StackValue>,
    control_stack: &mut Vec<ControlFrame>,
    t: usize,
    base: usize,
    keep_top: usize,
    is_unreachable: &mut bool,
)
    requires
        t < old(control_stack)@.len(),
        base + keep_top <= usize::MAX,
        old(control_stack)@[t as int].kind == ControlKind::Function && !*old(is_unreachable)
            ==> old(value_stack)@.len() >= base + keep_top,
    ensures
        final(control_stack)@.len() == old(control_stack)@.len(),
        forall|i: int|
            0 <= i < old(control_stack)@.len() && i != t ==> #[trigger] final(control_stack)@[i]
                == old(control_stack)@[i],
        same_but_fixups(final(control_stack)@[t as int], old(control_stack)@[t as int]),
        final(control_stack)@[t as int].end_fixups@.last() >= old(script)@.len(),
        ({
            let u = *old(is_unreachable);
            let n = old(value_stack)@.len();
            let needed = base + keep_top;
            let pad = if !u && n < needed {
                (needed - n) as nat
            } else {
                0nat
            };
            let discard = if !u && n > needed {
                (n - needed) as nat
            } else {
                0nat
            };
            let prefix = old(script)@ + repeat_bytes(seq![PUSH0], pad) + discard_bytes(
                keep_top as nat,
                discard,
            );
            &&& final(script)@ == prefix + placeholder_bytes(JMP_L)
            &&& final(control_stack)@[t as int].end_fixups@ == old(control_stack)@[t as int].end_fixups@.push(prefix.len() as usize)
            &&& final(value_stack)@ == if u {
                truncated_stack(old(value_stack)@, needed as nat)
            } else {
                branch_stack(old(value_stack)@, base as nat, keep_top as nat)
            }
            &&& *final(is_unreachable)
        }),
{
    let needed = base + keep_top;
    if !*is_unreachable {
        if value_stack.len() < needed {
            let pad = needed - value_stack.len();
            pad_operands(script, value_stack, pad);
        } else {
            proof {
                assert(script@ =~= old(script)@ + repeat_bytes(seq![PUSH0], 0));
                assert(value_stack@ =~= old(value_stack)@ + Seq::new(0, |i: int| unknown_value()));
            }
        }
        let discard = value_stack.len() - needed;
        discard_buried(script, value_stack, keep_top, discard);
    } else {
        proof {
            assert(script@ =~= old(script)@ + repeat_bytes(seq![PUSH0], 0) + discard_bytes(
                keep_top as nat,
                0,
            ));
        }
    }
    let pos = emit_jump_placeholder(script, JMP_L);
    add_fixup(control_stack, t, pos);
    value_stack.truncate(needed);
    *is_unreachable = true;
    proof {
        if !*old(is_unreachable) {
            assert(value_stack@ =~= branch_stack(old(value_stack)@, base as nat, keep_top as nat));
        }
    }
}

/// The conditional part of [`handle_branch`] for a construct that is not a loop.
fn branch_forward_if(
    script: &mut Vec<u8>,
    value_stack: &Vec<StackValue>,
    control_stack: &mut Vec<ControlFrame>,
    t: usize,
    base: usize,
    keep_top: usize,
    unreachable: bool,
) -> (r: Result<(), TranslateError>)
    requires
        t < old(control_stack)@.len(),
        base + keep_top <= usize::MAX,
    ensures
        final(control_stack)@.len() == old(control_stack)@.len(),
        forall|i: int|
            0 <= i < old(control_stack)@.len() && i != t ==> #[trigger] final(control_stack)@[i]
                == old(control_stack)@[i],
        same_but_fixups(final(control_stack)@[t as int], old(control_stack)@[t as int]),
        r is Ok ==> final(control_stack)@[t as int].end_fixups@.last() >= old(script)@.len(),
        r is Ok <==> ({
            let n = value_stack@.len();
            let needed = base + keep_top;
            let discard = if n > needed {
                (n - needed) as nat
            } else {
                0nat
            };
            let pad = if n < needed {
                (needed - n) as nat
            } else {
                0nat
            };
            let full = old(script)@ + placeholder_bytes(JMPIFNOT_L) + repeat_bytes(seq![PUSH0], pad)
                + discard_bytes(keep_top as nat, discard) + placeholder_bytes(JMP_L);
            unreachable || (discard == 0 && pad == 0) || displacement_fits(
                old(script)@.len() as int,
                full.len() as int,
            )
        }),
        r is Ok ==> ({
            let n = value_stack@.len();
            let needed = base + keep_top;
            let discard = if n > needed {
                (n - needed) as nat
            } else {
                0nat
            };
            let pad = if n < needed {
                (needed - n) as nat
            } else {
                0nat
            };
            let g = final(control_stack)@[t as int];
            let f = old(control_stack)@[t as int];
            if unreachable || (discard == 0 && pad == 0) {
                &&& final(script)@ == old(script)@ + placeholder_bytes(JMPIF_L)
                &&& g.end_fixups@ == f.end_fixups@.push(old(script)@.len() as usize)
            } else {
                let body = old(script)@ + placeholder_bytes(JMPIFNOT_L) + repeat_bytes(
                    seq![PUSH0],
                    pad,
                ) + discard_bytes(keep_top as nat, discard);
                let full = body + placeholder_bytes(JMP_L);
                &&& final(script)@ == patched(full, old(script)@.len() as int, full.len() as int)
                &&& g.end_fixups@ == f.end_fixups@.push(body.len() as usize)
            }
        }),
{
    let needed = base + keep_top;
    if unreachable {
        let pos = emit_jump_placeholder(script, JMPIF_L);
        add_fixup(control_stack, t, pos);
        return Ok(());
    }
    let discard = value_stack.len().saturating_sub(needed);
    let pad = needed.saturating_sub(value_stack.len());
    if discard == 0 && pad == 0 {
        let pos = emit_jump_placeholder(script, JMPIF_L);
        add_fixup(control_stack, t, pos);
        return Ok(());
    }
    let skip_fixup = emit_jump_placeholder(script, JMPIFNOT_L);
    let ghost s1 = script@;
    let mut i: usize = 0;
    proof {
        assert(script@ =~= s1 + repeat_bytes(seq![PUSH0], 0));
    }
    while i < pad
        invariant
            i <= pad,
            script@ == s1 + repeat_bytes(seq![PUSH0], i as nat),
        decreases pad - i,
    {
        script.push(PUSH0);
        i = i + 1;
        proof {
            assert(script@ =~= s1 + repeat_bytes(seq![PUSH0], i as nat));
        }
    }
    let ghost s2 = script@;
    let mut j: usize = 0;
    proof {
        assert(script@ =~= s2 + discard_bytes(keep_top as nat, 0));
    }
    while j < discard
        invariant
            j <= discard,
            script@ == s2 + discard_bytes(keep_top as nat, j as nat),
        decreases discard - j,
    {
        let _ = emit_push_int(script, keep_top as i128);
        script.push(XDROP);
        j = j + 1;
        proof {
            assert(script@ =~= s2 + discard_bytes(keep_top as nat, j as nat));
        }
    }
    let target_fixup = emit_jump_placeholder(script, JMP_L);
    add_fixup(control_stack, t, target_fixup);
    let skip_label = script.len();
    patch_jump(script, skip_fixup, skip_label)
}


/// Whether a value of this type can be translated.
pub open spec fn is_integer(kind: ValKind) -> bool {
    kind == ValKind::I32 || kind == ValKind::I64
}

/// The number of values a block of type `ty` yields, or why it cannot be translated.
pub open spec fn block_arity(ty: BlockKind, types: Seq<FuncSig>) -> Result<nat, TranslateError> {
    match ty {
        BlockKind::Empty => Ok(0),
        BlockKind::Value(kind) => if is_integer(kind) {
            Ok(1)
        } else {
            Err(TranslateError::UnsupportedType { kind })
        },
        BlockKind::FuncType(index) => {
            if index >= types.len() {
                Err(TranslateError::BlockTypeOutOfBounds { index })
            } else if types[index as int].params@.len() > 0 {
                Err(TranslateError::BlockParameters { index })
            } else if types[index as int].results@.len() > 1 {
                Err(TranslateError::MultiValueBlock)
            } else if types[index as int].results@.len() == 1 && !is_integer(
                types[index as int].results@[0],
            ) {
                Err(TranslateError::UnsupportedType { kind: types[index as int].results@[0] })
            } else {
                Ok(types[index as int].results@.len())
            }
        },
    }
}

/// Whether a value of this type can be translated.
pub fn is_integer_kind(kind: ValKind) -> (r: bool)
    ensures
        r == is_integer(kind),
{
    match kind {
        ValKind::I32 | ValKind::I64 => true,
        _ => false,
    }
}

/// The number of values a block of type `ty` yields.
pub fn block_result_count(ty: BlockKind, types: &Vec<FuncSig>) -> (r: Result<usize, TranslateError>)
    ensures
        match block_arity(ty, types@) {
            Ok(n) => r == Ok::<usize, TranslateError>(n as usize),
            Err(e) => r == Err::<usize, TranslateError>(e),
        },
{
    match ty {
        BlockKind::Empty => Ok(0),
        BlockKind::Value(kind) => {
            if is_integer_kind(kind) {
                Ok(1)
            } else {
                Err(TranslateError::UnsupportedType { kind })
            }
        },
        BlockKind::FuncType(index) => {
            if index as usize >= types.len() {
                return Err(TranslateError::BlockTypeOutOfBounds { index });
            }
            let sig = &types[index as usize];
            if sig.params.len() > 0 {
                return Err(TranslateError::BlockParameters { index });
            }
            if sig.results.len() > 1 {
                return Err(TranslateError::MultiValueBlock);
            }
            if sig.results.len() == 1 && !is_integer_kind(sig.results[0]) {
                return Err(TranslateError::UnsupportedType { kind: sig.results[0] });
            }
            Ok(sig.results.len())
        },
    }
}

/// What a `br_table` with an index known only at run time yields: with no cases, exactly the
/// outcome of the branch to the default after the index is dropped; in any case, success only
/// when the default and every case name an open construct.
pub open spec fn dynamic_table_outcome(
    script: Seq<u8>,
    n: nat,
    frames: Seq<ControlFrame>,
    targets: Seq<usize>,
    default_depth: usize,
    unreachable: bool,
    ok: bool,
) -> bool {
    &&& targets.len() == 0 ==> (ok <==> branch_ok(
        script.push(DROP),
        n,
        frames,
        default_depth as int,
        false,
        unreachable,
    ))
    &&& ok ==> default_depth < frames.len() && forall|i: int|
        0 <= i < targets.len() ==> #[trigger] targets[i] < frames.len()
}

/// Whether frame `g` is frame `f` with, at most, more end fixups recorded after its own.
pub open spec fn frame_extends(f: ControlFrame, g: ControlFrame) -> bool {
    &&& g.kind == f.kind
    &&& g.start_offset == f.start_offset
    &&& f.end_fixups@.len() <= g.end_fixups@.len()
    &&& g.end_fixups@.subrange(0, f.end_fixups@.len() as int) == f.end_fixups@
}

/// Whether each frame of `b` extends the frame of `a` at its place.
#[verifier::opaque]
pub open spec fn frames_extend(a: Seq<ControlFrame>, b: Seq<ControlFrame>) -> bool {
    &&& a.len() == b.len()
    &&& forall|i: int| 0 <= i < a.len() ==> #[trigger] frame_extends(a[i], b[i])
}

/// Whether the instruction at `q` of `script` is an unconditional branch to frame `t` of
/// `frames0`: a jump back to the start of a loop, or a jump that `frames1` records among the
/// frame's end fixups.
pub open spec fn branch_at(
    script: Seq<u8>,
    frames0: Seq<ControlFrame>,
    frames1: Seq<ControlFrame>,
    t: int,
    q: int,
) -> bool {
    if frames0[t].kind == ControlKind::Loop {
        &&& 0 <= q
        &&& q + 5 <= script.len()
        &&& script.subrange(q, q + 5) == seq![JMP_L] + le_encode_signed(
            frames0[t].start_offset - q,
            4,
        )
    } else {
        frames1[t].end_fixups@.contains(q as usize) && 0 <= q
    }
}

/// Whether `script` branches, somewhere in `lo..hi`, to the construct `depth` levels out in
/// `frames0`.
#[verifier::opaque]
pub open spec fn branches_within(
    script: Seq<u8>,
    frames0: Seq<ControlFrame>,
    frames1: Seq<ControlFrame>,
    depth: int,
    lo: int,
    hi: int,
) -> bool {
    exists|q: int| lo <= q < hi && #[trigger] branch_at(script, frames0, frames1, frames0.len() - 1 - depth, q)
}

/// Where the code of case `i` of the first `k` dispatched cases ends: where the next case's
/// code starts, or at the end of the script.
pub open spec fn case_end(script: Seq<u8>, l: int, k: int, i: int) -> int {
    if i + 1 < k {
        jump_target(script, case_jump(l, i + 1))
    } else {
        script.len() as int
    }
}

/// Whether the code of each of the first `k` cases, from where its test jumps to until the next
/// case's code, branches to the depth its case names.
#[verifier::opaque]
pub open spec fn cases_branch(
    script: Seq<u8>,
    frames0: Seq<ControlFrame>,
    frames1: Seq<ControlFrame>,
    l: int,
    k: int,
    depths: Seq<usize>,
) -> bool {
    forall|i: int|
        0 <= i < k ==> #[trigger] branches_within(
            script,
            frames0,
            frames1,
            depths[i] as int,
            jump_target(script, case_jump(l, i)),
            case_end(script, l, k, i),
        )
}

/// No case dispatched yet: nothing to branch.
proof fn lemma_no_cases_branch(
    script: Seq<u8>,
    frames0: Seq<ControlFrame>,
    frames1: Seq<ControlFrame>,
    l: int,
    depths: Seq<usize>,
)
    ensures
        cases_branch(script, frames0, frames1, l, 0, depths),
{
    reveal(cases_branch);
}

/// Frames extend themselves.
proof fn lemma_frames_extend_refl(a: Seq<ControlFrame>)
    ensures
        frames_extend(a, a),
{
    reveal(frames_extend);
    assert forall|i: int| 0 <= i < a.len() implies #[trigger] frame_extends(a[i], a[i]) by {
        assert(a[i].end_fixups@.subrange(0, a[i].end_fixups@.len() as int) =~= a[i].end_fixups@);
    }
}

/// Extension of frames composes.
proof fn lemma_frames_extend_trans(a: Seq<ControlFrame>, b: Seq<ControlFrame>, c: Seq<ControlFrame>)
    requires
        frames_extend(a, b),
        frames_extend(b, c),
    ensures
        frames_extend(a, c),
{
    reveal(frames_extend);
    assert forall|i: int| 0 <= i < a.len() implies #[trigger] frame_extends(a[i], c[i]) by {
        assert(frame_extends(a[i], b[i]));
        assert(frame_extends(b[i], c[i]));
        let la = a[i].end_fixups@.len() as int;
        let lb = b[i].end_fixups@.len() as int;
        assert(c[i].end_fixups@.subrange(0, la) =~= c[i].end_fixups@.subrange(0, lb).subrange(0, la));
    }
}

/// An unconditional branch extends the frames, and branches, from the code it appends, to the
/// construct it names.
proof fn lemma_branch_extends(
    s0: Seq<u8>,
    s1: Seq<u8>,
    v0: Seq<StackValue>,
    v1: Seq<StackValue>,
    f0: Seq<ControlFrame>,
    f1: Seq<ControlFrame>,
    depth: int,
    u0: bool,
    u1: bool,
)
    requires
        branch_outcome(s0, s1, v0, v1, f0, f1, depth, false, u0, u1),
        0 <= depth < f0.len(),
        f1.len() == f0.len(),
    ensures
        frames_extend(f0, f1),
        branches_within(s1, f0, f1, depth, s0.len() as int, s1.len() as int),
        s1.len() > s0.len(),
        s1.subrange(0, s0.len() as int) == s0,
{
    reveal(frames_extend);
    reveal(branches_within);
    let t = f0.len() - 1 - depth;
    let f = f0[t];
    assert forall|i: int| 0 <= i < f0.len() implies #[trigger] frame_extends(f0[i], f1[i]) by {
        if i != t {
            assert(f1[i] == f0[i]);
            assert(f0[i].end_fixups@.subrange(0, f0[i].end_fixups@.len() as int) =~= f0[i].end_fixups@);
        } else if f.kind == ControlKind::Loop {
            assert(f1[t] == f);
            assert(f.end_fixups@.subrange(0, f.end_fixups@.len() as int) =~= f.end_fixups@);
        } else {
            assert(f1[t].end_fixups@.subrange(0, f.end_fixups@.len() as int) =~= f.end_fixups@);
        }
    }
    let q = s0.len() as int;
    if f.kind == ControlKind::Loop {
        let enc = le_encode_signed(f.start_offset - s0.len(), 4);
        crate::le::lemma_le_encode_len(crate::le::twos(f.start_offset - s0.len(), 4), 4);
        assert(s1 == s0 + seq![JMP_L] + enc);
        assert(s1.subrange(q, q + 5) =~= seq![JMP_L] + enc);
        assert(s1.subrange(0, q) =~= s0);
        assert(branch_at(s1, f0, f1, t, q));
    } else {
        let keep = keep_top_of(f);
        let base = base_of(f);
        let needed = base + keep;
        let n = v0.len();
        let pad = if !u0 && n < needed {
            (needed - n) as nat
        } else {
            0nat
        };
        let discard = if !u0 && n > needed {
            (n - needed) as nat
        } else {
            0nat
        };
        let prefix = s0 + repeat_bytes(seq![PUSH0], pad) + discard_bytes(keep, discard);
        assert(s1 == prefix + placeholder_bytes(JMP_L));
        assert(f1[t].end_fixups@ == f.end_fixups@.push(prefix.len() as usize));
        assert(f1[t].end_fixups@.last() == prefix.len() as usize);
        assert(f1[t].end_fixups@.contains(prefix.len() as usize));
        assert(s1.subrange(0, q) =~= s0);
        assert(branch_at(s1, f0, f1, t, prefix.len() as int));
    }
}

/// A branch of an earlier case is kept when a later case is dispatched: its bytes after the
/// tests are unchanged and the frames only grow.
#[verifier::rlimit(40)]
proof fn lemma_case_branch_kept(
    s_a: Seq<u8>,
    s_d: Seq<u8>,
    c0: Seq<ControlFrame>,
    c_a: Seq<ControlFrame>,
    c_d: Seq<ControlFrame>,
    l: int,
    n: nat,
    k: nat,
    i: int,
    depth: int,
)
    requires
        0 <= l,
        k < n,
        0 <= i < k,
        frames_extend(c0, c_a),
        frames_extend(c_a, c_d),
        branches_within(
            s_a,
            c0,
            c_a,
            depth,
            jump_target(s_a, case_jump(l, i)),
            case_end(s_a, l, k as int, i),
        ),
        0 <= depth < c0.len(),
        l + case_tests(n).len() <= s_a.len(),
        s_d.len() > s_a.len(),
        jumps_in_place(s_a, l, n, k as int),
        same_outside_jump(s_a, s_d, l, k),
        jump_target(s_d, case_jump(l, k as int)) == s_a.len(),
    ensures
        branches_within(
            s_d,
            c0,
            c_d,
            depth,
            jump_target(s_d, case_jump(l, i)),
            case_end(s_d, l, (k + 1) as int, i),
        ),
{
    reveal(same_outside_jump);
    reveal(frames_extend);
    reveal(branches_within);
    reveal(jumps_in_place);
    let t = c0.len() - 1 - depth;
    lemma_case_tests_prefix((k + 1) as nat, n);
    lemma_case_jump_kept(s_a, s_d, l, n, k, i);
    if i + 1 < k {
        lemma_case_jump_kept(s_a, s_d, l, n, k, i + 1);
    }
    let q = choose|q: int|
        jump_target(s_a, case_jump(l, i)) <= q < case_end(s_a, l, k as int, i)
            && #[trigger] branch_at(s_a, c0, c_a, t, q);
    assert(case_end(s_d, l, (k + 1) as int, i) == case_end(s_a, l, k as int, i));
    if c0[t].kind == ControlKind::Loop {
        assert(s_d.subrange(q, q + 5) =~= s_a.subrange(q, q + 5)) by {
            assert forall|x: int| q <= x < q + 5 implies s_d[x] == s_a[x] by {
                assert(x >= case_jump(l, k as int) + 5);
            }
        }
    } else {
        assert(frame_extends(c_a[t], c_d[t]));
        let p = c_a[t].end_fixups@.index_of(q as usize);
        assert(c_d[t].end_fixups@[p] == c_d[t].end_fixups@.subrange(
            0,
            c_a[t].end_fixups@.len() as int,
        )[p]);
    }
    assert(branch_at(s_d, c0, c_d, t, q));
}

/// One more dispatched case of a `br_table`: its code branches to its own depth, and the cases
/// before keep their branches.
#[verifier::spinoff_prover]
#[verifier::rlimit(40)]
proof fn lemma_case_branch_step(
    s_a: Seq<u8>,
    s_c: Seq<u8>,
    s_d: Seq<u8>,
    c0: Seq<ControlFrame>,
    c_a: Seq<ControlFrame>,
    c_d: Seq<ControlFrame>,
    l: int,
    n: nat,
    k: nat,
    depths: Seq<usize>,
)
    requires
        0 <= l,
        k < n,
        n == depths.len(),
        frames_extend(c0, c_a),
        frames_extend(c_a, c_d),
        cases_branch(s_a, c0, c_a, l, k as int, depths),
        forall|i: int| 0 <= i <= k ==> #[trigger] depths[i] < c0.len(),
        dispatched(s_a, l, n, k as int),
        same_outside_jump(s_a, s_d, l, k),
        s_c.len() == s_a.len() + 1,
        s_d.len() > s_c.len(),
        jump_target(s_d, case_jump(l, k as int)) == s_a.len(),
        branches_within(s_d, c_a, c_d, depths[k as int] as int, s_c.len() as int, s_d.len() as int),
    ensures
        frames_extend(c0, c_d),
        cases_branch(s_d, c0, c_d, l, (k + 1) as int, depths),
{
    reveal(cases_branch);
    lemma_frames_extend_trans(c0, c_a, c_d);
    assert forall|i: int| 0 <= i < k + 1 implies #[trigger] branches_within(
        s_d,
        c0,
        c_d,
        depths[i] as int,
        jump_target(s_d, case_jump(l, i)),
        case_end(s_d, l, (k + 1) as int, i),
    ) by {
        if i < k {
            assert(branches_within(
                s_a,
                c0,
                c_a,
                depths[i] as int,
                jump_target(s_a, case_jump(l, i)),
                case_end(s_a, l, k as int, i),
            ));
            lemma_case_branch_kept(s_a, s_d, c0, c_a, c_d, l, n, k, i, depths[i] as int);
        } else {
            lemma_branch_rebased(
                s_d,
                c0,
                c_a,
                c_d,
                depths[i] as int,
                s_c.len() as int,
                s_d.len() as int,
                jump_target(s_d, case_jump(l, i)),
                case_end(s_d, l, (k + 1) as int, i),
            );
        }
    }
}

/// A branch to a construct, stated against frames that extend the first ones, holds against the
/// first ones too, and within any wider range.
proof fn lemma_branch_rebased(
    script: Seq<u8>,
    c0: Seq<ControlFrame>,
    c_a: Seq<ControlFrame>,
    c_d: Seq<ControlFrame>,
    depth: int,
    lo: int,
    hi: int,
    lo2: int,
    hi2: int,
)
    requires
        frames_extend(c0, c_a),
        branches_within(script, c_a, c_d, depth, lo, hi),
        0 <= depth < c0.len(),
        lo2 <= lo,
        hi <= hi2,
    ensures
        branches_within(script, c0, c_d, depth, lo2, hi2),
{
    reveal(frames_extend);
    reveal(branches_within);
    let t = c0.len() - 1 - depth;
    assert(frame_extends(c0[t], c_a[t]));
    let q = choose|q: int| lo <= q < hi && #[trigger] branch_at(script, c_a, c_d, t, q);
    assert(branch_at(script, c0, c_d, t, q));
}

/// The depths a `br_table`'s cases name, in the order of the cases.
pub open spec fn table_depths(targets: Seq<u32>) -> Seq<usize> {
    Seq::new(targets.len(), |i: int| targets[i] as usize)
}

/// The depth a `br_table` branches to for the index `c`: that case's depth, or the default when
/// `c` names no case.
pub open spec fn selected_depth(targets: Seq<usize>, default_depth: usize, c: i128) -> int {
    if 0 <= c < targets.len() {
        targets[c as int] as int
    } else {
        default_depth as int
    }
}

/// `br_table`: branches to `targets[index]`, or to `default_depth` when the index is out of range.
///
/// A constant index selects the branch at translation time; otherwise the index is compared
/// with each case at run time.
#[verifier::spinoff_prover]
#[verifier::rlimit(30)]
pub fn handle_br_table(
    script: &mut Vec<u8>,
    value_stack: &mut Vec<StackValue>,
    control_stack: &mut Vec<ControlFrame>,
    index: StackValue,
    targets: &Vec<usize>,
    default_depth: usize,
    is_unreachable: &mut bool,
) -> (r: Result<(), TranslateError>)
    ensures
        r is Ok ==> final(control_stack)@.len() == old(control_stack)@.len() && *final(is_unreachable),
        r is Ok ==> keeps_prefix(old(script)@, final(script)@, old(script)@.len() as int),
        r is Ok ==> fixups_grow(
            old(control_stack)@,
            final(control_stack)@,
            old(script)@.len() as int,
        ),
        r is Ok ==> forall|m: int|
            values_after(old(value_stack)@, m) ==> #[trigger] values_after(final(value_stack)@, m),
        index.const_value matches Some(c) ==> (r is Ok <==> branch_ok(
            old(script)@.push(DROP),
            old(value_stack)@.len(),
            old(control_stack)@,
            (if 0 <= c < targets@.len() {
                targets@[c as int]
            } else {
                default_depth
            }) as int,
            false,
            *old(is_unreachable),
        )),
        index.const_value matches Some(c) ==> (r is Ok ==> branch_outcome(
            old(script)@.push(DROP),
            final(script)@,
            old(value_stack)@,
            final(value_stack)@,
            old(control_stack)@,
            final(control_stack)@,
            (if 0 <= c < targets@.len() {
                targets@[c as int]
            } else {
                default_depth
            }) as int,
            false,
            *old(is_unreachable),
            *final(is_unreachable),
        )),
        index.const_value is None ==> (r is Ok ==> dispatches_cases(
            old(script)@,
            final(script)@,
            targets@.len(),
        ) && cases_branch(
            final(script)@,
            old(control_stack)@,
            final(control_stack)@,
            old(script)@.len() as int,
            targets@.len() as int,
            targets@,
        )),
        index.const_value is None ==> dynamic_table_outcome(
            old(script)@,
            old(value_stack)@.len(),
            old(control_stack)@,
            targets@,
            default_depth,
            *old(is_unreachable),
            r is Ok,
        ),
{
    match index.const_value {
        Some(const_idx) => {
            script.push(DROP);
            let ghost s1 = script@;
            let idx: usize = if const_idx < 0 || const_idx > usize::MAX as i128 {
                usize::MAX
            } else {
                const_idx as usize
            };
            let depth = if idx < targets.len() { targets[idx] } else { default_depth };
            proof {
                assert(s1 =~= old(script)@.push(DROP));
            }
            let r = handle_branch(script, value_stack, control_stack, depth, false, is_unreachable);
            proof {
                if r is Ok {
                    let l = old(script)@.len() as int;
                    lemma_keeps_prefix_append(old(script)@, seq![DROP], l);
                    assert(s1 =~= old(script)@ + seq![DROP]);
                    lemma_keeps_prefix_shorter(s1, script@, s1.len() as int, l);
                    lemma_keeps_prefix_trans(old(script)@, s1, script@, l);
                    lemma_fixups_grow_weaken(old(control_stack)@, control_stack@, s1.len() as int, l);
                }
            }
            r
        },
        None => emit_br_table_dynamic(
            script,
            value_stack,
            control_stack,
            targets,
            default_depth,
            is_unreachable,
        ),
    }
}

/// The test of case `i` of a `br_table` whose index is on the stack: DUP, the case number,
/// NUMEQUAL, and a conditional jump to patch.
pub open spec fn case_test(i: int) -> Seq<u8> {
    seq![DUP] + push_int_bytes(i) + seq![NUMEQUAL] + placeholder_bytes(JMPIF_L)
}

/// The tests of the first `n` cases, in order.
pub open spec fn case_tests(n: nat) -> Seq<u8>
    decreases n,
{
    if n == 0 {
        Seq::empty()
    } else {
        case_tests((n - 1) as nat) + case_test(n - 1)
    }
}

/// Where the jump instruction at `pos` of `script` lands.
pub open spec fn jump_target(script: Seq<u8>, pos: int) -> int {
    pos + le_signed(script.subrange(pos + 1, pos + 5))
}

/// The position of the jump of case `i` when the case tests start at `l`.
pub open spec fn case_jump(l: int, i: int) -> int {
    l + case_tests((i + 1) as nat).len() - 5
}

/// Whether `after` dispatches `n` cases after `before`: the case tests follow `before`, each
/// testing its case number and jumping, when equal, to a code of its own that drops the index;
/// these codes come in the order of the cases, after the code for an index out of range,
/// which also starts by dropping the index.
pub open spec fn dispatches_cases(before: Seq<u8>, after: Seq<u8>, n: nat) -> bool {
    let l = before.len() as int;
    let t = case_tests(n).len() as int;
    &&& after.len() > l + t
    &&& after[l + t] == DROP
    &&& forall|i: int|
        0 <= i < n ==> after.subrange(l + case_tests(i as nat).len(), case_jump(l, i) + 1) == (
        #[trigger] case_test(i)).subrange(0, case_test(i).len() - 4)
    &&& forall|i: int|
        0 <= i < n ==> l + t < #[trigger] jump_target(after, case_jump(l, i)) < after.len()
            && after[jump_target(after, case_jump(l, i))] == DROP
    &&& forall|i: int, j: int|
        0 <= i < j < n ==> #[trigger] jump_target(after, case_jump(l, i)) < #[trigger] jump_target(
            after,
            case_jump(l, j),
        )
}

/// The tests of fewer cases come first, each case's test at its place.
proof fn lemma_case_tests_prefix(i: nat, j: nat)
    requires
        i <= j,
    ensures
        case_tests(i).len() <= case_tests(j).len(),
        case_tests(j).subrange(0, case_tests(i).len() as int) == case_tests(i),
        i < j ==> case_tests(i).len() + case_test(i as int).len() <= case_tests(j).len(),
        case_test(i as int).len() >= 8,
    decreases j,
{
    if i < j {
        lemma_case_tests_prefix(i, (j - 1) as nat);
        let a = case_tests((j - 1) as nat);
        assert(case_tests(j) == a + case_test(j - 1));
        assert(case_tests(j).subrange(0, a.len() as int) =~= a);
        assert(case_tests(j).subrange(0, case_tests(i).len() as int) =~= a.subrange(
            0,
            case_tests(i).len() as int,
        ));
        if i + 1 < j {
            lemma_case_tests_prefix(i + 1, (j - 1) as nat);
        }
    } else {
        assert(case_tests(j).subrange(0, case_tests(i).len() as int) =~= case_tests(i));
    }
}

/// Where case `i`'s test lies among the tests of `n` cases: after those of the cases before
/// it, and before those of the cases after it.
proof fn lemma_case_bounds(l: int, i: int, j: int, n: nat)
    requires
        0 <= i < j < n,
    ensures
        case_jump(l, i) + 5 <= l + case_tests(j as nat).len(),
        l + case_tests(i as nat).len() + 3 <= case_jump(l, i),
        case_jump(l, j) + 5 <= l + case_tests(n).len(),
{
    lemma_case_tests_prefix((i + 1) as nat, j as nat);
    lemma_case_tests_prefix(i as nat, (i + 1) as nat);
    lemma_case_tests_prefix((j + 1) as nat, n);
    assert(case_tests((i + 1) as nat) == case_tests(i as nat) + case_test(i));
}

/// The test of case `i` in code that holds the tests of `n` cases from `l`.
proof fn lemma_case_test_in(s: Seq<u8>, l: int, n: nat, i: int)
    requires
        0 <= l,
        0 <= i < n,
        l + case_tests(n).len() <= s.len(),
        s.subrange(l, l + case_tests(n).len()) == case_tests(n),
    ensures
        s.subrange(l + case_tests(i as nat).len(), case_jump(l, i) + 1) == case_test(i).subrange(
            0,
            case_test(i).len() - 4,
        ),
{
    lemma_case_tests_prefix((i + 1) as nat, n);
    lemma_case_tests_prefix(i as nat, (i + 1) as nat);
    let ci = case_tests(i as nat).len() as int;
    let cj = case_tests((i + 1) as nat).len() as int;
    assert(case_tests((i + 1) as nat) == case_tests(i as nat) + case_test(i));
    assert(s.subrange(l + ci, l + cj - 4) =~= s.subrange(l, l + case_tests(n).len()).subrange(ci, cj - 4));
    assert(case_tests(n).subrange(ci, cj - 4) =~= case_tests(n).subrange(0, cj).subrange(ci, cj - 4));
    assert(case_tests((i + 1) as nat).subrange(ci, cj - 4) =~= case_test(i).subrange(
        0,
        case_test(i).len() - 4,
    ));
}

/// Code that agrees with `s_a` outside the displacement of case `k`'s jump keeps case `i`'s
/// test.
proof fn lemma_case_test_kept(s_a: Seq<u8>, s_d: Seq<u8>, l: int, n: nat, k: nat, i: int)
    requires
        0 <= l,
        k < n,
        0 <= i < n,
        l + case_tests(n).len() <= s_a.len(),
        forall|x: int|
            0 <= x < s_a.len() && (x <= case_jump(l, k as int) || x >= case_jump(l, k as int) + 5)
                ==> #[trigger] s_d[x] == s_a[x],
        s_d.len() >= s_a.len(),
        s_a.subrange(l + case_tests(i as nat).len(), case_jump(l, i) + 1) == case_test(i).subrange(
            0,
            case_test(i).len() - 4,
        ),
    ensures
        s_d.subrange(l + case_tests(i as nat).len(), case_jump(l, i) + 1) == case_test(i).subrange(
            0,
            case_test(i).len() - 4,
        ),
{
    if i < k {
        lemma_case_bounds(l, i, k as int, n);
    } else if i > k {
        lemma_case_bounds(l, k as int, i, n);
    } else {
        lemma_case_tests_prefix((i + 1) as nat, n);
        lemma_case_tests_prefix(i as nat, (i + 1) as nat);
    }
    if i + 1 < n {
        lemma_case_bounds(l, i, i + 1, n);
    } else {
        lemma_case_tests_prefix((i + 1) as nat, n);
        lemma_case_tests_prefix(i as nat, (i + 1) as nat);
    }
    let a = l + case_tests(i as nat).len();
    let b = case_jump(l, i) + 1;
    assert(s_d.subrange(a, b) =~= s_a.subrange(a, b));
}

/// Code that agrees with `s_a` outside the displacement of case `k`'s jump keeps the jumps of
/// the cases before `k`.
proof fn lemma_case_jump_kept(s_a: Seq<u8>, s_d: Seq<u8>, l: int, n: nat, k: nat, i: int)
    requires
        0 <= l,
        k < n,
        0 <= i < k,
        l + case_tests(n).len() <= s_a.len(),
        forall|x: int|
            0 <= x < s_a.len() && (x <= case_jump(l, k as int) || x >= case_jump(l, k as int) + 5)
                ==> #[trigger] s_d[x] == s_a[x],
        s_d.len() >= s_a.len(),
    ensures
        jump_target(s_d, case_jump(l, i)) == jump_target(s_a, case_jump(l, i)),
{
    lemma_case_bounds(l, i, k as int, n);
    if k + 1 < n {
        lemma_case_bounds(l, k as int, (k + 1) as int, n);
    } else {
        lemma_case_bounds(l, i, k as int, n);
    }
    lemma_case_tests_prefix(k, (k + 1) as nat);
    assert(s_d.subrange(case_jump(l, i) + 1, case_jump(l, i) + 5) =~= s_a.subrange(
        case_jump(l, i) + 1,
        case_jump(l, i) + 5,
    ));
}

/// Whether `s` holds the tests of `n` cases from `l`, each in its place.
#[verifier::opaque]
pub open spec fn tests_in_place(s: Seq<u8>, l: int, n: nat) -> bool {
    forall|i: int|
        0 <= i < n ==> s.subrange(l + case_tests(i as nat).len(), case_jump(l, i) + 1) == (
        #[trigger] case_test(i)).subrange(0, case_test(i).len() - 4)
}

/// Whether the jumps of the first `k` of `n` cases from `l` in `s` land, in order, on DROPs after
/// the tests.
#[verifier::opaque]
pub open spec fn jumps_in_place(s: Seq<u8>, l: int, n: nat, k: int) -> bool {
    let t = case_tests(n).len() as int;
    &&& forall|i: int|
        0 <= i < k ==> l + t < #[trigger] jump_target(s, case_jump(l, i)) < s.len() && s[jump_target(
            s,
            case_jump(l, i),
        )] == DROP
    &&& forall|i: int, j: int|
        0 <= i < j < k ==> #[trigger] jump_target(s, case_jump(l, i)) < #[trigger] jump_target(
            s,
            case_jump(l, j),
        )
}

/// Whether `s`, with the tests of `n` cases from `l` followed by a DROP, has the jumps of its
/// first `k` cases patched, in order, each to a DROP after the tests.
pub open spec fn dispatched(s: Seq<u8>, l: int, n: nat, k: int) -> bool {
    &&& s.len() > l + case_tests(n).len()
    &&& s[l + case_tests(n).len()] == DROP
    &&& tests_in_place(s, l, n)
    &&& jumps_in_place(s, l, n, k)
}

/// Once every case's jump is patched, the cases are dispatched.
proof fn lemma_dispatched_all(before: Seq<u8>, s: Seq<u8>, n: nat)
    requires
        dispatched(s, before.len() as int, n, n as int),
    ensures
        dispatches_cases(before, s, n),
{
    reveal(tests_in_place);
    reveal(jumps_in_place);
}

/// Whether `s_d` agrees with `s_a` everywhere in `s_a` but the displacement of case `k`'s jump.
#[verifier::opaque]
pub open spec fn same_outside_jump(s_a: Seq<u8>, s_d: Seq<u8>, l: int, k: nat) -> bool {
    forall|x: int|
        0 <= x < s_a.len() && (x <= case_jump(l, k as int) || x >= case_jump(l, k as int) + 5)
            ==> #[trigger] s_d[x] == s_a[x]
}

/// One more case of a `br_table` dispatch: after its jump is patched to a DROP appended at the
/// end, and more code appended, the earlier cases and tests are as they were.
#[verifier::spinoff_prover]
proof fn lemma_case_dispatch_step(s_a: Seq<u8>, s_d: Seq<u8>, l: int, n: nat, k: nat)
    requires
        0 <= l,
        k < n,
        dispatched(s_a, l, n, k as int),
        s_d.len() > s_a.len(),
        same_outside_jump(s_a, s_d, l, k),
        s_d[s_a.len() as int] == DROP,
        jump_target(s_d, case_jump(l, k as int)) == s_a.len(),
    ensures
        dispatched(s_d, l, n, (k + 1) as int),
{
    lemma_case_step_tests(s_a, s_d, l, n, k);
    lemma_case_step_jumps(s_a, s_d, l, n, k);
}

/// The tests part of [`lemma_case_dispatch_step`].
proof fn lemma_case_step_tests(s_a: Seq<u8>, s_d: Seq<u8>, l: int, n: nat, k: nat)
    requires
        0 <= l,
        k < n,
        s_a.len() > l + case_tests(n).len(),
        s_d.len() > s_a.len(),
        same_outside_jump(s_a, s_d, l, k),
        tests_in_place(s_a, l, n),
    ensures
        tests_in_place(s_d, l, n),
{
    reveal(tests_in_place);
    reveal(same_outside_jump);
    assert forall|i: int| 0 <= i < n implies s_d.subrange(
        l + case_tests(i as nat).len(),
        case_jump(l, i) + 1,
    ) == (#[trigger] case_test(i)).subrange(0, case_test(i).len() - 4) by {
        lemma_case_test_kept(s_a, s_d, l, n, k, i);
    }
}

/// The jumps part of [`lemma_case_dispatch_step`].
proof fn lemma_case_step_jumps(s_a: Seq<u8>, s_d: Seq<u8>, l: int, n: nat, k: nat)
    requires
        0 <= l,
        k < n,
        s_a.len() > l + case_tests(n).len(),
        s_d.len() > s_a.len(),
        same_outside_jump(s_a, s_d, l, k),
        s_d[s_a.len() as int] == DROP,
        s_a[l + case_tests(n).len()] == DROP,
        jump_target(s_d, case_jump(l, k as int)) == s_a.len(),
        jumps_in_place(s_a, l, n, k as int),
    ensures
        s_d[l + case_tests(n).len()] == DROP,
        jumps_in_place(s_d, l, n, (k + 1) as int),
{
    reveal(jumps_in_place);
    reveal(same_outside_jump);
    let t = case_tests(n).len() as int;
    lemma_case_tests_prefix((k + 1) as nat, n);
    assert(s_d[l + t] == s_a[l + t]);
    assert forall|i: int| 0 <= i < k + 1 implies l + t < #[trigger] jump_target(
        s_d,
        case_jump(l, i),
    ) < s_d.len() && s_d[jump_target(s_d, case_jump(l, i))] == DROP by {
        if i < k {
            lemma_case_jump_kept(s_a, s_d, l, n, k, i);
            let x = jump_target(s_a, case_jump(l, i));
            assert(s_d[x] == s_a[x]);
        }
    }
    assert forall|i: int, j: int| 0 <= i < j < k + 1 implies #[trigger] jump_target(
        s_d,
        case_jump(l, i),
    ) < #[trigger] jump_target(s_d, case_jump(l, j)) by {
        lemma_case_jump_kept(s_a, s_d, l, n, k, i);
        if j < k {
            lemma_case_jump_kept(s_a, s_d, l, n, k, j);
        }
    }
}

/// The case tests followed by a DROP, kept as a prefix by further code, are in place.
proof fn lemma_tests_kept(before: Seq<u8>, s1: Seq<u8>, s: Seq<u8>, n: nat)
    requires
        s1 == before + case_tests(n) + seq![DROP],
        keeps_prefix(s1, s, s1.len() as int),
    ensures
        s.len() > before.len() + case_tests(n).len(),
        s[before.len() + case_tests(n).len() as int] == DROP,
        forall|i: int|
            0 <= i < n ==> s.subrange(
                before.len() + case_tests(i as nat).len() as int,
                case_jump(before.len() as int, i) + 1,
            ) == (#[trigger] case_test(i)).subrange(0, case_test(i).len() - 4),
{
    let l = before.len() as int;
    let t = case_tests(n).len() as int;
    assert(s.subrange(0, s1.len() as int) == s1);
    assert(s[l + t] == s.subrange(0, s1.len() as int)[l + t]);
    assert(s1.subrange(l, l + t) =~= case_tests(n));
    assert(s.subrange(l, l + t) =~= s1.subrange(l, l + t));
    assert forall|i: int| 0 <= i < n implies s.subrange(
        l + case_tests(i as nat).len(),
        case_jump(l, i) + 1,
    ) == (#[trigger] case_test(i)).subrange(0, case_test(i).len() - 4) by {
        lemma_case_test_in(s, l, n, i);
    }
}

/// The code of each case of a `br_table` whose tests are in place: the case's jump is pointed
/// at a DROP of the index, followed by the branch to the depth the case names.
#[verifier::spinoff_prover]
#[verifier::rlimit(100)]
fn emit_case_branches(
    script: &mut Vec<u8>,
    value_stack: &mut Vec<StackValue>,
    control_stack: &mut Vec<ControlFrame>,
    case_fixups: &Vec<(usize, usize)>,
    targets: &Vec<usize>,
    origin_unreachable: bool,
    Ghost(script0): Ghost<Seq<u8>>,
    Ghost(c0): Ghost<Seq<ControlFrame>>,
    Ghost(v0): Ghost<Seq<StackValue>>,
) -> (r: Result<(), TranslateError>)
    requires
        old(control_stack)@.len() == c0.len(),
        keeps_prefix(script0, old(script)@, script0.len() as int),
        fixups_grow(c0, old(control_stack)@, script0.len() as int),
        forall|m: int| values_after(v0, m) ==> #[trigger] values_after(old(value_stack)@, m),
        forall|j: int|
            0 <= j < case_fixups@.len() ==> (#[trigger] case_fixups@[j]).0 == case_jump(
                script0.len() as int,
                j,
            ),
        forall|j: int| 0 <= j < case_fixups@.len() ==> (#[trigger] case_fixups@[j]).1 == targets@[j],
        case_fixups@.len() == targets@.len(),
        frames_extend(c0, old(control_stack)@),
        cases_branch(old(script)@, c0, old(control_stack)@, script0.len() as int, 0, targets@),
        dispatched(old(script)@, script0.len() as int, targets@.len(), 0),
    ensures
        targets@.len() == 0 ==> r is Ok,
        r is Ok ==> {
            let l = script0.len() as int;
            &&& final(control_stack)@.len() == c0.len()
            &&& keeps_prefix(script0, final(script)@, l)
            &&& fixups_grow(c0, final(control_stack)@, l)
            &&& forall|m: int| values_after(v0, m) ==> #[trigger] values_after(final(value_stack)@, m)
            &&& forall|j: int| 0 <= j < targets@.len() ==> #[trigger] targets@[j] < c0.len()
            &&& frames_extend(c0, final(control_stack)@)
            &&& cases_branch(final(script)@, c0, final(control_stack)@, l, targets@.len() as int, targets@)
            &&& dispatched(final(script)@, l, targets@.len(), targets@.len() as int)
        },
{
    let ghost l = script0.len() as int;
    let ghost frames = control_stack@.len();
    let ghost n = targets@.len();
    let ghost t = case_tests(n).len() as int;
    let mut k: usize = 0;
    while k < case_fixups.len()
        invariant
            k <= case_fixups@.len(),
            n == targets@.len(),
            control_stack@.len() == frames,
            frames == c0.len(),
            l == script0.len(),
            t == case_tests(n).len(),
            keeps_prefix(script0, script@, l),
            fixups_grow(c0, control_stack@, l),
            forall|m: int| values_after(v0, m) ==> #[trigger] values_after(value_stack@, m),
            forall|j: int| 0 <= j < case_fixups@.len() ==> (#[trigger] case_fixups@[j]).0 == case_jump(l, j),
            forall|j: int| 0 <= j < case_fixups@.len() ==> (#[trigger] case_fixups@[j]).1 == targets@[j],
            case_fixups@.len() == targets@.len(),
            0 <= l,
            forall|j: int| 0 <= j < k ==> #[trigger] targets@[j] < frames,
            frames_extend(c0, control_stack@),
            cases_branch(script@, c0, control_stack@, l, k as int, targets@),
            dispatched(script@, l, n, k as int),
        decreases case_fixups@.len() - k,
    {
        let (fixup, depth) = case_fixups[k];
        let label_pos = script.len();
        let ghost s_a = script@;
        let ghost c_a = control_stack@;
        let ghost v_a = value_stack@;
        let ghost pk = case_jump(l, k as int);
        proof {
            lemma_case_tests_prefix((k + 1) as nat, n);
            lemma_case_tests_prefix(k as nat, n);
            assert(case_tests((k + 1) as nat) == case_tests(k as nat) + case_test(k as int));
            assert(fixup == pk);
        }
        patch_jump(script, fixup, label_pos)?;
        proof {
            lemma_keeps_prefix_patch(s_a, fixup as int, label_pos as int, l);
            lemma_keeps_prefix_trans(script0, s_a, script@, l);
            lemma_patched_jump_reaches_target(s_a, pk, label_pos as int);
        }
        let ghost s_b = script@;
        script.push(DROP);
        proof {
            lemma_keeps_prefix_append(s_b, seq![DROP], l);
            assert(script@ =~= s_b + seq![DROP]);
            lemma_keeps_prefix_trans(script0, s_b, script@, l);
        }
        let ghost s_c = script@;
        let mut branch_unreachable = origin_unreachable;
        handle_branch(script, value_stack, control_stack, depth, false, &mut branch_unreachable)?;
        let ghost s_d = script@;
        proof {
            lemma_keeps_prefix_shorter(s_c, script@, s_c.len() as int, l);
            lemma_keeps_prefix_trans(script0, s_c, script@, l);
            lemma_fixups_grow_weaken(c_a, control_stack@, s_c.len() as int, l);
            lemma_fixups_grow_trans(c0, c_a, control_stack@, l);
            assert forall|m: int| values_after(v0, m) implies #[trigger] values_after(
                value_stack@,
                m,
            ) by {
                assert(values_after(v_a, m));
            }
            assert(s_d.subrange(0, s_c.len() as int) == s_c);
            assert(same_outside_jump(s_a, s_d, l, k as nat)) by {
                reveal(same_outside_jump);
                assert forall|x: int| 0 <= x < s_a.len() && (x <= pk || x >= pk + 5) implies #[trigger] s_d[x]
                    == s_a[x] by {
                    assert(s_d[x] == s_d.subrange(0, s_c.len() as int)[x]);
                    assert(s_c[x] == s_b[x]);
                    assert(s_b[x] == patched(s_a, pk, label_pos as int)[x]);
                }
            }
            assert(s_d[label_pos as int] == DROP) by {
                assert(s_d[label_pos as int] == s_d.subrange(0, s_c.len() as int)[label_pos as int]);
            }
            assert(s_d.subrange(pk + 1, pk + 5) == s_b.subrange(pk + 1, pk + 5)) by {
                assert(s_d.subrange(pk + 1, pk + 5) =~= s_d.subrange(0, s_c.len() as int).subrange(
                    pk + 1,
                    pk + 5,
                ));
                assert(s_c.subrange(pk + 1, pk + 5) =~= s_b.subrange(pk + 1, pk + 5));
            }
            lemma_case_dispatch_step(s_a, s_d, l, n, k as nat);
            lemma_branch_extends(
                s_c,
                s_d,
                v_a,
                value_stack@,
                c_a,
                control_stack@,
                depth as int,
                origin_unreachable,
                branch_unreachable,
            );
            lemma_case_branch_step(s_a, s_c, s_d, c0, c_a, control_stack@, l, n, k as nat, targets@);
        }
        k = k + 1;
    }
    Ok(())
}

/// `br_table` with an index known only at run time.
#[verifier::spinoff_prover]
#[verifier::rlimit(100)]
fn emit_br_table_dynamic(
    script: &mut Vec<u8>,
    value_stack: &mut Vec<StackValue>,
    control_stack: &mut Vec<ControlFrame>,
    targets: &Vec<usize>,
    default_depth: usize,
    is_unreachable: &mut bool,
) -> (r: Result<(), TranslateError>)
    ensures
        r is Ok ==> final(control_stack)@.len() == old(control_stack)@.len() && *final(is_unreachable),
        r is Ok ==> keeps_prefix(old(script)@, final(script)@, old(script)@.len() as int),
        r is Ok ==> fixups_grow(
            old(control_stack)@,
            final(control_stack)@,
            old(script)@.len() as int,
        ),
        r is Ok ==> forall|m: int|
            values_after(old(value_stack)@, m) ==> #[trigger] values_after(final(value_stack)@, m),
        r is Ok ==> dispatches_cases(old(script)@, final(script)@, targets@.len()),
        r is Ok ==> cases_branch(
            final(script)@,
            old(control_stack)@,
            final(control_stack)@,
            old(script)@.len() as int,
            targets@.len() as int,
            targets@,
        ),
        dynamic_table_outcome(
            old(script)@,
            old(value_stack)@.len(),
            old(control_stack)@,
            targets@,
            default_depth,
            *old(is_unreachable),
            r is Ok,
        ),
{
    let ghost l = old(script)@.len() as int;
    let ghost c0 = control_stack@;
    let ghost v0 = value_stack@;
    let ghost n = targets@.len();
    proof {
        assert(old(script)@.subrange(0, l) =~= old(script)@);
        lemma_fixups_grow_refl(c0, l);
        assert(old(script)@ + case_tests(0) =~= old(script)@);
    }
    let mut case_fixups: Vec<(usize, usize)> = Vec::new();
    let mut case_index: usize = 0;
    while case_index < targets.len()
        invariant
            case_index <= targets@.len(),
            n == targets@.len(),
            case_fixups@.len() == case_index,
            l == old(script)@.len(),
            script@ == old(script)@ + case_tests(case_index as nat),
            forall|j: int| 0 <= j < case_fixups@.len() ==> (#[trigger] case_fixups@[j]).0 == case_jump(l, j),
            forall|j: int| 0 <= j < case_fixups@.len() ==> (#[trigger] case_fixups@[j]).1 == targets@[j],
        decreases targets@.len() - case_index,
    {
        script.push(DUP);
        let _ = emit_push_int(script, case_index as i128);
        script.push(NUMEQUAL);
        let fixup = emit_jump_placeholder(script, JMPIF_L);
        proof {
            assert(script@ =~= old(script)@ + case_tests((case_index + 1) as nat));
        }
        case_fixups.push((fixup, targets[case_index]));
        case_index = case_index + 1;
    }
    let ghost t = case_tests(n).len() as int;
    proof {
        assert(keeps_prefix(old(script)@, script@, l)) by {
            assert(script@.subrange(0, l) =~= old(script)@.subrange(0, l));
        }
    }
    let origin_unreachable = *is_unreachable;
    script.push(DROP);
    let ghost s1 = script@;
    let mut branch_unreachable = origin_unreachable;
    proof {
        assert(script@.subrange(0, l) =~= old(script)@.subrange(0, l));
        assert(s1 =~= old(script)@ + case_tests(n) + seq![DROP]);
        if targets@.len() == 0 {
            assert(s1 =~= old(script)@.push(DROP));
            assert(case_tests(0) =~= Seq::<u8>::empty());
        }
    }
    handle_branch(script, value_stack, control_stack, default_depth, false, &mut branch_unreachable)?;
    proof {
        lemma_no_cases_branch(script@, c0, control_stack@, l, targets@);
        lemma_branch_extends(
            s1,
            script@,
            v0,
            value_stack@,
            c0,
            control_stack@,
            default_depth as int,
            origin_unreachable,
            branch_unreachable,
        );
        lemma_keeps_prefix_shorter(s1, script@, s1.len() as int, l);
        lemma_keeps_prefix_trans(old(script)@, s1, script@, l);
        lemma_fixups_grow_weaken(c0, control_stack@, s1.len() as int, l);
        lemma_tests_kept(old(script)@, s1, script@, n);
        assert(dispatched(script@, l, n, 0)) by {
            reveal(tests_in_place);
            reveal(jumps_in_place);
        }
    }
    let ghost frames = control_stack@.len();
    emit_case_branches(
        script,
        value_stack,
        control_stack,
        &case_fixups,
        targets,
        origin_unreachable,
        Ghost(old(script)@),
        Ghost(c0),
        Ghost(v0),
    )?;
    proof {
        lemma_dispatched_all(old(script)@, script@, n);
    }
    *is_unreachable = true;
    Ok(())
}

} // verus!
