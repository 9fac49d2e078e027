//! The execution engine: frames, the operand stack and instruction dispatch.
use std::cell::RefCell;
use std::rc::Rc;

use vstd::prelude::*;

use crate::ast::{Method, OpCode, Type};

verus! {

/// Declares std's `RefCell` so that shared heap handles can stand in stack
/// values; the engine only carries them and never looks inside.
#[verifier::external_type_specification]
#[verifier::external_body]
#[verifier::reject_recursive_types(T)]
pub struct ExRefCell<T: ?Sized>(RefCell<T>);

/// Relies on `Rc::clone`: the new handle points to the same allocation.
#[verifier::external_body]
fn share<T>(rc: &Rc<T>) -> (r: Rc<T>)
    ensures
        r == *rc,
{
    Rc::clone(rc)
}

/// The ways an invocation can fail.
#[derive(Debug, Copy, Clone, PartialEq, Eq, Structural)]
pub enum InterpError {
    /// The caller supplied fewer values than the method has arguments, or an
    /// instruction read a local slot that does not exist.
    InsufficientLocals,
    /// An instruction needed more operands than the stack held.
    StackUnderflow,
    /// An operand had the wrong kind for its instruction.
    WrongType,
    /// A runtime exception; also raised when execution runs past the last
    /// instruction without returning.
    Exception,
}

/// A heap object.
#[derive(Debug)]
pub struct Object {}

/// A heap array and the type of its elements.
#[derive(Debug)]
pub struct Array {
    ty: Type,
}

/// A value on the operand stack or in a local slot. Floating-point values are
/// held as their IEEE 754 bit patterns; a reference is a shared handle, `None`
/// being null.
#[derive(Debug)]
pub enum StackValue {
    Void,
    Int(i32),
    Long(i64),
    Float(u32),
    Double(u64),
    CRef(Option<Rc<RefCell<Object>>>),
    IRef(Option<Rc<RefCell<Object>>>),
    ARef(Option<Rc<RefCell<Array>>>),
}

fn share_opt<T>(h: &Option<Rc<T>>) -> (r: Option<Rc<T>>)
    ensures
        r == *h,
{
    match h {
        Some(rc) => Some(share(rc)),
        None => None,
    }
}

impl Clone for StackValue {
    fn clone(&self) -> (r: StackValue)
        ensures
            r == *self,
    {
        match self {
            StackValue::Void => StackValue::Void,
            StackValue::Int(v) => StackValue::Int(*v),
            StackValue::Long(v) => StackValue::Long(*v),
            StackValue::Float(v) => StackValue::Float(*v),
            StackValue::Double(v) => StackValue::Double(*v),
            StackValue::CRef(h) => StackValue::CRef(share_opt(h)),
            StackValue::IRef(h) => StackValue::IRef(share_opt(h)),
            StackValue::ARef(h) => StackValue::ARef(share_opt(h)),
        }
    }
}

/// The 32-bit pattern `a` is a NaN.
pub open spec fn is_nan_f32(a: u32) -> bool {
    a & 0x7f80_0000 == 0x7f80_0000 && a & 0x007f_ffff != 0
}

/// The 64-bit pattern `a` is a NaN.
pub open spec fn is_nan_f64(a: u64) -> bool {
    a & 0x7ff0_0000_0000_0000 == 0x7ff0_0000_0000_0000 && a & 0x000f_ffff_ffff_ffff != 0
}

/// IEEE 754 equality of two 32-bit patterns: no NaN equals anything, and the
/// two zeros are equal.
pub open spec fn f32_bits_eq(a: u32, b: u32) -> bool {
    !is_nan_f32(a) && !is_nan_f32(b) && (a == b || (a & 0x7fff_ffff == 0 && b & 0x7fff_ffff
        == 0))
}

/// IEEE 754 equality of two 64-bit patterns.
pub open spec fn f64_bits_eq(a: u64, b: u64) -> bool {
    !is_nan_f64(a) && !is_nan_f64(b) && (a == b || (a & 0x7fff_ffff_ffff_ffff == 0 && b
        & 0x7fff_ffff_ffff_ffff == 0))
}

/// Equality of stack values: numbers of the same kind compare by value, two
/// voids are equal, and references are never equal.
pub open spec fn stack_value_eq(a: StackValue, b: StackValue) -> bool {
    match (a, b) {
        (StackValue::Void, StackValue::Void) => true,
        (StackValue::Int(x), StackValue::Int(y)) => x == y,
        (StackValue::Long(x), StackValue::Long(y)) => x == y,
        (StackValue::Float(x), StackValue::Float(y)) => f32_bits_eq(x, y),
        (StackValue::Double(x), StackValue::Double(y)) => f64_bits_eq(x, y),
        _ => false,
    }
}

impl PartialEq for StackValue {
    fn eq(&self, other: &StackValue) -> (r: bool)
        ensures
            r == stack_value_eq(*self, *other),
    {
        match self {
            StackValue::Void => match other {
                StackValue::Void => true,
                _ => false,
            },
            StackValue::Int(lhs) => match other {
                StackValue::Int(rhs) => *lhs == *rhs,
                _ => false,
            },
            StackValue::Long(lhs) => match other {
                StackValue::Long(rhs) => *lhs == *rhs,
                _ => false,
            },
            StackValue::Float(lhs) => match other {
                StackValue::Float(rhs) => {
                    let (a, b) = (*lhs, *rhs);
                    let a_nan = a & 0x7f80_0000 == 0x7f80_0000 && a & 0x007f_ffff != 0;
                    let b_nan = b & 0x7f80_0000 == 0x7f80_0000 && b & 0x007f_ffff != 0;
                    !a_nan && !b_nan && (a == b || (a & 0x7fff_ffff == 0 && b & 0x7fff_ffff == 0))
                },
                _ => false,
            },
            StackValue::Double(lhs) => match other {
                StackValue::Double(rhs) => {
                    let (a, b) = (*lhs, *rhs);
                    let a_nan = a & 0x7ff0_0000_0000_0000 == 0x7ff0_0000_0000_0000 && a
                        & 0x000f_ffff_ffff_ffff != 0;
                    let b_nan = b & 0x7ff0_0000_0000_0000 == 0x7ff0_0000_0000_0000 && b
                        & 0x000f_ffff_ffff_ffff != 0;
                    !a_nan && !b_nan && (a == b || (a & 0x7fff_ffff_ffff_ffff == 0 && b
                        & 0x7fff_ffff_ffff_ffff == 0))
                },
                _ => false,
            },
            _ => false,
        }
    }
}

impl vstd::std_specs::cmp::PartialEqSpecImpl for StackValue {
    open spec fn obeys_eq_spec() -> bool {
        true
    }

    open spec fn eq_spec(&self, other: &StackValue) -> bool {
        stack_value_eq(*self, *other)
    }
}

/// The 32-bit two's-complement sum of `a` and `b`.
pub open spec fn wrapped_sum(a: i32, b: i32) -> i32 {
    if a + b > i32::MAX {
        (a + b - 0x1_0000_0000) as i32
    } else if a + b < i32::MIN {
        (a + b + 0x1_0000_0000) as i32
    } else {
        (a + b) as i32
    }
}

/// What one instruction does to a frame: go on with a new operand stack, or
/// end the invocation with a result.
pub enum Step {
    Continue(Seq<StackValue>),
    Done(Result<StackValue, InterpError>),
}

/// Pushes local slot `n`.
pub open spec fn load_step(n: int, locals: Seq<StackValue>, stack: Seq<StackValue>) -> Step {
    if n < locals.len() {
        Step::Continue(stack.push(locals[n]))
    } else {
        Step::Done(Err(InterpError::InsufficientLocals))
    }
}

/// The effect of `op` on a frame with the given locals and operand stack.
pub open spec fn op_step(op: OpCode, locals: Seq<StackValue>, stack: Seq<StackValue>) -> Step {
    let len = stack.len() as int;
    match op {
        OpCode::iload_0 => load_step(0, locals, stack),
        OpCode::iload_1 => load_step(1, locals, stack),
        OpCode::iload_2 => load_step(2, locals, stack),
        OpCode::iadd => if len < 1 {
            Step::Done(Err(InterpError::StackUnderflow))
        } else if !(stack[len - 1] is Int) {
            Step::Done(Err(InterpError::WrongType))
        } else if len < 2 {
            Step::Done(Err(InterpError::StackUnderflow))
        } else if !(stack[len - 2] is Int) {
            Step::Done(Err(InterpError::WrongType))
        } else {
            Step::Continue(
                stack.subrange(0, len - 2).push(
                    StackValue::Int(wrapped_sum(stack[len - 1]->Int_0, stack[len - 2]->Int_0)),
                ),
            )
        },
        OpCode::ireturn => if len < 1 {
            Step::Done(Err(InterpError::StackUnderflow))
        } else if !(stack[len - 1] is Int) {
            Step::Done(Err(InterpError::WrongType))
        } else {
            Step::Done(Ok(stack[len - 1]))
        },
    }
}

/// The result of running `code` from instruction `pc` on a frame with the
/// given locals and operand stack. Running past the last instruction raises
/// `Exception`.
pub open spec fn run(code: Seq<OpCode>, locals: Seq<StackValue>, stack: Seq<StackValue>, pc: int) -> Result<
    StackValue,
    InterpError,
>
    decreases code.len() - pc,
{
    if pc < 0 || pc >= code.len() {
        Err(InterpError::Exception)
    } else {
        match op_step(code[pc], locals, stack) {
            Step::Continue(next) => run(code, locals, next, pc + 1),
            Step::Done(r) => r,
        }
    }
}

/// `n` void slots.
pub open spec fn voids(n: nat) -> Seq<StackValue> {
    Seq::new(n, |i: int| StackValue::Void)
}

/// The local slots of a new frame for `method` called on `caller`: the
/// method's arguments, taken from the top of `caller` in their order, then its
/// declared locals, all void.
pub open spec fn initial_locals(method: Method, caller: Seq<StackValue>) -> Seq<StackValue> {
    caller.subrange(caller.len() - method.ty.args@.len(), caller.len() as int) + voids(
        method.locals as nat,
    )
}

/// The result of invoking `method` with `caller` as the caller's stack.
pub open spec fn invoke(method: Method, caller: Seq<StackValue>) -> Result<StackValue, InterpError> {
    if caller.len() < method.ty.args@.len() {
        Err(InterpError::InsufficientLocals)
    } else {
        run(method.code@, initial_locals(method, caller), Seq::empty(), 0)
    }
}

/// The caller's stack after invoking `method`: its arguments are gone, unless
/// there were too few of them.
pub open spec fn caller_after(method: Method, caller: Seq<StackValue>) -> Seq<StackValue> {
    if caller.len() < method.ty.args@.len() {
        caller
    } else {
        caller.subrange(0, caller.len() - method.ty.args@.len())
    }
}

/// A method invoked with fewer values on the caller's stack than it has
/// arguments fails with `InsufficientLocals` and leaves that stack as it was.
pub proof fn too_few_arguments(method: Method, caller: Seq<StackValue>)
    requires
        caller.len() < method.ty.args@.len(),
    ensures
        invoke(method, caller) == Err::<StackValue, InterpError>(InterpError::InsufficientLocals),
        caller_after(method, caller) == caller,
{
}

/// `iadd` with a value on top of the operand stack that is not an integer
/// fails with `WrongType`.
pub proof fn iadd_rejects_non_int_top(locals: Seq<StackValue>, stack: Seq<StackValue>)
    requires
        stack.len() >= 1,
        !(stack.last() is Int),
    ensures
        op_step(OpCode::iadd, locals, stack) == Step::Done(Err(InterpError::WrongType)),
{
}

/// The outcome of one instruction, as the dispatch loop sees it.
enum OpResult {
    Next,
    Jump(usize),
    Return(StackValue),
    Exception,
    Fail(InterpError),
}

/// `r` and the operand stack `stack` after it are what `step` describes.
spec fn follows(r: OpResult, stack: Seq<StackValue>, step: Step) -> bool {
    match step {
        Step::Continue(next) => r is Next && stack == next,
        Step::Done(Ok(v)) => r == OpResult::Return(v),
        Step::Done(Err(e)) => r == OpResult::Fail(e),
    }
}

/// The activation record of one invocation: local slots and operand stack.
#[derive(Debug)]
pub struct Frame {
    locals: Vec<StackValue>,
    stack: Vec<StackValue>,
}

impl Frame {
    /// Moves the method's arguments off the caller's stack into a new frame
    /// and adds the declared locals.
    fn new(method: &Method, caller_stack: &mut Vec<StackValue>) -> (r: Result<Frame, InterpError>)
        ensures
            final(caller_stack)@ == caller_after(*method, old(caller_stack)@),
            old(caller_stack)@.len() < method.ty.args@.len() ==> r == Err::<Frame, InterpError>(
                InterpError::InsufficientLocals,
            ),
            old(caller_stack)@.len() >= method.ty.args@.len() ==> (r matches Ok(f) && f.locals@
                == initial_locals(*method, old(caller_stack)@) && f.stack@ == Seq::<StackValue>::empty()),
    {
        let num_args = method.ty.args.len();
        if caller_stack.len() < num_args {
            Err(InterpError::InsufficientLocals)
        } else {
            let split_point = caller_stack.len() - num_args;
            let mut locals = caller_stack.split_off(split_point);
            let ghost args = locals@;
            let mut i: usize = 0;
            while i < method.locals
                invariant
                    i <= method.locals,
                    locals@ == args + voids(i as nat),
                decreases method.locals - i,
            {
                locals.push(StackValue::Void);
                i = i + 1;
                assert(locals@ =~= args + voids(i as nat));
            }
            Ok(Frame { locals, stack: Vec::new() })
        }
    }

    fn push(&mut self, v: StackValue)
        ensures
            final(self).locals@ == old(self).locals@,
            final(self).stack@ == old(self).stack@.push(v),
    {
        self.stack.push(v);
    }

    fn pop(&mut self) -> (r: Option<StackValue>)
        ensures
            final(self).locals@ == old(self).locals@,
            old(self).stack@.len() == 0 ==> r is None && final(self).stack@ == old(self).stack@,
            old(self).stack@.len() > 0 ==> r == Some(old(self).stack@.last())
                && final(self).stack@ == old(self).stack@.drop_last(),
    {
        self.stack.pop()
    }

    /// Pops the top value, which must be an integer.
    fn pop_int(&mut self) -> (r: Result<i32, InterpError>)
        ensures
            final(self).locals@ == old(self).locals@,
            old(self).stack@.len() == 0 ==> r == Err::<i32, InterpError>(InterpError::StackUnderflow)
                && final(self).stack@ == old(self).stack@,
            old(self).stack@.len() > 0 ==> final(self).stack@ == old(self).stack@.drop_last() && r
                == match old(self).stack@.last() {
                StackValue::Int(v) => Ok(v),
                _ => Err(InterpError::WrongType),
            },
    {
        let v = self.pop();
        if let Some(v) = v {
            if let StackValue::Int(v) = v {
                Ok(v)
            } else {
                Err(InterpError::WrongType)
            }
        } else {
            Err(InterpError::StackUnderflow)
        }
    }

    fn iload(&mut self, addr: usize) -> (r: OpResult)
        ensures
            final(self).locals@ == old(self).locals@,
            follows(r, final(self).stack@, load_step(addr as int, old(self).locals@, old(self).stack@)),
    {
        if addr < self.locals.len() {
            let v = self.locals[addr].clone();
            self.push(v);
            OpResult::Next
        } else {
            OpResult::Fail(InterpError::InsufficientLocals)
        }
    }

    fn iadd(&mut self) -> (r: OpResult)
        ensures
            final(self).locals@ == old(self).locals@,
            follows(r, final(self).stack@, op_step(OpCode::iadd, old(self).locals@, old(self).stack@)),
    {
        let ghost s = self.stack@;
        let lhs = self.pop_int();
        if let Ok(lhs) = lhs {
            let rhs = self.pop_int();
            if let Ok(rhs) = rhs {
                self.push(StackValue::Int(lhs.wrapping_add(rhs)));
                assert(self.stack@ =~= s.subrange(0, s.len() - 2).push(
                    StackValue::Int(wrapped_sum(lhs, rhs)),
                ));
                OpResult::Next
            } else {
                OpResult::Fail(rhs.unwrap_err())
            }
        } else {
            OpResult::Fail(lhs.unwrap_err())
        }
    }

    fn ireturn(&mut self) -> (r: OpResult)
        ensures
            final(self).locals@ == old(self).locals@,
            follows(r, final(self).stack@, op_step(OpCode::ireturn, old(self).locals@, old(self).stack@)),
    {
        let ret_val = self.pop_int();
        if let Ok(ret_val) = ret_val {
            OpResult::Return(StackValue::Int(ret_val))
        } else {
            OpResult::Fail(ret_val.unwrap_err())
        }
    }

    fn exec_op(&mut self, op: OpCode) -> (r: OpResult)
        ensures
            final(self).locals@ == old(self).locals@,
            follows(r, final(self).stack@, op_step(op, old(self).locals@, old(self).stack@)),
    {
        match op {
            OpCode::iload_0 => self.iload(0),
            OpCode::iload_1 => self.iload(1),
            OpCode::iload_2 => self.iload(2),
            OpCode::iadd => self.iadd(),
            OpCode::ireturn => self.ireturn(),
        }
    }

    /// Runs the method's instructions from the first one until one of them
    /// returns or fails.
    fn exec(&mut self, method: &Method) -> (r: Result<StackValue, InterpError>)
        ensures
            r == run(method.code@, old(self).locals@, old(self).stack@, 0),
    {
        let mut pc: usize = 0;
        let code = &method.code;
        let ghost locals = self.locals@;
        loop
            invariant
                code@ == method.code@,
                locals == old(self).locals@,
                pc <= code@.len(),
                self.locals@ == locals,
                run(code@, locals, old(self).stack@, 0) == run(code@, locals, self.stack@, pc as int),
            decreases code@.len() - pc,
        {
            if pc >= code.len() {
                return Err(InterpError::Exception);
            }
            let op: OpCode = code[pc];
            match self.exec_op(op) {
                OpResult::Next => pc = pc + 1,
                OpResult::Jump(next_pc) => pc = next_pc,
                OpResult::Return(ret_val) => return Ok(ret_val),
                OpResult::Exception => return Err(InterpError::Exception),
                OpResult::Fail(err) => return Err(err),
            }
        }
    }
}

/// Invokes `method`: moves its arguments off `parent_stack` into a new frame,
/// runs its instructions and returns the value it returns.
pub fn exec_method(method: &Method, parent_stack: &mut Vec<StackValue>) -> (r: Result<
    StackValue,
    InterpError,
>)
    ensures
        r == invoke(*method, old(parent_stack)@),
        final(parent_stack)@ == caller_after(*method, old(parent_stack)@),
{
    let mut frame = match Frame::new(method, parent_stack) {
        Ok(frame) => frame,
        Err(e) => return Err(e),
    };
    frame.exec(method)
}

} // verus!
