//! The values of running C1 programs and the virtual machine that stores
//! their variables: the global variables, one frame of local variables per
//! active call, and the value of a `return` on its way out of a function.
//!
//! Floating point values are of a type chosen by the user of the library
//! (see [`FloatOps`]); the library never computes with them itself.
use vstd::prelude::*;
use crate::ast::{BinOp, DataType};
use crate::numeric::{fits_i64, trunc_div};
use crate::text::{push_signed_decimal, spec_signed_decimal};
use crate::ast::spec_op_symbol;

verus! {

// ---------------------------------------------------------------------------
// Floating point values.

/// The floating point arithmetic of a C1 implementation.
///
/// C1's `float` is a binary floating point number; a program using the
/// interpreter chooses the representation (usually `f64`) by implementing
/// this trait. The interpreter calls these functions and nothing else on
/// floating point values.
pub trait FloatOps: Copy + Sized {
    /// The value of a floating point literal, given as written in the source.
    fn parse_literal(text: &str) -> Self;

    /// The value of an integer converted to floating point.
    fn from_int(value: i64) -> Self;

    /// The result of `lhs op rhs` for an arithmetic operator `+ - * /`.
    fn arith(op: BinOp, lhs: Self, rhs: Self) -> Self;

    /// The negation of a value.
    fn negate(value: Self) -> Self;

    /// Whether `lhs == rhs`.
    fn equals(lhs: Self, rhs: Self) -> bool;

    /// Whether `lhs op rhs` holds for an ordering operator `< > <= >=`.
    fn order(op: BinOp, lhs: Self, rhs: Self) -> bool;

    /// The text that `print` writes for a value.
    fn render(value: Self) -> String;
}

/// A model of floating point arithmetic: what each operation of
/// [`FloatOps`] returns.
#[verifier::reject_recursive_types(F)]
pub struct FloatModel<F> {
    pub literal: spec_fn(Seq<char>) -> F,
    pub from_int: spec_fn(i64) -> F,
    pub arith: spec_fn(BinOp, F, F) -> F,
    pub negate: spec_fn(F) -> F,
    pub equal: spec_fn(F, F) -> bool,
    pub order: spec_fn(BinOp, F, F) -> bool,
    pub render: spec_fn(F) -> Seq<char>,
}

/// Whether a model gives every result that the operations of `F` can
/// return: whenever an operation may return `r` for some operands, the
/// model's result for these operands is `r`.
///
/// If the operations of `F` are functions of their operands, as those of a
/// floating point type are, the model made of these functions implements `F`.
pub closed spec fn implements<F: FloatOps>(m: FloatModel<F>) -> bool {
    &&& forall|t: &str, r: F| #[trigger] call_ensures(F::parse_literal, (t,), r) ==> (m.literal)(t@) == r
    &&& forall|n: i64, r: F| #[trigger] call_ensures(F::from_int, (n,), r) ==> (m.from_int)(n) == r
    &&& forall|op: BinOp, a: F, b: F, r: F| #[trigger] call_ensures(F::arith, (op, a, b), r)
        ==> (m.arith)(op, a, b) == r
    &&& forall|a: F, r: F| #[trigger] call_ensures(F::negate, (a,), r) ==> (m.negate)(a) == r
    &&& forall|a: F, b: F, r: bool| #[trigger] call_ensures(F::equals, (a, b), r) ==> (m.equal)(a, b) == r
    &&& forall|op: BinOp, a: F, b: F, r: bool| #[trigger] call_ensures(F::order, (op, a, b), r)
        ==> (m.order)(op, a, b) == r
    &&& forall|a: F, r: String| #[trigger] call_ensures(F::render, (a,), r) ==> (m.render)(a) == r@
}

/// Parses a floating point literal.
pub fn float_literal<F: FloatOps>(text: &str) -> (res: F)
    ensures
        forall|m: FloatModel<F>| #[trigger] implements(m) ==> (m.literal)(text@) == res,
{
    F::parse_literal(text)
}

/// Converts an integer to floating point.
pub fn float_from_int<F: FloatOps>(value: i64) -> (res: F)
    ensures
        forall|m: FloatModel<F>| #[trigger] implements(m) ==> (m.from_int)(value) == res,
{
    F::from_int(value)
}

/// Applies an arithmetic operator to floating point values.
pub fn float_arith<F: FloatOps>(op: BinOp, lhs: F, rhs: F) -> (res: F)
    ensures
        forall|m: FloatModel<F>| #[trigger] implements(m) ==> (m.arith)(op, lhs, rhs) == res,
{
    F::arith(op, lhs, rhs)
}

/// Negates a floating point value.
pub fn float_negate<F: FloatOps>(value: F) -> (res: F)
    ensures
        forall|m: FloatModel<F>| #[trigger] implements(m) ==> (m.negate)(value) == res,
{
    F::negate(value)
}

/// Whether two floating point values are equal.
pub fn float_equals<F: FloatOps>(lhs: F, rhs: F) -> (res: bool)
    ensures
        forall|m: FloatModel<F>| #[trigger] implements(m) ==> (m.equal)(lhs, rhs) == res,
{
    F::equals(lhs, rhs)
}

/// Whether an ordering operator holds of two floating point values.
pub fn float_order<F: FloatOps>(op: BinOp, lhs: F, rhs: F) -> (res: bool)
    ensures
        forall|m: FloatModel<F>| #[trigger] implements(m) ==> (m.order)(op, lhs, rhs) == res,
{
    F::order(op, lhs, rhs)
}

/// The text that `print` writes for a floating point value.
pub fn float_render<F: FloatOps>(value: F) -> (res: String)
    ensures
        forall|m: FloatModel<F>| #[trigger] implements(m) ==> (m.render)(value) == res@,
{
    F::render(value)
}

// ---------------------------------------------------------------------------
// Values.

/// The view of a value.
pub enum SpecValue<F> {
    Bool(bool),
    Int(i64),
    Float(F),
    Str(Seq<char>),
}

/// A value of a running program.
#[derive(Debug)]
pub enum Value<F> {
    Bool(bool),
    Int(i64),
    Float(F),
    String(String),
}

impl<F> View for Value<F> {
    type V = SpecValue<F>;

    open spec fn view(&self) -> SpecValue<F> {
        match self {
            Value::Bool(b) => SpecValue::Bool(*b),
            Value::Int(n) => SpecValue::Int(*n),
            Value::Float(x) => SpecValue::Float(*x),
            Value::String(s) => SpecValue::Str(s@),
        }
    }
}

/// The type of a value.
pub open spec fn value_type<F>(v: SpecValue<F>) -> DataType {
    match v {
        SpecValue::Bool(_) => DataType::Bool,
        SpecValue::Int(_) => DataType::Int,
        SpecValue::Float(_) => DataType::Float,
        SpecValue::Str(_) => DataType::String,
    }
}

impl<F: Copy> Value<F> {
    /// A copy of the value.
    pub fn duplicate(&self) -> (res: Value<F>)
        ensures
            res@ == self@,
    {
        match self {
            Value::Bool(b) => Value::Bool(*b),
            Value::Int(n) => Value::Int(*n),
            Value::Float(x) => Value::Float(*x),
            Value::String(s) => Value::String(s.clone()),
        }
    }

    /// The type of the value.
    pub fn data_type(&self) -> (res: DataType)
        ensures
            res == value_type(self@),
    {
        match self {
            Value::Bool(_) => DataType::Bool,
            Value::Int(_) => DataType::Int,
            Value::Float(_) => DataType::Float,
            Value::String(_) => DataType::String,
        }
    }
}

/// The contents of a variable: `None` while it is uninitialized.
pub type SpecVar<F> = Option<SpecValue<F>>;

/// A variable: uninitialized, or holding a value.
#[derive(Debug)]
pub enum Variable<F> {
    Uninit,
    Init(Value<F>),
}

impl<F> View for Variable<F> {
    type V = SpecVar<F>;

    open spec fn view(&self) -> SpecVar<F> {
        match self {
            Variable::Uninit => None,
            Variable::Init(v) => Some(v@),
        }
    }
}

impl<F: Copy> Variable<F> {
    /// A copy of the variable.
    pub fn duplicate(&self) -> (res: Variable<F>)
        ensures
            res@ == self@,
    {
        match self {
            Variable::Uninit => Variable::Uninit,
            Variable::Init(v) => Variable::Init(v.duplicate()),
        }
    }
}

// ---------------------------------------------------------------------------
// The virtual machine.

/// Where a variable is stored: its offset among the global variables or
/// among the local variables of the innermost frame.
#[derive(Debug, Clone, Copy, PartialEq, Eq, Structural)]
pub enum Slot {
    Global(usize),
    Local(usize),
}

/// The view of the virtual machine.
pub struct VmView<F> {
    pub globals: Seq<SpecVar<F>>,
    pub frames: Seq<Seq<SpecVar<F>>>,
    /// `Some` while a `return` leaves the current function, with its value.
    pub ret: Option<SpecVar<F>>,
}

impl<F> VmView<F> {
    /// A machine with `n` uninitialized global variables and no frame.
    pub open spec fn initial(n: nat) -> VmView<F> {
        VmView { globals: Seq::new(n, |i: int| None), frames: Seq::empty(), ret: None }
    }

    /// Whether the slot exists.
    pub open spec fn has(self, slot: Slot) -> bool {
        match slot {
            Slot::Global(o) => o < self.globals.len(),
            Slot::Local(o) => self.frames.len() > 0 && o < self.frames.last().len(),
        }
    }

    /// The contents of a slot.
    pub open spec fn get(self, slot: Slot) -> SpecVar<F> {
        match slot {
            Slot::Global(o) => self.globals[o as int],
            Slot::Local(o) => self.frames.last()[o as int],
        }
    }

    /// The machine with `v` stored in a slot.
    pub open spec fn set(self, slot: Slot, v: SpecVar<F>) -> VmView<F> {
        match slot {
            Slot::Global(o) => VmView { globals: self.globals.update(o as int, v), ..self },
            Slot::Local(o) => VmView {
                frames: self.frames.update(
                    self.frames.len() - 1,
                    self.frames.last().update(o as int, v),
                ),
                ..self
            },
        }
    }

    /// The machine with a new innermost frame of `n` uninitialized variables.
    pub open spec fn push_frame(self, n: nat) -> VmView<F> {
        VmView { frames: self.frames.push(Seq::new(n, |i: int| None)), ..self }
    }

    /// The machine without its innermost frame.
    pub open spec fn pop_frame(self) -> VmView<F> {
        if self.frames.len() > 0 {
            VmView { frames: self.frames.drop_last(), ..self }
        } else {
            self
        }
    }

    /// The machine with `ret` as its return state.
    pub open spec fn with_ret(self, ret: Option<SpecVar<F>>) -> VmView<F> {
        VmView { ret, ..self }
    }

    /// What leaves the current function: the value of the `return`, if any.
    pub open spec fn returned(self) -> SpecVar<F> {
        match self.ret {
            Some(v) => v,
            None => None,
        }
    }
}

/// The virtual machine that stores the variables of a running program.
#[derive(Debug)]
pub struct VirtualMachine<F> {
    globals: Vec<Variable<F>>,
    frames: Vec<Vec<Variable<F>>>,
    ret: Option<Variable<F>>,
}

/// The views of a sequence of variables.
pub open spec fn vars_view<F>(s: Seq<Variable<F>>) -> Seq<SpecVar<F>> {
    Seq::new(s.len(), |i: int| s[i]@)
}

impl<F> View for VirtualMachine<F> {
    type V = VmView<F>;

    closed spec fn view(&self) -> VmView<F> {
        VmView {
            globals: vars_view(self.globals@),
            frames: Seq::new(self.frames@.len(), |i: int| vars_view(self.frames@[i]@)),
            ret: match self.ret {
                Some(v) => Some(v@),
                None => None,
            },
        }
    }
}

/// A vector of `n` uninitialized variables.
fn uninit_vars<F>(n: usize) -> (res: Vec<Variable<F>>)
    ensures
        vars_view(res@) == Seq::new(n as nat, |i: int| None::<SpecValue<F>>),
{
    let mut v: Vec<Variable<F>> = Vec::new();
    for i in 0..n
        invariant
            v@.len() == i,
            forall|j: int| 0 <= j < i ==> v@[j]@ == None::<SpecValue<F>>,
    {
        v.push(Variable::Uninit);
    }
    assert(vars_view(v@) =~= Seq::new(n as nat, |i: int| None::<SpecValue<F>>));
    v
}

impl<F: Copy> VirtualMachine<F> {
    /// A machine with `n` uninitialized global variables.
    pub fn new(n: usize) -> (res: VirtualMachine<F>)
        ensures
            res@ == VmView::<F>::initial(n as nat),
    {
        let globals = uninit_vars(n);
        let res = VirtualMachine { globals, frames: Vec::new(), ret: None };
        assert(res@.frames =~= Seq::<Seq<SpecVar<F>>>::empty());
        res
    }

    /// Whether the slot exists.
    pub fn has(&self, slot: Slot) -> (res: bool)
        ensures
            res == self@.has(slot),
    {
        match slot {
            Slot::Global(o) => o < self.globals.len(),
            Slot::Local(o) => {
                let n = self.frames.len();
                n > 0 && o < self.frames[n - 1].len()
            },
        }
    }

    /// A copy of the contents of a slot.
    pub fn load(&self, slot: Slot) -> (res: Variable<F>)
        requires
            self@.has(slot),
        ensures
            res@ == self@.get(slot),
    {
        match slot {
            Slot::Global(o) => self.globals[o].duplicate(),
            Slot::Local(o) => {
                let n = self.frames.len();
                assert(self@.frames.last() == vars_view(self.frames@[n - 1]@));
                self.frames[n - 1][o].duplicate()
            },
        }
    }

    /// Stores `v` into a slot.
    pub fn store(&mut self, slot: Slot, v: Variable<F>)
        requires
            old(self)@.has(slot),
        ensures
            final(self)@ == old(self)@.set(slot, v@),
    {
        let ghost v_view = v@;
        match slot {
            Slot::Global(o) => {
                self.globals.set(o, v);
                assert(vars_view(self.globals@) =~= old(self)@.globals.update(o as int, v_view));
            },
            Slot::Local(o) => {
                let mut top = self.frames.pop().unwrap();
                let ghost old_top = top@;
                top.set(o, v);
                assert(vars_view(top@) =~= vars_view(old_top).update(o as int, v_view));
                self.frames.push(top);
            },
        }
        assert(self@.frames =~= old(self)@.set(slot, v_view).frames);
        assert(self@.globals =~= old(self)@.set(slot, v_view).globals);
    }

    /// Adds an innermost frame of `n` uninitialized local variables.
    pub fn push_frame(&mut self, n: usize)
        ensures
            final(self)@ == old(self)@.push_frame(n as nat),
    {
        let frame = uninit_vars(n);
        self.frames.push(frame);
        assert(self@.frames =~= old(self)@.push_frame(n as nat).frames);
    }

    /// Removes the innermost frame, if there is one.
    pub fn pop_frame(&mut self)
        ensures
            final(self)@ == old(self)@.pop_frame(),
    {
        if self.frames.len() > 0 {
            let _ = self.frames.pop();
            assert(self@.frames =~= old(self)@.pop_frame().frames);
        }
    }

    /// Starts leaving the current function with the value `v` (uninitialized
    /// for a `return` without value).
    pub fn set_return(&mut self, v: Variable<F>)
        ensures
            final(self)@ == old(self)@.with_ret(Some(v@)),
    {
        self.ret = Some(v);
        assert(self@.frames =~= old(self)@.frames);
    }

    /// Ends leaving a function: returns the value of its `return`, which is
    /// uninitialized if there was none or it had no value.
    pub fn take_return(&mut self) -> (res: Variable<F>)
        ensures
            res@ == old(self)@.returned(),
            final(self)@ == old(self)@.with_ret(None),
    {
        let r = match self.ret.take() {
            Some(v) => v,
            None => Variable::Uninit,
        };
        assert(self@.frames =~= old(self)@.frames);
        r
    }

    /// Whether a `return` is leaving the current function.
    pub fn is_returning(&self) -> (res: bool)
        ensures
            res == self@.ret is Some,
    {
        self.ret.is_some()
    }
}

/// Reading a slot right after storing into it gives what was stored; every
/// other slot keeps its contents, and the same slots exist as before.
pub proof fn law_store_then_load<F>(vm: VmView<F>, slot: Slot, other: Slot, v: SpecVar<F>)
    requires
        vm.has(slot),
    ensures
        vm.set(slot, v).get(slot) == v,
        vm.set(slot, v).has(other) == vm.has(other),
        other != slot && vm.has(other) ==> vm.set(slot, v).get(other) == vm.get(other),
{
}

/// A frame pushed for a call and popped at its end leaves the machine as it
/// was, and the local variables of the new frame start uninitialized.
pub proof fn law_push_pop_frame<F>(vm: VmView<F>, n: nat, o: usize)
    ensures
        vm.push_frame(n).pop_frame() == vm,
        o < n ==> vm.push_frame(n).has(Slot::Local(o)) && vm.push_frame(n).get(Slot::Local(o)) is None,
{
    assert(vm.push_frame(n).pop_frame().frames =~= vm.frames);
}

// ---------------------------------------------------------------------------
// Errors.

/// An error of a running program, with its message.
#[derive(Debug)]
pub struct InterpretError(String);

impl View for InterpretError {
    type V = Seq<char>;

    closed spec fn view(&self) -> Seq<char> {
        self.0@
    }
}

impl InterpretError {
    /// The error with a message.
    pub fn new(message: String) -> (res: InterpretError)
        ensures
            res@ == message@,
    {
        InterpretError(message)
    }

    /// The message of the error.
    pub fn message(&self) -> (res: String)
        ensures
            res@ == self@,
    {
        self.0.clone()
    }
}

/// The message for a division of `lhs` by zero.
pub open spec fn msg_div_zero(lhs: i64) -> Seq<char> {
    "attempted to divide "@ + spec_signed_decimal(lhs as int) + " by zero"@
}

/// The message for an integer operation whose result does not fit.
pub open spec fn msg_overflow(lhs: i64, op: BinOp, rhs: i64) -> Seq<char> {
    "overflow computing `"@ + spec_signed_decimal(lhs as int) + " "@ + spec_op_symbol(op) + " "@
        + spec_signed_decimal(rhs as int) + "`"@
}

/// The message for negating the smallest integer.
pub open spec fn msg_neg_overflow() -> Seq<char> {
    "overflow negating minimum int"@
}

// ---------------------------------------------------------------------------
// Integer arithmetic.

/// The mathematical result of an arithmetic operator on integers.
pub open spec fn int_result(op: BinOp, lhs: int, rhs: int) -> int {
    match op {
        BinOp::Add => lhs + rhs,
        BinOp::Sub => lhs - rhs,
        BinOp::Mul => lhs * rhs,
        _ => trunc_div(lhs, rhs),
    }
}

/// Integer arithmetic: the result, or the message for a division by zero or
/// a result that does not fit into an `int`.
pub open spec fn spec_int_arith(op: BinOp, lhs: i64, rhs: i64) -> Result<i64, Seq<char>> {
    if op == BinOp::Div && rhs == 0 {
        Err(msg_div_zero(lhs))
    } else if fits_i64(int_result(op, lhs as int, rhs as int)) {
        Ok(int_result(op, lhs as int, rhs as int) as i64)
    } else {
        Err(msg_overflow(lhs, op, rhs))
    }
}

/// The view of a result whose error is an [`InterpretError`].
pub open spec fn error_view<T>(r: Result<T, InterpretError>) -> Result<T, Seq<char>> {
    match r {
        Ok(v) => Ok(v),
        Err(e) => Err(e@),
    }
}

fn overflow_error(lhs: i64, op: BinOp, rhs: i64) -> (res: InterpretError)
    ensures
        res@ == msg_overflow(lhs, op, rhs),
{
    let mut s = String::new();
    s.append("overflow computing `");
    push_signed_decimal(&mut s, lhs);
    s.append(" ");
    s.append(op.symbol());
    s.append(" ");
    push_signed_decimal(&mut s, rhs);
    s.append("`");
    InterpretError(s)
}

/// Integer division rounds towards zero, as in C: the remainder
/// `lhs - q * rhs` is zero or has the sign of `lhs`, and it is smaller than
/// `rhs` in magnitude.
pub proof fn law_division_truncates(lhs: i64, rhs: i64)
    requires
        rhs != 0,
    ensures
        spec_int_arith(BinOp::Div, lhs, rhs) matches Ok(q) ==> ({
            let r = lhs - q * rhs;
            &&& r == 0 || (r < 0) == (lhs < 0)
            &&& (if r < 0 { -r } else { r }) < (if rhs < 0 { -(rhs as int) } else { rhs as int })
        }),
{
    let a = lhs as int;
    let b = rhs as int;
    let x = if a < 0 { -a } else { a };
    let y = if b < 0 { -b } else { b };
    let q0 = x / y;
    let r0 = x % y;
    assert(x == y * q0 + r0 && 0 <= r0 < y) by (nonlinear_arith)
        requires
            y > 0,
            x >= 0,
            q0 == x / y,
            r0 == x % y,
    ;
    let q = trunc_div(a, b);
    if (a < 0) != (b < 0) {
        assert(q == -q0);
    } else {
        assert(q == q0);
    }
    assert(a - q * b == (if a < 0 { -r0 } else { r0 })) by (nonlinear_arith)
        requires
            x == y * q0 + r0,
            x == (if a < 0 { -a } else { a }),
            y == (if b < 0 { -b } else { b }),
            q == (if (a < 0) != (b < 0) { -q0 } else { q0 }),
    ;
}

/// Performs integer arithmetic for one of `+ - * /`, reporting overflow and
/// division by zero.
pub fn int_arith(op: BinOp, lhs: i64, rhs: i64) -> (res: Result<i64, InterpretError>)
    requires
        op == BinOp::Add || op == BinOp::Sub || op == BinOp::Mul || op == BinOp::Div,
    ensures
        error_view(res) == spec_int_arith(op, lhs, rhs),
{
    let result = match op {
        BinOp::Add => lhs.checked_add(rhs),
        BinOp::Sub => lhs.checked_sub(rhs),
        BinOp::Mul => lhs.checked_mul(rhs),
        _ => {
            if rhs == 0 {
                let mut s = String::new();
                s.append("attempted to divide ");
                push_signed_decimal(&mut s, lhs);
                s.append(" by zero");
                return Err(InterpretError(s));
            }
            lhs.checked_div(rhs)
        },
    };
    match result {
        Some(v) => Ok(v),
        None => Err(overflow_error(lhs, op, rhs)),
    }
}

/// Negates an integer, reporting overflow.
pub fn int_negate(value: i64) -> (res: Result<i64, InterpretError>)
    ensures
        error_view(res) == (if value == i64::MIN {
            Err::<i64, Seq<char>>(msg_neg_overflow())
        } else {
            Ok(-value as i64)
        }),
{
    if value == i64::MIN {
        Err(InterpretError("overflow negating minimum int".to_owned()))
    } else {
        Ok(-value)
    }
}

/// Integer arithmetic is exact arithmetic on mathematical integers as long
/// as the result fits in an `int`: `+`, `-` and `*` give the sum,
/// difference and product, and overflow is reported otherwise; a division
/// by zero is reported as such.
pub proof fn law_int_arith_exact(a: i64, b: i64)
    ensures
        spec_int_arith(BinOp::Add, a, b) == if i64::MIN <= a as int + b as int <= i64::MAX {
            Ok::<i64, Seq<char>>((a as int + b as int) as i64)
        } else {
            Err(msg_overflow(a, BinOp::Add, b))
        },
        spec_int_arith(BinOp::Sub, a, b) == if i64::MIN <= a as int - b as int <= i64::MAX {
            Ok::<i64, Seq<char>>((a as int - b as int) as i64)
        } else {
            Err(msg_overflow(a, BinOp::Sub, b))
        },
        spec_int_arith(BinOp::Mul, a, b) == if i64::MIN <= a as int * b as int <= i64::MAX {
            Ok::<i64, Seq<char>>((a as int * b as int) as i64)
        } else {
            Err(msg_overflow(a, BinOp::Mul, b))
        },
        b == 0 ==> spec_int_arith(BinOp::Div, a, b) == Err::<i64, Seq<char>>(msg_div_zero(a)),
        spec_int_arith(BinOp::Sub, a, b) matches Ok(d) ==> d + b == a,
        spec_int_arith(BinOp::Add, a, b) matches Ok(s) ==> s - b == a,
{
}

} // verus!

verus! {

// ---------------------------------------------------------------------------
// Comparisons.

/// How two values compare.
#[derive(Debug, Clone, Copy, PartialEq, Eq, Structural)]
pub enum Comparison {
    Less,
    Equal,
    Greater,
}

/// How two integers compare.
pub open spec fn int_order(a: int, b: int) -> Comparison {
    if a < b {
        Comparison::Less
    } else if a == b {
        Comparison::Equal
    } else {
        Comparison::Greater
    }
}

/// How two truth values compare: `false` is less than `true`.
pub open spec fn bool_order(a: bool, b: bool) -> Comparison {
    int_order(if a { 1 } else { 0 }, if b { 1 } else { 0 })
}

/// How two strings compare lexicographically, character by character.
pub open spec fn lex_order(a: Seq<char>, b: Seq<char>) -> Comparison
    decreases a.len(),
{
    if a.len() == 0 {
        if b.len() == 0 {
            Comparison::Equal
        } else {
            Comparison::Less
        }
    } else if b.len() == 0 {
        Comparison::Greater
    } else if a[0] != b[0] {
        int_order(a[0] as int, b[0] as int)
    } else {
        lex_order(a.drop_first(), b.drop_first())
    }
}

/// Whether an ordering operator `< > <= >=` holds of operands that compare
/// as `c`.
pub open spec fn order_holds(op: BinOp, c: Comparison) -> bool {
    match op {
        BinOp::Lt => c == Comparison::Less,
        BinOp::Gt => c == Comparison::Greater,
        BinOp::Leq => c != Comparison::Greater,
        BinOp::Geq => c != Comparison::Less,
        _ => false,
    }
}

/// Whether an ordering operator holds of operands that compare as `c`.
pub fn holds(op: BinOp, c: Comparison) -> (res: bool)
    ensures
        res == order_holds(op, c),
{
    match op {
        BinOp::Lt => c == Comparison::Less,
        BinOp::Gt => c == Comparison::Greater,
        BinOp::Leq => c != Comparison::Greater,
        BinOp::Geq => c != Comparison::Less,
        _ => false,
    }
}

/// Compares two integers.
pub fn compare_ints(a: i64, b: i64) -> (res: Comparison)
    ensures
        res == int_order(a as int, b as int),
{
    if a < b {
        Comparison::Less
    } else if a == b {
        Comparison::Equal
    } else {
        Comparison::Greater
    }
}

/// Compares two truth values.
pub fn compare_bools(a: bool, b: bool) -> (res: Comparison)
    ensures
        res == bool_order(a, b),
{
    compare_ints(if a { 1 } else { 0 }, if b { 1 } else { 0 })
}

/// The characters of a string.
fn chars_of(s: &str) -> (res: Vec<char>)
    ensures
        res@ == s@,
{
    let mut v: Vec<char> = Vec::new();
    for c in it: s.chars()
        invariant
            v@ == it.seq().take(it.index() as int),
            it.seq() == s@,
    {
        v.push(c);
    }
    v
}

/// Compares two strings lexicographically.
pub fn compare_strings(a: &String, b: &String) -> (res: Comparison)
    ensures
        res == lex_order(a@, b@),
{
    let x = chars_of(a.as_str());
    let y = chars_of(b.as_str());
    let mut i: usize = 0;
    assert(a@.skip(0) =~= a@);
    assert(b@.skip(0) =~= b@);
    while i < x.len() && i < y.len()
        invariant
            i <= x@.len(),
            i <= y@.len(),
            x@ == a@,
            y@ == b@,
            lex_order(a@, b@) == lex_order(a@.skip(i as int), b@.skip(i as int)),
        decreases x@.len() - i,
    {
        assert(a@.skip(i as int)[0] == x@[i as int]);
        assert(b@.skip(i as int)[0] == y@[i as int]);
        if x[i] != y[i] {
            return if x[i] < y[i] {
                Comparison::Less
            } else {
                Comparison::Greater
            };
        }
        assert(a@.skip(i as int).drop_first() =~= a@.skip(i + 1));
        assert(b@.skip(i as int).drop_first() =~= b@.skip(i + 1));
        i += 1;
    }
    if x.len() == y.len() {
        Comparison::Equal
    } else if i == x.len() {
        Comparison::Less
    } else {
        Comparison::Greater
    }
}

/// Strings compare lexicographically as a total order: a string compares
/// equal only to itself, and swapping the operands swaps less and greater.
pub proof fn law_string_order(a: Seq<char>, b: Seq<char>)
    ensures
        (lex_order(a, b) == Comparison::Equal) == (a == b),
        (lex_order(a, b) == Comparison::Less) == (lex_order(b, a) == Comparison::Greater),
    decreases a.len(),
{
    if a.len() > 0 && b.len() > 0 && a[0] == b[0] {
        law_string_order(a.drop_first(), b.drop_first());
        if a.drop_first() == b.drop_first() {
            assert(a =~= seq![a[0]] + a.drop_first());
            assert(b =~= seq![b[0]] + b.drop_first());
        }
    } else if a.len() > 0 && b.len() > 0 {
        assert(a != b);
    } else if a.len() == 0 && b.len() == 0 {
        assert(a =~= b);
    }
}

} // verus!
