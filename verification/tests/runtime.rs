//! Tests of the virtual machine, the integer arithmetic and the comparisons
//! of the interpreter's runtime.
use c1::ast::BinOp;
use c1::runtime::{
    compare_strings, int_arith, int_negate, Comparison, Slot, Value, Variable, VirtualMachine,
};

fn int_of(v: Variable<f64>) -> Option<i64> {
    match v {
        Variable::Init(Value::Int(n)) => Some(n),
        Variable::Init(_) => panic!("not an int"),
        Variable::Uninit => None,
    }
}

#[test]
fn store_then_load() {
    let mut vm: VirtualMachine<f64> = VirtualMachine::new(2);
    assert!(vm.has(Slot::Global(1)));
    assert!(!vm.has(Slot::Global(2)));
    assert!(!vm.has(Slot::Local(0)));
    assert_eq!(int_of(vm.load(Slot::Global(0))), None);
    vm.store(Slot::Global(0), Variable::Init(Value::Int(5)));
    assert_eq!(int_of(vm.load(Slot::Global(0))), Some(5));
    assert_eq!(int_of(vm.load(Slot::Global(1))), None);
}

#[test]
fn frames_are_independent() {
    let mut vm: VirtualMachine<f64> = VirtualMachine::new(1);
    vm.push_frame(2);
    vm.store(Slot::Local(1), Variable::Init(Value::Int(7)));
    vm.push_frame(2);
    // The new frame starts uninitialized and does not see the caller's.
    assert_eq!(int_of(vm.load(Slot::Local(1))), None);
    vm.store(Slot::Local(1), Variable::Init(Value::Int(8)));
    vm.pop_frame();
    assert_eq!(int_of(vm.load(Slot::Local(1))), Some(7));
    vm.pop_frame();
    assert!(!vm.has(Slot::Local(0)));
    // Popping with no frame left does nothing.
    vm.pop_frame();
    assert!(vm.has(Slot::Global(0)));
}

#[test]
fn return_values() {
    let mut vm: VirtualMachine<f64> = VirtualMachine::new(0);
    assert!(!vm.is_returning());
    assert_eq!(int_of(vm.take_return()), None);
    vm.set_return(Variable::Init(Value::Int(3)));
    assert!(vm.is_returning());
    assert_eq!(int_of(vm.take_return()), Some(3));
    assert!(!vm.is_returning());
    vm.set_return(Variable::Uninit);
    assert!(vm.is_returning());
    assert_eq!(int_of(vm.take_return()), None);
}

#[test]
fn integer_arithmetic() {
    assert_eq!(int_arith(BinOp::Add, 2, 3).ok(), Some(5));
    assert_eq!(int_arith(BinOp::Sub, 2, 3).ok(), Some(-1));
    assert_eq!(int_arith(BinOp::Mul, -4, 3).ok(), Some(-12));
    // Division rounds towards zero; the remainder has the sign of the dividend.
    assert_eq!(int_arith(BinOp::Div, -7, 2).ok(), Some(-3));
    assert_eq!(int_arith(BinOp::Div, 7, -2).ok(), Some(-3));
    assert_eq!(int_arith(BinOp::Div, -7, -2).ok(), Some(3));
}

#[test]
fn integer_arithmetic_errors() {
    let msg = |r: Result<i64, c1::runtime::InterpretError>| r.err().map(|e| e.message());
    assert_eq!(msg(int_arith(BinOp::Div, 4, 0)), Some("attempted to divide 4 by zero".to_owned()));
    assert_eq!(
        msg(int_arith(BinOp::Add, i64::MAX, 1)),
        Some("overflow computing `9223372036854775807 + 1`".to_owned())
    );
    assert_eq!(
        msg(int_arith(BinOp::Sub, i64::MIN, 1)),
        Some("overflow computing `-9223372036854775808 - 1`".to_owned())
    );
    assert_eq!(
        msg(int_arith(BinOp::Div, i64::MIN, -1)),
        Some("overflow computing `-9223372036854775808 / -1`".to_owned())
    );
    assert_eq!(msg(int_negate(i64::MIN)), Some("overflow negating minimum int".to_owned()));
    assert_eq!(int_negate(5).ok(), Some(-5));
}

#[test]
fn string_comparison_is_lexicographic() {
    let s = |t: &str| t.to_owned();
    assert_eq!(compare_strings(&s("abc"), &s("abd")), Comparison::Less);
    assert_eq!(compare_strings(&s("ab"), &s("abc")), Comparison::Less);
    assert_eq!(compare_strings(&s("b"), &s("abc")), Comparison::Greater);
    assert_eq!(compare_strings(&s(""), &s("")), Comparison::Equal);
    assert_eq!(compare_strings(&s("äb"), &s("äb")), Comparison::Equal);
}
