use std::cell::RefCell;
use std::rc::Rc;

use rcode::ast::{
    is_valid_id, AstError, ClassBuilder, FunctionType, Method, MethodBuilder, OpCode, Type,
};
use rcode::interp::{exec_method, InterpError, Object, StackValue};

fn method(type_str: &str, locals: usize, code: Vec<OpCode>) -> Method {
    Method {
        name: "m".to_string(),
        ty: FunctionType::parse(type_str).unwrap(),
        statik: true,
        locals,
        code,
    }
}

fn adder_code() -> Vec<OpCode> {
    vec![OpCode::iload_0, OpCode::iload_1, OpCode::iadd, OpCode::ireturn]
}

#[test]
fn exec_adder_method() {
    let mut c = ClassBuilder::new("MyClass".to_string());
    let m: MethodBuilder = Default::default();
    let m = m
        .set_name("adder".to_string())
        .set_type("(II)I")
        .set_static(true)
        .set_locals(0)
        .append_op(OpCode::iload_0)
        .append_op(OpCode::iload_1)
        .append_op(OpCode::iadd)
        .append_op(OpCode::ireturn);
    c.new_method(m).unwrap();
    let class = c.create_class().unwrap();
    let method = class.get_method("adder").unwrap();
    let mut caller_stack = vec![StackValue::Int(1), StackValue::Int(3)];
    let res = exec_method(method, &mut caller_stack);
    assert_eq!(Ok(StackValue::Int(4)), res);
    assert!(caller_stack.is_empty());
}

#[test]
fn exec_keeps_values_below_arguments() {
    let m = method("(II)I", 0, adder_code());
    let mut caller_stack = vec![StackValue::Long(9), StackValue::Int(1), StackValue::Int(3)];
    assert_eq!(Ok(StackValue::Int(4)), exec_method(&m, &mut caller_stack));
    assert_eq!(vec![StackValue::Long(9)], caller_stack);
}

#[test]
fn exec_too_few_arguments() {
    let m = method("(II)I", 0, adder_code());
    let mut caller_stack = vec![StackValue::Int(1)];
    assert_eq!(Err(InterpError::InsufficientLocals), exec_method(&m, &mut caller_stack));
    assert_eq!(vec![StackValue::Int(1)], caller_stack);
}

#[test]
fn exec_iadd_wrong_type_on_top() {
    let m = method("(JI)I", 0, vec![OpCode::iload_1, OpCode::iload_0, OpCode::iadd, OpCode::ireturn]);
    let mut caller_stack = vec![StackValue::Long(5), StackValue::Int(1)];
    assert_eq!(Err(InterpError::WrongType), exec_method(&m, &mut caller_stack));
}

#[test]
fn exec_iadd_wrong_type_below() {
    let m = method("(JI)I", 0, adder_code());
    let mut caller_stack = vec![StackValue::Long(5), StackValue::Int(1)];
    assert_eq!(Err(InterpError::WrongType), exec_method(&m, &mut caller_stack));
}

#[test]
fn exec_iadd_wraps() {
    let m = method("(II)I", 0, adder_code());
    let mut caller_stack = vec![StackValue::Int(2147483647), StackValue::Int(1)];
    assert_eq!(Ok(StackValue::Int(-2147483648)), exec_method(&m, &mut caller_stack));
}

#[test]
fn exec_iadd_negative_sum() {
    let m = method("(II)I", 0, adder_code());
    let mut caller_stack = vec![StackValue::Int(-7), StackValue::Int(3)];
    assert_eq!(Ok(StackValue::Int(-4)), exec_method(&m, &mut caller_stack));
}

#[test]
fn exec_iadd_underflow() {
    let m = method("(I)I", 0, vec![OpCode::iload_0, OpCode::iadd, OpCode::ireturn]);
    let mut caller_stack = vec![StackValue::Int(1)];
    assert_eq!(Err(InterpError::StackUnderflow), exec_method(&m, &mut caller_stack));
}

#[test]
fn exec_ireturn_underflow() {
    let m = method("()I", 0, vec![OpCode::ireturn]);
    let mut caller_stack = Vec::new();
    assert_eq!(Err(InterpError::StackUnderflow), exec_method(&m, &mut caller_stack));
}

#[test]
fn exec_load_past_locals() {
    let m = method("(II)I", 0, vec![OpCode::iload_2, OpCode::ireturn]);
    let mut caller_stack = vec![StackValue::Int(1), StackValue::Int(2)];
    assert_eq!(Err(InterpError::InsufficientLocals), exec_method(&m, &mut caller_stack));
}

#[test]
fn exec_declared_locals_are_void() {
    let m = method("(I)I", 2, vec![OpCode::iload_2, OpCode::ireturn]);
    let mut caller_stack = vec![StackValue::Int(1)];
    assert_eq!(Err(InterpError::WrongType), exec_method(&m, &mut caller_stack));
}

#[test]
fn exec_runs_past_end() {
    let m = method("(I)I", 0, vec![OpCode::iload_0]);
    let mut caller_stack = vec![StackValue::Int(1)];
    assert_eq!(Err(InterpError::Exception), exec_method(&m, &mut caller_stack));
}

#[test]
fn stack_value_equality() {
    assert_eq!(StackValue::Void, StackValue::Void);
    assert_eq!(StackValue::Int(3), StackValue::Int(3));
    assert_ne!(StackValue::Int(3), StackValue::Int(4));
    assert_ne!(StackValue::Int(1), StackValue::Long(1));
    assert_eq!(StackValue::Double(2.5f64.to_bits()), StackValue::Double(2.5f64.to_bits()));
    assert_eq!(StackValue::Float(0.0f32.to_bits()), StackValue::Float((-0.0f32).to_bits()));
    assert_eq!(StackValue::Double(0.0f64.to_bits()), StackValue::Double((-0.0f64).to_bits()));
    assert_ne!(StackValue::Float(f32::NAN.to_bits()), StackValue::Float(f32::NAN.to_bits()));
    assert_ne!(StackValue::Double(f64::NAN.to_bits()), StackValue::Double(f64::NAN.to_bits()));
    assert_ne!(StackValue::Float(1.0f32.to_bits()), StackValue::Float(2.0f32.to_bits()));
    assert_ne!(StackValue::CRef(None), StackValue::CRef(None));
}

#[test]
fn stack_value_clone_shares_handle() {
    let obj = Rc::new(RefCell::new(Object {}));
    let v = StackValue::CRef(Some(obj.clone()));
    let w = v.clone();
    match w {
        StackValue::CRef(Some(h)) => {
            assert!(Rc::ptr_eq(&h, &obj));
            assert_eq!(3, Rc::strong_count(&obj));
        }
        _ => panic!("clone changed the variant"),
    }
}

#[test]
fn builder_empty_method_name() {
    let m: MethodBuilder = Default::default();
    let r = m.set_type("()V").create_method();
    assert!(matches!(r, Err(AstError::IllegalMethodName(ref n)) if n.is_empty()));
}

#[test]
fn builder_keeps_first_error() {
    let m: MethodBuilder = Default::default();
    let r = m.set_type("(I").set_name("f".to_string()).set_type("()V").create_method();
    assert!(matches!(r, Err(AstError::IllegalTypeString(ref s)) if s == "(I"));
}

#[test]
fn builder_sets_fields() {
    let m: MethodBuilder = Default::default();
    let m = m
        .set_name("f".to_string())
        .set_type("(IC)Z")
        .set_static(true)
        .set_locals(3)
        .append_op(OpCode::iload_0)
        .create_method()
        .unwrap();
    assert_eq!("f", m.name);
    assert_eq!(vec![Type::Integer, Type::Char], m.ty.args);
    assert_eq!(Some(Type::Boolean), m.ty.ret);
    assert!(m.statik);
    assert_eq!(3, m.locals);
    assert_eq!(1, m.code.len());
}

#[test]
fn class_builder_empty_name() {
    let c = ClassBuilder::new(String::new());
    assert!(matches!(c.create_class(), Err(AstError::IllegalClassName(ref n)) if n.is_empty()));
}

#[test]
fn class_builder_replaces_same_name() {
    let mut c = ClassBuilder::new("C".to_string());
    let m: MethodBuilder = Default::default();
    c.new_method(m.set_name("f".to_string()).set_locals(1)).unwrap();
    let m: MethodBuilder = Default::default();
    c.new_method(m.set_name("g".to_string()).set_locals(2)).unwrap();
    let m: MethodBuilder = Default::default();
    c.new_method(m.set_name("f".to_string()).set_locals(5)).unwrap();
    let class = c.create_class().unwrap();
    assert_eq!("C", class.name);
    assert_eq!(5, class.get_method("f").unwrap().locals);
    assert_eq!(2, class.get_method("g").unwrap().locals);
    assert!(class.get_method("h").is_none());
}

#[test]
fn class_builder_rejects_bad_method() {
    let mut c = ClassBuilder::new("C".to_string());
    let m: MethodBuilder = Default::default();
    let r = c.new_method(m.set_name(String::new()));
    assert!(matches!(r, Err(AstError::IllegalMethodName(_))));
    let class = c.create_class().unwrap();
    assert!(class.get_method("").is_none());
}

#[test]
fn valid_ids() {
    assert!(is_valid_id("a"));
    assert!(!is_valid_id(""));
}
