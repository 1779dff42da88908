use loxide::compile::Token;
use loxide::interpret;
use loxide::native_fn::NativeFn;
use loxide::obj::{Obj, ObjList, ObjString};
use loxide::scanner::number_literals;
use loxide::table::Table;
use loxide::value::Value;
use loxide::vm::{ArithOp, InterpretResult, Output, VM};

fn number(x: f64) -> Value {
    Value::Number(x.to_bits())
}

fn literal_values(src: &str) -> Vec<u64> {
    number_literals(src)
        .iter()
        .map(|&(start, length)| src[start..start + length].parse::<f64>().unwrap().to_bits())
        .collect()
}

fn arith(op: ArithOp, a: u64, b: u64) -> u64 {
    let (a, b) = (f64::from_bits(a), f64::from_bits(b));
    let result = match op {
        ArithOp::Add => a + b,
        ArithOp::Subtract => a - b,
        ArithOp::Multiply => a * b,
        ArithOp::Divide => a / b,
    };
    result.to_bits()
}

/// Interprets a program to its end and writes what it prints.
fn run(src: &str) -> InterpretResult<VM> {
    let numbers = literal_values(src);
    let mut printed = Vec::new();
    let result = interpret(src, &numbers, arith, 1_000_000, &mut printed);
    for output in printed {
        match output {
            Output::Number(bits) => println!("{}", f64::from_bits(bits)),
            Output::Text(bytes) => println!("{}", String::from_utf8_lossy(&bytes)),
        }
    }
    result
}

fn text_of(vm: &VM, value: Option<Value>) -> Option<&str> {
    value.unwrap().as_bytes(&vm.heap).map(|bytes| std::str::from_utf8(bytes).unwrap())
}

#[test]
fn upvalue_closed() {
    let src = r#"
fun makeClosure() {
  var a = 1;
  fun f() {
    a = a + 1;
    return a;
  }
  return f;
}

var closure = makeClosure();
var first = closure();
var anotherClosure = makeClosure();
var second = anotherClosure();
var third = closure();"#;
    let mut vm = run(src).unwrap();

    let first_str = vm.get_string("first");
    let second_str = vm.get_string("second");
    let third_str = vm.get_string("third");

    let value1 = vm.globals.get(first_str);
    let value2 = vm.globals.get(second_str);
    let value3 = vm.globals.get(third_str);

    assert_eq!(value1, Some(number(2.0)));
    assert_eq!(value2, Some(number(2.0)));
    assert_eq!(value3, Some(number(3.0)));
}

#[test]
fn set_immediate_upvalue() {
    let src = r#"
fun outer() {
  var x = 420;
  fun inner() {
    x = x + 1;
    return x;
  }
  return inner();
}
var value = outer();"#;
    let mut vm = run(src).unwrap();
    let value_str = vm.get_string("value");

    let value = vm.globals.get(value_str);

    assert_eq!(value, Some(number(421.0)));
}

#[test]
fn immediate_upvalue() {
    let src = r#"
var result = "nothing";
fun outer() {
  var x = 420;
  fun inner() {
    result = x;
  }
  inner();
}
outer();"#;
    let mut vm = run(src).unwrap();
    let result_str = vm.get_string("result");
    let value = vm.globals.get(result_str);

    assert_eq!(value, Some(number(420.0)));
}

#[test]
fn call_native_fn() {
    let src = r#"
        var num = __dummy();"#;
    let mut vm = run(src).unwrap();
    let num_str = vm.get_string("num");
    let value = vm.globals.get(num_str);
    assert_eq!(value, Some(number(420.0)));
}

#[test]
fn call_fn() {
    let src = r#"
        fun add420(num) {
          return num + 420;
        }

        fun add69(num) {
          return num + 69;
        }

        var num = add420(1);
        num = add69(num);
        num = add420(num);"#;
    let mut vm = run(src).unwrap();
    let num_str = vm.get_string("num");
    let value = vm.globals.get(num_str);
    assert_eq!(value, Some(number(910.0)));
}

#[test]
fn print_fn() {
    let src = r#"
        fun bigNoob() {
          print "OH YEAH";
        }

        print bigNoob;"#;
    let _vm = run(src).unwrap();
}

#[test]
fn if_stmt() {
    let src = r#"
        var noob = 420;
        if (420 > 69) { noob = "NICE"; } else { noob = "NOT NICE"; }
"#;
    let mut vm = run(src).unwrap();

    let noob = vm.get_string("noob");
    let top = vm.globals.get(noob);
    assert_eq!(text_of(&vm, top), Some("NICE"));
}

#[test]
fn if_else_stmt() {
    let src = r#"
        var noob = 420;
        if (69 > 420) { noob = "wtf"; } else { noob = "NICE"; }
"#;
    let mut vm = run(src).unwrap();

    let noob = vm.get_string("noob");
    let top = vm.globals.get(noob);
    assert_eq!(text_of(&vm, top), Some("NICE"));
}

#[test]
fn while_loop() {
    let src = r#"
        var noob = 0;
        while (noob < 10) {
          noob = noob + 1;
        }
"#;
    let mut vm = run(src).unwrap();

    let noob = vm.get_string("noob");
    let top = vm.globals.get(noob);
    assert_eq!(top, Some(number(10.0)));
}

#[test]
fn for_loop() {
    let src = r#"
        var noob = 420;
        for (var x = 0; x < 10; x = x + 1) {
          noob = x;
        }
"#;
    let mut vm = run(src).unwrap();

    let noob = vm.get_string("noob");
    let top = vm.globals.get(noob);
    assert_eq!(top, Some(number(9.0)));
}

#[test]
fn locals() {
    let src = r#"
        var global = 420;
        { var x = "HELLO"; x = "NICE"; global = x; }
"#;
    let mut vm = run(src).unwrap();

    let noob = vm.get_string("global");
    let top = vm.globals.get(noob);
    assert_eq!(text_of(&vm, top), Some("NICE"));
}

#[test]
fn string() {
    let src = r#"var noob = "hello" + " sir" + " sir";"#;
    let mut vm = run(src).unwrap();

    let noob = vm.get_string("noob");
    let top = vm.globals.get(noob);
    assert_eq!(text_of(&vm, top), Some("hello sir sir"));
}

#[test]
fn print() {
    let src = r#"print 1 + 2;"#;
    let _vm = run(src).unwrap();
}

#[test]
fn table() {
    let mut table = Table::new();
    let mut interned_strings = Table::new();
    let mut obj_list: ObjList = Default::default();

    let key = ObjString::copy_string(&mut interned_strings, &mut obj_list, "bagel");
    assert_eq!(table.set(key, number(420.0)), true);
    assert_eq!(table.set(key, number(69.0)), false);
    assert_eq!(table.get(key), Some(number(69.0)));
    assert_eq!(table.delete(key), true);
    assert_eq!(table.delete(key), false);

    for obj in obj_list.objects.drain(..) {
        Obj::free(obj)
    }
    Table::free(&mut table);
    Table::free(&mut interned_strings);
}

#[test]
fn ohshit() {
    println!("NOOB: {:?}", std::mem::size_of::<Token>());

    let values = [0, 1, 2, 3, 4, 5];
    println!("NICE: {:?}", values.iter().take(3).rev().collect::<Vec<_>>());

    // 0
    // 1
    // 2 ---
    // 3 ---
    // 4
    // 5
    //
    // 6
    // -2 to adjust for the 2 bytes for the jump offset
    let mut chunk = [0, 1, 2, 3, 4, 5];
    let offset = 2;
    let jump = chunk.len() as u32 - offset - 2;

    chunk[offset as usize] = (jump >> 8) as u8;
    chunk[offset as usize + 1] = jump as u8;

    let val = ((chunk[offset as usize] as u16) << 8) | (chunk[offset as usize + 1] as u16);

    println!("{} NOOB: {:?} JUMP: {} {}", jump, chunk, val, 2u16);
}

#[test]
fn empty_string_hash() {
    #[derive(Debug)]
    struct Test {
        foo: usize,
        bar: usize,
    }

    let test = Box::new(Test { foo: 0, bar: usize::MAX });
    println!("{:?} {:?}", test, test.bar);
    assert_eq!(test.foo, 0);

    println!("{:?}", std::mem::size_of::<NativeFn>());
    println!("{:?}", std::mem::size_of::<Value>());
}
