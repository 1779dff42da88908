use loxide::chunk::{Chunk, OpCode};
use loxide::compile::{Message, Parser, Place, Precedence};
use loxide::{interpret, load};
use loxide::native_fn::NativeFn;
use loxide::obj::{hash_bytes, Function, Obj, ObjList, ObjString, Upvalue};
use loxide::scanner::{number_literals, ScanError, Scanner, TokenKind};
use loxide::table::{Key, Table};
use loxide::value::{is_nan, number_eq, number_lt, number_neg, Value};
use loxide::vm::{ArithOp, Effect, Fault, InterpretError, Output, Signal, VM};

fn num(x: f64) -> Value {
    Value::Number(x.to_bits())
}

fn values_of(src: &str) -> Vec<u64> {
    number_literals(src)
        .iter()
        .map(|&(start, length)| src[start..start + length].parse::<f64>().unwrap().to_bits())
        .collect()
}

fn compute(op: ArithOp, a: u64, b: u64) -> u64 {
    let (a, b) = (f64::from_bits(a), f64::from_bits(b));
    match op {
        ArithOp::Add => (a + b).to_bits(),
        ArithOp::Subtract => (a - b).to_bits(),
        ArithOp::Multiply => (a * b).to_bits(),
        ArithOp::Divide => (a / b).to_bits(),
    }
}

fn texts(printed: Vec<Output>) -> Vec<String> {
    printed
        .into_iter()
        .map(|output| match output {
            Output::Number(bits) => format!("{}", f64::from_bits(bits)),
            Output::Text(bytes) => String::from_utf8(bytes).unwrap(),
        })
        .collect()
}

/// Runs the machine to its end and collects what it prints. The one function
/// of this host gives the sum of its arguments plus its own number.
fn drive(vm: &mut VM, printed: &mut Vec<String>) -> Result<(), InterpretError> {
    loop {
        let mut outputs = Vec::new();
        let ended = vm.run(compute, 1000, &mut outputs);
        printed.extend(texts(outputs));
        match ended? {
            Signal::Done => return Ok(()),
            Signal::Native(id, args) => {
                let mut sum = id as f64;
                for arg in args {
                    match arg {
                        Value::Number(bits) => sum += f64::from_bits(bits),
                        _ => panic!("the host function takes numbers"),
                    }
                }
                vm.resume(num(sum))?;
            }
            _ => {}
        }
    }
}

fn execute(src: &str) -> Result<(VM, Vec<String>), InterpretError> {
    let mut printed = Vec::new();
    let vm = interpret(src, &values_of(src), compute, 10_000_000, &mut printed)?;
    Ok((vm, texts(printed)))
}

fn output_of(src: &str) -> Vec<String> {
    execute(src).unwrap().1
}

fn fault_of(src: &str) -> Fault {
    match execute(src) {
        Err(InterpretError::RuntimeError(fault, _)) => fault,
        Err(other) => panic!("did not fail in the run: {:?}", other),
        Ok(_) => panic!("ran to its end"),
    }
}

fn complaints_of(src: &str) -> Vec<Message> {
    match load(src, &values_of(src)) {
        Err(InterpretError::CompileError(complaints)) => complaints.iter().map(|d| d.message).collect(),
        Err(other) => panic!("unexpected error: {:?}", other),
        Ok(_) => panic!("compiled"),
    }
}

fn global(vm: &mut VM, name: &str) -> Option<Value> {
    let key = vm.get_string(name);
    vm.globals.get(key)
}

fn kinds_of(src: &str) -> Vec<TokenKind> {
    let mut scanner = Scanner::new(src.as_bytes().to_vec());
    let mut kinds = Vec::new();
    loop {
        let token = scanner.scan_token();
        kinds.push(token.kind);
        if token.kind == TokenKind::Eof {
            return kinds;
        }
    }
}

// ---- values ----

#[test]
fn only_nil_and_false_are_falsey() {
    assert!(Value::Nil.is_falsey());
    assert!(Value::Bool(false).is_falsey());
    assert!(!Value::Bool(true).is_falsey());
    assert!(!num(0.0).is_falsey());
    assert!(!num(-0.0).is_falsey());
    assert!(!num(f64::NAN).is_falsey());
    assert!(!Value::Obj(0).is_falsey());
}

#[test]
fn number_patterns_follow_ieee() {
    let samples = [
        0.0,
        -0.0,
        1.0,
        -1.0,
        0.5,
        -0.5,
        420.0,
        1e300,
        -1e300,
        5e-324,
        -5e-324,
        f64::MAX,
        f64::MIN,
        f64::MIN_POSITIVE,
        f64::INFINITY,
        f64::NEG_INFINITY,
        f64::NAN,
        -f64::NAN,
    ];
    for &a in samples.iter() {
        assert_eq!(is_nan(a.to_bits()), a.is_nan());
        assert_eq!(number_neg(a.to_bits()), (-a).to_bits());
        for &b in samples.iter() {
            assert_eq!(number_eq(a.to_bits(), b.to_bits()), a == b, "{} == {}", a, b);
            assert_eq!(number_lt(a.to_bits(), b.to_bits()), a < b, "{} < {}", a, b);
        }
    }
}

#[test]
fn values_are_equal_by_kind() {
    assert!(num(1.0).equals(&num(1.0)));
    assert!(num(0.0).equals(&num(-0.0)));
    assert!(!num(f64::NAN).equals(&num(f64::NAN)));
    assert!(!num(1.0).equals(&Value::Bool(true)));
    assert!(Value::Nil.equals(&Value::Nil));
    assert!(!Value::Nil.equals(&Value::Bool(false)));
    assert!(Value::Bool(true).equals(&Value::Bool(true)));
    assert!(Value::Obj(3).equals(&Value::Obj(3)));
    assert!(!Value::Obj(3).equals(&Value::Obj(4)));
}

// ---- the hash and the interner ----

#[test]
fn hash_is_fnv1a() {
    assert_eq!(hash_bytes(b""), 0x811c9dc5);
    assert_eq!(hash_bytes(b"a"), 0xe40c292c);
    assert_eq!(hash_bytes(b"foobar"), 0xbf9cf968);
}

#[test]
fn equal_bytes_intern_to_one_string() {
    let mut strings = Table::new();
    let mut heap = ObjList::new();
    let bagel = ObjString::copy_string(&mut strings, &mut heap, "bagel");
    let again = ObjString::copy_string(&mut strings, &mut heap, "bagel");
    let other = ObjString::copy_string(&mut strings, &mut heap, "bage");
    assert_eq!(bagel, again);
    assert_ne!(bagel, other);
    assert_eq!(bagel.hash, hash_bytes(b"bagel"));
    assert_eq!(heap.len(), 2);
    assert_eq!(strings.len(), 2);
    assert_eq!(heap.text(bagel.index), Some(&b"bagel"[..]));
    assert_eq!(heap.text(other.index), Some(&b"bage"[..]));
    assert_eq!(strings.find_string(&heap, b"bagel", bagel.hash), Some(bagel));
    assert_eq!(strings.find_string(&heap, b"bagels", hash_bytes(b"bagels")), None);
    assert!(strings.delete(other));
    assert_eq!(strings.len(), 1);
    assert_eq!(strings.find_string(&heap, b"bage", other.hash), None);
}

#[test]
fn the_empty_string_is_interned_too() {
    let mut strings = Table::new();
    let mut heap = ObjList::new();
    let empty = ObjString::copy_string(&mut strings, &mut heap, "");
    assert_eq!(empty, Key { index: 0, hash: 0x811c9dc5 });
    assert_eq!(ObjString::copy_string(&mut strings, &mut heap, ""), empty);
    assert_eq!(heap.text(0), Some(&b""[..]));
}

// ---- the table ----

#[test]
fn table_grows_at_three_quarters() {
    let mut table = Table::new();
    assert_eq!(table.slots(), 0);
    assert_eq!(table.get(Key { index: 0, hash: 0 }), None);
    assert!(!table.delete(Key { index: 0, hash: 0 }));
    for i in 0..6 {
        assert!(table.set(Key { index: i, hash: 7 }, num(i as f64)));
        assert_eq!(table.slots(), 8);
    }
    assert!(table.set(Key { index: 6, hash: 7 }, num(6.0)));
    assert_eq!(table.slots(), 16);
    assert_eq!(table.len(), 7);
    for i in 0..7 {
        assert_eq!(table.get(Key { index: i, hash: 7 }), Some(num(i as f64)));
    }
    assert_eq!(table.get(Key { index: 7, hash: 7 }), None);
    assert_eq!(table.get(Key { index: 0, hash: 8 }), None);
}

#[test]
fn table_keeps_what_was_stored() {
    let mut table = Table::new();
    for i in 0..1000usize {
        let key = Key { index: i, hash: (i as u32).wrapping_mul(2654435761) };
        assert!(table.set(key, num(i as f64)));
    }
    assert_eq!(table.len(), 1000);
    for i in 0..1000usize {
        let key = Key { index: i, hash: (i as u32).wrapping_mul(2654435761) };
        if i % 3 == 0 {
            assert!(table.delete(key));
        } else if i % 3 == 1 {
            assert!(!table.set(key, Value::Nil));
        }
    }
    for i in 0..1000usize {
        let key = Key { index: i, hash: (i as u32).wrapping_mul(2654435761) };
        let expected = match i % 3 {
            0 => None,
            1 => Some(Value::Nil),
            _ => Some(num(i as f64)),
        };
        assert_eq!(table.get(key), expected);
    }
    assert_eq!(table.len(), 666);
    assert!(table.slots().is_power_of_two());
    assert!(table.len() * 4 <= table.slots() * 3);
}

#[test]
fn tombstones_keep_probe_sequences_whole() {
    let mut table = Table::new();
    let keys: Vec<Key> = (0..5).map(|i| Key { index: i, hash: 3 }).collect();
    for key in keys.iter() {
        assert!(table.set(*key, Value::Bool(true)));
    }
    assert!(table.delete(keys[1]));
    assert!(table.delete(keys[2]));
    assert_eq!(table.get(keys[3]), Some(Value::Bool(true)));
    assert_eq!(table.get(keys[4]), Some(Value::Bool(true)));
    assert_eq!(table.get(keys[1]), None);
    // A deleted key is new again, and its entry goes into the first tombstone:
    // the table does not grow.
    assert!(table.set(keys[2], Value::Nil));
    assert!(table.set(keys[1], Value::Nil));
    assert_eq!(table.slots(), 8);
    assert_eq!(table.len(), 5);
    assert!(!table.set(keys[1], Value::Bool(false)));
    assert_eq!(table.get(keys[1]), Some(Value::Bool(false)));
    Table::free(&mut table);
    assert_eq!(table.len(), 0);
    assert_eq!(table.get(keys[3]), None);
}

#[test]
fn tombstones_count_towards_the_load() {
    let mut table = Table::new();
    for i in 0..6 {
        table.set(Key { index: i, hash: i as u32 }, Value::Nil);
    }
    for i in 0..6 {
        assert!(table.delete(Key { index: i, hash: i as u32 }));
    }
    assert_eq!(table.len(), 0);
    assert_eq!(table.slots(), 8);
    // Six tombstones and one more entry are over three quarters of eight.
    assert!(table.set(Key { index: 9, hash: 100 }, Value::Nil));
    assert_eq!(table.slots(), 16);
    assert_eq!(table.len(), 1);
}

// ---- the scanner ----

#[test]
fn scanner_cuts_tokens() {
    assert_eq!(
        kinds_of("(){},.-+;/* ! != = == > >= < <="),
        vec![
            TokenKind::LeftParen, TokenKind::RightParen, TokenKind::LeftBrace, TokenKind::RightBrace, TokenKind::Comma, TokenKind::Dot, TokenKind::Minus, TokenKind::Plus, TokenKind::Semicolon, TokenKind::Slash, TokenKind::Star,
            TokenKind::Bang, TokenKind::BangEqual, TokenKind::Equal, TokenKind::EqualEqual, TokenKind::Greater, TokenKind::GreaterEqual, TokenKind::Less, TokenKind::LessEqual, TokenKind::Eof
        ]
    );
    assert_eq!(
        kinds_of("and class else false for fun if nil or print return super this true var while"),
        vec![TokenKind::And, TokenKind::Class, TokenKind::Else, TokenKind::False, TokenKind::For, TokenKind::Fun, TokenKind::If, TokenKind::Nil, TokenKind::Or, TokenKind::Print, TokenKind::Return, TokenKind::Super, TokenKind::This, TokenKind::True, TokenKind::Var, TokenKind::While, TokenKind::Eof]
    );
    assert_eq!(
        kinds_of("andy _and And fo f forr nil0 x1 _ a_b"),
        vec![
            TokenKind::Identifier, TokenKind::Identifier, TokenKind::Identifier, TokenKind::Identifier, TokenKind::Identifier, TokenKind::Identifier, TokenKind::Identifier, TokenKind::Identifier,
            TokenKind::Identifier, TokenKind::Identifier, TokenKind::Eof
        ]
    );
    assert_eq!(kinds_of("12 3.5 4. .5 \"hi\""), vec![TokenKind::Number, TokenKind::Number, TokenKind::Number, TokenKind::Dot, TokenKind::Dot, TokenKind::Number, TokenKind::String, TokenKind::Eof]);
    assert_eq!(kinds_of("// nothing\n  \t\r\n"), vec![TokenKind::Eof]);
    assert_eq!(kinds_of("1 // one\n/ 2"), vec![TokenKind::Number, TokenKind::Slash, TokenKind::Number, TokenKind::Eof]);
    assert_eq!(kinds_of("@"), vec![TokenKind::Error(ScanError::UnexpectedCharacter), TokenKind::Eof]);
    assert_eq!(kinds_of("\"open"), vec![TokenKind::Error(ScanError::UnterminatedString), TokenKind::Eof]);
    assert_eq!(kinds_of(""), vec![TokenKind::Eof]);
}

#[test]
fn scanner_places_tokens() {
    let src = "var x =\n  \"a\nb\" // done\n+ 12.5;";
    let mut scanner = Scanner::new(src.as_bytes().to_vec());
    let expected = [
        (TokenKind::Var, "var", 1, 0),
        (TokenKind::Identifier, "x", 1, 0),
        (TokenKind::Equal, "=", 1, 0),
        (TokenKind::String, "\"a\nb\"", 3, 0),
        (TokenKind::Plus, "+", 4, 0),
        (TokenKind::Number, "12.5", 4, 0),
        (TokenKind::Semicolon, ";", 4, 1),
        (TokenKind::Eof, "", 4, 1),
        (TokenKind::Eof, "", 4, 1),
    ];
    for (kind, text, line, ordinal) in expected.iter() {
        let token = scanner.scan_token();
        assert_eq!(token.kind, *kind);
        assert_eq!(&src[token.start..token.start + token.length], *text);
        assert_eq!(token.line, *line);
        assert_eq!(token.ordinal, *ordinal);
    }
}

#[test]
fn number_literals_are_listed_in_order() {
    assert_eq!(number_literals("var a = 1; print 22.5 + a3 * 4.;"), vec![(8, 1), (17, 4), (29, 1)]);
    assert_eq!(number_literals("\"12\" // 13\n"), vec![]);
    assert_eq!(number_literals(""), vec![]);
}

// ---- the compiler ----

#[test]
fn precedences_are_in_order() {
    let order = [
        Precedence::Lowest,
        Precedence::Assignment,
        Precedence::Or,
        Precedence::And,
        Precedence::Equality,
        Precedence::Comparison,
        Precedence::Term,
        Precedence::Factor,
        Precedence::Unary,
        Precedence::Call,
        Precedence::Primary,
    ];
    for (i, p) in order.iter().enumerate() {
        assert_eq!(p.level() as usize, i);
        assert_eq!(p.next(), order[(i + 1).min(10)]);
    }
}

fn compiled(src: &str) -> (Function, ObjList) {
    let mut parser = Parser::new(src, &values_of(src), Table::new(), ObjList::new());
    assert!(parser.compile(), "{:?}", parser.diagnostics);
    let (function, heap, _) = parser.finish();
    (function, heap)
}

fn op(code: OpCode) -> u8 {
    code.to_byte()
}

#[test]
fn compiler_writes_expressions() {
    let (function, _) = compiled("print 1 + 2 * 3;");
    assert_eq!(
        function.chunk.code,
        vec![
            op(OpCode::Constant), 0, op(OpCode::Constant), 1, op(OpCode::Constant), 2, op(OpCode::Multiply),
            op(OpCode::Add), op(OpCode::Print), op(OpCode::Nil), op(OpCode::Return)
        ]
    );
    assert_eq!(function.chunk.constants, vec![num(1.0), num(2.0), num(3.0)]);
    assert_eq!(function.chunk.lines, vec![1; 11]);
    assert_eq!(function.arity, 0);
    assert_eq!(function.name, None);

    let (function, _) = compiled("!(1 >= 2) == -3 <= 4 != nil;");
    assert_eq!(
        function.chunk.code,
        vec![
            op(OpCode::Constant), 0, op(OpCode::Constant), 1, op(OpCode::Less), op(OpCode::Not), op(OpCode::Not),
            op(OpCode::Constant), 2, op(OpCode::Negate), op(OpCode::Constant), 3, op(OpCode::Greater),
            op(OpCode::Not), op(OpCode::Equal), op(OpCode::Nil), op(OpCode::Equal), op(OpCode::Not),
            op(OpCode::Pop), op(OpCode::Nil), op(OpCode::Return)
        ]
    );
}

#[test]
fn compiler_writes_jumps() {
    let (function, _) = compiled("if (true) print 1; else print 2;");
    assert_eq!(
        function.chunk.code,
        vec![
            op(OpCode::True),
            op(OpCode::JumpIfFalse), 0, 7,
            op(OpCode::Pop),
            op(OpCode::Constant), 0,
            op(OpCode::Print),
            op(OpCode::Jump), 0, 4,
            op(OpCode::Pop),
            op(OpCode::Constant), 1,
            op(OpCode::Print),
            op(OpCode::Nil),
            op(OpCode::Return)
        ]
    );
    let (function, _) = compiled("while (false) nil;");
    assert_eq!(
        function.chunk.code,
        vec![
            op(OpCode::False),
            op(OpCode::JumpIfFalse), 0, 6,
            op(OpCode::Pop),
            op(OpCode::Nil),
            op(OpCode::Pop),
            op(OpCode::Loop), 0, 10,
            op(OpCode::Pop),
            op(OpCode::Nil),
            op(OpCode::Return)
        ]
    );
    let (function, _) = compiled("true and false or nil;");
    assert_eq!(
        function.chunk.code,
        vec![
            op(OpCode::True),
            op(OpCode::JumpIfFalse), 0, 2,
            op(OpCode::Pop),
            op(OpCode::False),
            op(OpCode::JumpIfFalse), 0, 3,
            op(OpCode::Jump), 0, 2,
            op(OpCode::Pop),
            op(OpCode::Nil),
            op(OpCode::Pop),
            op(OpCode::Nil),
            op(OpCode::Return)
        ]
    );
}

#[test]
fn compiler_resolves_names() {
    let (function, heap) = compiled("var a = 1; { var b = a; b = b; a = b; }");
    assert_eq!(
        function.chunk.code,
        vec![
            op(OpCode::Constant), 1,
            op(OpCode::DefineGlobal), 0,
            op(OpCode::GetGlobal), 2,
            op(OpCode::GetLocal), 1,
            op(OpCode::SetLocal), 1,
            op(OpCode::Pop),
            op(OpCode::GetLocal), 1,
            op(OpCode::SetGlobal), 3,
            op(OpCode::Pop),
            op(OpCode::Pop),
            op(OpCode::Nil),
            op(OpCode::Return)
        ]
    );
    // The name is interned once, and made a constant at each use.
    assert_eq!(function.chunk.constants[0], function.chunk.constants[2]);
    assert_eq!(function.chunk.constants[0], function.chunk.constants[3]);
    assert_eq!(function.chunk.constants[0].as_bytes(&heap), Some(&b"a"[..]));
}

#[test]
fn compiler_writes_closures() {
    let (script, heap) = compiled("fun outer(p) { var x; fun inner() { return x + p; } return inner; }");
    assert_eq!(
        script.chunk.code,
        vec![op(OpCode::Closure), 1, op(OpCode::DefineGlobal), 0, op(OpCode::Nil), op(OpCode::Return)]
    );
    let outer = match script.chunk.constants[1] {
        Value::Obj(at) => match &heap.objects[at] {
            Obj::Function(function) => function,
            other => panic!("not a function: {:?}", other),
        },
        other => panic!("not an object: {:?}", other),
    };
    assert_eq!(outer.arity, 1);
    assert_eq!(outer.upvalue_count, 0);
    assert_eq!(heap.text(outer.name.unwrap()), Some(&b"outer"[..]));
    assert_eq!(
        outer.chunk.code,
        vec![
            op(OpCode::Nil),
            op(OpCode::Closure), 0, 1, 2, 1, 1,
            op(OpCode::GetLocal), 3,
            op(OpCode::Return),
            op(OpCode::Nil),
            op(OpCode::Return)
        ]
    );
    let inner = match outer.chunk.constants[0] {
        Value::Obj(at) => match &heap.objects[at] {
            Obj::Function(function) => function,
            other => panic!("not a function: {:?}", other),
        },
        other => panic!("not an object: {:?}", other),
    };
    assert_eq!(inner.arity, 0);
    assert_eq!(inner.upvalue_count, 2);
    assert_eq!(
        inner.chunk.code,
        vec![
            op(OpCode::GetUpvalue), 0,
            op(OpCode::GetUpvalue), 1,
            op(OpCode::Add),
            op(OpCode::Return),
            op(OpCode::Nil),
            op(OpCode::Return)
        ]
    );
}

#[test]
fn compiler_complains() {
    assert_eq!(complaints_of("print 1")[0], Message::ExpectSemicolonAfterValue);
    assert_eq!(complaints_of("1 +;")[0], Message::ExpectExpression);
    assert_eq!(complaints_of("(1;")[0], Message::ExpectParenAfterExpression);
    assert_eq!(complaints_of("1 = 2;")[0], Message::InvalidAssignmentTarget);
    assert_eq!(complaints_of("var a; var b; a + b = 1;")[0], Message::InvalidAssignmentTarget);
    assert_eq!(complaints_of("return 1;")[0], Message::ReturnFromScript);
    assert_eq!(complaints_of("{ var a; var a; }")[0], Message::AlreadyDeclared);
    assert_eq!(complaints_of("{ var a = a; }")[0], Message::OwnInitializer);
    assert_eq!(complaints_of("var 1;")[0], Message::ExpectVariableName);
    assert_eq!(complaints_of("var a")[0], Message::ExpectSemicolonAfterDeclaration);
    assert_eq!(complaints_of("fun (){}")[0], Message::ExpectFunctionName);
    assert_eq!(complaints_of("fun f{}")[0], Message::ExpectParenAfterName);
    assert_eq!(complaints_of("fun f(1){}")[0], Message::ExpectParameterName);
    assert_eq!(complaints_of("fun f(a{}")[0], Message::ExpectParenAfterParameters);
    assert_eq!(complaints_of("fun f()")[0], Message::ExpectBraceBeforeBody);
    assert_eq!(complaints_of("{ 1;")[0], Message::ExpectBraceAfterBlock);
    assert_eq!(complaints_of("if 1")[0], Message::ExpectParenAfterIf);
    assert_eq!(complaints_of("if (1 2;")[0], Message::ExpectParenAfterCondition);
    assert_eq!(complaints_of("while 1")[0], Message::ExpectParenAfterWhile);
    assert_eq!(complaints_of("for 1")[0], Message::ExpectParenAfterFor);
    assert_eq!(complaints_of("for (;1 2")[0], Message::ExpectSemicolonAfterCondition);
    assert_eq!(complaints_of("for (;;1 {}")[0], Message::ExpectParenAfterClauses);
    assert_eq!(complaints_of("f(1;")[0], Message::ExpectParenAfterArguments);
    assert_eq!(complaints_of("1")[0], Message::ExpectSemicolonAfterExpression);
    assert_eq!(complaints_of("fun f() { return 1 }")[0], Message::ExpectSemicolonAfterReturn);
    assert_eq!(complaints_of("var a = @;")[0], Message::UnexpectedCharacter);
    assert_eq!(complaints_of("var a = \"x;")[0], Message::UnterminatedString);
    assert_eq!(complaints_of("class A {}")[0], Message::ExpectExpression);
    // One complaint for each statement that is wrong.
    assert_eq!(
        complaints_of("print 1 print 2; var = 3; print 4;"),
        vec![Message::ExpectSemicolonAfterValue, Message::ExpectVariableName]
    );
}

#[test]
fn compiler_places_complaints() {
    let src = "var a = 1;\nprint a\nprint 2;\n";
    match load(src, &values_of(src)) {
        Err(InterpretError::CompileError(complaints)) => {
            assert_eq!(complaints.len(), 1);
            assert_eq!(complaints[0].line, 3);
            assert_eq!(complaints[0].place, Place::At(19, 5));
            assert_eq!(complaints[0].message, Message::ExpectSemicolonAfterValue);
        }
        other => panic!("unexpected: {:?}", other.err()),
    }
    match load("print", &[]) {
        Err(InterpretError::CompileError(complaints)) => {
            assert_eq!(complaints.len(), 1);
            assert_eq!(complaints[0].place, Place::End);
            assert_eq!(complaints[0].message, Message::ExpectExpression);
        }
        other => panic!("unexpected: {:?}", other.err()),
    }
    match load("\n\n#", &[]) {
        Err(InterpretError::CompileError(complaints)) => {
            assert_eq!(complaints[0].line, 3);
            assert_eq!(complaints[0].place, Place::Unplaced);
            assert_eq!(complaints[0].message, Message::UnexpectedCharacter);
        }
        other => panic!("unexpected: {:?}", other.err()),
    }
}

#[test]
fn compiler_keeps_its_limits() {
    let mut many_constants = String::new();
    for i in 0..256 {
        many_constants.push_str(&format!("{};", i));
    }
    assert!(load(&many_constants, &values_of(&many_constants)).is_ok());
    many_constants.push_str("256;");
    assert_eq!(complaints_of(&many_constants), vec![Message::TooManyConstants]);

    let mut many_locals = String::from("{");
    for i in 0..255 {
        many_locals.push_str(&format!("var v{};", i));
    }
    let mut fits = many_locals.clone();
    fits.push('}');
    assert!(load(&fits, &[]).is_ok());
    many_locals.push_str("var last;}");
    assert_eq!(complaints_of(&many_locals), vec![Message::TooManyLocals]);

    let parameters: Vec<String> = (0..255).map(|i| format!("p{}", i)).collect();
    let fits = format!("fun f({}) {{}}", parameters.join(","));
    assert!(load(&fits, &[]).is_ok());
    let too_many = format!("fun f({},q) {{}}", parameters.join(","));
    assert_eq!(complaints_of(&too_many), vec![Message::TooManyParameters]);

    let arguments: Vec<&str> = (0..255).map(|_| "nil").collect();
    let fits = format!("f({});", arguments.join(","));
    assert!(load(&fits, &[]).is_ok());
    let too_many = format!("f({},nil);", arguments.join(","));
    assert_eq!(complaints_of(&too_many), vec![Message::TooManyArguments]);

    // A statement `nil;` is two bytes of code. The jump over the body of an
    // `if` also passes a pop and the jump over the `else`; the jump back of a
    // `while` also passes the condition and itself.
    let fits = format!("if (true) {{ {} }}", "nil;".repeat(32765));
    assert!(load(&fits, &[]).is_ok());
    let too_far = format!("if (true) {{ {} }}", "nil;".repeat(32766));
    assert_eq!(complaints_of(&too_far), vec![Message::JumpTooLong]);
    let fits = format!("while (true) {{ {} }}", "nil;".repeat(32763));
    assert!(load(&fits, &[]).is_ok());
    let too_large = format!("while (true) {{ {} }}", "nil;".repeat(32764));
    assert_eq!(complaints_of(&too_large), vec![Message::LoopTooLong]);
}

#[test]
fn number_literals_need_their_values() {
    assert!(load("print 1 + 2;", &[1, 2]).is_ok());
    match load("print 1 + 2;", &[1]) {
        Err(InterpretError::CompileError(complaints)) => {
            assert_eq!(complaints.len(), 1);
            assert_eq!(complaints[0].message, Message::NumberWithoutValue);
            assert_eq!(complaints[0].place, Place::At(10, 1));
        }
        other => panic!("unexpected: {:?}", other.err()),
    }
    // The values are taken by the place of the literal in the source, also
    // behind a part that did not compile.
    let (function, _) = {
        let mut parser = Parser::new("print 5; print 6;", &[50, 60], Table::new(), ObjList::new());
        assert!(parser.compile());
        let (function, heap, _) = parser.finish();
        (function, heap)
    };
    assert_eq!(function.chunk.constants, vec![Value::Number(50), Value::Number(60)]);
}

// ---- the machine ----

#[test]
fn machine_starts_at_the_script() {
    let vm = load("print 1;", &values_of("print 1;")).unwrap();
    assert_eq!(vm.frames.len(), 1);
    assert_eq!(vm.frames[0].ip, 0);
    assert_eq!(vm.frames[0].base, 0);
    assert_eq!(vm.stack, vec![Value::Obj(vm.frames[0].closure)]);
    assert!(vm.open_upvalues.is_empty());
    match vm.decide() {
        Effect::Replace { width: 2, dropped: 0, pushed: Some(value) } => assert_eq!(value, num(1.0)),
        other => panic!("unexpected: {:?}", other),
    }
}

#[test]
fn machine_prints() {
    assert_eq!(output_of("print 1 + 2;"), vec!["3"]);
    assert_eq!(output_of("print nil; print true; print false;"), vec!["nil", "true", "false"]);
    assert_eq!(output_of("print \"\"; print \"a b\";"), vec!["", "a b"]);
    assert_eq!(output_of("fun bigNoob() {} print bigNoob;"), vec!["<fn bigNoob>"]);
    assert_eq!(output_of("print __dummy;"), vec!["<native fn>"]);
    assert_eq!(output_of("print 0.5; print -2; print 10 / 4;"), vec!["0.5", "-2", "2.5"]);
}

#[test]
fn machine_signals_what_it_leaves_to_the_host() {
    let src = "print 6 * 7;";
    let mut vm = load(src, &values_of(src)).unwrap();
    assert!(matches!(vm.step(), Ok(Signal::Continue)));
    assert!(matches!(vm.step(), Ok(Signal::Continue)));
    let before = vm.stack.clone();
    // The question is asked again until it is answered.
    for _ in 0..2 {
        match vm.step() {
            Ok(Signal::Arith(ArithOp::Multiply, a, b)) => {
                assert_eq!(a, 6f64.to_bits());
                assert_eq!(b, 7f64.to_bits());
            }
            other => panic!("unexpected: {:?}", other),
        }
        assert_eq!(vm.stack, before);
    }
    assert!(matches!(vm.resume(num(42.0)), Ok(Signal::Continue)));
    assert_eq!(vm.stack.len(), 2);
    assert_eq!(vm.stack[1], num(42.0));
    match vm.step() {
        Ok(Signal::Print(Output::Number(bits))) => assert_eq!(bits, 42f64.to_bits()),
        other => panic!("unexpected: {:?}", other),
    }
    assert!(matches!(vm.step(), Ok(Signal::Continue)));
    assert!(matches!(vm.step(), Ok(Signal::Done)));
    assert!(vm.frames.is_empty());
    assert!(vm.stack.is_empty());
    assert!(matches!(vm.step(), Ok(Signal::Done)));
    assert_eq!(vm.decide(), Effect::Halt);
}

#[test]
fn machine_computes() {
    assert_eq!(output_of("print 1 + 2 * 3; print (1 + 2) * 3; print 8 / 2 - 1; print -(3 - 5);"), vec![
        "7", "9", "3", "2"
    ]);
    assert_eq!(
        output_of("print 1 < 2; print 2 < 1; print 1 <= 1; print 1 > 2; print 2 >= 2; print 1 == 1; print 1 != 1;"),
        vec!["true", "false", "true", "false", "true", "true", "false"]
    );
    assert_eq!(output_of("print 0 == -0; print 0/0 == 0/0; print 1/0 > 99999;"), vec!["true", "false", "true"]);
    assert_eq!(
        output_of("print nil == nil; print nil == false; print true == true; print 1 == \"1\"; print \"a\" == \"b\";"),
        vec!["true", "false", "true", "false", "false"]
    );
    // Strings are equal exactly when their bytes are.
    assert_eq!(output_of("print \"ab\" == \"a\" + \"b\"; print \"a\" + \"\" == \"a\";"), vec!["true", "true"]);
}

#[test]
fn machine_tests_conditions_by_truthiness() {
    assert_eq!(
        output_of("print !nil; print !false; print !true; print !0; print !\"\"; print !!nil;"),
        vec!["true", "true", "false", "false", "false", "false"]
    );
    assert_eq!(
        output_of(
            "if (0) print \"zero\"; if (\"\") print \"empty\"; if (nil) print \"nil\"; else print \"not nil\"; \
             if (false) print \"false\"; else print \"not false\";"
        ),
        vec!["zero", "empty", "not nil", "not false"]
    );
    assert_eq!(
        output_of(
            "print nil or 1; print false or nil; print 0 or 1; print nil and 1; print 0 and 1; print \"\" and false;"
        ),
        vec!["1", "nil", "0", "nil", "1", "false"]
    );
    assert_eq!(output_of("var n = 3; while (n) { print n; n = n - 1; if (n == 0) n = nil; }"), vec!["3", "2", "1"]);
}

#[test]
fn machine_runs_loops_and_calls() {
    assert_eq!(output_of("for (var i = 0; i < 3; i = i + 1) print i;"), vec!["0", "1", "2"]);
    assert_eq!(output_of("var i = 0; for (; i < 2;) { print i; i = i + 1; } print i;"), vec!["0", "1", "2"]);
    assert_eq!(
        output_of("fun fib(n) { if (n < 2) return n; return fib(n - 1) + fib(n - 2); } print fib(15);"),
        vec!["610"]
    );
    assert_eq!(output_of("fun f() {} print f();"), vec!["nil"]);
    assert_eq!(output_of("fun f(a, b, c) { return a + b + c; } print f(\"x\", \"y\", \"z\");"), vec!["xyz"]);
    assert_eq!(output_of("var a = \"global\"; { var a = \"local\"; print a; } print a;"), vec!["local", "global"]);
    assert_eq!(output_of("var a = 1; var a = 2; print a; a = a + 1; print a;"), vec!["2", "3"]);
}

#[test]
fn machine_keeps_captured_variables() {
    // One variable, two closures: both see each other's writes, on the stack
    // and after the variable has left it.
    let src = "var get; var set; \
               fun make() { var x = 1; fun g() { return x; } fun s(v) { x = v; } get = g; set = s; \
                            x = 2; print g(); s(3); print x; } \
               make(); print get(); set(4); print get();";
    assert_eq!(output_of(src), vec!["2", "3", "3", "4"]);
    // Each call of the enclosing function has its own variable.
    let src = "fun counter() { var n = 0; fun next() { n = n + 1; return n; } return next; } \
               var a = counter(); var b = counter(); print a(); print a(); print b(); print a();";
    assert_eq!(output_of(src), vec!["1", "2", "1", "3"]);
    // A variable captured through two levels, and one of a block.
    let src = "fun outer() { var x = \"x\"; fun middle() { fun inner() { return x; } return inner; } return middle; } \
               print outer()()(); \
               var f; { var y = \"y\"; fun g() { return y; } f = g; } print f();";
    assert_eq!(output_of(src), vec!["x", "y"]);
    // Each round of a loop body has its own variable.
    let src = "var first; var second; \
               for (var i = 0; i < 2; i = i + 1) { var j = i * 10; fun f() { return j; } \
                 if (i == 0) first = f; else second = f; } \
               print first(); print second();";
    assert_eq!(output_of(src), vec!["0", "10"]);
}

#[test]
fn closures_have_the_upvalues_their_function_counts() {
    let src = "fun outer() { var a = 1; var b = 2; fun inner() { return a + b; } return inner; } var f = outer();";
    let (mut vm, _) = execute(src).unwrap();
    let f = global(&mut vm, "f").unwrap();
    let closure = match f {
        Value::Obj(at) => match &vm.heap.objects[at] {
            Obj::Closure(closure) => closure,
            other => panic!("not a closure: {:?}", other),
        },
        other => panic!("not an object: {:?}", other),
    };
    let function = match &vm.heap.objects[closure.function] {
        Obj::Function(function) => function,
        other => panic!("not a function: {:?}", other),
    };
    assert_eq!(function.upvalue_count, 2);
    assert_eq!(closure.upvalues.len(), 2);
    assert!(matches!(vm.heap.objects[closure.upvalues[0]], Obj::Upvalue(Upvalue::Closed(v)) if v == num(1.0)));
    assert!(matches!(vm.heap.objects[closure.upvalues[1]], Obj::Upvalue(Upvalue::Closed(v)) if v == num(2.0)));
    assert!(vm.open_upvalues.is_empty());
}

#[test]
fn machine_stops_on_faults() {
    assert_eq!(fault_of("-\"a\";"), Fault::OperandMustBeNumber);
    assert_eq!(fault_of("-nil;"), Fault::OperandMustBeNumber);
    assert_eq!(fault_of("1 - \"a\";"), Fault::OperandsMustBeNumbers);
    assert_eq!(fault_of("\"a\" * 2;"), Fault::OperandsMustBeNumbers);
    assert_eq!(fault_of("nil / 2;"), Fault::OperandsMustBeNumbers);
    assert_eq!(fault_of("1 < \"a\";"), Fault::OperandsMustBeNumbers);
    assert_eq!(fault_of("true > 1;"), Fault::OperandsMustBeNumbers);
    assert_eq!(fault_of("\"a\" - \"b\";"), Fault::OperandsMustBeNumbers);
    assert_eq!(fault_of("1 + \"a\";"), Fault::OperandsMustBeNumbersOrStrings);
    assert_eq!(fault_of("\"a\" + nil;"), Fault::OperandsMustBeNumbersOrStrings);
    assert_eq!(fault_of("var a = 1; a();"), Fault::NotCallable);
    assert_eq!(fault_of("\"text\"();"), Fault::NotCallable);
    assert_eq!(fault_of("nil();"), Fault::NotCallable);
    assert_eq!(fault_of("fun f(a) {} f();"), Fault::WrongArity { expected: 1, got: 0 });
    assert_eq!(fault_of("fun f() {} f(1, 2);"), Fault::WrongArity { expected: 0, got: 2 });
    assert_eq!(fault_of("fun f() { f(); } f();"), Fault::StackOverflow);
    assert!(matches!(fault_of("print x;"), Fault::UndefinedVariable(_)));
    assert!(matches!(fault_of("x = 1;"), Fault::UndefinedVariable(_)));
}

#[test]
fn faults_leave_the_globals_alone() {
    let src = "var a = 1;\nfun f() {\n  a = 2;\n  return a - \"x\";\n}\nfun g() {\n  return f();\n}\nvar b = g();";
    let mut vm = load(src, &values_of(src)).unwrap();
    let mut printed = Vec::new();
    match drive(&mut vm, &mut printed) {
        Err(InterpretError::RuntimeError(fault, trace)) => {
            assert_eq!(fault, Fault::OperandsMustBeNumbers);
            let lines: Vec<u32> = trace.iter().map(|t| t.line).collect();
            assert_eq!(lines, vec![4, 7, 9]);
            let names: Vec<Option<&[u8]>> =
                trace.iter().map(|t| t.function.and_then(|at| vm.heap.text(at))).collect();
            assert_eq!(names, vec![Some(&b"f"[..]), Some(&b"g"[..]), None]);
        }
        other => panic!("unexpected: {:?}", other),
    }
    assert!(vm.stack.is_empty());
    assert!(vm.frames.is_empty());
    assert!(vm.open_upvalues.is_empty());
    assert_eq!(global(&mut vm, "a"), Some(num(2.0)));
    assert_eq!(global(&mut vm, "b"), None);
    assert!(matches!(vm.step(), Ok(Signal::Done)));
}

#[test]
fn undefined_variable_is_named() {
    let src = "var a; print a; print missing;";
    let mut vm = load(src, &[]).unwrap();
    let mut printed = Vec::new();
    match drive(&mut vm, &mut printed) {
        Err(InterpretError::RuntimeError(Fault::UndefinedVariable(name), _)) => {
            assert_eq!(vm.heap.text(name), Some(&b"missing"[..]));
        }
        other => panic!("unexpected: {:?}", other),
    }
    assert_eq!(printed, vec!["nil"]);
    // Assignment does not make a global.
    let src = "missing = 1;";
    let mut vm = load(src, &values_of(src)).unwrap();
    assert!(drive(&mut vm, &mut printed).is_err());
    assert_eq!(global(&mut vm, "missing"), None);
}

#[test]
fn host_functions_are_called_through_signals() {
    let src = "print add(1, 2, 3); print add();";
    let mut vm = load(src, &values_of(src)).unwrap();
    assert!(vm.define_native("add", 100));
    let mut printed = Vec::new();
    drive(&mut vm, &mut printed).unwrap();
    assert_eq!(printed, vec!["106", "100"]);

    let src = "var x = host(\"a\", nil);";
    let mut vm = load(src, &[]).unwrap();
    assert!(vm.define_native("host", 7));
    loop {
        match vm.step().unwrap() {
            Signal::Continue => {}
            Signal::Native(id, args) => {
                assert_eq!(id, 7);
                assert_eq!(args.len(), 2);
                assert_eq!(args[0].as_bytes(&vm.heap), Some(&b"a"[..]));
                assert_eq!(args[1], Value::Nil);
                assert!(matches!(vm.resume(Value::Bool(true)), Ok(Signal::Continue)));
            }
            Signal::Done => break,
            other => panic!("unexpected: {:?}", other),
        }
    }
    assert_eq!(global(&mut vm, "x"), Some(Value::Bool(true)));
    assert_eq!(NativeFn::Dummy.call(), Some(num(420.0)));
    assert_eq!(NativeFn::Host(1).call(), None);
}

#[test]
fn an_answer_nobody_asked_for_stops_the_machine() {
    let mut vm = load("print 1;", &values_of("print 1;")).unwrap();
    match vm.resume(Value::Nil) {
        Err(InterpretError::RuntimeError(fault, trace)) => {
            assert_eq!(fault, Fault::BadResume);
            assert_eq!(trace.len(), 1);
        }
        other => panic!("unexpected: {:?}", other),
    }
    let src = "1 + 2;";
    let mut vm = load(src, &values_of(src)).unwrap();
    vm.step().unwrap();
    vm.step().unwrap();
    assert!(matches!(vm.step(), Ok(Signal::Arith(ArithOp::Add, _, _))));
    assert!(matches!(vm.resume(Value::Nil), Err(InterpretError::RuntimeError(Fault::BadResume, _))));
}

fn machine_for(code: Vec<u8>, constants: Vec<Value>) -> VM {
    let lines = vec![1; code.len()];
    let function = Function { arity: 0, upvalue_count: 0, chunk: Chunk { code, constants, lines }, name: None };
    VM::new(function, ObjList::new(), Table::new())
}

#[test]
fn code_that_no_compiler_writes_is_a_fault() {
    let bad = |code: Vec<u8>, constants: Vec<Value>| {
        let mut vm = machine_for(code, constants);
        loop {
            match vm.step() {
                Ok(Signal::Continue) => {}
                Err(InterpretError::RuntimeError(fault, _)) => return fault,
                other => panic!("unexpected: {:?}", other),
            }
        }
    };
    assert_eq!(bad(vec![], vec![]), Fault::BadCode);
    assert_eq!(bad(vec![200], vec![]), Fault::BadCode);
    assert_eq!(bad(vec![op(OpCode::Constant)], vec![]), Fault::BadCode);
    assert_eq!(bad(vec![op(OpCode::Constant), 0], vec![]), Fault::BadCode);
    assert_eq!(bad(vec![op(OpCode::Pop), op(OpCode::Pop)], vec![]), Fault::BadCode);
    assert_eq!(bad(vec![op(OpCode::GetLocal), 1], vec![]), Fault::BadCode);
    assert_eq!(bad(vec![op(OpCode::GetUpvalue), 0], vec![]), Fault::BadCode);
    assert_eq!(bad(vec![op(OpCode::GetGlobal), 0], vec![Value::Nil]), Fault::BadCode);
    assert_eq!(bad(vec![op(OpCode::Jump), 0, 1], vec![]), Fault::BadCode);
    assert_eq!(bad(vec![op(OpCode::Loop), 0, 4], vec![]), Fault::BadCode);
    assert_eq!(bad(vec![op(OpCode::Closure), 0], vec![Value::Nil]), Fault::BadCode);
    assert_eq!(bad(vec![op(OpCode::Call), 1], vec![]), Fault::BadCode);
    let mut pushes = Vec::new();
    for _ in 0..16384 {
        pushes.push(op(OpCode::Nil));
    }
    assert_eq!(bad(pushes, vec![]), Fault::StackOverflow);
}

// ---- interpreting from source to end ----

fn interpreted(src: &str, budget: u64) -> Result<VM, InterpretError> {
    let mut printed = Vec::new();
    interpret(src, &values_of(src), compute, budget, &mut printed)
}

#[test]
fn interpret_reports_what_stops_a_program() {
    for (src, fault) in [
        ("-nil;", Fault::OperandMustBeNumber),
        ("1 - \"x\";", Fault::OperandsMustBeNumbers),
        ("\"a\" * 2;", Fault::OperandsMustBeNumbers),
        ("true / 1;", Fault::OperandsMustBeNumbers),
        ("nil < 1;", Fault::OperandsMustBeNumbers),
        ("\"a\" > \"b\";", Fault::OperandsMustBeNumbers),
    ] {
        match interpreted(src, 1000) {
            Err(InterpretError::RuntimeError(found, trace)) => {
                assert_eq!(found, fault);
                assert_eq!(trace.len(), 1);
                assert_eq!(trace[0].line, 1);
                assert_eq!(trace[0].function, None);
            }
            other => panic!("{}: {:?}", src, other.err()),
        }
    }
    assert!(matches!(interpreted("print 1", 1000), Err(InterpretError::CompileError(_))));
}

#[test]
fn interpret_stops_when_the_steps_are_used_up() {
    assert!(matches!(interpreted("while (true) {}", 1000), Err(InterpretError::OutOfSteps)));
    assert!(matches!(interpreted("var a = 1;", 0), Err(InterpretError::OutOfSteps)));
    // `var a = 1;` is four instructions: the constant, the definition, and
    // the return of nil.
    assert!(matches!(interpreted("var a = 1;", 3), Err(InterpretError::OutOfSteps)));
    let mut vm = interpreted("var a = 1;", 4).unwrap();
    assert!(vm.frames.is_empty());
    assert!(vm.stack.is_empty());
    assert_eq!(global(&mut vm, "a"), Some(num(1.0)));
}

#[test]
fn interpret_collects_what_is_printed() {
    let mut printed = vec![Output::Number(7)];
    let src = "print 1 + 2; print \"x\"; print nil;";
    interpret(src, &values_of(src), compute, 1000, &mut printed).unwrap();
    assert_eq!(texts(printed.split_off(1)), vec!["3", "x", "nil"]);
    // What was printed before the fault is kept.
    let mut printed = Vec::new();
    let src = "print 1; print -nil; print 2;";
    assert!(interpret(src, &values_of(src), compute, 1000, &mut printed).is_err());
    assert_eq!(texts(printed), vec!["1"]);
}

#[test]
fn equal_strings_end_as_one_object() {
    let src = "var a = \"ab\"; var c = \"ab\"; var b = \"a\" + \"b\"; var lit = a == c; var cat = a == b;";
    let mut vm = interpreted(src, 1000).unwrap();
    let a = global(&mut vm, "a").unwrap();
    assert!(matches!(a, Value::Obj(_)));
    assert_eq!(global(&mut vm, "b"), Some(a));
    assert_eq!(global(&mut vm, "c"), Some(a));
    assert_eq!(Value::Obj(vm.get_string("ab").index), a);
    assert_eq!(global(&mut vm, "lit"), Some(Value::Bool(true)));
    assert_eq!(global(&mut vm, "cat"), Some(Value::Bool(true)));
}

#[test]
fn truthiness_decides_the_globals() {
    let src = "var a=1; var b=1; var c=1; var d=1; if (0) a=2; if (\"\") b=2; if (nil) c=2; if (false) d=2; \
               var e = !0; var f = nil or 3; var g = 0 and 4; var w=1; while (nil) w=2;";
    let mut vm = interpreted(src, 1000).unwrap();
    assert_eq!(global(&mut vm, "a"), Some(num(2.0)));
    assert_eq!(global(&mut vm, "b"), Some(num(2.0)));
    assert_eq!(global(&mut vm, "c"), Some(num(1.0)));
    assert_eq!(global(&mut vm, "d"), Some(num(1.0)));
    assert_eq!(global(&mut vm, "e"), Some(Value::Bool(false)));
    assert_eq!(global(&mut vm, "f"), Some(num(3.0)));
    assert_eq!(global(&mut vm, "g"), Some(num(4.0)));
    assert_eq!(global(&mut vm, "w"), Some(num(1.0)));
}

#[test]
fn a_local_is_no_global() {
    let src = "var global = 420; { var x = \"HELLO\"; x = \"NICE\"; global = x; }";
    let mut vm = interpreted(src, 1000).unwrap();
    let value = global(&mut vm, "global");
    assert_eq!(value.unwrap().as_bytes(&vm.heap), Some(&b"NICE"[..]));
    assert_eq!(global(&mut vm, "x"), None);
}

#[test]
fn the_loaded_machine_has_the_built_in_function() {
    let mut vm = load("var a;", &[]).unwrap();
    assert_eq!(vm.globals.len(), 1);
    let native = global(&mut vm, "__dummy").unwrap();
    match native {
        Value::Obj(at) => assert!(matches!(vm.heap.objects[at], Obj::Native(NativeFn::Dummy))),
        other => panic!("not an object: {:?}", other),
    }
    // The strings of the compilation are the interner's.
    let before = vm.heap.len();
    vm.get_string("a");
    assert_eq!(vm.heap.len(), before);
    // The script has no name and takes nothing.
    match &vm.heap.objects[vm.frames[0].function] {
        Obj::Function(script) => {
            assert_eq!(script.name, None);
            assert_eq!(script.arity, 0);
            assert_eq!(script.upvalue_count, 0);
        }
        other => panic!("not a function: {:?}", other),
    }
}

#[test]
fn settling_takes_the_tombstones_out() {
    let mut table = Table::new();
    for i in 0..5 {
        table.set(Key { index: i, hash: 3 }, num(i as f64));
    }
    assert!(table.delete(Key { index: 1, hash: 3 }));
    assert!(table.delete(Key { index: 3, hash: 3 }));
    table.settle();
    assert_eq!(table.slots(), 8);
    assert_eq!(table.len(), 3);
    for i in [0usize, 2, 4] {
        assert_eq!(table.get(Key { index: i, hash: 3 }), Some(num(i as f64)));
    }
    assert_eq!(table.get(Key { index: 1, hash: 3 }), None);
    // Without tombstones four more entries fit before the table grows.
    for i in 5..8 {
        table.set(Key { index: i, hash: 3 }, Value::Nil);
        assert_eq!(table.slots(), 8);
    }
    table.set(Key { index: 8, hash: 3 }, Value::Nil);
    assert_eq!(table.slots(), 16);
}
