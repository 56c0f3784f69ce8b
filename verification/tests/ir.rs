use lico::database::function_capture::{FunctionCapture, FunctionCaptureKey};
use lico::ir::item::{Effect, ScopeIndex, Symbol, Value};
use lico::ir::storage::{SourceToken, StrageBuilder};
use lico::ir::ModuleBuilder;
use lico::object::ustring::UString;
use rowan::{TextRange, TextSize};

fn range(start: u32, end: u32) -> TextRange {
    TextRange::new(TextSize::from(start), TextSize::from(end))
}

fn symbol(name: &str, at: u32) -> Option<(SourceToken, Symbol)> {
    let len = name.len() as u32;
    Some((
        SourceToken::new(range(at, at + len), name.to_string()),
        Symbol::new(name.to_string(), ScopeIndex::new()),
    ))
}

#[test]
fn storage_gives_back_what_was_added() {
    let mut sb = StrageBuilder::new();
    let missing = sb.add_value(None);
    let one = sb.add_value(Some((range(0, 1), Value::Int(1))));
    let many = sb.add_value_many(vec![
        (range(2, 3), Value::Bool(true)),
        (range(4, 7), Value::String(UString::from_text("abc"))),
    ]);
    let name = sb.add_string(Some((SourceToken::new(range(8, 9), "k".to_string()), "k".to_string())));
    let x = sb.add_symbol(symbol("x", 10));
    let strage = sb.finish();

    assert!(missing.get(&strage).is_none());
    assert_eq!(missing.as_u32(), 0);
    assert_eq!(one.as_u32(), 1);
    match one.get(&strage) {
        Some((r, Value::Int(v))) => {
            assert_eq!(*r, range(0, 1));
            assert_eq!(*v, 1);
        },
        _ => panic!("expected an integer"),
    }
    assert_eq!(many.len(), 2);
    assert!(!many.is_empty());
    assert_eq!(many.as_u64(), (2u64 << 32) | 4);
    let values = many.get(&strage);
    assert_eq!(values.len(), 2);
    assert!(matches!(values[0].1, Value::Bool(true)));
    match values[1].1 {
        Value::String(s) => assert_eq!(s.as_str(), "abc"),
        _ => panic!("expected a string"),
    }
    let (token, text) = name.get(&strage).unwrap();
    assert_eq!(token.text(), "k");
    assert_eq!(text, "k");
    let (token, sym) = x.get(&strage).unwrap();
    assert_eq!(token.text_range(), range(10, 11));
    assert_eq!(sym.text(), "x");
}

#[test]
fn function_captures_a_top_level_local() {
    // var x = 1
    // func f() x end
    let mut b = ModuleBuilder::new();
    let x_def = b.add_symbol(symbol("x", 4));
    let one = b.add_value(Some((range(8, 9), Value::Int(1))));
    let x_use = b.add_symbol(symbol("x", 19));
    let local = b.add_value(Some((range(19, 20), Value::Local { name: x_use })));
    let f = b.add_function(vec![], vec![(range(19, 20), Effect::NoEffectValue { value: local })]);
    let f_name = b.add_symbol(symbol("f", 15));
    let root = b.add_effects(vec![
        (range(0, 9), Effect::MakeLocal { name: x_def, value: one }),
        (range(10, 24), Effect::MakeFunc { name: f_name, func: f }),
    ]);
    let module = b.finish_with(root);
    assert_eq!(module.functions().len(), 1);

    let db = match FunctionCapture::build_with(&module, &vec![]) {
        Ok(db) => db,
        Err(_) => panic!("every name is defined"),
    };
    assert_eq!(db.get_capture(FunctionCaptureKey::FunctionKey(f)), vec!["x".to_string()]);
    assert_eq!(db.get_capture(FunctionCaptureKey::Module), Vec::<String>::new());
}

#[test]
fn parameters_and_locals_are_not_captured() {
    // func f(a) var b = a; b end
    let mut b = ModuleBuilder::new();
    let a_use = b.add_symbol(symbol("a", 20));
    let a_val = b.add_value(Some((range(20, 21), Value::Local { name: a_use })));
    let b_def = b.add_symbol(symbol("b", 16));
    let b_use = b.add_symbol(symbol("b", 23));
    let b_val = b.add_value(Some((range(23, 24), Value::Local { name: b_use })));
    let f = b.add_function(
        vec![symbol("a", 7).unwrap()],
        vec![
            (range(12, 21), Effect::MakeLocal { name: b_def, value: a_val }),
            (range(23, 24), Effect::NoEffectValue { value: b_val }),
        ],
    );
    let f_name = b.add_symbol(symbol("f", 5));
    let root = b.add_effects(vec![(range(0, 28), Effect::MakeFunc { name: f_name, func: f })]);
    let module = b.finish_with(root);

    let db = match FunctionCapture::build_with(&module, &vec![]) {
        Ok(db) => db,
        Err(_) => panic!("every name is defined"),
    };
    assert_eq!(db.get_capture(FunctionCaptureKey::FunctionKey(f)), Vec::<String>::new());
}

#[test]
fn nested_functions_capture_through_the_middle_one() {
    // var x = 1
    // func f() func g() x end end
    let mut b = ModuleBuilder::new();
    let x_def = b.add_symbol(symbol("x", 4));
    let one = b.add_value(Some((range(8, 9), Value::Int(1))));
    let x_use = b.add_symbol(symbol("x", 28));
    let local = b.add_value(Some((range(28, 29), Value::Local { name: x_use })));
    let g = b.add_function(vec![], vec![(range(28, 29), Effect::NoEffectValue { value: local })]);
    let g_name = b.add_symbol(symbol("g", 24));
    let f = b.add_function(vec![], vec![(range(19, 33), Effect::MakeFunc { name: g_name, func: g })]);
    let f_name = b.add_symbol(symbol("f", 15));
    let root = b.add_effects(vec![
        (range(0, 9), Effect::MakeLocal { name: x_def, value: one }),
        (range(10, 37), Effect::MakeFunc { name: f_name, func: f }),
    ]);
    let module = b.finish_with(root);

    let db = match FunctionCapture::build_with(&module, &vec![]) {
        Ok(db) => db,
        Err(_) => panic!("every name is defined"),
    };
    assert_eq!(db.get_capture(FunctionCaptureKey::FunctionKey(g)), vec!["x".to_string()]);
    assert_eq!(db.get_capture(FunctionCaptureKey::FunctionKey(f)), vec!["x".to_string()]);
    assert_eq!(db.get_capture(FunctionCaptureKey::Module), Vec::<String>::new());

    // Each capturing function once, with its names.
    let mut all = db.iter_captures();
    all.sort_by_key(|(id, _)| *id);
    let mut expected = vec![
        (FunctionCaptureKey::FunctionKey(f).id(), vec!["x".to_string()]),
        (FunctionCaptureKey::FunctionKey(g).id(), vec!["x".to_string()]),
    ];
    expected.sort_by_key(|(id, _)| *id);
    assert_eq!(all, expected);
}

#[test]
fn a_default_is_captured_by_every_level() {
    // func f() print end
    let mut b = ModuleBuilder::new();
    let p_use = b.add_symbol(symbol("print", 9));
    let local = b.add_value(Some((range(9, 14), Value::Local { name: p_use })));
    let f = b.add_function(vec![], vec![(range(9, 14), Effect::NoEffectValue { value: local })]);
    let f_name = b.add_symbol(symbol("f", 5));
    let root = b.add_effects(vec![(range(0, 18), Effect::MakeFunc { name: f_name, func: f })]);
    let module = b.finish_with(root);

    let db = match FunctionCapture::build_with(&module, &vec!["print".to_string()]) {
        Ok(db) => db,
        Err(_) => panic!("print is a default"),
    };
    assert_eq!(db.get_capture(FunctionCaptureKey::FunctionKey(f)), vec!["print".to_string()]);
    assert_eq!(db.get_capture(FunctionCaptureKey::Module), vec!["print".to_string()]);
}

#[test]
fn an_undefined_name_is_reported() {
    // y
    let mut b = ModuleBuilder::new();
    let y_use = b.add_symbol(symbol("y", 0));
    let local = b.add_value(Some((range(0, 1), Value::Local { name: y_use })));
    let root = b.add_effects(vec![(range(0, 1), Effect::NoEffectValue { value: local })]);
    let module = b.finish_with(root);

    match FunctionCapture::build_with(&module, &vec!["print".to_string()]) {
        Ok(_) => panic!("y is defined nowhere"),
        Err(e) => {
            assert_eq!(e.name, "y");
            assert_eq!(e.range, range(0, 1));
        },
    }
}

#[test]
fn a_function_sees_itself_through_its_enclosing_scope() {
    // func f() f end
    let mut b = ModuleBuilder::new();
    let f_use = b.add_symbol(symbol("f", 9));
    let local = b.add_value(Some((range(9, 10), Value::Local { name: f_use })));
    let f = b.add_function(vec![], vec![(range(9, 10), Effect::NoEffectValue { value: local })]);
    let f_name = b.add_symbol(symbol("f", 5));
    let root = b.add_effects(vec![(range(0, 14), Effect::MakeFunc { name: f_name, func: f })]);
    let module = b.finish_with(root);

    let db = match FunctionCapture::build_with(&module, &vec![]) {
        Ok(db) => db,
        Err(_) => panic!("f is defined before its body is walked"),
    };
    assert_eq!(db.get_capture(FunctionCaptureKey::FunctionKey(f)), vec!["f".to_string()]);
}

#[test]
fn a_name_used_twice_is_captured_once() {
    // var x = 1
    // func f() x; x end
    let mut b = ModuleBuilder::new();
    let x_def = b.add_symbol(symbol("x", 4));
    let one = b.add_value(Some((range(8, 9), Value::Int(1))));
    let x_use1 = b.add_symbol(symbol("x", 19));
    let use1 = b.add_value(Some((range(19, 20), Value::Local { name: x_use1 })));
    let x_use2 = b.add_symbol(symbol("x", 22));
    let use2 = b.add_value(Some((range(22, 23), Value::Local { name: x_use2 })));
    let f = b.add_function(
        vec![],
        vec![
            (range(19, 20), Effect::NoEffectValue { value: use1 }),
            (range(22, 23), Effect::NoEffectValue { value: use2 }),
        ],
    );
    let f_name = b.add_symbol(symbol("f", 15));
    let root = b.add_effects(vec![
        (range(0, 9), Effect::MakeLocal { name: x_def, value: one }),
        (range(10, 27), Effect::MakeFunc { name: f_name, func: f }),
    ]);
    let module = b.finish_with(root);

    let db = match FunctionCapture::build_with(&module, &vec![]) {
        Ok(db) => db,
        Err(_) => panic!("every name is defined"),
    };
    assert_eq!(db.get_capture(FunctionCaptureKey::FunctionKey(f)), vec!["x".to_string()]);
    assert_eq!(FunctionCaptureKey::Module.id(), 0);
    assert_eq!(FunctionCaptureKey::FunctionKey(f).id(), f.as_u64());
    assert_ne!(f.as_u64(), 0);
}
