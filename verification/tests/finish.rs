use lico::compile::context::Context;
use lico::compile::fragment::Fragment;
use lico::compile::icode_source::{FunctionListId, ICodeSource};
use lico::il::icode::ICode;
use lico::il::LocalId;
use rowan::{TextRange, TextSize};

fn range(start: u32, end: u32) -> TextRange {
    TextRange::new(TextSize::from(start), TextSize::from(end))
}

#[test]
fn finish_with_puts_functions_after_main_code() {
    let mut ctx = Context::new();

    let mut first = Fragment::new();
    first.append(ICodeSource::LoadNilObject);
    first.append(ICodeSource::Leave);
    let mut second = Fragment::new();
    second.append(ICodeSource::LoadLocal(LocalId::new(0)));
    second.append(ICodeSource::Add(range(7, 8)));
    second.append(ICodeSource::Leave);
    let id0 = ctx.add_function(first);
    let id1 = ctx.add_function(second);
    assert_eq!(id0, FunctionListId(0));
    assert_eq!(id1, FunctionListId(1));

    let mut main = Fragment::new();
    main.append(ICodeSource::BeginFuncSection);
    main.append(ICodeSource::FuncSetProperty(0, id1));
    main.append(ICodeSource::EndFuncSection);
    main.append(ICodeSource::Call(2, range(0, 1), vec![range(2, 3), range(4, 5)]));
    main.append(ICodeSource::MakeTable(2, vec![None, Some(range(9, 10))]));
    main.append(ICodeSource::SetMethod("m".to_string(), range(11, 12)));
    main.append(ICodeSource::CallMethod(1, "m".to_string(), vec![range(13, 14), range(15, 16)]));

    let (codes, infos) = ctx.finish_with(main);
    assert_eq!(
        codes,
        vec![
            ICode::BeginFuncSection,
            ICode::FuncSetProperty(0, 9),
            ICode::EndFuncSection,
            ICode::Call(2),
            ICode::MakeTable(2),
            ICode::SetMethod("m".to_string()),
            ICode::CallMethod(1, "m".to_string()),
            ICode::LoadNilObject,
            ICode::Leave,
            ICode::LoadLocal(LocalId::new(0)),
            ICode::Add,
            ICode::Leave,
        ]
    );
    assert_eq!(infos.get(3, 0), Some(range(0, 1)));
    assert_eq!(infos.get(3, 1), Some(range(2, 3)));
    assert_eq!(infos.get(3, 2), Some(range(4, 5)));
    assert_eq!(infos.get(3, 3), None);
    assert_eq!(infos.get(4, 0), None);
    assert_eq!(infos.get(4, 1), Some(range(9, 10)));
    assert_eq!(infos.get(5, 0), None);
    assert_eq!(infos.get(6, 0), Some(range(13, 14)));
    assert_eq!(infos.get(6, 1), Some(range(15, 16)));
    assert_eq!(infos.get(10, 0), Some(range(7, 8)));
    assert_eq!(infos.get(9, 0), None);
}

#[test]
fn finish_with_no_functions_keeps_main_code() {
    let ctx = Context::new();
    let mut main = Fragment::new();
    main.append(ICodeSource::LoadIntObject(1));
    main.append(ICodeSource::LoadFloatObject(2.5f64.to_bits()));
    main.append(ICodeSource::Jump(-2));
    let (codes, infos) = ctx.finish_with(main);
    assert_eq!(
        codes,
        vec![ICode::LoadIntObject(1), ICode::LoadFloatObject(2.5f64.to_bits()), ICode::Jump(-2)]
    );
    assert_eq!(infos.get(0, 0), None);
}
