use lico::lower_ast::context::{Context, ScopeKind};
use lico::parser::state::Message;
use rowan::{TextRange, TextSize};

#[test]
fn nested_scope() {
    let mut ctx = Context::new();
    assert_eq!(ctx.scope_index().as_u32(), 1);

    let scope1 = ctx.start_scope(ScopeKind::New);
    assert_eq!(ctx.scope_index().as_u32(), 2);

    let scope2 = ctx.start_scope(ScopeKind::Nest);
    assert_eq!(ctx.scope_index().as_u32(), 3);

    scope2.finish(&mut ctx);
    assert_eq!(ctx.scope_index().as_u32(), 2);

    scope1.finish(&mut ctx);
    assert_eq!(ctx.scope_index().as_u32(), 1);
}

#[test]
fn nested_scope2() {
    let mut ctx = Context::new();
    assert_eq!(ctx.scope_index().as_u32(), 1);

    let nest_scope = ctx.start_scope(ScopeKind::New);
    assert_eq!(ctx.scope_index().as_u32(), 2);
    nest_scope.finish(&mut ctx);
    assert_eq!(ctx.scope_index().as_u32(), 1);

    let nest_scope = ctx.start_scope(ScopeKind::New);
    assert_eq!(ctx.scope_index().as_u32(), 3);
    nest_scope.finish(&mut ctx);
    assert_eq!(ctx.scope_index().as_u32(), 1);
}

#[test]
fn loop_scope() {
    let mut ctx = Context::new();
    assert!(!ctx.is_in_loop());

    let loop1 = ctx.start_scope(ScopeKind::Loop);
    assert_eq!(ctx.scope_index().as_u32(), 2);
    assert!(ctx.is_in_loop());

    let no_loop = ctx.start_scope(ScopeKind::New);
    assert_eq!(ctx.scope_index().as_u32(), 3);
    assert!(!ctx.is_in_loop());

    no_loop.finish(&mut ctx);
    assert_eq!(ctx.scope_index().as_u32(), 2);
    assert!(ctx.is_in_loop());

    loop1.finish(&mut ctx);
    assert_eq!(ctx.scope_index().as_u32(), 1);
    assert!(!ctx.is_in_loop());
}

#[test]
fn loop_scope2() {
    let mut ctx = Context::new();
    assert!(!ctx.is_in_loop());

    let loop_scope = ctx.start_scope(ScopeKind::Loop);
    assert_eq!(ctx.scope_index().as_u32(), 2);
    assert!(ctx.is_in_loop());
    loop_scope.finish(&mut ctx);
    assert_eq!(ctx.scope_index().as_u32(), 1);

    let loop_scope = ctx.start_scope(ScopeKind::Loop);
    assert_eq!(ctx.scope_index().as_u32(), 3);
    assert!(ctx.is_in_loop());
    loop_scope.finish(&mut ctx);
    assert_eq!(ctx.scope_index().as_u32(), 1);
}

#[test]
fn nested_loop_scope() {
    let mut ctx = Context::new();
    assert!(!ctx.is_in_loop());

    let loop1 = ctx.start_scope(ScopeKind::Loop);
    assert_eq!(ctx.scope_index().as_u32(), 2);
    assert!(ctx.is_in_loop());

    let loop2 = ctx.start_scope(ScopeKind::Loop);
    assert_eq!(ctx.scope_index().as_u32(), 3);
    assert!(ctx.is_in_loop());

    loop2.finish(&mut ctx);
    assert_eq!(ctx.scope_index().as_u32(), 2);
    assert!(ctx.is_in_loop());

    loop1.finish(&mut ctx);
    assert_eq!(ctx.scope_index().as_u32(), 1);
    assert!(!ctx.is_in_loop());
}

#[test]
fn nest_keeps_the_loop_and_errors_are_kept_in_order() {
    let mut ctx = Context::new();
    let outer = ctx.start_scope(ScopeKind::Loop);
    let inner = ctx.start_scope(ScopeKind::Nest);
    assert!(ctx.is_in_loop());
    ctx.push_error(Message::Text("first"), TextRange::new(TextSize::from(1), TextSize::from(3)));
    ctx.push_error(Message::Text("second"), TextRange::new(TextSize::from(4), TextSize::from(9)));
    inner.finish(&mut ctx);
    outer.finish(&mut ctx);
    let (_builder, errors) = ctx.finish();
    assert_eq!(errors.len(), 2);
    assert_eq!(errors[0].message(), Message::Text("first"));
    assert_eq!(errors[0].range(), (1, 3));
    assert_eq!(errors[1].message(), Message::Text("second"));
    assert_eq!(errors[1].range(), (4, 9));
}
