use lico::compile::context::Context;
use lico::il::{LocalId, SourceInfo};

#[test]
fn context_block_drops_its_locals() {
    let mut ctx = Context::new();
    assert_eq!(ctx.add_local("x"), LocalId::new(0));
    let block = ctx.start_block();
    assert_eq!(ctx.add_local("y"), LocalId::new(1));
    assert_eq!(ctx.add_local("x"), LocalId::new(2));
    assert_eq!(ctx.get_block_local_count(), 2);
    assert_eq!(ctx.resolve_local("x"), LocalId::new(2));
    block.finish(&mut ctx);
    assert_eq!(ctx.resolve_local("x"), LocalId::new(0));
    assert_eq!(ctx.add_local("z"), LocalId::new(1));
}

#[test]
fn context_loop_counts_locals_of_inner_blocks() {
    let mut ctx = Context::new();
    let lp = ctx.start_loop();
    ctx.add_local("i");
    let block = ctx.start_block();
    ctx.add_local("a");
    ctx.add_local("b");
    assert_eq!(ctx.get_loop_local_count(), 3);
    assert_eq!(ctx.get_block_local_count(), 2);
    ctx.drop_local(1);
    assert_eq!(ctx.get_loop_local_count(), 2);
    assert_eq!(ctx.get_block_local_count(), 1);
    block.finish(&mut ctx);
    assert_eq!(ctx.get_loop_local_count(), 1);
    assert_eq!(ctx.resolve_local("i"), LocalId::new(0));
    lp.finish(&mut ctx);
    assert_eq!(ctx.resolve_local("i"), LocalId::new(0));
}

#[test]
fn source_info_records_ranges() {
    let mut info = SourceInfo::new();
    let r1 = rowan::TextRange::new(1.into(), 3.into());
    let r2 = rowan::TextRange::new(4.into(), 9.into());
    assert_eq!(info.get(0, 0), None);
    assert_eq!(info.insert(0, 0, r1), None);
    assert_eq!(info.insert(2, 1, r2), None);
    assert_eq!(info.get(0, 0), Some(r1));
    assert_eq!(info.get(2, 1), Some(r2));
    assert_eq!(info.get(2, 0), None);
    assert_eq!(info.insert(0, 0, r2), Some(r1));
    assert_eq!(info.get(0, 0), Some(r2));
    assert_eq!(SourceInfo::default().get(0, 0), None);
}
