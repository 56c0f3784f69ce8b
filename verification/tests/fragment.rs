use lico::compile::fragment::Fragment;
use lico::compile::local_id_generator::LocalIdGenerator;
use lico::compile::nested_counter::NestedCounter;
use lico::il::LocalId;
use lico::compile::icode_source::ICodeSource::{self, Jump, Leave, Tombstone, Unload};

/// Three tombstones, each a forward jump.
fn three_forward() -> Fragment {
    let mut f = Fragment::new();
    f.append_forward_jump();
    f.append_forward_jump();
    f.append_forward_jump();
    f
}

/// Three tombstones, each a backward jump.
fn three_backward() -> Fragment {
    let mut f = Fragment::new();
    f.append_backward_jump();
    f.append_backward_jump();
    f.append_backward_jump();
    f
}

#[test]
fn patch_forward_jump() {
    let mut fragment1 = three_forward();
    let mut fragment2 = three_forward();
    assert_eq!(fragment1.forward_jump_pos(), vec![0, 1, 2]);

    fragment1.patch_forward_jump(3);
    fragment2.patch_forward_jump(-2);

    assert_eq!(fragment1.code(), &[Jump(5), Jump(4), Jump(3)]);
    assert_eq!(fragment2.code(), &[Jump(0), Jump(-1), Jump(-2)]);
    assert_eq!(fragment1.forward_jump_pos(), Vec::<u32>::new());
    assert_eq!(fragment2.forward_jump_pos(), Vec::<u32>::new());
}

#[test]
fn patch_backward_jump() {
    let mut fragment1 = three_backward();
    let mut fragment2 = three_backward();
    assert_eq!(fragment1.backward_jump_pos(), vec![0, 1, 2]);

    fragment1.patch_backward_jump(-3);
    fragment2.patch_backward_jump(2);

    assert_eq!(fragment1.code(), &[Jump(-3), Jump(-4), Jump(-5)]);
    assert_eq!(fragment2.code(), &[Jump(2), Jump(1), Jump(0)]);
    assert_eq!(fragment1.backward_jump_pos(), Vec::<u32>::new());
    assert_eq!(fragment2.backward_jump_pos(), Vec::<u32>::new());
}

#[test]
fn append_fragment() {
    let mut fragment = Fragment::new();
    fragment.append_forward_jump();
    fragment.append(Unload);
    fragment.append_backward_jump();
    let mut other = Fragment::new();
    other.append_backward_jump();
    other.append(Leave);
    other.append_forward_jump();

    fragment.append_fragment(other);

    assert_eq!(
        fragment.code(),
        &[
            Tombstone, // 0: forward jump
            Unload,    // 1:
            Tombstone, // 2: backward jump
            Tombstone, // 3: backward jump
            Leave,     // 4:
            Tombstone, // 5: forward jump
        ]
    );
    assert_eq!(fragment.backward_jump_pos(), vec![2, 3]);
    assert_eq!(fragment.forward_jump_pos(), vec![0, 5]);
}

#[test]
fn patch_leaves_other_code() {
    let mut f = Fragment::new();
    f.append(ICodeSource::LoadNilObject);
    f.append_forward_jump();
    f.append_backward_jump();
    f.append_many(vec![ICodeSource::LoadBoolObject(true), ICodeSource::Leave]);
    assert_eq!(f.len(), 5);
    f.patch_forward_jump(0);
    assert_eq!(f.code()[1], Jump(3));
    assert_eq!(f.code()[2], Tombstone);
    f.patch_backward_jump(0);
    assert_eq!(f.code()[2], Jump(-2));
    assert_eq!(
        f.finish(),
        vec![
            ICodeSource::LoadNilObject,
            Jump(3),
            Jump(-2),
            ICodeSource::LoadBoolObject(true),
            ICodeSource::Leave,
        ]
    );
}

#[test]
fn nested_counter_sections() {
    let mut c = NestedCounter::new();
    assert_eq!(c.get_current_count(), None);
    c.increment(3);
    assert_eq!(c.get_current_count(), None);
    c.start_section();
    c.increment(2);
    c.start_section();
    c.increment(5);
    c.decrement(1);
    assert_eq!(c.get_current_count(), Some(4));
    assert_eq!(c.end_section(), 4);
    assert_eq!(c.get_current_count(), Some(2));
    assert_eq!(c.end_section(), 2);
    assert_eq!(c.get_current_count(), None);
}

#[test]
fn local_ids_shadow_and_restore() {
    let mut g = LocalIdGenerator::new();
    assert_eq!(g.resolve_local("a"), None);
    assert_eq!(g.add_local("a"), LocalId::new(0));
    assert_eq!(g.add_local("b"), LocalId::new(1));
    assert_eq!(g.add_local("a"), LocalId::new(2));
    assert_eq!(g.resolve_local("a"), Some(LocalId::new(2)));
    assert_eq!(g.resolve_local("b"), Some(LocalId::new(1)));
    g.drop_local(1);
    assert_eq!(g.resolve_local("a"), Some(LocalId::new(0)));
    assert_eq!(g.add_local("c"), LocalId::new(2));
    g.drop_local(3);
    assert_eq!(g.resolve_local("a"), None);
    assert_eq!(g.resolve_local("b"), None);
    assert_eq!(g.resolve_local("c"), None);
    g.drop_local(0);
    assert_eq!(g.add_local("a"), LocalId::new(0));
}
