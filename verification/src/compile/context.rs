use super::local_id_generator::{resolve_in, LocalIdGenerator};
use super::nested_counter::NestedCounter;
use super::fragment::Fragment;
use crate::collections::reversed;
use super::icode_source::{FunctionListId, ICodeSource};
use crate::il::icode::ICode;
use crate::il::{LocalId, SourceInfo};
use vstd::prelude::*;

verus! {

/// The sum of `counts`.
pub open spec fn count_sum(counts: Seq<usize>) -> int
    decreases counts.len(),
{
    if counts.len() == 0 {
        0
    } else {
        count_sum(counts.drop_last()) + counts.last()
    }
}

proof fn lemma_sum_last(counts: Seq<usize>, v: usize)
    requires
        counts.len() > 0,
    ensures
        count_sum(counts.drop_last().push(v)) == count_sum(counts) - counts.last() + v,
        count_sum(counts) >= counts.last(),
{
    assert(counts.drop_last().push(v).drop_last() =~= counts.drop_last());
    lemma_sum_nonneg(counts.drop_last());
}

proof fn lemma_sum_nonneg(counts: Seq<usize>)
    ensures
        count_sum(counts) >= 0,
    decreases counts.len(),
{
    if counts.len() > 0 {
        lemma_sum_nonneg(counts.drop_last());
    }
}

proof fn lemma_sum_push(counts: Seq<usize>, v: usize)
    ensures
        count_sum(counts.push(v)) == count_sum(counts) + v,
{
    assert(counts.push(v).drop_last() =~= counts);
}

/// The scopes of a compilation: how many locals each open block and each open loop has added,
/// innermost last, and the local ids of the names.
pub struct Context {
    block_vars_count: NestedCounter,
    loop_vars_count: NestedCounter,
    id_generator: LocalIdGenerator,
    func_list: Vec<Fragment>,
}

/// A block that is open; `finish` closes it.
pub struct BlockMarker;

/// A loop that is open; `finish` closes it.
pub struct LoopMarker;

impl Context {
    pub closed spec fn blocks(&self) -> Seq<usize> {
        self.block_vars_count@
    }

    pub closed spec fn loops(&self) -> Seq<usize> {
        self.loop_vars_count@
    }

    pub closed spec fn names(&self) -> Seq<Seq<char>> {
        self.id_generator.names()
    }

    /// The code of the functions compiled so far, in the order they were added.
    pub closed spec fn functions(&self) -> Seq<Fragment> {
        self.func_list@
    }

    /// The locals that the open blocks, and those that the open loops, have added are among the
    /// names bound.
    pub closed spec fn wf(&self) -> bool {
        &&& self.id_generator.wf()
        &&& count_sum(self.blocks()) <= self.names().len()
        &&& count_sum(self.loops()) <= self.names().len()
    }

    pub fn new() -> (r: Self)
        ensures
            r.wf(),
            r.blocks() == Seq::<usize>::empty(),
            r.loops() == Seq::<usize>::empty(),
            r.names() == Seq::<Seq<char>>::empty(),
            r.functions() == Seq::<Fragment>::empty(),
    {
        Context {
            block_vars_count: NestedCounter::new(),
            loop_vars_count: NestedCounter::new(),
            id_generator: LocalIdGenerator::new(),
            func_list: Vec::new(),
        }
    }

    /// Opens a block.
    pub fn start_block(&mut self) -> (m: BlockMarker)
        requires
            old(self).wf(),
        ensures
            final(self).wf(),
            final(self).blocks() == old(self).blocks().push(0),
            final(self).loops() == old(self).loops(),
            final(self).names() == old(self).names(),
            final(self).functions() == old(self).functions(),
    {
        self.block_vars_count.start_section();
        proof {
            lemma_sum_push(old(self).blocks(), 0);
        }
        BlockMarker
    }

    /// Opens a loop.
    pub fn start_loop(&mut self) -> (m: LoopMarker)
        requires
            old(self).wf(),
        ensures
            final(self).wf(),
            final(self).loops() == old(self).loops().push(0),
            final(self).blocks() == old(self).blocks(),
            final(self).names() == old(self).names(),
            final(self).functions() == old(self).functions(),
    {
        self.loop_vars_count.start_section();
        proof {
            lemma_sum_push(old(self).loops(), 0);
        }
        LoopMarker
    }

    /// How many locals the innermost loop has added; a loop must be open.
    pub fn get_loop_local_count(&self) -> (r: usize)
        requires
            self.loops().len() > 0,
        ensures
            r == self.loops().last(),
    {
        match self.loop_vars_count.get_current_count() {
            Some(count) => count,
            None => 0,
        }
    }

    /// How many locals the innermost block has added; a block must be open.
    pub fn get_block_local_count(&self) -> (r: usize)
        requires
            self.blocks().len() > 0,
        ensures
            r == self.blocks().last(),
    {
        match self.block_vars_count.get_current_count() {
            Some(count) => count,
            None => 0,
        }
    }

    /// Binds `name` to a new local, counted in the innermost block and loop.
    pub fn add_local(&mut self, name: &str) -> (r: LocalId)
        requires
            old(self).wf(),
            old(self).names().len() < usize::MAX,
        ensures
            final(self).wf(),
            r.value() == old(self).names().len(),
            final(self).names() == old(self).names().push(name@),
            final(self).functions() == old(self).functions(),
            old(self).blocks().len() == 0 ==> final(self).blocks() == old(self).blocks(),
            old(self).blocks().len() > 0 ==> final(self).blocks() == old(self).blocks().drop_last().push(
                (old(self).blocks().last() + 1) as usize,
            ),
            old(self).loops().len() == 0 ==> final(self).loops() == old(self).loops(),
            old(self).loops().len() > 0 ==> final(self).loops() == old(self).loops().drop_last().push(
                (old(self).loops().last() + 1) as usize,
            ),
    {
        proof {
            if old(self).blocks().len() > 0 {
                lemma_sum_last(old(self).blocks(), (old(self).blocks().last() + 1) as usize);
            }
            if old(self).loops().len() > 0 {
                lemma_sum_last(old(self).loops(), (old(self).loops().last() + 1) as usize);
            }
        }
        self.block_vars_count.increment(1);
        self.loop_vars_count.increment(1);
        self.id_generator.add_local(name)
    }

    /// Drops the `count` latest locals, which the innermost block and loop must have added.
    pub fn drop_local(&mut self, count: usize)
        requires
            old(self).wf(),
            count <= old(self).names().len(),
            old(self).blocks().len() > 0 ==> old(self).blocks().last() >= count,
            old(self).loops().len() > 0 ==> old(self).loops().last() >= count,
        ensures
            final(self).wf(),
            final(self).names() == old(self).names().take(old(self).names().len() - count),
            final(self).functions() == old(self).functions(),
            old(self).blocks().len() == 0 ==> final(self).blocks() == old(self).blocks(),
            old(self).blocks().len() > 0 ==> final(self).blocks() == old(self).blocks().drop_last().push(
                (old(self).blocks().last() - count) as usize,
            ),
            old(self).loops().len() == 0 ==> final(self).loops() == old(self).loops(),
            old(self).loops().len() > 0 ==> final(self).loops() == old(self).loops().drop_last().push(
                (old(self).loops().last() - count) as usize,
            ),
    {
        proof {
            if old(self).blocks().len() > 0 {
                lemma_sum_last(old(self).blocks(), (old(self).blocks().last() - count) as usize);
            }
            if old(self).loops().len() > 0 {
                lemma_sum_last(old(self).loops(), (old(self).loops().last() - count) as usize);
            }
        }
        self.id_generator.drop_local(count);
        self.block_vars_count.decrement(count);
        self.loop_vars_count.decrement(count);
    }

    /// The local id of `name`, which must be bound: its latest binding.
    pub fn resolve_local(&self, name: &str) -> (r: LocalId)
        requires
            self.wf(),
            resolve_in(self.names(), name@) is Some,
        ensures
            r.value() == resolve_in(self.names(), name@)->0,
    {
        match self.id_generator.resolve_local(name) {
            Some(id) => id,
            None => LocalId::new(0),
        }
    }
}

impl BlockMarker {
    /// Closes the innermost block: its locals are dropped, and no longer counted in the
    /// innermost loop.
    pub fn finish(self, ctx: &mut Context)
        requires
            old(ctx).wf(),
            old(ctx).blocks().len() > 0,
            old(ctx).loops().len() > 0 ==> old(ctx).loops().last() >= old(ctx).blocks().last(),
        ensures
            final(ctx).wf(),
            final(ctx).blocks() == old(ctx).blocks().drop_last(),
            final(ctx).names() == old(ctx).names().take(
                old(ctx).names().len() - old(ctx).blocks().last(),
            ),
            final(ctx).functions() == old(ctx).functions(),
            old(ctx).loops().len() == 0 ==> final(ctx).loops() == old(ctx).loops(),
            old(ctx).loops().len() > 0 ==> final(ctx).loops() == old(ctx).loops().drop_last().push(
                (old(ctx).loops().last() - old(ctx).blocks().last()) as usize,
            ),
    {
        proof {
            lemma_sum_last(old(ctx).blocks(), old(ctx).blocks().last());
            assert(old(ctx).blocks().drop_last().push(old(ctx).blocks().last()) =~= old(ctx).blocks());
            lemma_sum_push(old(ctx).blocks().drop_last(), old(ctx).blocks().last());
            lemma_sum_nonneg(old(ctx).blocks().drop_last());
            if old(ctx).loops().len() > 0 {
                lemma_sum_last(
                    old(ctx).loops(),
                    (old(ctx).loops().last() - old(ctx).blocks().last()) as usize,
                );
            }
        }
        let block_cnt = ctx.block_vars_count.end_section();
        ctx.id_generator.drop_local(block_cnt);
        ctx.loop_vars_count.decrement(block_cnt);
    }
}

impl LoopMarker {
    /// Closes the innermost loop.
    pub fn finish(self, ctx: &mut Context)
        requires
            old(ctx).wf(),
            old(ctx).loops().len() > 0,
        ensures
            final(ctx).wf(),
            final(ctx).loops() == old(ctx).loops().drop_last(),
            final(ctx).blocks() == old(ctx).blocks(),
            final(ctx).names() == old(ctx).names(),
            final(ctx).functions() == old(ctx).functions(),
    {
        proof {
            assert(old(ctx).loops().drop_last().push(old(ctx).loops().last()) =~= old(ctx).loops());
            lemma_sum_push(old(ctx).loops().drop_last(), old(ctx).loops().last());
        }
        ctx.loop_vars_count.end_section();
    }
}

/// A block opened, with locals added in it, and closed, leaves the names bound as they were
/// before it was opened.
pub proof fn law_block_restores_names(names: Seq<Seq<char>>, added: Seq<Seq<char>>)
    ensures
        (names + added).take((names + added).len() - added.len()) == names,
{
    assert((names + added).take((names + added).len() - added.len()) =~= names);
}


/// The code of the fragments, one after another.
pub open spec fn concat_codes(fs: Seq<Fragment>) -> Seq<ICodeSource>
    decreases fs.len(),
{
    if fs.len() == 0 {
        Seq::empty()
    } else {
        concat_codes(fs.drop_last()) + fs.last().code_spec()
    }
}

/// The code of a whole compilation: the main fragment, then the functions in their order.
pub open spec fn all_code(main: Fragment, funcs: Seq<Fragment>) -> Seq<ICodeSource> {
    main.code_spec() + concat_codes(funcs)
}

/// Where the code of each function starts in the code of the whole compilation.
pub open spec fn function_starts(main: Fragment, funcs: Seq<Fragment>) -> Seq<usize> {
    Seq::new(
        funcs.len(),
        |k: int| (main.code_spec().len() + concat_codes(funcs.take(k)).len()) as usize,
    )
}

/// The fragments can be put together: no jump is left to patch, no tombstone is left, and
/// every function that the code refers to has been added.
pub open spec fn finishable(main: Fragment, funcs: Seq<Fragment>) -> bool {
    &&& main.wf()
    &&& main.forward().len() == 0
    &&& main.backward().len() == 0
    &&& forall|k: int|
        0 <= k < funcs.len() ==> #[trigger] funcs[k].wf() && funcs[k].forward().len() == 0
            && funcs[k].backward().len() == 0
    &&& forall|j: int|
        0 <= j < all_code(main, funcs).len() ==> !(#[trigger] all_code(main, funcs)[j] is Tombstone)
    &&& forall|j: int|
        0 <= j < all_code(main, funcs).len() && #[trigger] all_code(main, funcs)[j] is FuncSetProperty
            ==> (all_code(main, funcs)[j]->1).0 < funcs.len()
}

/// The instruction that an instruction of the intermediate code becomes, its source ranges
/// left out and its function id replaced by the start of that function's code.
pub open spec fn lowered(c: ICodeSource, starts: Seq<usize>) -> ICode {
    match c {
        ICodeSource::LoadIntObject(x) => ICode::LoadIntObject(x),
        ICodeSource::LoadFloatObject(x) => ICode::LoadFloatObject(x),
        ICodeSource::LoadStringObject(x) => ICode::LoadStringObject(x),
        ICodeSource::LoadBoolObject(x) => ICode::LoadBoolObject(x),
        ICodeSource::LoadNilObject => ICode::LoadNilObject,
        ICodeSource::LoadLocal(x) => ICode::LoadLocal(x),
        ICodeSource::Unload => ICode::Unload,
        ICodeSource::StoreLocal(x) => ICode::StoreLocal(x),
        ICodeSource::StoreNewLocal => ICode::StoreNewLocal,
        ICodeSource::MakeArray(x) => ICode::MakeArray(x),
        ICodeSource::MakeTable(x, _) => ICode::MakeTable(x),
        ICodeSource::DropLocal(x) => ICode::DropLocal(x),
        ICodeSource::Jump(x) => ICode::Jump(x),
        ICodeSource::JumpIfTrue(x) => ICode::JumpIfTrue(x),
        ICodeSource::JumpIfFalse(x) => ICode::JumpIfFalse(x),
        ICodeSource::Call(x, _, _) => ICode::Call(x),
        ICodeSource::CallMethod(x, y, _) => ICode::CallMethod(x, y),
        ICodeSource::SetItem(_) => ICode::SetItem,
        ICodeSource::GetItem(_) => ICode::GetItem,
        ICodeSource::SetMethod(x, _) => ICode::SetMethod(x),
        ICodeSource::Add(_) => ICode::Add,
        ICodeSource::Sub(_) => ICode::Sub,
        ICodeSource::Mul(_) => ICode::Mul,
        ICodeSource::Div(_) => ICode::Div,
        ICodeSource::Mod(_) => ICode::Mod,
        ICodeSource::Unm(_) => ICode::Unm,
        ICodeSource::Unp(_) => ICode::Unp,
        ICodeSource::Not(_) => ICode::Not,
        ICodeSource::Eq(_) => ICode::Eq,
        ICodeSource::NotEq(_) => ICode::NotEq,
        ICodeSource::Less(_) => ICode::Less,
        ICodeSource::LessEq(_) => ICode::LessEq,
        ICodeSource::Greater(_) => ICode::Greater,
        ICodeSource::GreaterEq(_) => ICode::GreaterEq,
        ICodeSource::Concat(_) => ICode::Concat,
        ICodeSource::BitAnd(_) => ICode::BitAnd,
        ICodeSource::BitOr(_) => ICode::BitOr,
        ICodeSource::BitXor(_) => ICode::BitXor,
        ICodeSource::BitNot(_) => ICode::BitNot,
        ICodeSource::ShiftL(_) => ICode::ShiftL,
        ICodeSource::ShiftR(_) => ICode::ShiftR,
        ICodeSource::GetIter => ICode::GetIter,
        ICodeSource::IterMoveNext => ICode::IterMoveNext,
        ICodeSource::IterCurrent => ICode::IterCurrent,
        ICodeSource::BeginFuncSection => ICode::BeginFuncSection,
        ICodeSource::FuncSetProperty(x, id) => ICode::FuncSetProperty(x, starts[id.0 as int]),
        ICodeSource::FuncAddCapture(x) => ICode::FuncAddCapture(x),
        ICodeSource::EndFuncSection => ICode::EndFuncSection,
        ICodeSource::Leave => ICode::Leave,
        ICodeSource::Tombstone => ICode::Nop,
    }
}

/// The operation that an operator instruction of the intermediate code performs, by its
/// name: arithmetic, comparison, logic, concatenation and bitwise operations; `None` for
/// the other instructions.
pub open spec fn source_operation(c: ICodeSource) -> Option<Seq<char>> {
    match c {
        ICodeSource::Add(_) => Some("add"@),
        ICodeSource::Sub(_) => Some("sub"@),
        ICodeSource::Mul(_) => Some("mul"@),
        ICodeSource::Div(_) => Some("div"@),
        ICodeSource::Mod(_) => Some("mod"@),
        ICodeSource::Unm(_) => Some("unm"@),
        ICodeSource::Unp(_) => Some("unp"@),
        ICodeSource::Not(_) => Some("not"@),
        ICodeSource::Eq(_) => Some("eq"@),
        ICodeSource::NotEq(_) => Some("ne"@),
        ICodeSource::Less(_) => Some("lt"@),
        ICodeSource::LessEq(_) => Some("le"@),
        ICodeSource::Greater(_) => Some("gt"@),
        ICodeSource::GreaterEq(_) => Some("ge"@),
        ICodeSource::Concat(_) => Some("concat"@),
        ICodeSource::BitAnd(_) => Some("bitand"@),
        ICodeSource::BitOr(_) => Some("bitor"@),
        ICodeSource::BitXor(_) => Some("bitxor"@),
        ICodeSource::BitNot(_) => Some("bitnot"@),
        ICodeSource::ShiftL(_) => Some("shl"@),
        ICodeSource::ShiftR(_) => Some("shr"@),
        _ => None,
    }
}

/// The operation that an operator instruction performs, by its name, as for
/// `source_operation`; `None` for the other instructions.
pub open spec fn code_operation(c: ICode) -> Option<Seq<char>> {
    match c {
        ICode::Add => Some("add"@),
        ICode::Sub => Some("sub"@),
        ICode::Mul => Some("mul"@),
        ICode::Div => Some("div"@),
        ICode::Mod => Some("mod"@),
        ICode::Unm => Some("unm"@),
        ICode::Unp => Some("unp"@),
        ICode::Not => Some("not"@),
        ICode::Eq => Some("eq"@),
        ICode::NotEq => Some("ne"@),
        ICode::Less => Some("lt"@),
        ICode::LessEq => Some("le"@),
        ICode::Greater => Some("gt"@),
        ICode::GreaterEq => Some("ge"@),
        ICode::Concat => Some("concat"@),
        ICode::BitAnd => Some("bitand"@),
        ICode::BitOr => Some("bitor"@),
        ICode::BitXor => Some("bitxor"@),
        ICode::BitNot => Some("bitnot"@),
        ICode::ShiftL => Some("shl"@),
        ICode::ShiftR => Some("shr"@),
        _ => None,
    }
}

/// Lowering keeps what each instruction does: an operator instruction becomes the
/// instruction of the same operation, and any other instruction becomes one that is no
/// operator, the instruction of the same name; a constant, a local slot, a count, a jump offset
/// or a name it carries is kept, its source ranges dropped, and a function id becomes the start
/// of that function's code.
pub proof fn law_lowering_keeps_operation(c: ICodeSource, starts: Seq<usize>)
    ensures
        code_operation(lowered(c, starts)) == source_operation(c),
        c matches ICodeSource::LoadIntObject(x) ==> lowered(c, starts) == ICode::LoadIntObject(x),
        c matches ICodeSource::LoadLocal(x) ==> lowered(c, starts) == ICode::LoadLocal(x),
        c matches ICodeSource::StoreLocal(x) ==> lowered(c, starts) == ICode::StoreLocal(x),
        c matches ICodeSource::Jump(x) ==> lowered(c, starts) == ICode::Jump(x),
        c matches ICodeSource::JumpIfTrue(x) ==> lowered(c, starts) == ICode::JumpIfTrue(x),
        c matches ICodeSource::JumpIfFalse(x) ==> lowered(c, starts) == ICode::JumpIfFalse(x),
        c matches ICodeSource::DropLocal(x) ==> lowered(c, starts) == ICode::DropLocal(x),
        c matches ICodeSource::LoadFloatObject(x) ==> lowered(c, starts) == ICode::LoadFloatObject(x),
        c matches ICodeSource::LoadStringObject(x) ==> lowered(c, starts) == ICode::LoadStringObject(x),
        c matches ICodeSource::LoadBoolObject(x) ==> lowered(c, starts) == ICode::LoadBoolObject(x),
        c is LoadNilObject ==> lowered(c, starts) == ICode::LoadNilObject,
        c is Unload ==> lowered(c, starts) == ICode::Unload,
        c is StoreNewLocal ==> lowered(c, starts) == ICode::StoreNewLocal,
        c matches ICodeSource::MakeArray(x) ==> lowered(c, starts) == ICode::MakeArray(x),
        c matches ICodeSource::MakeTable(x, _) ==> lowered(c, starts) == ICode::MakeTable(x),
        c matches ICodeSource::Call(x, _, _) ==> lowered(c, starts) == ICode::Call(x),
        c matches ICodeSource::CallMethod(x, y, _) ==> lowered(c, starts) == ICode::CallMethod(x, y),
        c is SetItem ==> lowered(c, starts) == ICode::SetItem,
        c is GetItem ==> lowered(c, starts) == ICode::GetItem,
        c matches ICodeSource::SetMethod(x, _) ==> lowered(c, starts) == ICode::SetMethod(x),
        c is GetIter ==> lowered(c, starts) == ICode::GetIter,
        c is IterMoveNext ==> lowered(c, starts) == ICode::IterMoveNext,
        c is IterCurrent ==> lowered(c, starts) == ICode::IterCurrent,
        c is BeginFuncSection ==> lowered(c, starts) == ICode::BeginFuncSection,
        c matches ICodeSource::FuncSetProperty(x, id) ==> lowered(c, starts) == ICode::FuncSetProperty(
            x,
            starts[id.0 as int],
        ),
        c matches ICodeSource::FuncAddCapture(x) ==> lowered(c, starts) == ICode::FuncAddCapture(x),
        c is EndFuncSection ==> lowered(c, starts) == ICode::EndFuncSection,
        c is Leave ==> lowered(c, starts) == ICode::Leave,
        c is Tombstone ==> lowered(c, starts) == ICode::Nop,
{
}

/// The source ranges that an instruction of the intermediate code carries, by extra index:
/// a table's keys that are not known strings, a call's callee then its arguments, a method
/// call's name then its arguments, and the key or operator of the others. A method
/// definition's range is not kept.
pub open spec fn code_ranges(c: ICodeSource) -> Map<usize, rowan::TextRange> {
    match c {
        ICodeSource::MakeTable(_, ranges) => Map::new(
            |e: usize| e < ranges@.len() && ranges@[e as int] is Some,
            |e: usize| ranges@[e as int]->0,
        ),
        ICodeSource::Call(_, r0, ranges) => Map::new(
            |e: usize| e <= ranges@.len(),
            |e: usize|
                if e == 0 {
                    r0
                } else {
                    ranges@[e - 1]
                },
        ),
        ICodeSource::CallMethod(_, _, ranges) => Map::new(
            |e: usize| e < ranges@.len(),
            |e: usize| ranges@[e as int],
        ),
        ICodeSource::SetItem(r) => map![0usize => r],
        ICodeSource::GetItem(r) => map![0usize => r],
        ICodeSource::Add(r) => map![0usize => r],
        ICodeSource::Sub(r) => map![0usize => r],
        ICodeSource::Mul(r) => map![0usize => r],
        ICodeSource::Div(r) => map![0usize => r],
        ICodeSource::Mod(r) => map![0usize => r],
        ICodeSource::Unm(r) => map![0usize => r],
        ICodeSource::Unp(r) => map![0usize => r],
        ICodeSource::Not(r) => map![0usize => r],
        ICodeSource::Eq(r) => map![0usize => r],
        ICodeSource::NotEq(r) => map![0usize => r],
        ICodeSource::Less(r) => map![0usize => r],
        ICodeSource::LessEq(r) => map![0usize => r],
        ICodeSource::Greater(r) => map![0usize => r],
        ICodeSource::GreaterEq(r) => map![0usize => r],
        ICodeSource::Concat(r) => map![0usize => r],
        ICodeSource::BitAnd(r) => map![0usize => r],
        ICodeSource::BitOr(r) => map![0usize => r],
        ICodeSource::BitXor(r) => map![0usize => r],
        ICodeSource::BitNot(r) => map![0usize => r],
        ICodeSource::ShiftL(r) => map![0usize => r],
        ICodeSource::ShiftR(r) => map![0usize => r],
        _ => Map::empty(),
    }
}

/// The source range of the operator that an operator instruction was compiled from.
pub open spec fn operator_range(c: ICodeSource) -> Option<rowan::TextRange> {
    match c {
        ICodeSource::Add(r) => Some(r),
        ICodeSource::Sub(r) => Some(r),
        ICodeSource::Mul(r) => Some(r),
        ICodeSource::Div(r) => Some(r),
        ICodeSource::Mod(r) => Some(r),
        ICodeSource::Unm(r) => Some(r),
        ICodeSource::Unp(r) => Some(r),
        ICodeSource::Not(r) => Some(r),
        ICodeSource::Eq(r) => Some(r),
        ICodeSource::NotEq(r) => Some(r),
        ICodeSource::Less(r) => Some(r),
        ICodeSource::LessEq(r) => Some(r),
        ICodeSource::Greater(r) => Some(r),
        ICodeSource::GreaterEq(r) => Some(r),
        ICodeSource::Concat(r) => Some(r),
        ICodeSource::BitAnd(r) => Some(r),
        ICodeSource::BitOr(r) => Some(r),
        ICodeSource::BitXor(r) => Some(r),
        ICodeSource::BitNot(r) => Some(r),
        ICodeSource::ShiftL(r) => Some(r),
        ICodeSource::ShiftR(r) => Some(r),
        _ => None,
    }
}

/// An operator instruction keeps one source range, its operator's, at extra index 0; an
/// instruction with no source range keeps none.
pub proof fn law_operator_keeps_its_range(c: ICodeSource)
    ensures
        operator_range(c) is Some <==> source_operation(c) is Some,
        operator_range(c) matches Some(r) ==> code_ranges(c) == map![0usize => r],
        (c is LoadIntObject || c is LoadNilObject || c is LoadLocal || c is Jump || c is JumpIfTrue
            || c is JumpIfFalse || c is DropLocal || c is Leave) ==> code_ranges(c) == Map::<
            usize,
            rowan::TextRange,
        >::empty(),
{
}

/// The ranges of `m`, recorded for the instruction at position `i`.
pub open spec fn ranges_at(i: usize, m: Map<usize, rowan::TextRange>) -> Map<
    (usize, usize),
    rowan::TextRange,
> {
    Map::new(|k: (usize, usize)| k.0 == i && m.contains_key(k.1), |k: (usize, usize)| m[k.1])
}

/// The source ranges of the first `n` instructions of `all`, by position and extra index.
pub open spec fn source_ranges(all: Seq<ICodeSource>, n: int) -> Map<
    (usize, usize),
    rowan::TextRange,
> {
    Map::new(
        |k: (usize, usize)| k.0 < n && code_ranges(all[k.0 as int]).contains_key(k.1),
        |k: (usize, usize)| code_ranges(all[k.0 as int])[k.1],
    )
}

proof fn lemma_source_ranges_step(all: Seq<ICodeSource>, i: usize)
    requires
        i < all.len(),
    ensures
        source_ranges(all, i + 1) == source_ranges(all, i as int).union_prefer_right(
            ranges_at(i, code_ranges(all[i as int])),
        ),
{
    assert(source_ranges(all, i + 1) =~= source_ranges(all, i as int).union_prefer_right(
        ranges_at(i, code_ranges(all[i as int])),
    ));
}

proof fn lemma_concat_codes_push(fs: Seq<Fragment>, k: int)
    requires
        0 <= k < fs.len(),
    ensures
        concat_codes(fs.take(k + 1)) == concat_codes(fs.take(k)) + fs[k].code_spec(),
{
    assert(fs.take(k + 1).drop_last() =~= fs.take(k));
}

/// The code of the first `m` functions is the beginning of the code of all of them.
proof fn lemma_concat_codes_prefix(fs: Seq<Fragment>, m: int)
    requires
        0 <= m <= fs.len(),
    ensures
        concat_codes(fs.take(m)).len() <= concat_codes(fs).len(),
        forall|j: int| 0 <= j < concat_codes(fs.take(m)).len() ==> #[trigger] concat_codes(fs.take(m))[j]
            == concat_codes(fs)[j],
    decreases fs.len(),
{
    if m == fs.len() {
        assert(fs.take(m) =~= fs);
    } else {
        let init = fs.drop_last();
        assert(init.take(m) =~= fs.take(m));
        lemma_concat_codes_prefix(init, m);
    }
}

/// Each function's code stands, whole and in order, where `function_starts` says it starts in
/// the code of the whole compilation, which the lowered code keeps position for position.
pub proof fn law_function_code_at_its_start(main: Fragment, funcs: Seq<Fragment>, k: int, i: int)
    requires
        0 <= k < funcs.len(),
        0 <= i < funcs[k].code_spec().len(),
        all_code(main, funcs).len() <= usize::MAX,
    ensures
        function_starts(main, funcs)[k] + i < all_code(main, funcs).len(),
        all_code(main, funcs)[function_starts(main, funcs)[k] + i] == funcs[k].code_spec()[i],
{
    lemma_concat_codes_push(funcs, k);
    lemma_concat_codes_prefix(funcs, k + 1);
    let pre = concat_codes(funcs.take(k));
    let upto = concat_codes(funcs.take(k + 1));
    assert(upto[pre.len() + i] == funcs[k].code_spec()[i]);
    assert(concat_codes(funcs)[pre.len() + i] == funcs[k].code_spec()[i]);
    let n = main.code_spec().len();
    assert(function_starts(main, funcs)[k] == n + pre.len());
    assert(all_code(main, funcs)[n + pre.len() + i] == concat_codes(funcs)[pre.len() + i]);
}

/// Records the source ranges of `code`, at position `i`, in `infos`, and gives the instruction
/// it becomes.
fn lower_code(code: ICodeSource, i: usize, starts: &Vec<usize>, infos: &mut SourceInfo) -> (r:
    ICode)
    requires
        !(code is Tombstone),
        code is FuncSetProperty ==> (code->1).0 < starts@.len(),
    ensures
        r == lowered(code, starts@),
        final(infos).view() == old(infos).view().union_prefer_right(ranges_at(i, code_ranges(code))),
{
    let ghost c0 = code;
    let ghost before = infos.view();
    let r = match code {
        ICodeSource::LoadIntObject(x) => ICode::LoadIntObject(x),
        ICodeSource::LoadFloatObject(x) => ICode::LoadFloatObject(x),
        ICodeSource::LoadStringObject(x) => ICode::LoadStringObject(x),
        ICodeSource::LoadBoolObject(x) => ICode::LoadBoolObject(x),
        ICodeSource::LoadNilObject => ICode::LoadNilObject,
        ICodeSource::LoadLocal(x) => ICode::LoadLocal(x),
        ICodeSource::Unload => ICode::Unload,
        ICodeSource::StoreLocal(x) => ICode::StoreLocal(x),
        ICodeSource::StoreNewLocal => ICode::StoreNewLocal,
        ICodeSource::MakeArray(x) => ICode::MakeArray(x),
        ICodeSource::MakeTable(x, ranges) => {
            let mut e: usize = 0;
            while e < ranges.len()
                invariant
                    c0 == ICodeSource::MakeTable(x, ranges),
                    e <= ranges@.len(),
                    infos.view() == before.union_prefer_right(
                        Map::new(
                            |k: (usize, usize)|
                                k.0 == i && k.1 < e && ranges@[k.1 as int] is Some,
                            |k: (usize, usize)| ranges@[k.1 as int]->0,
                        ),
                    ),
                decreases ranges@.len() - e,
            {
                if let Some(range) = ranges[e] {
                    infos.insert(i, e, range);
                }
                proof {
                    let ghost m = Map::new(
                        |k: (usize, usize)|
                            k.0 == i && k.1 < e + 1 && ranges@[k.1 as int] is Some,
                        |k: (usize, usize)| ranges@[k.1 as int]->0,
                    );
                    assert(infos.view() =~= before.union_prefer_right(m));
                }
                e = e + 1;
            }
            proof {
                assert(infos.view() =~= before.union_prefer_right(ranges_at(i, code_ranges(c0))));
            }
            ICode::MakeTable(x)
        },
        ICodeSource::DropLocal(x) => ICode::DropLocal(x),
        ICodeSource::Jump(x) => ICode::Jump(x),
        ICodeSource::JumpIfTrue(x) => ICode::JumpIfTrue(x),
        ICodeSource::JumpIfFalse(x) => ICode::JumpIfFalse(x),
        ICodeSource::Call(x, range0, ranges) => {
            infos.insert(i, 0, range0);
            let mut e: usize = 0;
            while e < ranges.len()
                invariant
                    c0 == ICodeSource::Call(x, range0, ranges),
                    e <= ranges@.len(),
                    infos.view() == before.union_prefer_right(
                        Map::new(
                            |k: (usize, usize)| k.0 == i && k.1 <= e,
                            |k: (usize, usize)|
                                if k.1 == 0 {
                                    range0
                                } else {
                                    ranges@[k.1 - 1]
                                },
                        ),
                    ),
                decreases ranges@.len() - e,
            {
                infos.insert(i, e + 1, ranges[e]);
                proof {
                    let ghost m = Map::new(
                        |k: (usize, usize)| k.0 == i && k.1 <= e + 1,
                        |k: (usize, usize)|
                            if k.1 == 0 {
                                range0
                            } else {
                                ranges@[k.1 - 1]
                            },
                    );
                    assert(infos.view() =~= before.union_prefer_right(m));
                }
                e = e + 1;
            }
            proof {
                assert(infos.view() =~= before.union_prefer_right(ranges_at(i, code_ranges(c0))));
            }
            ICode::Call(x)
        },
        ICodeSource::CallMethod(x, y, ranges) => {
            let mut e: usize = 0;
            while e < ranges.len()
                invariant
                    c0 == ICodeSource::CallMethod(x, y, ranges),
                    e <= ranges@.len(),
                    infos.view() == before.union_prefer_right(
                        Map::new(
                            |k: (usize, usize)| k.0 == i && k.1 < e,
                            |k: (usize, usize)| ranges@[k.1 as int],
                        ),
                    ),
                decreases ranges@.len() - e,
            {
                infos.insert(i, e, ranges[e]);
                proof {
                    let ghost m = Map::new(
                        |k: (usize, usize)| k.0 == i && k.1 < e + 1,
                        |k: (usize, usize)| ranges@[k.1 as int],
                    );
                    assert(infos.view() =~= before.union_prefer_right(m));
                }
                e = e + 1;
            }
            proof {
                assert(infos.view() =~= before.union_prefer_right(ranges_at(i, code_ranges(c0))));
            }
            ICode::CallMethod(x, y)
        },
        ICodeSource::SetItem(range) => {
            infos.insert(i, 0, range);
            ICode::SetItem
        },
        ICodeSource::GetItem(range) => {
            infos.insert(i, 0, range);
            ICode::GetItem
        },
        ICodeSource::SetMethod(x, _) => ICode::SetMethod(x),
        ICodeSource::Add(range) => {
            infos.insert(i, 0, range);
            ICode::Add
        },
        ICodeSource::Sub(range) => {
            infos.insert(i, 0, range);
            ICode::Sub
        },
        ICodeSource::Mul(range) => {
            infos.insert(i, 0, range);
            ICode::Mul
        },
        ICodeSource::Div(range) => {
            infos.insert(i, 0, range);
            ICode::Div
        },
        ICodeSource::Mod(range) => {
            infos.insert(i, 0, range);
            ICode::Mod
        },
        ICodeSource::Unm(range) => {
            infos.insert(i, 0, range);
            ICode::Unm
        },
        ICodeSource::Unp(range) => {
            infos.insert(i, 0, range);
            ICode::Unp
        },
        ICodeSource::Not(range) => {
            infos.insert(i, 0, range);
            ICode::Not
        },
        ICodeSource::Eq(range) => {
            infos.insert(i, 0, range);
            ICode::Eq
        },
        ICodeSource::NotEq(range) => {
            infos.insert(i, 0, range);
            ICode::NotEq
        },
        ICodeSource::Less(range) => {
            infos.insert(i, 0, range);
            ICode::Less
        },
        ICodeSource::LessEq(range) => {
            infos.insert(i, 0, range);
            ICode::LessEq
        },
        ICodeSource::Greater(range) => {
            infos.insert(i, 0, range);
            ICode::Greater
        },
        ICodeSource::GreaterEq(range) => {
            infos.insert(i, 0, range);
            ICode::GreaterEq
        },
        ICodeSource::Concat(range) => {
            infos.insert(i, 0, range);
            ICode::Concat
        },
        ICodeSource::BitAnd(range) => {
            infos.insert(i, 0, range);
            ICode::BitAnd
        },
        ICodeSource::BitOr(range) => {
            infos.insert(i, 0, range);
            ICode::BitOr
        },
        ICodeSource::BitXor(range) => {
            infos.insert(i, 0, range);
            ICode::BitXor
        },
        ICodeSource::BitNot(range) => {
            infos.insert(i, 0, range);
            ICode::BitNot
        },
        ICodeSource::ShiftL(range) => {
            infos.insert(i, 0, range);
            ICode::ShiftL
        },
        ICodeSource::ShiftR(range) => {
            infos.insert(i, 0, range);
            ICode::ShiftR
        },
        ICodeSource::GetIter => ICode::GetIter,
        ICodeSource::IterMoveNext => ICode::IterMoveNext,
        ICodeSource::IterCurrent => ICode::IterCurrent,
        ICodeSource::BeginFuncSection => ICode::BeginFuncSection,
        ICodeSource::FuncSetProperty(x, id) => ICode::FuncSetProperty(x, starts[id.0]),
        ICodeSource::FuncAddCapture(x) => ICode::FuncAddCapture(x),
        ICodeSource::EndFuncSection => ICode::EndFuncSection,
        ICodeSource::Leave => ICode::Leave,
        ICodeSource::Tombstone => ICode::Nop,
    };
    proof {
        assert(infos.view() =~= before.union_prefer_right(ranges_at(i, code_ranges(c0))));
    }
    r
}

impl Context {
    /// Adds the code of a compiled function; gives its id, its position in the list.
    pub fn add_function(&mut self, fragment: Fragment) -> (r: FunctionListId)
        ensures
            r.0 == old(self).functions().len(),
            final(self).functions() == old(self).functions().push(fragment),
            final(self).names() == old(self).names(),
            final(self).blocks() == old(self).blocks(),
            final(self).loops() == old(self).loops(),
            old(self).wf() ==> final(self).wf(),
    {
        let len = self.func_list.len();
        self.func_list.push(fragment);
        FunctionListId(len)
    }

    /// Puts the main code and the functions' code together, in that order, and lowers each
    /// instruction: a function id becomes the position where that function's code starts, and
    /// the source ranges go to a table of their own, by position and extra index.
    pub fn finish_with(self, fragment: Fragment) -> (r: (Vec<ICode>, SourceInfo))
        requires
            finishable(fragment, self.functions()),
        ensures
            r.0@.len() == all_code(fragment, self.functions()).len(),
            forall|j: int|
                0 <= j < r.0@.len() ==> #[trigger] r.0@[j] == lowered(
                    all_code(fragment, self.functions())[j],
                    function_starts(fragment, self.functions()),
                ),
            r.1.view() == source_ranges(
                all_code(fragment, self.functions()),
                all_code(fragment, self.functions()).len() as int,
            ),
    {
        let ghost funcs = self.functions();
        let ghost main = fragment;
        let ghost all = all_code(main, funcs);
        let ghost starts = function_starts(main, funcs);
        let Context { func_list, .. } = self;
        assert(func_list@ == funcs);
        let nfuncs = func_list.len();
        let mut codes: Vec<ICodeSource> = fragment.finish();
        let mut rest = reversed(func_list);
        let mut id2idx: Vec<usize> = Vec::new();
        let mut k: usize = 0;
        proof {
            assert(funcs.take(0) =~= Seq::<Fragment>::empty());
        }
        while rest.len() > 0
            invariant
                finishable(main, funcs),
                starts == function_starts(main, funcs),
                funcs.len() == nfuncs,
                rest@.len() + k == funcs.len(),
                forall|j: int| 0 <= j < rest@.len() ==> rest@[j] == funcs[funcs.len() - 1 - j],
                codes@ == main.code_spec() + concat_codes(funcs.take(k as int)),
                id2idx@.len() == k,
                forall|j: int| 0 <= j < k ==> id2idx@[j] == starts[j],
            decreases rest@.len(),
        {
            let f = match rest.pop() {
                Some(f) => f,
                None => Fragment::new(),
            };
            assert(f == funcs[k as int]);
            id2idx.push(codes.len());
            let mut c = f.finish();
            codes.append(&mut c);
            proof {
                lemma_concat_codes_push(funcs, k as int);
            }
            k = k + 1;
        }
        proof {
            assert(funcs.take(funcs.len() as int) =~= funcs);
            assert(codes@ == all);
            assert(id2idx@ =~= starts);
        }
        let n = codes.len();
        let mut rest = reversed(codes);
        let mut out: Vec<ICode> = Vec::new();
        let mut infos = SourceInfo::new();
        let mut i: usize = 0;
        proof {
            assert(infos.view() =~= source_ranges(all, 0));
        }
        while i < n
            invariant
                finishable(main, funcs),
                all == all_code(main, funcs),
                n == all.len(),
                i <= n,
                rest@.len() == n - i,
                forall|j: int| 0 <= j < rest@.len() ==> rest@[j] == all[n - 1 - j],
                out@.len() == i,
                forall|j: int| 0 <= j < i ==> #[trigger] out@[j] == lowered(all[j], starts),
                id2idx@ == starts,
                starts.len() == funcs.len(),
                infos.view() == source_ranges(all, i as int),
            decreases n - i,
        {
            let code = match rest.pop() {
                Some(c) => c,
                None => ICodeSource::Tombstone,
            };
            assert(code == all[i as int]);
            let c = lower_code(code, i, &id2idx, &mut infos);
            out.push(c);
            proof {
                lemma_source_ranges_step(all, i);
            }
            i = i + 1;
        }
        (out, infos)
    }
}

} // verus!
