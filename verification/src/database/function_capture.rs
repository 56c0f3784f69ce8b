use crate::ir::item::{Effect, TableKeyName, Value};
use crate::ir::module::Module;
use crate::ir::storage::{
    effect_refs_before, effects_key_before, entry_ok, fields_before, function_key_before,
    value_refs_before, values_key_before, EffectsKey, FunctionKey, RawData, Strage, SymbolKey, ValueKey,
    ValueSliceKey,
};
use vstd::prelude::*;

verus! {

/// The names that the strings of `v` spell.
pub open spec fn name_set(v: Seq<String>) -> Set<Seq<char>> {
    Set::new(|x: Seq<char>| exists|i: int| 0 <= i < v.len() && v[i]@ == x)
}

/// The state of a walk over a module: the frames of the enclosing functions, outermost first,
/// each with its id and the names it defines; the names the current function defines; the id
/// of the current function; the names captured so far, by function id; and the first name
/// met that is defined nowhere, with its range.
pub type WalkState = (
    Seq<(u64, Set<Seq<char>>)>,
    Set<Seq<char>>,
    u64,
    Map<u64, Set<Seq<char>>>,
    Option<(Seq<char>, rowan::TextRange)>,
);

/// The id of the top level of a module.
pub open spec fn module_id() -> u64 {
    0
}

/// The id of a function: its key's start in the high 32 bits, its end in the low ones.
pub open spec fn function_id(k: FunctionKey) -> u64 {
    (k.start() as u64 * 0x1_0000_0000 + k.end() as u64) as u64
}

/// The text and the range of the symbol that `k` names, if it names one.
pub open spec fn symbol_entry(s: Seq<RawData>, k: SymbolKey) -> Option<(Seq<char>, rowan::TextRange)> {
    if k.raw() != 0 && k.raw() <= s.len() {
        match s[k.raw() - 1] {
            RawData::Symbol(t, sym) => Some((sym.spec_text(), t.spec_range())),
            _ => None,
        }
    } else {
        None
    }
}

/// The current function defines the symbol that `k` names.
pub open spec fn insert_def(s: Seq<RawData>, k: SymbolKey, st: WalkState) -> WalkState {
    if st.4 is Some {
        st
    } else {
        match symbol_entry(s, k) {
            Some((x, _)) => (st.0, st.1.insert(x), st.2, st.3, st.4),
            None => st,
        }
    }
}

/// The position of the innermost frame that defines `x`; -1 if none does.
pub open spec fn innermost(frames: Seq<(u64, Set<Seq<char>>)>, x: Seq<char>) -> int
    decreases frames.len(),
{
    if frames.len() == 0 {
        -1
    } else if frames.last().1.contains(x) {
        frames.len() - 1
    } else {
        innermost(frames.drop_last(), x)
    }
}

/// `x` added to the captures of the function `key`.
pub open spec fn add_capture(db: Map<u64, Set<Seq<char>>>, key: u64, x: Seq<char>) -> Map<
    u64,
    Set<Seq<char>>,
> {
    db.insert(
        key,
        (if db.contains_key(key) {
            db[key]
        } else {
            Set::empty()
        }).insert(x),
    )
}

/// `x` added to the captures of the functions of the frames `from` up to `to`.
pub open spec fn captures_through(
    db: Map<u64, Set<Seq<char>>>,
    frames: Seq<(u64, Set<Seq<char>>)>,
    from: int,
    to: int,
    x: Seq<char>,
) -> Map<u64, Set<Seq<char>>>
    decreases to - from,
{
    if to <= from {
        db
    } else {
        add_capture(captures_through(db, frames, from, to - 1, x), frames[to - 1].0, x)
    }
}

/// The current function uses the symbol that `k` names. A name that the current function
/// does not define is looked up in the enclosing functions, innermost first: every function
/// inside the one that defines it, and the current one, capture it and define it from then
/// on. A name that no enclosing function defines must be one of `defaults`, and is then
/// captured by all of them; otherwise it is the walk's error.
pub open spec fn use_local(
    s: Seq<RawData>,
    defaults: Set<Seq<char>>,
    k: SymbolKey,
    st: WalkState,
) -> WalkState {
    if st.4 is Some {
        st
    } else {
        match symbol_entry(s, k) {
            None => st,
            Some((x, range)) => if st.1.contains(x) {
                st
            } else {
                let f = innermost(st.0, x);
                if f < 0 && !defaults.contains(x) {
                    (st.0, st.1, st.2, st.3, Some((x, range)))
                } else {
                    (
                        Seq::new(
                            st.0.len(),
                            |j: int|
                                if j > f {
                                    (st.0[j].0, st.0[j].1.insert(x))
                                } else {
                                    st.0[j]
                                },
                        ),
                        st.1.insert(x),
                        st.2,
                        add_capture(captures_through(st.3, st.0, f + 1, st.0.len() as int, x), st.2, x),
                        None,
                    )
                }
            },
        }
    }
}

/// The parameters among the entries at positions `lo` up to `j` are defined.
pub open spec fn params_upto(s: Seq<RawData>, lo: int, j: int, st: WalkState) -> WalkState
    decreases j - lo,
{
    if j <= lo || j > s.len() {
        st
    } else {
        let st1 = params_upto(s, lo, j - 1, st);
        match s[j - 1] {
            RawData::Symbol(_, sym) => (st1.0, st1.1.insert(sym.spec_text()), st1.2, st1.3, st1.4),
            _ => st1,
        }
    }
}

/// Walks the value that `k` names, if any.
pub open spec fn walk_value_key(
    s: Seq<RawData>,
    d: Set<Seq<char>>,
    k: ValueKey,
    st: WalkState,
) -> WalkState
    decreases k.raw() as int, 3int, 0int,
{
    if st.4 is Some || k.raw() == 0 || k.raw() > s.len() {
        st
    } else {
        match s[k.raw() - 1] {
            RawData::Value(_, v) => walk_value(s, d, v, k.raw() - 1, st),
            _ => st,
        }
    }
}

/// Walks the effects at positions `lo` up to `j`, in order.
pub open spec fn walk_effects_upto(
    s: Seq<RawData>,
    d: Set<Seq<char>>,
    lo: int,
    j: int,
    st: WalkState,
) -> WalkState
    decreases j, 3int, 0int,
{
    if st.4 is Some || lo < 0 || j <= lo || j > s.len() {
        st
    } else {
        let st1 = walk_effects_upto(s, d, lo, j - 1, st);
        match s[j - 1] {
            RawData::Effect(_, e) => walk_effect(s, d, e, j - 1, st1),
            _ => st1,
        }
    }
}

/// Walks the values at positions `lo` up to `j`, in order.
pub open spec fn walk_values_upto(
    s: Seq<RawData>,
    d: Set<Seq<char>>,
    lo: int,
    j: int,
    st: WalkState,
) -> WalkState
    decreases j, 3int, 0int,
{
    if st.4 is Some || lo < 0 || j <= lo || j > s.len() {
        st
    } else {
        let st1 = walk_values_upto(s, d, lo, j - 1, st);
        match s[j - 1] {
            RawData::Value(_, v) => walk_value(s, d, v, j - 1, st1),
            _ => st1,
        }
    }
}

/// Walks the effects that `k` names.
pub open spec fn walk_effects(
    s: Seq<RawData>,
    d: Set<Seq<char>>,
    k: EffectsKey,
    st: WalkState,
) -> WalkState
    decreases k.end() as int - 1, 4int, 0int,
{
    if k.start() < 1 || k.end() < k.start() {
        st
    } else {
        walk_effects_upto(s, d, k.start() - 1, k.end() - 1, st)
    }
}

/// Walks the values that `k` names.
pub open spec fn walk_values(
    s: Seq<RawData>,
    d: Set<Seq<char>>,
    k: ValueSliceKey,
    st: WalkState,
) -> WalkState
    decreases k.end() as int - 1, 4int, 0int,
{
    if k.start() < 1 || k.end() < k.start() {
        st
    } else {
        walk_values_upto(s, d, k.start() - 1, k.end() - 1, st)
    }
}

/// Walks a function: with the current function pushed as a frame, the function defines its
/// parameters and its effects are walked; then the frame is popped back, with the names that
/// were added to it on the way.
pub open spec fn walk_function(
    s: Seq<RawData>,
    d: Set<Seq<char>>,
    fk: FunctionKey,
    st: WalkState,
) -> WalkState
    decreases fk.end() as int - 1, 4int, 0int,
{
    if st.4 is Some || fk.start() < 1 || fk.end() < fk.start() {
        st
    } else {
        let inner0 = (st.0.push((st.2, st.1)), Set::empty(), function_id(fk), st.3, st.4);
        let inner1 = params_upto(s, fk.start() - 1, fk.end() - 1, inner0);
        let inner = walk_effects_upto(s, d, fk.start() - 1, fk.end() - 1, inner1);
        if inner.4 is Some {
            inner
        } else {
            (inner.0.drop_last(), inner.0.last().1, inner.0.last().0, inner.3, None)
        }
    }
}

/// Walks the first `i` fields of a table at position `p`: each key that is an expression,
/// then each value.
pub open spec fn walk_fields(
    s: Seq<RawData>,
    d: Set<Seq<char>>,
    fields: Seq<(TableKeyName, ValueKey)>,
    p: int,
    i: int,
    st: WalkState,
) -> WalkState
    decreases p + 1, 1int, i,
{
    if st.4 is Some || i <= 0 || i > fields.len() || p < 0 || !fields_before(s, fields, p) {
        st
    } else {
        let st1 = walk_fields(s, d, fields, p, i - 1, st);
        let st2 = match fields[i - 1].0 {
            TableKeyName::Value(k) => walk_value_key(s, d, k, st1),
            TableKeyName::String(_) => st1,
        };
        walk_value_key(s, d, fields[i - 1].1, st2)
    }
}

/// Walks a value placed at position `p`.
pub open spec fn walk_value(
    s: Seq<RawData>,
    d: Set<Seq<char>>,
    v: Value,
    p: int,
    st: WalkState,
) -> WalkState
    decreases p + 1, 2int, 0int,
{
    if st.4 is Some || p < 0 || !value_refs_before(s, v, p) {
        st
    } else {
        match v {
            Value::Branch { condition, then, then_tail, else_, else_tail } => {
                let st = walk_value_key(s, d, condition, st);
                let st = walk_effects(s, d, then, st);
                let st = walk_value_key(s, d, then_tail, st);
                let st = walk_effects(s, d, else_, st);
                walk_value_key(s, d, else_tail, st)
            },
            Value::Prefix { op: _, value } => walk_value_key(s, d, value, st),
            Value::Binary { op: _, lhs, rhs } => {
                let st = walk_value_key(s, d, lhs, st);
                walk_value_key(s, d, rhs, st)
            },
            Value::Call { value, args } => {
                let st = walk_value_key(s, d, value, st);
                walk_values(s, d, args, st)
            },
            Value::Index { value, index } => {
                let st = walk_value_key(s, d, value, st);
                walk_value_key(s, d, index, st)
            },
            Value::Field { value, name: _ } => walk_value_key(s, d, value, st),
            Value::MethodCall { value, name: _, args } => {
                let st = walk_value_key(s, d, value, st);
                walk_values(s, d, args, st)
            },
            Value::Block { effects, tail } => {
                let st = walk_effects(s, d, effects, st);
                walk_value_key(s, d, tail, st)
            },
            Value::Local { name } => use_local(s, d, name, st),
            Value::Function(func) => walk_function(s, d, func, st),
            Value::Array { elements } => walk_values(s, d, elements, st),
            Value::Table { fields } => walk_fields(s, d, fields@, p, fields@.len() as int, st),
            _ => st,
        }
    }
}

/// Walks an effect placed at position `p`.
pub open spec fn walk_effect(
    s: Seq<RawData>,
    d: Set<Seq<char>>,
    e: Effect,
    p: int,
    st: WalkState,
) -> WalkState
    decreases p + 1, 2int, 0int,
{
    if st.4 is Some || p < 0 || !effect_refs_before(s, e, p) {
        st
    } else {
        match e {
            Effect::MakeLocal { name, value } => {
                let st = walk_value_key(s, d, value, st);
                insert_def(s, name, st)
            },
            Effect::MakeFunc { name, func } => {
                let st = insert_def(s, name, st);
                walk_function(s, d, func, st)
            },
            Effect::SetLocal { local, value } => {
                let st = use_local(s, d, local, st);
                walk_value_key(s, d, value, st)
            },
            Effect::SetIndex { target, index, value } => {
                let st = walk_value_key(s, d, value, st);
                let st = walk_value_key(s, d, index, st);
                walk_value_key(s, d, target, st)
            },
            Effect::SetField { target, field: _, value } => {
                let st = walk_value_key(s, d, value, st);
                walk_value_key(s, d, target, st)
            },
            Effect::SetFieldFunc { table, path: _, func } => {
                let st = walk_function(s, d, func, st);
                use_local(s, d, table, st)
            },
            Effect::SetMethod { table, path: _, name: _, func } => {
                let st = walk_function(s, d, func, st);
                use_local(s, d, table, st)
            },
            Effect::Branch { condition, then, else_ } => {
                let st = walk_value_key(s, d, condition, st);
                let st = walk_effects(s, d, then, st);
                walk_effects(s, d, else_, st)
            },
            Effect::LoopFor { variable, iterable, effects } => {
                let st = walk_value_key(s, d, iterable, st);
                let st = insert_def(s, variable, st);
                walk_effects(s, d, effects, st)
            },
            Effect::LoopWhile { condition, effects } => {
                let st = walk_value_key(s, d, condition, st);
                walk_effects(s, d, effects, st)
            },
            Effect::Scope { body } => walk_effects(s, d, body, st),
            Effect::Call { value, args } => {
                let st = walk_value_key(s, d, value, st);
                walk_values(s, d, args, st)
            },
            Effect::MethodCall { table, name: _, args } => {
                let st = walk_value_key(s, d, table, st);
                walk_values(s, d, args, st)
            },
            Effect::Return { value } => walk_value_key(s, d, value, st),
            Effect::BreakLoop => st,
            Effect::ContinueLoop => st,
            Effect::NoEffectValue { value } => walk_value_key(s, d, value, st),
        }
    }
}

/// The frame that `innermost` finds defines `x`, and no frame inside it does; it is `-1`
/// exactly when no frame defines `x`.
pub proof fn law_innermost_is_closest_definer(frames: Seq<(u64, Set<Seq<char>>)>, x: Seq<char>)
    ensures
        -1 <= innermost(frames, x) < frames.len(),
        innermost(frames, x) >= 0 ==> frames[innermost(frames, x)].1.contains(x),
        forall|j: int| innermost(frames, x) < j < frames.len() ==> !(#[trigger] frames[j]).1.contains(x),
        innermost(frames, x) == -1 <==> forall|j: int| 0 <= j < frames.len() ==> !(#[trigger] frames[j]).1.contains(x),
    decreases frames.len(),
{
    if frames.len() > 0 {
        law_innermost_is_closest_definer(frames.drop_last(), x);
        if !frames.last().1.contains(x) {
            assert forall|j: int| innermost(frames, x) < j < frames.len() implies !(#[trigger] frames[j]).1.contains(x) by {
                if j < frames.len() - 1 {
                    assert(frames[j] == frames.drop_last()[j]);
                }
            }
            if innermost(frames, x) == -1 {
                assert forall|j: int| 0 <= j < frames.len() implies !(#[trigger] frames[j]).1.contains(x) by {
                    if j < frames.len() - 1 {
                        assert(frames[j] == frames.drop_last()[j]);
                    }
                }
            } else {
                assert(frames[innermost(frames, x)] == frames.drop_last()[innermost(frames, x)]);
            }
        }
    }
}

/// The walk of a whole module: its top level, from no frame and no name.
pub open spec fn module_walk(m: &Module, defaults: Set<Seq<char>>) -> WalkState {
    walk_effects(
        m.spec_strage()@,
        defaults,
        m.spec_effects(),
        (Seq::empty(), Set::empty(), module_id(), Map::empty(), None),
    )
}


/// The frames of a walk are those of the top level (id 0, outermost) and of functions (other
/// ids); the current function is the top level exactly when there is no frame; and the top
/// level has captured only names of `d`.
pub open spec fn top_level_ok(d: Set<Seq<char>>, st: WalkState) -> bool {
    &&& st.0.len() == 0 ==> st.2 == module_id()
    &&& st.0.len() > 0 ==> st.0[0].0 == module_id() && st.2 != module_id()
    &&& forall|j: int| 1 <= j < st.0.len() ==> #[trigger] st.0[j].0 != module_id()
    &&& st.3.contains_key(module_id()) ==> st.3[module_id()].subset_of(d)
}

/// Two states have the same frames, by id, and the same current function.
pub open spec fn same_frames(a: WalkState, b: WalkState) -> bool {
    &&& a.0.len() == b.0.len()
    &&& forall|j: int| 0 <= j < a.0.len() ==> #[trigger] a.0[j].0 == b.0[j].0
    &&& a.2 == b.2
}

/// Every name that `a` records as captured by a function, `b` records too.
pub open spec fn grows(a: Map<u64, Set<Seq<char>>>, b: Map<u64, Set<Seq<char>>>) -> bool {
    forall|id: u64, x: Seq<char>|
        a.contains_key(id) && #[trigger] a[id].contains(x) ==> b.contains_key(id) && b[id].contains(
            x,
        )
}

/// A step of the walk from `st` to `r` keeps `top_level_ok`, loses no capture, and, unless it
/// meets an undefined name, ends in the frames it started in, with every name that the current
/// function and each frame defined still defined.
pub open spec fn keeps(d: Set<Seq<char>>, st: WalkState, r: WalkState) -> bool {
    &&& top_level_ok(d, r)
    &&& grows(st.3, r.3)
    &&& r.4 is None ==> same_frames(r, st)
    &&& r.4 is None ==> st.1.subset_of(r.1)
    &&& r.4 is None ==> forall|j: int| 0 <= j < st.0.len() ==> (#[trigger] st.0[j]).1.subset_of(r.0[j].1)
}

/// Adding `x` to the captures of the frames `from` up to `to` loses no capture, and each of
/// those frames' functions then captures `x`.
proof fn lemma_captures_through_grows(
    db: Map<u64, Set<Seq<char>>>,
    frames: Seq<(u64, Set<Seq<char>>)>,
    from: int,
    to: int,
    x: Seq<char>,
)
    ensures
        grows(db, captures_through(db, frames, from, to, x)),
        forall|j: int|
            from <= j < to ==> captures_through(db, frames, from, to, x).contains_key(
                #[trigger] frames[j].0,
            ) && captures_through(db, frames, from, to, x)[frames[j].0].contains(x),
    decreases to - from,
{
    if to > from {
        lemma_captures_through_grows(db, frames, from, to - 1, x);
        let prev = captures_through(db, frames, from, to - 1, x);
        let r = captures_through(db, frames, from, to, x);
        assert(r == add_capture(prev, frames[to - 1].0, x));
        assert(grows(prev, r));
        assert forall|j: int| from <= j < to implies r.contains_key(#[trigger] frames[j].0)
            && r[frames[j].0].contains(x) by {
            if j < to - 1 {
                assert(prev.contains_key(frames[j].0) && prev[frames[j].0].contains(x));
            }
        }
    }
}

proof fn lemma_captures_through_top(
    d: Set<Seq<char>>,
    db: Map<u64, Set<Seq<char>>>,
    frames: Seq<(u64, Set<Seq<char>>)>,
    from: int,
    to: int,
    x: Seq<char>,
)
    requires
        0 <= from,
        to <= frames.len(),
        db.contains_key(module_id()) ==> db[module_id()].subset_of(d),
        forall|j: int| from <= j < to && #[trigger] frames[j].0 == module_id() ==> d.contains(x),
    ensures
        captures_through(db, frames, from, to, x).contains_key(module_id()) ==> captures_through(
            db,
            frames,
            from,
            to,
            x,
        )[module_id()].subset_of(d),
    decreases to - from,
{
    if to > from {
        lemma_captures_through_top(d, db, frames, from, to - 1, x);
        if frames[to - 1].0 == module_id() {
            assert(d.contains(x));
        }
    }
}

proof fn lemma_keeps_use_local(s: Seq<RawData>, d: Set<Seq<char>>, k: SymbolKey, st: WalkState)
    requires
        top_level_ok(d, st),
    ensures
        keeps(d, st, use_local(s, d, k, st)),
{
    if st.4 is None {
        match symbol_entry(s, k) {
            None => {},
            Some((x, range)) => {
                if !st.1.contains(x) {
                    let f = innermost(st.0, x);
                    lemma_innermost_range(st.0, x);
                    if !(f < 0 && !d.contains(x)) {
                        assert forall|j: int|
                            f + 1 <= j < st.0.len() && #[trigger] st.0[j].0 == module_id() implies d.contains(
                            x,
                        ) by {
                            assert(j == 0);
                        }
                        lemma_captures_through_top(d, st.3, st.0, f + 1, st.0.len() as int, x);
                        lemma_captures_through_grows(st.3, st.0, f + 1, st.0.len() as int, x);
                        let r = use_local(s, d, k, st);
                        assert(same_frames(r, st));
                    }
                }
            },
        }
    }
}

proof fn lemma_innermost_range(frames: Seq<(u64, Set<Seq<char>>)>, x: Seq<char>)
    ensures
        -1 <= innermost(frames, x) < frames.len(),
    decreases frames.len(),
{
    if frames.len() > 0 {
        lemma_innermost_range(frames.drop_last(), x);
    }
}

proof fn lemma_keeps_params(s: Seq<RawData>, d: Set<Seq<char>>, lo: int, j: int, st: WalkState)
    requires
        top_level_ok(d, st),
    ensures
        keeps(d, st, params_upto(s, lo, j, st)),
        params_upto(s, lo, j, st).4 == st.4,
        params_upto(s, lo, j, st).3 == st.3,
    decreases j - lo,
{
    if j > lo && j <= s.len() {
        lemma_keeps_params(s, d, lo, j - 1, st);
    }
}

proof fn lemma_keeps_trans(d: Set<Seq<char>>, a: WalkState, b: WalkState, c: WalkState)
    requires
        keeps(d, a, b),
        keeps(d, b, c),
        c.4 is None ==> b.4 is None,
    ensures
        keeps(d, a, c),
{
}

proof fn lemma_keeps_value_key(s: Seq<RawData>, d: Set<Seq<char>>, k: ValueKey, st: WalkState)
    requires
        top_level_ok(d, st),
    ensures
        keeps(d, st, walk_value_key(s, d, k, st)),
    decreases k.raw() as int, 3int, 0int,
{
    if !(st.4 is Some || k.raw() == 0 || k.raw() > s.len()) {
        match s[k.raw() - 1] {
            RawData::Value(_, v) => lemma_keeps_value(s, d, v, k.raw() - 1, st),
            _ => {},
        }
    }
}

proof fn lemma_keeps_effects_upto(s: Seq<RawData>, d: Set<Seq<char>>, lo: int, j: int, st: WalkState)
    requires
        top_level_ok(d, st),
    ensures
        keeps(d, st, walk_effects_upto(s, d, lo, j, st)),
    decreases j, 3int, 0int,
{
    if !(st.4 is Some || lo < 0 || j <= lo || j > s.len()) {
        lemma_keeps_effects_upto(s, d, lo, j - 1, st);
        let st1 = walk_effects_upto(s, d, lo, j - 1, st);
        match s[j - 1] {
            RawData::Effect(_, e) => {
                lemma_keeps_effect(s, d, e, j - 1, st1);
                lemma_error_absorbs(s, d);
                lemma_keeps_trans(d, st, st1, walk_effect(s, d, e, j - 1, st1));
            },
            _ => {},
        }
    }
}

proof fn lemma_keeps_values_upto(s: Seq<RawData>, d: Set<Seq<char>>, lo: int, j: int, st: WalkState)
    requires
        top_level_ok(d, st),
    ensures
        keeps(d, st, walk_values_upto(s, d, lo, j, st)),
    decreases j, 3int, 0int,
{
    if !(st.4 is Some || lo < 0 || j <= lo || j > s.len()) {
        lemma_keeps_values_upto(s, d, lo, j - 1, st);
        let st1 = walk_values_upto(s, d, lo, j - 1, st);
        match s[j - 1] {
            RawData::Value(_, v) => {
                lemma_keeps_value(s, d, v, j - 1, st1);
                lemma_keeps_trans(d, st, st1, walk_value(s, d, v, j - 1, st1));
            },
            _ => {},
        }
    }
}

proof fn lemma_keeps_effects(s: Seq<RawData>, d: Set<Seq<char>>, k: EffectsKey, st: WalkState)
    requires
        top_level_ok(d, st),
    ensures
        keeps(d, st, walk_effects(s, d, k, st)),
    decreases k.end() as int - 1, 4int, 0int,
{
    if !(k.start() < 1 || k.end() < k.start()) {
        lemma_keeps_effects_upto(s, d, k.start() - 1, k.end() - 1, st);
    }
}

proof fn lemma_keeps_values(s: Seq<RawData>, d: Set<Seq<char>>, k: ValueSliceKey, st: WalkState)
    requires
        top_level_ok(d, st),
    ensures
        keeps(d, st, walk_values(s, d, k, st)),
    decreases k.end() as int - 1, 4int, 0int,
{
    if !(k.start() < 1 || k.end() < k.start()) {
        lemma_keeps_values_upto(s, d, k.start() - 1, k.end() - 1, st);
    }
}

proof fn lemma_keeps_function(s: Seq<RawData>, d: Set<Seq<char>>, fk: FunctionKey, st: WalkState)
    requires
        top_level_ok(d, st),
    ensures
        keeps(d, st, walk_function(s, d, fk, st)),
    decreases fk.end() as int - 1, 4int, 0int,
{
    if !(st.4 is Some || fk.start() < 1 || fk.end() < fk.start()) {
        let inner0 = (st.0.push((st.2, st.1)), Set::<Seq<char>>::empty(), function_id(fk), st.3, st.4);
        assert(function_id(fk) != module_id());
        assert(top_level_ok(d, inner0));
        lemma_keeps_params(s, d, fk.start() - 1, fk.end() - 1, inner0);
        let inner1 = params_upto(s, fk.start() - 1, fk.end() - 1, inner0);
        lemma_keeps_effects_upto(s, d, fk.start() - 1, fk.end() - 1, inner1);
        let inner = walk_effects_upto(s, d, fk.start() - 1, fk.end() - 1, inner1);
        lemma_keeps_trans(d, inner0, inner1, inner);
        if inner.4 is None {
            assert(same_frames(inner, inner0));
            let r = walk_function(s, d, fk, st);
            let n = st.0.len() as int;
            assert(inner0.0[n] == (st.2, st.1));
            assert(inner0.0[n].1.subset_of(inner.0[n].1));
            assert(r.1 == inner.0[n].1);
            assert forall|j: int| 0 <= j < st.0.len() implies (#[trigger] st.0[j]).1.subset_of(r.0[j].1) by {
                assert(inner0.0[j] == st.0[j]);
                assert(inner0.0[j].1.subset_of(inner.0[j].1));
                assert(r.0[j] == inner.0[j]);
            }
            assert(inner.0.drop_last().len() == st.0.len());
            assert forall|j: int| 0 <= j < r.0.len() implies #[trigger] r.0[j].0 == st.0[j].0 by {
                assert(inner.0[j].0 == inner0.0[j].0);
            }
            assert(r.2 == inner.0[st.0.len() as int].0);
            assert(same_frames(r, st));
        }
    }
}

proof fn lemma_keeps_fields(
    s: Seq<RawData>,
    d: Set<Seq<char>>,
    fields: Seq<(TableKeyName, ValueKey)>,
    p: int,
    i: int,
    st: WalkState,
)
    requires
        top_level_ok(d, st),
    ensures
        keeps(d, st, walk_fields(s, d, fields, p, i, st)),
    decreases p + 1, 1int, i,
{
    if !(st.4 is Some || i <= 0 || i > fields.len() || p < 0 || !fields_before(s, fields, p)) {
        lemma_error_absorbs(s, d);
        lemma_keeps_fields(s, d, fields, p, i - 1, st);
        let st1 = walk_fields(s, d, fields, p, i - 1, st);
        let st2 = match fields[i - 1].0 {
            TableKeyName::Value(k) => walk_value_key(s, d, k, st1),
            TableKeyName::String(_) => st1,
        };
        match fields[i - 1].0 {
            TableKeyName::Value(k) => {
                lemma_keeps_value_key(s, d, k, st1);
                lemma_keeps_trans(d, st, st1, st2);
            },
            TableKeyName::String(_) => {},
        }
        lemma_keeps_value_key(s, d, fields[i - 1].1, st2);
        lemma_keeps_trans(d, st, st2, walk_value_key(s, d, fields[i - 1].1, st2));
    }
}

proof fn lemma_keeps_value(s: Seq<RawData>, d: Set<Seq<char>>, v: Value, p: int, st: WalkState)
    requires
        top_level_ok(d, st),
    ensures
        keeps(d, st, walk_value(s, d, v, p, st)),
    decreases p + 1, 2int, 0int,
{
    if !(st.4 is Some || p < 0 || !value_refs_before(s, v, p)) {
        lemma_error_absorbs(s, d);
        match v {
            Value::Branch { condition, then, then_tail, else_, else_tail } => {
                lemma_keeps_value_key(s, d, condition, st);
                let st1 = walk_value_key(s, d, condition, st);
                lemma_keeps_effects(s, d, then, st1);
                let st2 = walk_effects(s, d, then, st1);
                lemma_keeps_trans(d, st, st1, st2);
                lemma_keeps_value_key(s, d, then_tail, st2);
                let st3 = walk_value_key(s, d, then_tail, st2);
                lemma_keeps_trans(d, st, st2, st3);
                lemma_keeps_effects(s, d, else_, st3);
                let st4 = walk_effects(s, d, else_, st3);
                lemma_keeps_trans(d, st, st3, st4);
                lemma_keeps_value_key(s, d, else_tail, st4);
                lemma_keeps_trans(d, st, st4, walk_value_key(s, d, else_tail, st4));
            },
            Value::Prefix { op: _, value } => lemma_keeps_value_key(s, d, value, st),
            Value::Binary { op: _, lhs, rhs } => {
                lemma_keeps_value_key(s, d, lhs, st);
                let st1 = walk_value_key(s, d, lhs, st);
                lemma_keeps_value_key(s, d, rhs, st1);
                lemma_keeps_trans(d, st, st1, walk_value_key(s, d, rhs, st1));
            },
            Value::Call { value, args } => {
                lemma_keeps_value_key(s, d, value, st);
                let st1 = walk_value_key(s, d, value, st);
                lemma_keeps_values(s, d, args, st1);
                lemma_keeps_trans(d, st, st1, walk_values(s, d, args, st1));
            },
            Value::Index { value, index } => {
                lemma_keeps_value_key(s, d, value, st);
                let st1 = walk_value_key(s, d, value, st);
                lemma_keeps_value_key(s, d, index, st1);
                lemma_keeps_trans(d, st, st1, walk_value_key(s, d, index, st1));
            },
            Value::Field { value, name: _ } => lemma_keeps_value_key(s, d, value, st),
            Value::MethodCall { value, name: _, args } => {
                lemma_keeps_value_key(s, d, value, st);
                let st1 = walk_value_key(s, d, value, st);
                lemma_keeps_values(s, d, args, st1);
                lemma_keeps_trans(d, st, st1, walk_values(s, d, args, st1));
            },
            Value::Block { effects, tail } => {
                lemma_keeps_effects(s, d, effects, st);
                let st1 = walk_effects(s, d, effects, st);
                lemma_keeps_value_key(s, d, tail, st1);
                lemma_keeps_trans(d, st, st1, walk_value_key(s, d, tail, st1));
            },
            Value::Local { name } => lemma_keeps_use_local(s, d, name, st),
            Value::Function(func) => lemma_keeps_function(s, d, func, st),
            Value::Array { elements } => lemma_keeps_values(s, d, elements, st),
            Value::Table { fields } => lemma_keeps_fields(s, d, fields@, p, fields@.len() as int, st),
            _ => {},
        }
    }
}

proof fn lemma_keeps_effect(s: Seq<RawData>, d: Set<Seq<char>>, e: Effect, p: int, st: WalkState)
    requires
        top_level_ok(d, st),
    ensures
        keeps(d, st, walk_effect(s, d, e, p, st)),
    decreases p + 1, 2int, 0int,
{
    if !(st.4 is Some || p < 0 || !effect_refs_before(s, e, p)) {
        lemma_error_absorbs(s, d);
        match e {
            Effect::MakeLocal { name, value } => {
                lemma_keeps_value_key(s, d, value, st);
            },
            Effect::MakeFunc { name, func } => {
                let st1 = insert_def(s, name, st);
                lemma_keeps_function(s, d, func, st1);
            },
            Effect::SetLocal { local, value } => {
                lemma_keeps_use_local(s, d, local, st);
                let st1 = use_local(s, d, local, st);
                lemma_keeps_value_key(s, d, value, st1);
                lemma_keeps_trans(d, st, st1, walk_value_key(s, d, value, st1));
            },
            Effect::SetIndex { target, index, value } => {
                lemma_keeps_value_key(s, d, value, st);
                let st1 = walk_value_key(s, d, value, st);
                lemma_keeps_value_key(s, d, index, st1);
                let st2 = walk_value_key(s, d, index, st1);
                lemma_keeps_trans(d, st, st1, st2);
                lemma_keeps_value_key(s, d, target, st2);
                lemma_keeps_trans(d, st, st2, walk_value_key(s, d, target, st2));
            },
            Effect::SetField { target, field: _, value } => {
                lemma_keeps_value_key(s, d, value, st);
                let st1 = walk_value_key(s, d, value, st);
                lemma_keeps_value_key(s, d, target, st1);
                lemma_keeps_trans(d, st, st1, walk_value_key(s, d, target, st1));
            },
            Effect::SetFieldFunc { table, path: _, func } => {
                lemma_keeps_function(s, d, func, st);
                let st1 = walk_function(s, d, func, st);
                lemma_keeps_use_local(s, d, table, st1);
                lemma_keeps_trans(d, st, st1, use_local(s, d, table, st1));
            },
            Effect::SetMethod { table, path: _, name: _, func } => {
                lemma_keeps_function(s, d, func, st);
                let st1 = walk_function(s, d, func, st);
                lemma_keeps_use_local(s, d, table, st1);
                lemma_keeps_trans(d, st, st1, use_local(s, d, table, st1));
            },
            Effect::Branch { condition, then, else_ } => {
                lemma_keeps_value_key(s, d, condition, st);
                let st1 = walk_value_key(s, d, condition, st);
                lemma_keeps_effects(s, d, then, st1);
                let st2 = walk_effects(s, d, then, st1);
                lemma_keeps_trans(d, st, st1, st2);
                lemma_keeps_effects(s, d, else_, st2);
                lemma_keeps_trans(d, st, st2, walk_effects(s, d, else_, st2));
            },
            Effect::LoopFor { variable, iterable, effects } => {
                lemma_keeps_value_key(s, d, iterable, st);
                let st1 = walk_value_key(s, d, iterable, st);
                let st2 = insert_def(s, variable, st1);
                lemma_keeps_effects(s, d, effects, st2);
                lemma_keeps_trans(d, st, st2, walk_effects(s, d, effects, st2));
            },
            Effect::LoopWhile { condition, effects } => {
                lemma_keeps_value_key(s, d, condition, st);
                let st1 = walk_value_key(s, d, condition, st);
                lemma_keeps_effects(s, d, effects, st1);
                lemma_keeps_trans(d, st, st1, walk_effects(s, d, effects, st1));
            },
            Effect::Scope { body } => lemma_keeps_effects(s, d, body, st),
            Effect::Call { value, args } => {
                lemma_keeps_value_key(s, d, value, st);
                let st1 = walk_value_key(s, d, value, st);
                lemma_keeps_values(s, d, args, st1);
                lemma_keeps_trans(d, st, st1, walk_values(s, d, args, st1));
            },
            Effect::MethodCall { table, name: _, args } => {
                lemma_keeps_value_key(s, d, table, st);
                let st1 = walk_value_key(s, d, table, st);
                lemma_keeps_values(s, d, args, st1);
                lemma_keeps_trans(d, st, st1, walk_values(s, d, args, st1));
            },
            Effect::Return { value } => lemma_keeps_value_key(s, d, value, st),
            Effect::BreakLoop => {},
            Effect::ContinueLoop => {},
            Effect::NoEffectValue { value } => lemma_keeps_value_key(s, d, value, st),
        }
    }
}

/// The top level of a module captures only defaults: a name that nothing around it defines
/// can only be one of them. A walk that meets no undefined name ends back at the top level.
pub proof fn law_top_level_captures_defaults(m: &Module, d: Set<Seq<char>>)
    ensures
        module_walk(m, d).3.contains_key(module_id()) ==> module_walk(m, d).3[module_id()].subset_of(d),
        module_walk(m, d).4 is None ==> module_walk(m, d).0.len() == 0 && module_walk(m, d).2
            == module_id(),
{
    let st0: WalkState = (Seq::empty(), Set::empty(), module_id(), Map::empty(), None);
    assert(top_level_ok(d, st0));
    lemma_keeps_effects(m.spec_strage()@, d, m.spec_effects(), st0);
}

/// A name that a function uses and does not define itself is captured by that function and
/// by every function around it up to (not including) the innermost one that defines it; all
/// of them, when no function around it defines the name and it is a default. Nothing captured
/// before is lost, and from then on the user defines the name. A name that the function defines
/// itself (a parameter or a local) captures nothing.
pub proof fn law_use_captures_through_enclosing(
    s: Seq<RawData>,
    d: Set<Seq<char>>,
    k: SymbolKey,
    st: WalkState,
)
    requires
        st.4 is None,
        symbol_entry(s, k) is Some,
    ensures
        ({
            let x = (symbol_entry(s, k)->0).0;
            let f = innermost(st.0, x);
            let r = use_local(s, d, k, st);
            &&& st.1.contains(x) ==> r == st
            &&& (!st.1.contains(x) && (f >= 0 || d.contains(x))) ==> {
                &&& r.4 is None
                &&& r.1.contains(x)
                &&& r.3.contains_key(st.2) && r.3[st.2].contains(x)
                &&& forall|j: int|
                    f < j < st.0.len() ==> r.3.contains_key(#[trigger] st.0[j].0) && r.3[st.0[j].0].contains(x)
                &&& grows(st.3, r.3)
            }
            &&& (!st.1.contains(x) && f < 0 && !d.contains(x)) ==> r.4 == Some(symbol_entry(s, k)->0)
        }),
{
    let x = (symbol_entry(s, k)->0).0;
    let f = innermost(st.0, x);
    lemma_innermost_range(st.0, x);
    if !st.1.contains(x) && (f >= 0 || d.contains(x)) {
        lemma_captures_through_grows(st.3, st.0, f + 1, st.0.len() as int, x);
        let c = captures_through(st.3, st.0, f + 1, st.0.len() as int, x);
        let r = use_local(s, d, k, st);
        assert(r.3 == add_capture(c, st.2, x));
        assert forall|j: int| f < j < st.0.len() implies r.3.contains_key(#[trigger] st.0[j].0)
            && r.3[st.0[j].0].contains(x) by {
            assert(c.contains_key(st.0[j].0) && c[st.0[j].0].contains(x));
        }
    }
}

/// Walking the effects of a module part loses no capture: what a function captured before, it
/// still captures after.
pub proof fn law_walk_loses_no_capture(
    s: Seq<RawData>,
    d: Set<Seq<char>>,
    k: EffectsKey,
    st: WalkState,
)
    requires
        top_level_ok(d, st),
    ensures
        grows(st.3, walk_effects(s, d, k, st).3),
{
    lemma_keeps_effects(s, d, k, st);
}

/// The names used as variables in the expression that `k` names: its variable itself, and
/// those of its operands to any depth: the operand of a prefix operator, both operands of a
/// binary operator, the callee and the arguments of a call, the receiver and the arguments of
/// a method call, the container and the key of an index expression, the container of a field
/// access, the elements of an array, the condition, the statements and the two results of a
/// branch, and the statements and the result of a block (`effects_names`). The bodies of
/// function values, which are other functions, and the fields of tables are left out.
pub open spec fn operand_names(s: Seq<RawData>, k: ValueKey) -> Set<Seq<char>>
    decreases k.raw(), 2int,
{
    if k.raw() == 0 {
        Set::empty()
    } else {
        names_at(s, k.raw() - 1)
    }
}

/// The names used as variables in the expression placed at position `p`, as for
/// `operand_names`.
pub open spec fn names_at(s: Seq<RawData>, p: int) -> Set<Seq<char>>
    decreases p + 1, 1int,
{
    if p < 0 || p >= s.len() {
        Set::empty()
    } else {
        match s[p] {
            RawData::Value(_, v) => if !value_refs_before(s, v, p) {
                Set::empty()
            } else {
                match v {
                    Value::Local { name } => match symbol_entry(s, name) {
                        Some((x, _)) => Set::empty().insert(x),
                        None => Set::empty(),
                    },
                    Value::Prefix { op: _, value } => operand_names(s, value),
                    Value::Binary { op: _, lhs, rhs } => operand_names(s, lhs).union(
                        operand_names(s, rhs),
                    ),
                    Value::Call { value, args } => operand_names(s, value).union(
                        slice_names(s, args),
                    ),
                    Value::Index { value, index } => operand_names(s, value).union(
                        operand_names(s, index),
                    ),
                    Value::Field { value, name: _ } => operand_names(s, value),
                    Value::MethodCall { value, name: _, args } => operand_names(s, value).union(
                        slice_names(s, args),
                    ),
                    Value::Array { elements } => slice_names(s, elements),
                    Value::Branch { condition, then, then_tail, else_, else_tail } =>
                        operand_names(s, condition).union(effects_names(s, then)).union(
                        operand_names(s, then_tail),
                    ).union(effects_names(s, else_)).union(operand_names(s, else_tail)),
                    Value::Block { effects, tail } => effects_names(s, effects).union(
                        operand_names(s, tail),
                    ),
                    _ => Set::empty(),
                }
            },
            _ => Set::empty(),
        }
    }
}

/// The names used as variables in the expressions that `k` names, as for `operand_names`.
pub open spec fn slice_names(s: Seq<RawData>, k: ValueSliceKey) -> Set<Seq<char>>
    decreases k.end() as int - 1, 4int,
{
    if k.start() < 1 || k.end() < k.start() {
        Set::empty()
    } else {
        slice_names_upto(s, k.start() - 1, k.end() - 1)
    }
}

/// The names used as variables in the expressions at positions `lo` up to `j`.
pub open spec fn slice_names_upto(s: Seq<RawData>, lo: int, j: int) -> Set<Seq<char>>
    decreases j, 3int,
{
    if lo < 0 || j <= lo || j > s.len() {
        Set::empty()
    } else {
        slice_names_upto(s, lo, j - 1).union(names_at(s, j - 1))
    }
}

/// The names used as variables by the statements that `k` names, as for `effect_names_at`.
pub open spec fn effects_names(s: Seq<RawData>, k: EffectsKey) -> Set<Seq<char>>
    decreases k.end() as int - 1, 4int,
{
    if k.start() < 1 || k.end() < k.start() {
        Set::empty()
    } else {
        effects_names_upto(s, k.start() - 1, k.end() - 1)
    }
}

/// The names used as variables by the statements at positions `lo` up to `j`.
pub open spec fn effects_names_upto(s: Seq<RawData>, lo: int, j: int) -> Set<Seq<char>>
    decreases j, 3int,
{
    if lo < 0 || j <= lo || j > s.len() {
        Set::empty()
    } else {
        effects_names_upto(s, lo, j - 1).union(effect_names_at(s, j - 1))
    }
}

/// The names used as variables by the statement placed at position `p`: the variable it
/// assigns, the table it sets a function or a method in, and the names used by the expressions
/// and the statements it holds (`operand_names`, `effects_names`). The bodies of the functions
/// it defines are left out.
pub open spec fn effect_names_at(s: Seq<RawData>, p: int) -> Set<Seq<char>>
    decreases p + 1, 1int,
{
    if p < 0 || p >= s.len() {
        Set::empty()
    } else {
        match s[p] {
            RawData::Effect(_, e) => if !effect_refs_before(s, e, p) {
                Set::empty()
            } else {
                match e {
                    Effect::MakeLocal { name: _, value } => operand_names(s, value),
                    Effect::MakeFunc { name: _, func: _ } => Set::empty(),
                    Effect::SetLocal { local, value } => symbol_names(s, local).union(
                        operand_names(s, value),
                    ),
                    Effect::SetIndex { target, index, value } => operand_names(s, value).union(
                        operand_names(s, index),
                    ).union(operand_names(s, target)),
                    Effect::SetField { target, field: _, value } => operand_names(s, value).union(
                        operand_names(s, target),
                    ),
                    Effect::SetFieldFunc { table, path: _, func: _ } => symbol_names(s, table),
                    Effect::SetMethod { table, path: _, name: _, func: _ } => symbol_names(s, table),
                    Effect::Branch { condition, then, else_ } => operand_names(s, condition).union(
                        effects_names(s, then),
                    ).union(effects_names(s, else_)),
                    Effect::LoopFor { variable: _, iterable, effects } => operand_names(
                        s,
                        iterable,
                    ).union(effects_names(s, effects)),
                    Effect::LoopWhile { condition, effects } => operand_names(s, condition).union(
                        effects_names(s, effects),
                    ),
                    Effect::Scope { body } => effects_names(s, body),
                    Effect::Call { value, args } => operand_names(s, value).union(
                        slice_names(s, args),
                    ),
                    Effect::MethodCall { table, name: _, args } => operand_names(s, table).union(
                        slice_names(s, args),
                    ),
                    Effect::Return { value } => operand_names(s, value),
                    Effect::BreakLoop => Set::empty(),
                    Effect::ContinueLoop => Set::empty(),
                    Effect::NoEffectValue { value } => operand_names(s, value),
                }
            },
            _ => Set::empty(),
        }
    }
}

/// The name that the symbol `k` spells, if it names a symbol.
pub open spec fn symbol_names(s: Seq<RawData>, k: SymbolKey) -> Set<Seq<char>> {
    match symbol_entry(s, k) {
        Some((x, _)) => Set::empty().insert(x),
        None => Set::empty(),
    }
}

/// Every name that an expression uses as a variable, in any of its operands to any depth (the
/// operands of operators, the callee and arguments of calls, containers and keys, array
/// elements, the condition and results of a branch, the result of a block), is, once the
/// expression has been walked without meeting an undefined name, one that the current
/// function knows: one it defined before, or one it has now captured from a function around
/// it (or from the defaults).
pub proof fn law_used_operands_are_known(s: Seq<RawData>, d: Set<Seq<char>>, k: ValueKey, st: WalkState)
    requires
        top_level_ok(d, st),
        walk_value_key(s, d, k, st).4 is None,
    ensures
        operand_names(s, k).subset_of(walk_value_key(s, d, k, st).1),
    decreases k.raw(), 2int,
{
    lemma_error_absorbs(s, d);
    if k.raw() != 0 && k.raw() <= s.len() {
        match s[k.raw() - 1] {
            RawData::Value(_, v) => lemma_names_at_known(s, d, v, k.raw() - 1, st),
            _ => {},
        }
    }
}

/// `law_used_operands_are_known` for the expression `v` placed at position `p`.
#[verifier::spinoff_prover]
proof fn lemma_names_at_known(s: Seq<RawData>, d: Set<Seq<char>>, v: Value, p: int, st: WalkState)
    requires
        top_level_ok(d, st),
        0 <= p < s.len(),
        s[p] matches RawData::Value(_, w) && w == v,
        walk_value(s, d, v, p, st).4 is None,
    ensures
        names_at(s, p).subset_of(walk_value(s, d, v, p, st).1),
    decreases p + 1, 1int,
{
    lemma_error_absorbs(s, d);
    if value_refs_before(s, v, p) {
        assert(st.4 is None);
        let r = walk_value(s, d, v, p, st);
        match v {
            Value::Local { name } => {},
            Value::Prefix { op: _, value } => {
                law_used_operands_are_known(s, d, value, st);
            },
            Value::Binary { op: _, lhs, rhs } => {
                let st1 = walk_value_key(s, d, lhs, st);
                assert(r == walk_value_key(s, d, rhs, st1));
                assert(st1.4 is None);
                law_used_operands_are_known(s, d, lhs, st);
                lemma_keeps_value_key(s, d, lhs, st);
                lemma_keeps_value_key(s, d, rhs, st1);
                law_used_operands_are_known(s, d, rhs, st1);
            },
            Value::Call { value, args } => {
                let st1 = walk_value_key(s, d, value, st);
                assert(r == walk_values(s, d, args, st1));
                assert(st1.4 is None);
                law_used_operands_are_known(s, d, value, st);
                lemma_keeps_value_key(s, d, value, st);
                lemma_keeps_values(s, d, args, st1);
                lemma_slice_names_known(s, d, args, st1);
            },
            Value::Index { value, index } => {
                let st1 = walk_value_key(s, d, value, st);
                assert(r == walk_value_key(s, d, index, st1));
                assert(st1.4 is None);
                law_used_operands_are_known(s, d, value, st);
                lemma_keeps_value_key(s, d, value, st);
                lemma_keeps_value_key(s, d, index, st1);
                law_used_operands_are_known(s, d, index, st1);
            },
            Value::Field { value, name: _ } => {
                law_used_operands_are_known(s, d, value, st);
            },
            Value::MethodCall { value, name: _, args } => {
                let st1 = walk_value_key(s, d, value, st);
                assert(r == walk_values(s, d, args, st1));
                assert(st1.4 is None);
                law_used_operands_are_known(s, d, value, st);
                lemma_keeps_value_key(s, d, value, st);
                lemma_keeps_values(s, d, args, st1);
                lemma_slice_names_known(s, d, args, st1);
            },
            Value::Array { elements } => {
                lemma_slice_names_known(s, d, elements, st);
            },
            Value::Branch { condition, then, then_tail, else_, else_tail } => {
                let st1 = walk_value_key(s, d, condition, st);
                let st2 = walk_effects(s, d, then, st1);
                let st3 = walk_value_key(s, d, then_tail, st2);
                let st4 = walk_effects(s, d, else_, st3);
                assert(r == walk_value_key(s, d, else_tail, st4));
                assert(st4.4 is None);
                assert(st3.4 is None);
                assert(st2.4 is None);
                assert(st1.4 is None);
                law_used_operands_are_known(s, d, condition, st);
                lemma_keeps_value_key(s, d, condition, st);
                lemma_keeps_effects(s, d, then, st1);
                law_used_names_are_known(s, d, then, st1);
                law_used_operands_are_known(s, d, then_tail, st2);
                lemma_keeps_value_key(s, d, then_tail, st2);
                lemma_keeps_effects(s, d, else_, st3);
                law_used_names_are_known(s, d, else_, st3);
                law_used_operands_are_known(s, d, else_tail, st4);
                lemma_keeps_value_key(s, d, else_tail, st4);
                assert(st1.1.subset_of(r.1));
                assert(st2.1.subset_of(r.1));
                assert(st3.1.subset_of(r.1));
                assert(st4.1.subset_of(r.1));
                assert(names_at(s, p) == operand_names(s, condition).union(effects_names(s, then)).union(
                    operand_names(s, then_tail),
                ).union(effects_names(s, else_)).union(operand_names(s, else_tail)));
            },
            Value::Block { effects, tail } => {
                let st1 = walk_effects(s, d, effects, st);
                assert(r == walk_value_key(s, d, tail, st1));
                assert(st1.4 is None);
                lemma_keeps_effects(s, d, effects, st);
                law_used_names_are_known(s, d, effects, st);
                law_used_operands_are_known(s, d, tail, st1);
                lemma_keeps_value_key(s, d, tail, st1);
                assert(names_at(s, p) == effects_names(s, effects).union(operand_names(s, tail)));
            },
            _ => {},
        }
    }
}

/// Every name that a run of statements uses as a variable (`effects_names`: the variables
/// they assign, the tables they set functions in, and the variables of the expressions and
/// statements they hold, to any depth, outside the functions they define) is, once the
/// statements have been walked without meeting an undefined name, one that the current
/// function knows: one it defined, or one it has captured from a function around it (or from
/// the defaults).
pub proof fn law_used_names_are_known(s: Seq<RawData>, d: Set<Seq<char>>, k: EffectsKey, st: WalkState)
    requires
        top_level_ok(d, st),
        walk_effects(s, d, k, st).4 is None,
    ensures
        effects_names(s, k).subset_of(walk_effects(s, d, k, st).1),
    decreases k.end() as int - 1, 4int,
{
    if !(k.start() < 1 || k.end() < k.start()) {
        lemma_effects_upto_known(s, d, k.start() - 1, k.end() - 1, st);
    }
}

/// `law_used_names_are_known` for the statements at positions `lo` up to `j`.
proof fn lemma_effects_upto_known(s: Seq<RawData>, d: Set<Seq<char>>, lo: int, j: int, st: WalkState)
    requires
        top_level_ok(d, st),
        walk_effects_upto(s, d, lo, j, st).4 is None,
    ensures
        effects_names_upto(s, lo, j).subset_of(walk_effects_upto(s, d, lo, j, st).1),
    decreases j, 3int,
{
    lemma_error_absorbs(s, d);
    if !(lo < 0 || j <= lo || j > s.len()) {
        assert(st.4 is None);
        let st1 = walk_effects_upto(s, d, lo, j - 1, st);
        match s[j - 1] {
            RawData::Effect(_, e) => {
                let r = walk_effect(s, d, e, j - 1, st1);
                assert(walk_effects_upto(s, d, lo, j, st) == r);
                if st1.4 is Some {
                    assert(r == st1);
                }
                lemma_effects_upto_known(s, d, lo, j - 1, st);
                lemma_keeps_effects_upto(s, d, lo, j - 1, st);
                lemma_keeps_effect(s, d, e, j - 1, st1);
                lemma_effect_names_at_known(s, d, e, j - 1, st1);
            },
            _ => {
                lemma_effects_upto_known(s, d, lo, j - 1, st);
                assert(effect_names_at(s, j - 1) == Set::<Seq<char>>::empty());
            },
        }
    }
}

/// A use of the symbol `k` that meets no undefined name leaves its name known.
proof fn lemma_use_local_known(s: Seq<RawData>, d: Set<Seq<char>>, k: SymbolKey, st: WalkState)
    requires
        use_local(s, d, k, st).4 is None,
    ensures
        symbol_names(s, k).subset_of(use_local(s, d, k, st).1),
        st.1.subset_of(use_local(s, d, k, st).1),
{
}

/// `law_used_names_are_known` for the statement `e` placed at position `p`.
#[verifier::spinoff_prover]
proof fn lemma_effect_names_at_known(s: Seq<RawData>, d: Set<Seq<char>>, e: Effect, p: int, st: WalkState)
    requires
        top_level_ok(d, st),
        0 <= p < s.len(),
        s[p] matches RawData::Effect(_, w) && w == e,
        walk_effect(s, d, e, p, st).4 is None,
    ensures
        effect_names_at(s, p).subset_of(walk_effect(s, d, e, p, st).1),
    decreases p + 1, 1int,
{
    lemma_error_absorbs(s, d);
    if effect_refs_before(s, e, p) {
        assert(st.4 is None);
        let r = walk_effect(s, d, e, p, st);
        match e {
            Effect::MakeLocal { name, value } => {
                let st1 = walk_value_key(s, d, value, st);
                assert(r == insert_def(s, name, st1));
                assert(st1.4 is None);
                law_used_operands_are_known(s, d, value, st);
            },
            Effect::MakeFunc { name: _, func: _ } => {},
            Effect::SetLocal { local, value } => {
                let st1 = use_local(s, d, local, st);
                assert(r == walk_value_key(s, d, value, st1));
                assert(st1.4 is None);
                lemma_use_local_known(s, d, local, st);
                lemma_keeps_use_local(s, d, local, st);
                lemma_keeps_value_key(s, d, value, st1);
                law_used_operands_are_known(s, d, value, st1);
            },
            Effect::SetIndex { target, index, value } => {
                let st1 = walk_value_key(s, d, value, st);
                let st2 = walk_value_key(s, d, index, st1);
                assert(r == walk_value_key(s, d, target, st2));
                assert(st2.4 is None);
                assert(st1.4 is None);
                law_used_operands_are_known(s, d, value, st);
                lemma_keeps_value_key(s, d, value, st);
                law_used_operands_are_known(s, d, index, st1);
                lemma_keeps_value_key(s, d, index, st1);
                law_used_operands_are_known(s, d, target, st2);
                lemma_keeps_value_key(s, d, target, st2);
            },
            Effect::SetField { target, field: _, value } => {
                let st1 = walk_value_key(s, d, value, st);
                assert(r == walk_value_key(s, d, target, st1));
                assert(st1.4 is None);
                law_used_operands_are_known(s, d, value, st);
                lemma_keeps_value_key(s, d, value, st);
                law_used_operands_are_known(s, d, target, st1);
                lemma_keeps_value_key(s, d, target, st1);
            },
            Effect::SetFieldFunc { table, path: _, func } => {
                let st1 = walk_function(s, d, func, st);
                assert(r == use_local(s, d, table, st1));
                lemma_use_local_known(s, d, table, st1);
            },
            Effect::SetMethod { table, path: _, name: _, func } => {
                let st1 = walk_function(s, d, func, st);
                assert(r == use_local(s, d, table, st1));
                lemma_use_local_known(s, d, table, st1);
            },
            Effect::Branch { condition, then, else_ } => {
                let st1 = walk_value_key(s, d, condition, st);
                let st2 = walk_effects(s, d, then, st1);
                assert(r == walk_effects(s, d, else_, st2));
                assert(st2.4 is None);
                assert(st1.4 is None);
                law_used_operands_are_known(s, d, condition, st);
                lemma_keeps_value_key(s, d, condition, st);
                law_used_names_are_known(s, d, then, st1);
                lemma_keeps_effects(s, d, then, st1);
                law_used_names_are_known(s, d, else_, st2);
                lemma_keeps_effects(s, d, else_, st2);
            },
            Effect::LoopFor { variable, iterable, effects } => {
                let st1 = walk_value_key(s, d, iterable, st);
                let st2 = insert_def(s, variable, st1);
                assert(r == walk_effects(s, d, effects, st2));
                assert(st2.4 is None);
                assert(st1.4 is None);
                law_used_operands_are_known(s, d, iterable, st);
                lemma_keeps_value_key(s, d, iterable, st);
                law_used_names_are_known(s, d, effects, st2);
                lemma_keeps_effects(s, d, effects, st2);
            },
            Effect::LoopWhile { condition, effects } => {
                let st1 = walk_value_key(s, d, condition, st);
                assert(r == walk_effects(s, d, effects, st1));
                assert(st1.4 is None);
                law_used_operands_are_known(s, d, condition, st);
                lemma_keeps_value_key(s, d, condition, st);
                law_used_names_are_known(s, d, effects, st1);
                lemma_keeps_effects(s, d, effects, st1);
            },
            Effect::Scope { body } => {
                law_used_names_are_known(s, d, body, st);
            },
            Effect::Call { value, args } => {
                let st1 = walk_value_key(s, d, value, st);
                assert(r == walk_values(s, d, args, st1));
                assert(st1.4 is None);
                law_used_operands_are_known(s, d, value, st);
                lemma_keeps_value_key(s, d, value, st);
                lemma_slice_names_known(s, d, args, st1);
                lemma_keeps_values(s, d, args, st1);
            },
            Effect::MethodCall { table, name: _, args } => {
                let st1 = walk_value_key(s, d, table, st);
                assert(r == walk_values(s, d, args, st1));
                assert(st1.4 is None);
                law_used_operands_are_known(s, d, table, st);
                lemma_keeps_value_key(s, d, table, st);
                lemma_slice_names_known(s, d, args, st1);
                lemma_keeps_values(s, d, args, st1);
            },
            Effect::Return { value } => {
                law_used_operands_are_known(s, d, value, st);
            },
            Effect::BreakLoop => {},
            Effect::ContinueLoop => {},
            Effect::NoEffectValue { value } => {
                law_used_operands_are_known(s, d, value, st);
            },
        }
    }
}

/// `law_used_operands_are_known` for the expressions that `k` names.
proof fn lemma_slice_names_known(s: Seq<RawData>, d: Set<Seq<char>>, k: ValueSliceKey, st: WalkState)
    requires
        top_level_ok(d, st),
        walk_values(s, d, k, st).4 is None,
    ensures
        slice_names(s, k).subset_of(walk_values(s, d, k, st).1),
    decreases k.end() as int - 1, 4int,
{
    if !(k.start() < 1 || k.end() < k.start()) {
        lemma_slice_upto_known(s, d, k.start() - 1, k.end() - 1, st);
    }
}

/// `law_used_operands_are_known` for the expressions at positions `lo` up to `j`.
proof fn lemma_slice_upto_known(s: Seq<RawData>, d: Set<Seq<char>>, lo: int, j: int, st: WalkState)
    requires
        top_level_ok(d, st),
        walk_values_upto(s, d, lo, j, st).4 is None,
    ensures
        slice_names_upto(s, lo, j).subset_of(walk_values_upto(s, d, lo, j, st).1),
    decreases j, 3int,
{
    lemma_error_absorbs(s, d);
    if !(lo < 0 || j <= lo || j > s.len()) {
        assert(st.4 is None);
        let st1 = walk_values_upto(s, d, lo, j - 1, st);
        match s[j - 1] {
            RawData::Value(_, v) => {
                let r = walk_value(s, d, v, j - 1, st1);
                assert(walk_values_upto(s, d, lo, j, st) == r);
                if st1.4 is Some {
                    assert(r == st1);
                }
                lemma_slice_upto_known(s, d, lo, j - 1, st);
                lemma_keeps_values_upto(s, d, lo, j - 1, st);
                lemma_keeps_value(s, d, v, j - 1, st1);
                lemma_names_at_known(s, d, v, j - 1, st1);
            },
            _ => {
                lemma_slice_upto_known(s, d, lo, j - 1, st);
                assert(names_at(s, j - 1) == Set::<Seq<char>>::empty());
            },
        }
    }
}

/// A variable used as an operand of a binary operator whose other operand is a literal is
/// walked exactly as when it is used alone: the names captured, the names known and the error
/// met are those of the variable by itself.
pub proof fn law_operand_walked_as_alone(
    s: Seq<RawData>,
    d: Set<Seq<char>>,
    op: crate::ir::item::BinaryOp,
    lit: ValueKey,
    x: ValueKey,
    p: int,
    st: WalkState,
)
    requires
        0 < lit.raw() <= s.len(),
        s[lit.raw() - 1] matches RawData::Value(_, Value::Int(_)),
        0 <= p,
        value_refs_before(s, Value::Binary { op, lhs: lit, rhs: x }, p),
        value_refs_before(s, Value::Binary { op, lhs: x, rhs: lit }, p),
    ensures
        walk_value(s, d, Value::Binary { op, lhs: lit, rhs: x }, p, st) == walk_value_key(s, d, x, st),
        walk_value(s, d, Value::Binary { op, lhs: x, rhs: lit }, p, st) == walk_value_key(s, d, x, st),
{
    lemma_error_absorbs(s, d);
    assert(walk_value_key(s, d, lit, st) == st);
    let r = walk_value_key(s, d, x, st);
    assert(walk_value_key(s, d, lit, r) == r);
}

/// The frames of a walk, each function id with the names it defines.
pub open spec fn frames_view(m: Seq<(u64, Vec<String>)>) -> Seq<(u64, Set<Seq<char>>)> {
    Seq::new(m.len(), |i: int| (m[i].0, name_set(m[i].1@)))
}

/// The names captured, by function id, as a list of (function id, name) pairs holds them.
pub open spec fn captures_view(c: Seq<(u64, String)>) -> Map<u64, Set<Seq<char>>> {
    Map::new(
        |k: u64| exists|i: int| 0 <= i < c.len() && c[i].0 == k,
        |k: u64| Set::new(|x: Seq<char>| exists|i: int| 0 <= i < c.len() && c[i].0 == k && c[i].1@ == x),
    )
}

proof fn lemma_name_set_push(v: Seq<String>, x: String)
    ensures
        name_set(v.push(x)) == name_set(v).insert(x@),
{
    assert forall|y: Seq<char>| name_set(v).insert(x@).contains(y) implies name_set(v.push(x)).contains(y) by {
        if y == x@ {
            assert(v.push(x)[v.len() as int]@ == y);
        } else {
            let i = choose|i: int| 0 <= i < v.len() && v[i]@ == y;
            assert(v.push(x)[i]@ == y);
        }
    }
    assert forall|y: Seq<char>| name_set(v.push(x)).contains(y) implies name_set(v).insert(x@).contains(y) by {
        let i = choose|i: int| 0 <= i < v.push(x).len() && v.push(x)[i]@ == y;
        if i < v.len() {
            assert(v[i]@ == y);
        }
    }
    assert(name_set(v.push(x)) =~= name_set(v).insert(x@));
}

proof fn lemma_captures_push(c: Seq<(u64, String)>, k: u64, x: String)
    ensures
        captures_view(c.push((k, x))) == add_capture(captures_view(c), k, x@),
{
    let c2 = c.push((k, x));
    let lhs = captures_view(c2);
    let rhs = add_capture(captures_view(c), k, x@);
    assert(c2[c.len() as int] == (k, x));
    assert forall|key: u64| lhs.contains_key(key) <==> rhs.contains_key(key) by {
        if lhs.contains_key(key) && key != k {
            let i = choose|i: int| 0 <= i < c2.len() && c2[i].0 == key;
            assert(c[i].0 == key);
        }
        if rhs.contains_key(key) && key != k {
            let i = choose|i: int| 0 <= i < c.len() && c[i].0 == key;
            assert(c2[i].0 == key);
        }
    }
    assert forall|key: u64| #[trigger] lhs.contains_key(key) implies lhs[key] == rhs[key] by {
        assert forall|y: Seq<char>| lhs[key].contains(y) <==> rhs[key].contains(y) by {
            if lhs[key].contains(y) {
                let i = choose|i: int| 0 <= i < c2.len() && c2[i].0 == key && c2[i].1@ == y;
                if i < c.len() {
                    assert(c[i].0 == key && c[i].1@ == y);
                }
            }
            if rhs[key].contains(y) {
                if key == k && y == x@ {
                } else {
                    let i = choose|i: int| 0 <= i < c.len() && c[i].0 == key && c[i].1@ == y;
                    assert(c2[i].0 == key && c2[i].1@ == y);
                }
            }
        }
        assert(lhs[key] =~= rhs[key]);
    }
    assert(lhs =~= rhs);
}

proof fn lemma_innermost(frames: Seq<(u64, Set<Seq<char>>)>, x: Seq<char>, f: int)
    requires
        -1 <= f < frames.len(),
        f >= 0 ==> frames[f].1.contains(x),
        forall|j: int| f < j < frames.len() ==> !(#[trigger] frames[j].1.contains(x)),
    ensures
        innermost(frames, x) == f,
    decreases frames.len(),
{
    if frames.len() > 0 && f < frames.len() - 1 {
        assert(!frames[frames.len() - 1].1.contains(x));
        lemma_innermost(frames.drop_last(), x, f);
    }
}

proof fn lemma_effects_upto_absorbs(
    s: Seq<RawData>,
    d: Set<Seq<char>>,
    lo: int,
    j: int,
    k: int,
    st: WalkState,
)
    requires
        lo <= j <= k <= s.len(),
        walk_effects_upto(s, d, lo, j, st).4 is Some,
    ensures
        walk_effects_upto(s, d, lo, k, st) == walk_effects_upto(s, d, lo, j, st),
    decreases k - j,
{
    if k > j {
        lemma_effects_upto_absorbs(s, d, lo, j, k - 1, st);
        let st1 = walk_effects_upto(s, d, lo, k - 1, st);
        match s[k - 1] {
            RawData::Effect(_, e) => {
                assert(walk_effect(s, d, e, k - 1, st1) == st1);
            },
            _ => {},
        }
    }
}

proof fn lemma_values_upto_absorbs(
    s: Seq<RawData>,
    d: Set<Seq<char>>,
    lo: int,
    j: int,
    k: int,
    st: WalkState,
)
    requires
        lo <= j <= k <= s.len(),
        walk_values_upto(s, d, lo, j, st).4 is Some,
    ensures
        walk_values_upto(s, d, lo, k, st) == walk_values_upto(s, d, lo, j, st),
    decreases k - j,
{
    if k > j {
        lemma_values_upto_absorbs(s, d, lo, j, k - 1, st);
        let st1 = walk_values_upto(s, d, lo, k - 1, st);
        match s[k - 1] {
            RawData::Value(_, v) => {
                assert(walk_value(s, d, v, k - 1, st1) == st1);
            },
            _ => {},
        }
    }
}

proof fn lemma_fields_absorbs(
    s: Seq<RawData>,
    d: Set<Seq<char>>,
    fields: Seq<(TableKeyName, ValueKey)>,
    p: int,
    j: int,
    k: int,
    st: WalkState,
)
    requires
        0 <= j <= k <= fields.len(),
        walk_fields(s, d, fields, p, j, st).4 is Some,
    ensures
        walk_fields(s, d, fields, p, k, st) == walk_fields(s, d, fields, p, j, st),
    decreases k - j,
{
    if k > j {
        lemma_fields_absorbs(s, d, fields, p, j, k - 1, st);
        let st1 = walk_fields(s, d, fields, p, k - 1, st);
        let st2 = match fields[k - 1].0 {
            TableKeyName::Value(key) => walk_value_key(s, d, key, st1),
            TableKeyName::String(_) => st1,
        };
        assert(st2 == st1);
        assert(walk_value_key(s, d, fields[k - 1].1, st2) == st2);
    }
}

/// A walk that has met an undefined name stays as it is.
proof fn lemma_error_absorbs(s: Seq<RawData>, d: Set<Seq<char>>)
    ensures
        forall|k: ValueKey, st: WalkState| st.4 is Some ==> #[trigger] walk_value_key(s, d, k, st) == st,
        forall|k: EffectsKey, st: WalkState| st.4 is Some ==> #[trigger] walk_effects(s, d, k, st) == st,
        forall|k: ValueSliceKey, st: WalkState| st.4 is Some ==> #[trigger] walk_values(s, d, k, st) == st,
        forall|k: FunctionKey, st: WalkState| st.4 is Some ==> #[trigger] walk_function(s, d, k, st) == st,
        forall|k: SymbolKey, st: WalkState| st.4 is Some ==> #[trigger] use_local(s, d, k, st) == st,
        forall|k: SymbolKey, st: WalkState| st.4 is Some ==> #[trigger] insert_def(s, k, st) == st,
{
    assert forall|k: EffectsKey, st: WalkState| st.4 is Some implies #[trigger] walk_effects(s, d, k, st) == st by {
        if k.start() >= 1 && k.end() >= k.start() {
            assert(walk_effects_upto(s, d, k.start() - 1, k.end() - 1, st) == st);
        }
    }
    assert forall|k: ValueSliceKey, st: WalkState| st.4 is Some implies #[trigger] walk_values(s, d, k, st) == st by {
        if k.start() >= 1 && k.end() >= k.start() {
            assert(walk_values_upto(s, d, k.start() - 1, k.end() - 1, st) == st);
        }
    }
}

/// Whether `v` holds a string that spells `x`.
fn contains_name(v: &Vec<String>, x: &String) -> (r: bool)
    ensures
        r == name_set(v@).contains(x@),
{
    let mut i: usize = 0;
    while i < v.len()
        invariant
            i <= v@.len(),
            forall|j: int| 0 <= j < i ==> v@[j]@ != x@,
        decreases v@.len() - i,
    {
        if v[i] == *x {
            assert(v@[i as int]@ == x@);
            return true;
        }
        i = i + 1;
    }
    false
}

/// The state of a walk: the frames of the enclosing functions, the names the current
/// function defines, its id, and the (function id, name) pairs captured so far.
struct Walker {
    master: Vec<(u64, Vec<String>)>,
    defs: Vec<String>,
    current: u64,
    captures: Vec<(u64, String)>,
}

impl Walker {
    spec fn state(&self) -> WalkState {
        (
            frames_view(self.master@),
            name_set(self.defs@),
            self.current,
            captures_view(self.captures@),
            None,
        )
    }
}

/// The walk's outcome: on success the walker is in the state the walk reaches, with as many
/// frames as before; on failure the walk met the name it reports, defined nowhere.
spec fn walked(old_w: Walker, new_w: Walker, r: Result<(), (String, rowan::TextRange)>, spec_st: WalkState) -> bool {
    match r {
        Ok(_) => new_w.state() == spec_st && new_w.master@.len() == old_w.master@.len(),
        Err(e) => spec_st.4 == Some((e.0@, e.1)),
    }
}

fn insert_def_exec(w: &mut Walker, s: &Strage, k: &SymbolKey)
    requires
        k.valid_in(s),
    ensures
        final(w).state() == insert_def(s@, *k, old(w).state()),
        final(w).master@ == old(w).master@,
{
    match k.get(s) {
        Some((_, sym)) => {
            let x = sym.text().to_owned();
            proof {
                lemma_name_set_push(w.defs@, x);
            }
            w.defs.push(x);
        },
        None => {},
    }
}

fn use_local_exec(w: &mut Walker, s: &Strage, d: &Vec<String>, k: &SymbolKey) -> (r: Result<
    (),
    (String, rowan::TextRange),
>)
    requires
        k.valid_in(s),
    ensures
        walked(*old(w), *final(w), r, use_local(s@, name_set(d@), *k, old(w).state())),
{
    match k.get(s) {
        None => Ok(()),
        Some((tok, sym)) => {
            let x: String = sym.text().to_owned();
            if contains_name(&w.defs, &x) {
                return Ok(());
            }
            let ghost st = w.state();
            let ghost m0 = w.master@;
            let mut i: usize = w.master.len();
            while i > 0 && !contains_name(&w.master[i - 1].1, &x)
                invariant
                    i <= w.master@.len(),
                    w.master@ == m0,
                    forall|j: int| i <= j < m0.len() ==> !name_set(#[trigger] m0[j].1@).contains(x@),
                decreases i,
            {
                i = i - 1;
            }
            proof {
                lemma_innermost(frames_view(m0), x@, i - 1);
            }
            if i == 0 && !contains_name(d, &x) {
                return Err((x, tok.text_range()));
            }
            let ghost c0 = w.captures@;
            let mut j: usize = i;
            while j < w.master.len()
                invariant
                    i <= j <= m0.len(),
                    w.master@.len() == m0.len(),
                    forall|q: int|
                        0 <= q < m0.len() ==> (#[trigger] w.master@[q]).0 == m0[q].0 && name_set(
                            w.master@[q].1@,
                        ) == (if i <= q < j {
                            name_set(m0[q].1@).insert(x@)
                        } else {
                            name_set(m0[q].1@)
                        }),
                    captures_view(w.captures@) == captures_through(
                        st.3,
                        frames_view(m0),
                        i as int,
                        j as int,
                        x@,
                    ),
                    w.defs@ == old(w).defs@,
                    w.current == old(w).current,
                decreases m0.len() - j,
            {
                let key: u64 = w.master[j].0;
                let ghost before = w.master@;
                {
                    let fr = vstd::std_specs::vec::vec_index_mut(&mut w.master, j);
                    proof {
                        lemma_name_set_push(fr.1@, x);
                    }
                    fr.1.push(x.clone());
                }
                proof {
                    lemma_captures_push(w.captures@, key, x);
                }
                w.captures.push((key, x.clone()));
                j = j + 1;
            }
            proof {
                lemma_name_set_push(w.defs@, x);
            }
            w.defs.push(x.clone());
            let cur = w.current;
            proof {
                lemma_captures_push(w.captures@, cur, x);
            }
            w.captures.push((cur, x));
            proof {
                let f = i as int - 1;
                assert(frames_view(w.master@) =~= Seq::new(
                    st.0.len(),
                    |q: int|
                        if q > f {
                            (st.0[q].0, st.0[q].1.insert(x@))
                        } else {
                            st.0[q]
                        },
                ));
            }
            Ok(())
        },
    }
}


fn walk_value_key_exec(w: &mut Walker, s: &Strage, d: &Vec<String>, k: &ValueKey) -> (r: Result<
    (),
    (String, rowan::TextRange),
>)
    requires
        s.well_formed(),
        k.valid_in(s),
    ensures
        walked(*old(w), *final(w), r, walk_value_key(s@, name_set(d@), *k, old(w).state())),
    decreases k.raw() as int, 3int, 0int,
{
    match k.get(s) {
        None => Ok(()),
        Some((_, v)) => walk_value_exec(w, s, d, v, Ghost((k.raw() - 1) as int)),
    }
}

fn walk_effects_exec(w: &mut Walker, s: &Strage, d: &Vec<String>, k: &EffectsKey) -> (r: Result<
    (),
    (String, rowan::TextRange),
>)
    requires
        s.well_formed(),
        effects_key_before(s@, *k, s@.len() as int),
    ensures
        walked(*old(w), *final(w), r, walk_effects(s@, name_set(d@), *k, old(w).state())),
    decreases k.end() as int - 1, 4int, 0int,
{
    let items = k.get(s);
    let ghost lo = k.start() - 1;
    let ghost hi = k.end() - 1;
    let ghost st0 = w.state();
    let mut j: usize = 0;
    while j < items.len()
        invariant
            s.well_formed(),
            0 <= lo <= hi <= s@.len(),
            items@.len() == hi - lo,
            hi == k.end() - 1,
            lo == k.start() - 1,
            k.start() >= 1,
            forall|q: int|
                0 <= q < items@.len() ==> s@[lo + q] == RawData::Effect(
                    *(#[trigger] items@[q]).0,
                    *items@[q].1,
                ),
            j <= items@.len(),
            w.state() == walk_effects_upto(s@, name_set(d@), lo, lo + j, st0),
            w.master@.len() == old(w).master@.len(),
            st0 == old(w).state(),
        decreases items@.len() - j,
    {
        let e: &Effect = items[j].1;
        assert(s@[lo + j] == RawData::Effect(*items@[j as int].0, *e));
        match walk_effect_exec(w, s, d, e, Ghost(lo + j)) {
            Ok(_) => {},
            Err(err) => {
                proof {
                    let dd = name_set(d@);
                    assert(walk_effects_upto(s@, dd, lo, lo + j + 1, st0) == walk_effect(
                        s@,
                        dd,
                        *e,
                        lo + j,
                        walk_effects_upto(s@, dd, lo, lo + j, st0),
                    ));
                    lemma_effects_upto_absorbs(s@, dd, lo, lo + j + 1, hi, st0);
                    assert(walk_effects(s@, dd, *k, st0) == walk_effects_upto(s@, dd, lo, hi, st0));
                }
                return Err(err);
            },
        }
        j = j + 1;
    }
    Ok(())
}

fn walk_values_exec(w: &mut Walker, s: &Strage, d: &Vec<String>, k: &ValueSliceKey) -> (r: Result<
    (),
    (String, rowan::TextRange),
>)
    requires
        s.well_formed(),
        values_key_before(s@, *k, s@.len() as int),
    ensures
        walked(*old(w), *final(w), r, walk_values(s@, name_set(d@), *k, old(w).state())),
    decreases k.end() as int - 1, 4int, 0int,
{
    let items = k.get(s);
    let ghost lo = k.start() - 1;
    let ghost hi = k.end() - 1;
    let ghost st0 = w.state();
    let mut j: usize = 0;
    while j < items.len()
        invariant
            s.well_formed(),
            0 <= lo <= hi <= s@.len(),
            items@.len() == hi - lo,
            hi == k.end() - 1,
            lo == k.start() - 1,
            k.start() >= 1,
            forall|q: int|
                0 <= q < items@.len() ==> s@[lo + q] == RawData::Value(
                    *(#[trigger] items@[q]).0,
                    *items@[q].1,
                ),
            j <= items@.len(),
            w.state() == walk_values_upto(s@, name_set(d@), lo, lo + j, st0),
            w.master@.len() == old(w).master@.len(),
            st0 == old(w).state(),
        decreases items@.len() - j,
    {
        let v: &Value = items[j].1;
        assert(s@[lo + j] == RawData::Value(*items@[j as int].0, *v));
        match walk_value_exec(w, s, d, v, Ghost(lo + j)) {
            Ok(_) => {},
            Err(err) => {
                proof {
                    let dd = name_set(d@);
                    assert(walk_values_upto(s@, dd, lo, lo + j + 1, st0) == walk_value(
                        s@,
                        dd,
                        *v,
                        lo + j,
                        walk_values_upto(s@, dd, lo, lo + j, st0),
                    ));
                    lemma_values_upto_absorbs(s@, dd, lo, lo + j + 1, hi, st0);
                    assert(walk_values(s@, dd, *k, st0) == walk_values_upto(s@, dd, lo, hi, st0));
                }
                return Err(err);
            },
        }
        j = j + 1;
    }
    Ok(())
}

fn walk_fields_exec(
    w: &mut Walker,
    s: &Strage,
    d: &Vec<String>,
    fields: &Vec<(TableKeyName, ValueKey)>,
    Ghost(p): Ghost<int>,
) -> (r: Result<(), (String, rowan::TextRange)>)
    requires
        s.well_formed(),
        0 <= p < s@.len(),
        fields_before(s@, fields@, p),
    ensures
        walked(
            *old(w),
            *final(w),
            r,
            walk_fields(s@, name_set(d@), fields@, p, fields@.len() as int, old(w).state()),
        ),
    decreases p + 1, 1int, fields@.len() as int,
{
    let ghost st0 = w.state();
    let mut i: usize = 0;
    while i < fields.len()
        invariant
            s.well_formed(),
            0 <= p < s@.len(),
            fields_before(s@, fields@, p),
            i <= fields@.len(),
            w.state() == walk_fields(s@, name_set(d@), fields@, p, i as int, st0),
            w.master@.len() == old(w).master@.len(),
            st0 == old(w).state(),
        decreases fields@.len() - i,
    {
        let key: TableKeyName = fields[i].0;
        let value: ValueKey = fields[i].1;
        assert(fields@[i as int].0 == key);
        match key {
            TableKeyName::Value(k) => {
                match walk_value_key_exec(w, s, d, &k) {
                    Ok(_) => {},
                    Err(err) => {
                        proof {
                            let st1 = walk_fields(s@, name_set(d@), fields@, p, i as int, st0);
                            let st2 = walk_value_key(s@, name_set(d@), k, st1);
                            assert(walk_value_key(s@, name_set(d@), value, st2) == st2);
                            lemma_fields_absorbs(
                                s@,
                                name_set(d@),
                                fields@,
                                p,
                                i + 1,
                                fields@.len() as int,
                                st0,
                            );
                        }
                        return Err(err);
                    },
                }
            },
            TableKeyName::String(_) => {},
        }
        match walk_value_key_exec(w, s, d, &value) {
            Ok(_) => {},
            Err(err) => {
                proof {
                    lemma_fields_absorbs(
                        s@,
                        name_set(d@),
                        fields@,
                        p,
                        i + 1,
                        fields@.len() as int,
                        st0,
                    );
                }
                return Err(err);
            },
        }
        i = i + 1;
    }
    Ok(())
}

fn walk_function_exec(w: &mut Walker, s: &Strage, d: &Vec<String>, fk: &FunctionKey) -> (r: Result<
    (),
    (String, rowan::TextRange),
>)
    requires
        s.well_formed(),
        function_key_before(*fk, s@.len() as int),
    ensures
        walked(*old(w), *final(w), r, walk_function(s@, name_set(d@), *fk, old(w).state())),
    decreases fk.end() as int - 1, 4int, 0int,
{
    let ghost st = w.state();
    let mut outer: Vec<String> = Vec::new();
    std::mem::swap(&mut outer, &mut w.defs);
    let cur = w.current;
    w.master.push((cur, outer));
    w.current = fk.as_u64();
    let (start, end) = fk.bounds();
    let lo: usize = (start - 1) as usize;
    let hi: usize = (end - 1) as usize;
    let ghost inner0 = (st.0.push((st.2, st.1)), Set::<Seq<char>>::empty(), function_id(*fk), st.3, st.4);
    proof {
        assert(name_set(w.defs@) =~= Set::<Seq<char>>::empty());
        assert(frames_view(w.master@) =~= st.0.push((st.2, st.1)));
        assert(w.state() == inner0);
    }
    let mut q: usize = lo;
    while q < hi
        invariant
            lo <= q <= hi <= s@.len(),
            s.well_formed(),
            w.master@.len() == old(w).master@.len() + 1,
            w.state() == params_upto(s@, lo as int, q as int, inner0),
        decreases hi - q,
    {
        match s.entry(q) {
            RawData::Symbol(_, sym) => {
                let x = sym.text().to_owned();
                proof {
                    lemma_name_set_push(w.defs@, x);
                }
                w.defs.push(x);
            },
            _ => {},
        }
        q = q + 1;
    }
    let ghost inner1 = params_upto(s@, lo as int, hi as int, inner0);
    let mut q: usize = lo;
    while q < hi
        invariant
            lo <= q <= hi <= s@.len(),
            hi == fk.end() - 1,
            lo == fk.start() - 1,
            fk.start() >= 1,
            fk.end() >= fk.start(),
            s.well_formed(),
            w.master@.len() == old(w).master@.len() + 1,
            w.state() == walk_effects_upto(s@, name_set(d@), lo as int, q as int, inner1),
            inner1 == params_upto(s@, lo as int, hi as int, inner0),
            inner0 == (st.0.push((st.2, st.1)), Set::<Seq<char>>::empty(), function_id(*fk), st.3, st.4),
            st == old(w).state(),
            inner1.4 is None,
        decreases hi - q,
    {
        match s.entry(q) {
            RawData::Effect(_, e) => {
                match walk_effect_exec(w, s, d, e, Ghost(q as int)) {
                    Ok(_) => {},
                    Err(err) => {
                        proof {
                            let dd = name_set(d@);
                            assert(walk_effects_upto(s@, dd, lo as int, q + 1, inner1) == walk_effect(
                                s@,
                                dd,
                                *e,
                                q as int,
                                walk_effects_upto(s@, dd, lo as int, q as int, inner1),
                            ));
                            lemma_effects_upto_absorbs(s@, dd, lo as int, q + 1, hi as int, inner1);
                        }
                        return Err(err);
                    },
                }
            },
            _ => {},
        }
        q = q + 1;
    }
    let ghost m = w.master@;
    match w.master.pop() {
        Some((c, defs)) => {
            w.current = c;
            w.defs = defs;
        },
        None => {},
    }
    proof {
        assert(frames_view(w.master@) =~= frames_view(m).drop_last());
    }
    Ok(())
}

fn walk_value_exec(w: &mut Walker, s: &Strage, d: &Vec<String>, v: &Value, Ghost(p): Ghost<int>) -> (r:
    Result<(), (String, rowan::TextRange)>)
    requires
        s.well_formed(),
        0 <= p < s@.len(),
        s@[p] is Value,
        s@[p]->Value_1 == *v,
    ensures
        walked(*old(w), *final(w), r, walk_value(s@, name_set(d@), *v, p, old(w).state())),
    decreases p + 1, 2int, 0int,
{
    proof {
        assert(entry_ok(s@, p));
        lemma_error_absorbs(s@, name_set(d@));
    }
    let ghost st0 = w.state();
    let ghost dd = name_set(d@);
    match v {
        Value::Branch { condition, then, then_tail, else_, else_tail } => {
            match walk_value_key_exec(w, s, d, condition) {
                Ok(_) => {},
                Err(err) => {
                    proof {
                        let st1 = walk_value_key(s@, dd, *condition, st0);
                        assert(walk_effects(s@, dd, *then, st1) == st1);
                        assert(walk_value_key(s@, dd, *then_tail, st1) == st1);
                        assert(walk_effects(s@, dd, *else_, st1) == st1);
                        assert(walk_value_key(s@, dd, *else_tail, st1) == st1);
                    }
                    return Err(err);
                },
            }
            let ghost st1 = walk_value_key(s@, dd, *condition, st0);
            match walk_effects_exec(w, s, d, then) {
                Ok(_) => {},
                Err(err) => {
                    proof {
                        let st2 = walk_effects(s@, dd, *then, st1);
                        assert(walk_value_key(s@, dd, *then_tail, st2) == st2);
                        assert(walk_effects(s@, dd, *else_, st2) == st2);
                        assert(walk_value_key(s@, dd, *else_tail, st2) == st2);
                    }
                    return Err(err);
                },
            }
            let ghost st2 = walk_effects(s@, dd, *then, st1);
            match walk_value_key_exec(w, s, d, then_tail) {
                Ok(_) => {},
                Err(err) => {
                    proof {
                        let st3 = walk_value_key(s@, dd, *then_tail, st2);
                        assert(walk_effects(s@, dd, *else_, st3) == st3);
                        assert(walk_value_key(s@, dd, *else_tail, st3) == st3);
                    }
                    return Err(err);
                },
            }
            let ghost st3 = walk_value_key(s@, dd, *then_tail, st2);
            match walk_effects_exec(w, s, d, else_) {
                Ok(_) => {},
                Err(err) => {
                    proof {
                        let st4 = walk_effects(s@, dd, *else_, st3);
                        assert(walk_value_key(s@, dd, *else_tail, st4) == st4);
                    }
                    return Err(err);
                },
            }
            walk_value_key_exec(w, s, d, else_tail)
        },
        Value::Prefix { op: _, value } => walk_value_key_exec(w, s, d, value),
        Value::Binary { op: _, lhs, rhs } => {
            match walk_value_key_exec(w, s, d, lhs) {
                Ok(_) => {},
                Err(err) => return Err(err),
            }
            walk_value_key_exec(w, s, d, rhs)
        },
        Value::Call { value, args } => {
            match walk_value_key_exec(w, s, d, value) {
                Ok(_) => {},
                Err(err) => {
                    proof {
                        let st1 = walk_value_key(s@, dd, *value, st0);
                        assert(walk_values(s@, dd, *args, st1) == st1);
                    }
                    return Err(err);
                },
            }
            walk_values_exec(w, s, d, args)
        },
        Value::Index { value, index } => {
            match walk_value_key_exec(w, s, d, value) {
                Ok(_) => {},
                Err(err) => return Err(err),
            }
            walk_value_key_exec(w, s, d, index)
        },
        Value::Field { value, name: _ } => walk_value_key_exec(w, s, d, value),
        Value::MethodCall { value, name: _, args } => {
            match walk_value_key_exec(w, s, d, value) {
                Ok(_) => {},
                Err(err) => {
                    proof {
                        let st1 = walk_value_key(s@, dd, *value, st0);
                        assert(walk_values(s@, dd, *args, st1) == st1);
                    }
                    return Err(err);
                },
            }
            walk_values_exec(w, s, d, args)
        },
        Value::Block { effects, tail } => {
            match walk_effects_exec(w, s, d, effects) {
                Ok(_) => {},
                Err(err) => return Err(err),
            }
            walk_value_key_exec(w, s, d, tail)
        },
        Value::Local { name } => use_local_exec(w, s, d, name),
        Value::Function(func) => walk_function_exec(w, s, d, func),
        Value::Array { elements } => walk_values_exec(w, s, d, elements),
        Value::Table { fields } => walk_fields_exec(w, s, d, fields, Ghost(p)),
        _ => Ok(()),
    }
}

fn walk_effect_exec(w: &mut Walker, s: &Strage, d: &Vec<String>, e: &Effect, Ghost(p): Ghost<int>) -> (r:
    Result<(), (String, rowan::TextRange)>)
    requires
        s.well_formed(),
        0 <= p < s@.len(),
        s@[p] is Effect,
        s@[p]->Effect_1 == *e,
    ensures
        walked(*old(w), *final(w), r, walk_effect(s@, name_set(d@), *e, p, old(w).state())),
    decreases p + 1, 2int, 0int,
{
    proof {
        assert(entry_ok(s@, p));
        lemma_error_absorbs(s@, name_set(d@));
    }
    match e {
        Effect::MakeLocal { name, value } => {
            match walk_value_key_exec(w, s, d, value) {
                Ok(_) => {},
                Err(err) => return Err(err),
            }
            insert_def_exec(w, s, name);
            Ok(())
        },
        Effect::MakeFunc { name, func } => {
            insert_def_exec(w, s, name);
            walk_function_exec(w, s, d, func)
        },
        Effect::SetLocal { local, value } => {
            match use_local_exec(w, s, d, local) {
                Ok(_) => {},
                Err(err) => return Err(err),
            }
            walk_value_key_exec(w, s, d, value)
        },
        Effect::SetIndex { target, index, value } => {
            match walk_value_key_exec(w, s, d, value) {
                Ok(_) => {},
                Err(err) => return Err(err),
            }
            match walk_value_key_exec(w, s, d, index) {
                Ok(_) => {},
                Err(err) => return Err(err),
            }
            walk_value_key_exec(w, s, d, target)
        },
        Effect::SetField { target, field: _, value } => {
            match walk_value_key_exec(w, s, d, value) {
                Ok(_) => {},
                Err(err) => return Err(err),
            }
            walk_value_key_exec(w, s, d, target)
        },
        Effect::SetFieldFunc { table, path: _, func } => {
            match walk_function_exec(w, s, d, func) {
                Ok(_) => {},
                Err(err) => return Err(err),
            }
            use_local_exec(w, s, d, table)
        },
        Effect::SetMethod { table, path: _, name: _, func } => {
            match walk_function_exec(w, s, d, func) {
                Ok(_) => {},
                Err(err) => return Err(err),
            }
            use_local_exec(w, s, d, table)
        },
        Effect::Branch { condition, then, else_ } => {
            match walk_value_key_exec(w, s, d, condition) {
                Ok(_) => {},
                Err(err) => return Err(err),
            }
            match walk_effects_exec(w, s, d, then) {
                Ok(_) => {},
                Err(err) => return Err(err),
            }
            walk_effects_exec(w, s, d, else_)
        },
        Effect::LoopFor { variable, iterable, effects } => {
            match walk_value_key_exec(w, s, d, iterable) {
                Ok(_) => {},
                Err(err) => return Err(err),
            }
            insert_def_exec(w, s, variable);
            walk_effects_exec(w, s, d, effects)
        },
        Effect::LoopWhile { condition, effects } => {
            match walk_value_key_exec(w, s, d, condition) {
                Ok(_) => {},
                Err(err) => return Err(err),
            }
            walk_effects_exec(w, s, d, effects)
        },
        Effect::Scope { body } => walk_effects_exec(w, s, d, body),
        Effect::Call { value, args } => {
            match walk_value_key_exec(w, s, d, value) {
                Ok(_) => {},
                Err(err) => return Err(err),
            }
            walk_values_exec(w, s, d, args)
        },
        Effect::MethodCall { table, name: _, args } => {
            match walk_value_key_exec(w, s, d, table) {
                Ok(_) => {},
                Err(err) => return Err(err),
            }
            walk_values_exec(w, s, d, args)
        },
        Effect::Return { value } => walk_value_key_exec(w, s, d, value),
        Effect::BreakLoop => Ok(()),
        Effect::ContinueLoop => Ok(()),
        Effect::NoEffectValue { value } => walk_value_key_exec(w, s, d, value),
    }
}


/// Whose captures: the top level of a module, or one of its functions.
#[derive(Clone, Copy, PartialEq, Eq)]
pub enum FunctionCaptureKey {
    Module,
    FunctionKey(FunctionKey),
}

impl FunctionCaptureKey {
    pub open spec fn spec_id(&self) -> u64 {
        match self {
            FunctionCaptureKey::Module => module_id(),
            FunctionCaptureKey::FunctionKey(k) => function_id(*k),
        }
    }

    /// The id under which the captures are kept: 0 for the top level, and the function key's
    /// start and end, packed, for a function.
    pub fn id(&self) -> (r: u64)
        ensures
            r == self.spec_id(),
    {
        match self {
            FunctionCaptureKey::Module => 0,
            FunctionCaptureKey::FunctionKey(k) => k.as_u64(),
        }
    }
}

/// A name that a module uses where neither an enclosing function nor the defaults define it,
/// with the range of its token.
pub struct UndefinedLocal {
    pub name: String,
    pub range: rowan::TextRange,
}

/// The names that each function of a module, and its top level, take from the functions
/// around them.
pub struct FunctionCapture {
    captures: Vec<(u64, String)>,
}

impl FunctionCapture {
    /// The names captured, by the id of the function (`FunctionCaptureKey::spec_id`).
    pub closed spec fn view(&self) -> Map<u64, Set<Seq<char>>> {
        captures_view(self.captures@)
    }

    /// Walks the module and collects, for each function, the names it uses that functions
    /// around it define (or that are among `defaults`); fails with the first name used that
    /// nothing defines.
    pub fn build_with(module: &Module, defaults: &Vec<String>) -> (r: Result<
        FunctionCapture,
        UndefinedLocal,
    >)
        requires
            module.well_formed(),
        ensures
            module_walk(module, name_set(defaults@)).4 is None <==> r is Ok,
            r matches Ok(db) ==> db@ == module_walk(module, name_set(defaults@)).3,
            r matches Err(e) ==> module_walk(module, name_set(defaults@)).4 == Some(
                (e.name@, e.range),
            ),
    {
        let mut w = Walker { master: Vec::new(), defs: Vec::new(), current: 0, captures: Vec::new() };
        proof {
            assert(frames_view(w.master@) =~= Seq::<(u64, Set<Seq<char>>)>::empty());
            assert(name_set(w.defs@) =~= Set::<Seq<char>>::empty());
            assert(captures_view(w.captures@) =~= Map::<u64, Set<Seq<char>>>::empty());
        }
        match walk_effects_exec(&mut w, module.strage(), defaults, module.effects()) {
            Ok(_) => Ok(FunctionCapture { captures: w.captures }),
            Err((name, range)) => Err(UndefinedLocal { name, range }),
        }
    }

    /// The names that `key` captures, each once; none for a key that captures nothing.
    pub fn get_capture(&self, key: FunctionCaptureKey) -> (r: Vec<String>)
        ensures
            name_set(r@) == (if self@.contains_key(key.spec_id()) {
                self@[key.spec_id()]
            } else {
                Set::<Seq<char>>::empty()
            }),
            forall|i: int, j: int| 0 <= i < j < r@.len() ==> r@[i]@ != r@[j]@,
    {
        self.names_of(key.id())
    }

    /// Each function that captures a name, by id, once, with the names it captures, each
    /// once.
    pub fn iter_captures(&self) -> (r: Vec<(u64, Vec<String>)>)
        ensures
            forall|i: int, j: int| 0 <= i < j < r@.len() ==> r@[i].0 != r@[j].0,
            forall|i: int|
                0 <= i < r@.len() ==> self@.contains_key(#[trigger] r@[i].0) && name_set(r@[i].1@)
                    == self@[r@[i].0],
            forall|id: u64| self@.contains_key(id) ==> exists|i: int| 0 <= i < r@.len() && #[trigger] r@[i].0 == id,
    {
        let c = &self.captures;
        let mut r: Vec<(u64, Vec<String>)> = Vec::new();
        let mut i: usize = 0;
        while i < c.len()
            invariant
                i <= c@.len(),
                c@ == self.captures@,
                forall|a: int, b: int| 0 <= a < b < r@.len() ==> r@[a].0 != r@[b].0,
                forall|a: int|
                    0 <= a < r@.len() ==> self@.contains_key(#[trigger] r@[a].0) && name_set(r@[a].1@)
                        == self@[r@[a].0],
                forall|q: int|
                    #![trigger c@[q]]
                    0 <= q < i ==> exists|a: int| 0 <= a < r@.len() && #[trigger] r@[a].0 == c@[q].0,
            decreases c@.len() - i,
        {
            let id = c[i].0;
            let mut seen = false;
            let mut j: usize = 0;
            while j < r.len()
                invariant
                    j <= r@.len(),
                    seen <==> exists|a: int| 0 <= a < j && #[trigger] r@[a].0 == id,
                decreases r@.len() - j,
            {
                if r[j].0 == id {
                    seen = true;
                }
                j = j + 1;
            }
            if !seen {
                proof {
                    assert(self@.contains_key(id)) by {
                        assert(0 <= i < c@.len() && c@[i as int].0 == id);
                    }
                }
                let names = self.names_of(id);
                let ghost before = r@;
                r.push((id, names));
                proof {
                    assert forall|q: int| #![trigger c@[q]] 0 <= q < i + 1 implies exists|a: int|
                        0 <= a < r@.len() && #[trigger] r@[a].0 == c@[q].0 by {
                        if q < i {
                            let a = choose|a: int| 0 <= a < before.len() && #[trigger] before[a].0 == c@[q].0;
                            assert(r@[a] == before[a]);
                        } else {
                            assert(r@[before.len() as int].0 == c@[q].0);
                        }
                    }
                }
            }
            i = i + 1;
        }
        proof {
            assert forall|id: u64| self@.contains_key(id) implies exists|a: int|
                0 <= a < r@.len() && #[trigger] r@[a].0 == id by {
                let q = choose|q: int| 0 <= q < c@.len() && c@[q].0 == id;
                assert(exists|a: int| 0 <= a < r@.len() && #[trigger] r@[a].0 == c@[q].0);
            }
        }
        r
    }

    /// The names that the function with id `id` captures, each once.
    fn names_of(&self, id: u64) -> (r: Vec<String>)
        ensures
            name_set(r@) == (if self@.contains_key(id) {
                self@[id]
            } else {
                Set::<Seq<char>>::empty()
            }),
            forall|i: int, j: int| 0 <= i < j < r@.len() ==> r@[i]@ != r@[j]@,
    {
        let c = &self.captures;
        let mut r: Vec<String> = Vec::new();
        let mut i: usize = 0;
        while i < c.len()
            invariant
                i <= c@.len(),
                name_set(r@) == Set::new(
                    |x: Seq<char>| exists|q: int| 0 <= q < i && c@[q].0 == id && c@[q].1@ == x,
                ),
                forall|a: int, b: int| 0 <= a < b < r@.len() ==> r@[a]@ != r@[b]@,
            decreases c@.len() - i,
        {
            if c[i].0 == id && !contains_name(&r, &c[i].1) {
                proof {
                    lemma_name_set_push(r@, c@[i as int].1);
                }
                r.push(c[i].1.clone());
            }
            proof {
                let next = Set::new(
                    |x: Seq<char>| exists|q: int| 0 <= q < i + 1 && c@[q].0 == id && c@[q].1@ == x,
                );
                assert forall|x: Seq<char>| next.contains(x) implies name_set(r@).contains(x) by {
                    let q = choose|q: int| 0 <= q < i + 1 && c@[q].0 == id && c@[q].1@ == x;
                    if q < i {
                        assert(Set::new(
                            |x: Seq<char>| exists|q: int| 0 <= q < i && c@[q].0 == id && c@[q].1@ == x,
                        ).contains(x));
                    }
                }
                assert forall|x: Seq<char>| name_set(r@).contains(x) implies next.contains(x) by {
                    if Set::new(
                        |x: Seq<char>| exists|q: int| 0 <= q < i && c@[q].0 == id && c@[q].1@ == x,
                    ).contains(x) {
                        let q = choose|q: int| 0 <= q < i && c@[q].0 == id && c@[q].1@ == x;
                        assert(0 <= q < i + 1 && c@[q].0 == id && c@[q].1@ == x);
                    } else {
                        assert(c@[i as int].0 == id && c@[i as int].1@ == x);
                    }
                }
                assert(name_set(r@) =~= next);
            }
            i = i + 1;
        }
        proof {
            let target = if self@.contains_key(id) {
                self@[id]
            } else {
                Set::<Seq<char>>::empty()
            };
            assert forall|x: Seq<char>| name_set(r@).contains(x) <==> target.contains(x) by {
                if name_set(r@).contains(x) {
                    let q = choose|q: int| 0 <= q < i && c@[q].0 == id && c@[q].1@ == x;
                    assert(self@.contains_key(id));
                }
            }
            assert(name_set(r@) =~= target);
        }
        r
    }
}

} // verus!
