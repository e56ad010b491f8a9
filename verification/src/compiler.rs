//! Compile-time bookkeeping for the single-pass code generator: the chain of
//! compiler frames (one per function, method or top-level chunk), lexical
//! scope and upvalue resolution, module-level variables, loop contexts for
//! break/continue, deduplicating constant pools, forward-jump patching with
//! its hard distance limit, and per-class member tables.
//!
//! Frames form an arena addressed by index: each frame stores the index of
//! its lexically enclosing frame, which is always smaller — an acyclic parent
//! graph without aliasing, so a child can append upvalue descriptors to an
//! ancestor during resolution.

use vstd::prelude::*;

use crate::diag::{DiagKind, Diagnostic};
use crate::limits::{
    MAX_CONSTANTS, MAX_FIELDS, MAX_JUMP, MAX_LOCALS, MAX_MODULE_VARS, MAX_UPVALUES,
};
use crate::token::{chars_clone, chars_eq, value_eq, value_matches, Value};

verus! {

/// A local variable in a compiler frame. Its slot index is its position in
/// the frame's table, which is also its stack slot offset from the frame
/// base in the virtual machine.
pub struct Local {
    /// The variable's name, an owned copy of its lexeme.
    pub name: Vec<char>,
    /// Block-scope nesting level of the declaration; -1 is the sentinel for
    /// "not yet initialized" or module level.
    pub depth: i32,
    /// Whether the local is captured as an upvalue by a nested function. A
    /// captured local must survive its block as a heap-promoted cell; the
    /// compiler only marks it, promotion is the virtual machine's job at
    /// scope-exit code.
    pub is_captured: bool,
}

/// An upvalue descriptor: what a nested function captures from its lexically
/// enclosing frame.
#[derive(Clone, Copy, PartialEq, Eq, Structural, Debug)]
pub struct CompilerUpvalue {
    /// True when the capture is a local of the immediately enclosing frame,
    /// false when it is an upvalue of that frame.
    pub is_local: bool,
    /// Index into the enclosing frame's local table or upvalue table.
    pub index: usize,
}

/// One abstract bytecode instruction. Jumps carry their operand: a
/// placeholder of 0 until the target is known, then the patched relative
/// distance in instructions.
#[derive(Clone, Copy, PartialEq, Eq, Structural, Debug)]
pub enum Instr {
    /// Push the constant-pool entry at the index.
    Constant(usize),
    /// Push null.
    PushNull,
    LoadLocal(usize),
    StoreLocal(usize),
    LoadUpvalue(usize),
    StoreUpvalue(usize),
    LoadModuleVar(usize),
    StoreModuleVar(usize),
    /// Discard the top stack slot.
    Pop,
    /// Close the top stack slot's upvalue cell and discard the slot.
    CloseUpvalue,
    /// Unconditional forward jump by the operand.
    Jump(usize),
    /// Conditional forward jump by the operand, consuming the condition.
    JumpIf(usize),
    /// Backward jump by the operand, to a loop's start.
    LoopBack(usize),
    Return,
}

/// How an instruction changes the number of live stack slots.
pub open spec fn stack_effect(i: Instr) -> int {
    match i {
        Instr::Constant(_) => 1,
        Instr::PushNull => 1,
        Instr::LoadLocal(_) => 1,
        Instr::StoreLocal(_) => 0,
        Instr::LoadUpvalue(_) => 1,
        Instr::StoreUpvalue(_) => 0,
        Instr::LoadModuleVar(_) => 1,
        Instr::StoreModuleVar(_) => 0,
        Instr::Pop => -1,
        Instr::CloseUpvalue => -1,
        Instr::Jump(_) => 0,
        Instr::JumpIf(_) => -1,
        Instr::LoopBack(_) => 0,
        Instr::Return => 0,
    }
}

/// One active loop: everything break and continue need, and the set of
/// pending break jumps. A loop body may hold many `break` statements, so the
/// context keeps a list of jump sites, all patched to the loop's end at once
/// when the loop closes.
pub struct LoopCtx {
    /// Instruction offset the loop restarts at: where `continue` jumps.
    pub start: usize,
    /// Offset of the conditional exit jump to patch once the loop's end is
    /// known, if one was emitted.
    pub exit_jump: Option<usize>,
    /// Offset of the first instruction of the body.
    pub body: usize,
    /// Scope depth of the loop body: break and continue first unwind every
    /// local declared deeper than this.
    pub scope_depth: i32,
    /// Offsets of the placeholder jumps emitted by `break` statements.
    pub break_sites: Vec<usize>,
}

/// One attribute from an annotation block preceding a class or method
/// declaration: a name and a literal value.
pub struct Attribute {
    pub name: Vec<char>,
    pub value: Value,
}

/// Per-class state while a class body is compiled. Created when the body
/// begins and discarded when it ends; it is not retained afterwards.
pub struct ClassInfo {
    pub name: Vec<char>,
    pub is_foreign: bool,
    /// Whether the member currently being compiled is static.
    pub in_static: bool,
    /// Field names, in declaration order; the index is the field's slot.
    pub fields: Vec<Vec<char>>,
    /// Canonical signature symbols of the instance methods declared so far.
    pub methods: Vec<Vec<char>>,
    /// Canonical signature symbols of the static methods declared so far.
    pub static_methods: Vec<Vec<char>>,
    /// Attributes attached to the class declaration itself.
    pub class_attributes: Vec<Attribute>,
    /// Attributes attached to methods, keyed by canonical signature symbol.
    pub method_attributes: Vec<(Vec<char>, Vec<Attribute>)>,
}

/// One compiler frame: the state of one function, method or top-level chunk
/// being compiled.
pub struct Frame {
    /// Arena index of the lexically enclosing frame; None for the
    /// module-level chunk.
    pub parent: Option<usize>,
    pub locals: Vec<Local>,
    pub upvalues: Vec<CompilerUpvalue>,
    /// Current block nesting: -1 at module level, 0 at a function's top.
    pub scope_depth: i32,
    /// Stack slots currently live.
    pub num_slots: usize,
    /// High-water mark of slots ever simultaneously live: the virtual
    /// machine sizes its stack-growth check at call time from this, so it
    /// must never undercount.
    pub max_slots: usize,
    pub code: Vec<Instr>,
    /// The function's constant pool, deduplicated by `value_matches`.
    pub constants: Vec<Value>,
    /// Active loops, innermost last.
    pub loops: Vec<LoopCtx>,
}

/// Where a name reference resolves to, and the slot or symbol index the code
/// generator must load or store through.
#[derive(Clone, Copy, PartialEq, Eq, Structural, Debug)]
pub enum ResolvedVariable {
    /// A local of the current frame, by slot index.
    Local(usize),
    /// An upvalue of the current frame, by descriptor index.
    Upvalue(usize),
    /// A module-level variable, by symbol index.
    Module(usize),
}

/// The slot index of the innermost local named `name`: the last matching
/// entry, so a later declaration in a nested block shadows an earlier one.
pub open spec fn find_local(locals: Seq<Local>, name: Seq<char>) -> Option<int>
    decreases locals.len(),
{
    if locals.len() == 0 {
        Option::None
    } else if locals.last().name@ == name {
        Option::Some(locals.len() - 1)
    } else {
        find_local(locals.drop_last(), name)
    }
}

/// The index of the first upvalue descriptor equal to `(is_local, index)`.
pub open spec fn find_upvalue_desc(uvs: Seq<CompilerUpvalue>, is_local: bool, index: usize) -> Option<
    int,
>
    decreases uvs.len(),
{
    if uvs.len() == 0 {
        Option::None
    } else if uvs[0].is_local == is_local && uvs[0].index == index {
        Option::Some(0)
    } else {
        match find_upvalue_desc(uvs.drop_first(), is_local, index) {
            Option::None => Option::None,
            Option::Some(i) => Option::Some(i + 1),
        }
    }
}

/// The index of the first name in `v` whose characters are `name`.
pub open spec fn find_string(v: Seq<Vec<char>>, name: Seq<char>) -> Option<int>
    decreases v.len(),
{
    if v.len() == 0 {
        Option::None
    } else if v[0]@ == name {
        Option::Some(0)
    } else {
        match find_string(v.drop_first(), name) {
            Option::None => Option::None,
            Option::Some(i) => Option::Some(i + 1),
        }
    }
}

/// The index of the first constant-pool entry matching `x`.
pub open spec fn find_value(pool: Seq<Value>, x: Value) -> Option<int>
    decreases pool.len(),
{
    if pool.len() == 0 {
        Option::None
    } else if value_matches(pool[0], x) {
        Option::Some(0)
    } else {
        match find_value(pool.drop_first(), x) {
            Option::None => Option::None,
            Option::Some(i) => Option::Some(i + 1),
        }
    }
}

/// Whether some lexically enclosing frame of `k` holds a local named `name`.
pub open spec fn chain_has_local(frames: Seq<Frame>, k: int, name: Seq<char>) -> bool
    decreases k,
{
    if 0 <= k < frames.len() {
        match frames[k].parent {
            Option::None => false,
            Option::Some(p) => if 0 <= p < k {
                find_local(frames[p as int].locals@, name) is Some || chain_has_local(
                    frames,
                    p as int,
                    name,
                )
            } else {
                false
            },
        }
    } else {
        false
    }
}

/// The frame whose local a reference to `name` from frame `k` captures: the
/// nearest lexically enclosing frame that holds a local with that name, or
/// -1 when none does.
pub open spec fn defining_frame(frames: Seq<Frame>, k: int, name: Seq<char>) -> int
    decreases k,
{
    if 0 <= k < frames.len() {
        match frames[k].parent {
            Option::None => -1,
            Option::Some(p) => if 0 <= p < k {
                if find_local(frames[p as int].locals@, name) is Some {
                    p as int
                } else {
                    defining_frame(frames, p as int, name)
                }
            } else {
                -1
            },
        }
    } else {
        -1
    }
}

/// The defining frame lies strictly below the referencing frame in the
/// arena (or is -1 when no enclosing frame holds the name).
pub proof fn lemma_defining_frame_lt(frames: Seq<Frame>, k: int, name: Seq<char>)
    requires
        0 <= k,
    ensures
        defining_frame(frames, k, name) < k,
        chain_has_local(frames, k, name) ==> 0 <= defining_frame(frames, k, name)
            && find_local(frames[defining_frame(frames, k, name)].locals@, name) is Some,
    decreases k,
{
    if 0 <= k < frames.len() {
        match frames[k].parent {
            Option::None => {},
            Option::Some(p) => {
                if 0 <= p < k {
                    lemma_defining_frame_lt(frames, p as int, name);
                }
            },
        }
    }
}

/// The upvalue descriptor index that a reference to `name` from frame `k`
/// resolves to, reading the descriptor tables as they stand: the defining
/// frame's local is found through a chain of already-present descriptors.
pub open spec fn lookup_upvalue(frames: Seq<Frame>, k: int, name: Seq<char>) -> Option<int>
    decreases k,
{
    if 0 <= k < frames.len() {
        match frames[k].parent {
            Option::None => Option::None,
            Option::Some(p) => if 0 <= p < k {
                match find_local(frames[p as int].locals@, name) {
                    Option::Some(j) => find_upvalue_desc(frames[k].upvalues@, true, j as usize),
                    Option::None => match lookup_upvalue(frames, p as int, name) {
                        Option::None => Option::None,
                        Option::Some(u) => find_upvalue_desc(
                            frames[k].upvalues@,
                            false,
                            u as usize,
                        ),
                    },
                }
            } else {
                Option::None
            },
        }
    } else {
        Option::None
    }
}

/// Searching a local table backwards and the innermost-match recursion
/// agree: a match at `i` with no later match is the result.
pub proof fn lemma_find_local_at(locals: Seq<Local>, name: Seq<char>, i: int)
    requires
        0 <= i < locals.len(),
        locals[i].name@ == name,
        forall|j: int| i < j < locals.len() ==> (#[trigger] locals[j]).name@ != name,
    ensures
        find_local(locals, name) == Option::Some(i),
    decreases locals.len(),
{
    if i < locals.len() - 1 {
        lemma_find_local_at(locals.drop_last(), name, i);
    }
}

/// A table with no entry named `name` resolves to nothing.
pub proof fn lemma_find_local_none(locals: Seq<Local>, name: Seq<char>)
    requires
        forall|j: int| 0 <= j < locals.len() ==> (#[trigger] locals[j]).name@ != name,
    ensures
        find_local(locals, name) is None,
    decreases locals.len(),
{
    if locals.len() > 0 {
        lemma_find_local_none(locals.drop_last(), name);
    }
}

/// Round trip of declaration and reference: a local just appended is the
/// innermost entry for its name, so a reference resolves to exactly the
/// slot it was declared at.
pub proof fn lemma_declared_local_resolves(locals: Seq<Local>, l: Local)
    ensures
        find_local(locals.push(l), l.name@) == Option::Some(locals.len() as int),
{
}

/// A forward scan that finds `(is_local, index)` at `i` with no earlier
/// match is what the first-match recursion returns.
pub proof fn lemma_find_upvalue_desc_at(
    uvs: Seq<CompilerUpvalue>,
    is_local: bool,
    index: usize,
    i: int,
)
    requires
        0 <= i < uvs.len(),
        uvs[i].is_local == is_local && uvs[i].index == index,
        forall|j: int|
            0 <= j < i ==> (#[trigger] uvs[j]).is_local != is_local || uvs[j].index != index,
    ensures
        find_upvalue_desc(uvs, is_local, index) == Option::Some(i),
    decreases uvs.len(),
{
    if i > 0 {
        lemma_find_upvalue_desc_at(uvs.drop_first(), is_local, index, i - 1);
    }
}

/// A table with no matching descriptor resolves to nothing.
pub proof fn lemma_find_upvalue_desc_none(uvs: Seq<CompilerUpvalue>, is_local: bool, index: usize)
    requires
        forall|j: int|
            0 <= j < uvs.len() ==> (#[trigger] uvs[j]).is_local != is_local || uvs[j].index
                != index,
    ensures
        find_upvalue_desc(uvs, is_local, index) is None,
    decreases uvs.len(),
{
    if uvs.len() > 0 {
        lemma_find_upvalue_desc_none(uvs.drop_first(), is_local, index);
    }
}

/// A forward scan that finds `name` at `i` with no earlier match is what the
/// first-match recursion returns.
pub proof fn lemma_find_string_at(v: Seq<Vec<char>>, name: Seq<char>, i: int)
    requires
        0 <= i < v.len(),
        v[i]@ == name,
        forall|j: int| 0 <= j < i ==> (#[trigger] v[j])@ != name,
    ensures
        find_string(v, name) == Option::Some(i),
    decreases v.len(),
{
    if i > 0 {
        lemma_find_string_at(v.drop_first(), name, i - 1);
    }
}

/// A table with no entry named `name` resolves to nothing.
pub proof fn lemma_find_string_none(v: Seq<Vec<char>>, name: Seq<char>)
    requires
        forall|j: int| 0 <= j < v.len() ==> (#[trigger] v[j])@ != name,
    ensures
        find_string(v, name) is None,
    decreases v.len(),
{
    if v.len() > 0 {
        lemma_find_string_none(v.drop_first(), name);
    }
}

/// A forward scan that finds a matching constant at `i` with no earlier
/// match is what the first-match recursion returns.
pub proof fn lemma_find_value_at(pool: Seq<Value>, x: Value, i: int)
    requires
        0 <= i < pool.len(),
        value_matches(pool[i], x),
        forall|j: int| 0 <= j < i ==> !value_matches(#[trigger] pool[j], x),
    ensures
        find_value(pool, x) == Option::Some(i),
    decreases pool.len(),
{
    if i > 0 {
        lemma_find_value_at(pool.drop_first(), x, i - 1);
    }
}

/// A pool with no matching constant resolves to nothing.
pub proof fn lemma_find_value_none(pool: Seq<Value>, x: Value)
    requires
        forall|j: int| 0 <= j < pool.len() ==> !value_matches(#[trigger] pool[j], x),
    ensures
        find_value(pool, x) is None,
    decreases pool.len(),
{
    if pool.len() > 0 {
        lemma_find_value_none(pool.drop_first(), x);
    }
}

/// Innermost-first lookup does not see capture flags: two local tables with
/// the same names resolve every name alike.
pub proof fn lemma_find_local_same_names(l1: Seq<Local>, l2: Seq<Local>, name: Seq<char>)
    requires
        l1.len() == l2.len(),
        forall|i: int| 0 <= i < l1.len() ==> (#[trigger] l1[i]).name@ == (#[trigger] l2[i]).name@,
    ensures
        find_local(l1, name) == find_local(l2, name),
    decreases l1.len(),
{
    if l1.len() > 0 {
        lemma_find_local_same_names(l1.drop_last(), l2.drop_last(), name);
    }
}

/// Whether an enclosing frame holds a name depends only on the parent links
/// and the local names, not on capture flags or upvalue tables.
pub proof fn lemma_chain_same_names(f1: Seq<Frame>, f2: Seq<Frame>, k: int, name: Seq<char>)
    requires
        f1.len() == f2.len(),
        forall|j: int| 0 <= j < f1.len() ==> (#[trigger] f1[j]).parent == (#[trigger] f2[j]).parent,
        forall|j: int|
            0 <= j < f1.len() ==> (#[trigger] f1[j]).locals@.len() == (
            #[trigger] f2[j]).locals@.len(),
        forall|j: int, i: int|
            0 <= j < f1.len() && 0 <= i < f1[j].locals@.len() ==> (
            #[trigger] f1[j].locals@[i]).name@ == (#[trigger] f2[j].locals@[i]).name@,
    ensures
        chain_has_local(f1, k, name) == chain_has_local(f2, k, name),
    decreases k,
{
    if 0 <= k < f1.len() {
        match f1[k].parent {
            Option::None => {},
            Option::Some(p) => {
                if 0 <= p < k {
                    lemma_find_local_same_names(f1[p as int].locals@, f2[p as int].locals@, name);
                    lemma_chain_same_names(f1, f2, p as int, name);
                }
            },
        }
    }
}

/// An upvalue lookup from frame `k` reads only frames up to `k`: two arenas
/// that agree there resolve alike.
pub proof fn lemma_lookup_agree(f1: Seq<Frame>, f2: Seq<Frame>, k: int, name: Seq<char>)
    requires
        f1.len() == f2.len(),
        forall|j: int| 0 <= j <= k && j < f1.len() ==> (#[trigger] f1[j]) == (#[trigger] f2[j]),
    ensures
        lookup_upvalue(f1, k, name) == lookup_upvalue(f2, k, name),
    decreases k,
{
    if 0 <= k < f1.len() {
        match f1[k].parent {
            Option::None => {},
            Option::Some(p) => {
                if 0 <= p < k {
                    lemma_lookup_agree(f1, f2, p as int, name);
                }
            },
        }
    }
}

/// Searches a local table for `name`, innermost declaration first.
pub fn find_local_exec(locals: &Vec<Local>, name: &Vec<char>) -> (r: Option<usize>)
    ensures
        match r {
            Option::Some(i) => i < locals@.len() && locals@[i as int].name@ == name@ && find_local(
                locals@,
                name@,
            ) == Option::Some(i as int),
            Option::None => find_local(locals@, name@) is None && (forall|j: int|
                0 <= j < locals@.len() ==> (#[trigger] locals@[j]).name@ != name@),
        },
{
    let n = locals.len();
    let mut i = n;
    while i > 0
        invariant
            i <= n,
            n == locals@.len(),
            forall|j: int| i <= j < n ==> (#[trigger] locals@[j]).name@ != name@,
        decreases i,
    {
        i = i - 1;
        if chars_eq(&locals[i].name, name) {
            proof {
                lemma_find_local_at(locals@, name@, i as int);
            }
            return Option::Some(i);
        }
    }
    proof {
        lemma_find_local_none(locals@, name@);
    }
    Option::None
}

/// Searches an upvalue table for an existing descriptor.
pub fn find_upvalue_desc_exec(uvs: &Vec<CompilerUpvalue>, is_local: bool, index: usize) -> (r:
    Option<usize>)
    ensures
        match r {
            Option::Some(i) => i < uvs@.len() && find_upvalue_desc(uvs@, is_local, index)
                == Option::Some(i as int),
            Option::None => find_upvalue_desc(uvs@, is_local, index) is None && (forall|j: int|
                0 <= j < uvs@.len() ==> (#[trigger] uvs@[j]).is_local != is_local || uvs@[j].index
                    != index),
        },
{
    let n = uvs.len();
    let mut i: usize = 0;
    while i < n
        invariant
            i <= n,
            n == uvs@.len(),
            forall|j: int|
                0 <= j < i ==> (#[trigger] uvs@[j]).is_local != is_local || uvs@[j].index != index,
        decreases n - i,
    {
        if uvs[i].is_local == is_local && uvs[i].index == index {
            proof {
                lemma_find_upvalue_desc_at(uvs@, is_local, index, i as int);
            }
            return Option::Some(i);
        }
        i = i + 1;
    }
    proof {
        lemma_find_upvalue_desc_none(uvs@, is_local, index);
    }
    Option::None
}

/// Searches a name table for `name`, first declaration first.
pub fn find_string_exec(v: &Vec<Vec<char>>, name: &Vec<char>) -> (r: Option<usize>)
    ensures
        match r {
            Option::Some(i) => i < v@.len() && v@[i as int]@ == name@ && find_string(v@, name@)
                == Option::Some(i as int),
            Option::None => find_string(v@, name@) is None && (forall|j: int|
                0 <= j < v@.len() ==> (#[trigger] v@[j])@ != name@),
        },
{
    let n = v.len();
    let mut i: usize = 0;
    while i < n
        invariant
            i <= n,
            n == v@.len(),
            forall|j: int| 0 <= j < i ==> (#[trigger] v@[j])@ != name@,
        decreases n - i,
    {
        if chars_eq(&v[i], name) {
            proof {
                lemma_find_string_at(v@, name@, i as int);
            }
            return Option::Some(i);
        }
        i = i + 1;
    }
    proof {
        lemma_find_string_none(v@, name@);
    }
    Option::None
}

/// Searches a constant pool for a matching entry.
pub fn find_value_exec(pool: &Vec<Value>, x: &Value) -> (r: Option<usize>)
    ensures
        match r {
            Option::Some(i) => i < pool@.len() && value_matches(pool@[i as int], *x) && find_value(
                pool@,
                *x,
            ) == Option::Some(i as int),
            Option::None => find_value(pool@, *x) is None && (forall|j: int|
                0 <= j < pool@.len() ==> !value_matches(#[trigger] pool@[j], *x)),
        },
{
    let n = pool.len();
    let mut i: usize = 0;
    while i < n
        invariant
            i <= n,
            n == pool@.len(),
            forall|j: int| 0 <= j < i ==> !value_matches(#[trigger] pool@[j], *x),
        decreases n - i,
    {
        if value_eq(&pool[i], x) {
            proof {
                lemma_find_value_at(pool@, *x, i as int);
            }
            return Option::Some(i);
        }
        i = i + 1;
    }
    proof {
        lemma_find_value_none(pool@, *x);
    }
    Option::None
}

/// How resolution may change a frame: everything stays as it was except
/// that locals may become captured and upvalue descriptors may be appended.
pub open spec fn frame_evolves(a: Frame, b: Frame) -> bool {
    &&& b.parent == a.parent
    &&& b.scope_depth == a.scope_depth
    &&& b.num_slots == a.num_slots
    &&& b.max_slots == a.max_slots
    &&& b.code == a.code
    &&& b.constants == a.constants
    &&& b.loops == a.loops
    &&& b.locals@.len() == a.locals@.len()
    &&& forall|i: int|
        0 <= i < a.locals@.len() ==> (#[trigger] b.locals@[i]).name@ == (
        #[trigger] a.locals@[i]).name@ && b.locals@[i].depth == a.locals@[i].depth && (
        a.locals@[i].is_captured ==> b.locals@[i].is_captured)
    &&& a.upvalues@.is_prefix_of(b.upvalues@)
}

/// Well-formedness of one frame within the arena: every hard limit holds,
/// the parent comes earlier in the arena, local depths are nondecreasing and
/// within the frame's scope depth, and no upvalue descriptor is duplicated.
pub open spec fn frame_ok(frames: Seq<Frame>, k: int) -> bool {
    let f = frames[k];
    &&& f.locals@.len() <= MAX_LOCALS
    &&& f.upvalues@.len() <= MAX_UPVALUES
    &&& f.constants@.len() <= MAX_CONSTANTS
    &&& -1 <= f.scope_depth
    &&& forall|i: int|
        0 <= i < f.locals@.len() ==> -1 <= (#[trigger] f.locals@[i]).depth <= f.scope_depth
    &&& forall|i: int, j: int|
        0 <= i <= j < f.locals@.len() ==> (#[trigger] f.locals@[i]).depth <= (
        #[trigger] f.locals@[j]).depth
    &&& match f.parent {
        Option::None => true,
        Option::Some(p) => p < k,
    }
    &&& forall|u1: int, u2: int|
        0 <= u1 < u2 < f.upvalues@.len() ==> !((#[trigger] f.upvalues@[u1]).is_local == (
        #[trigger] f.upvalues@[u2]).is_local && f.upvalues@[u1].index == f.upvalues@[u2].index)
}

/// The compiler's bookkeeping state: the arena of frames, the index of the
/// frame being compiled, the module-level variable table shared by the whole
/// compilation unit, the class context while a class body is compiled, and
/// the diagnostic sink with the sticky error flag.
pub struct Compiler {
    pub frames: Vec<Frame>,
    /// Arena index of the frame being compiled.
    pub current: usize,
    /// Module-level variable names; the index is the variable's symbol.
    pub module_vars: Vec<Vec<char>>,
    /// The class whose body is being compiled, if any.
    pub enclosing_class: Option<ClassInfo>,
    /// Attributes accumulated from an annotation block, waiting for the
    /// class or method declaration they precede.
    pub pending_attributes: Vec<Attribute>,
    /// The 1-based source line errors are reported at; the driver keeps it
    /// at the line of the token being compiled.
    pub line: usize,
    /// Whether errors are recorded or discarded.
    pub print_errors: bool,
    /// If a compile error has occurred. Output carrying this flag must never
    /// be handed to the virtual machine; the caller checks.
    pub has_error: bool,
    /// The diagnostic sink: errors recorded so far, oldest first.
    pub diagnostics: Vec<Diagnostic>,
}

impl Compiler {
    /// The compiler's internal invariant: the current frame exists, every
    /// frame is well formed within the arena, and the module table and every
    /// class table respect their limits.
    pub open spec fn wf(self) -> bool {
        &&& self.current < self.frames@.len()
        &&& forall|k: int| 0 <= k < self.frames@.len() ==> frame_ok(self.frames@, k)
        &&& self.module_vars@.len() <= MAX_MODULE_VARS
        &&& match self.enclosing_class {
            Option::None => true,
            Option::Some(c) => c.fields@.len() <= MAX_FIELDS,
        }
    }

    /// A fresh compiler holding only the module-level chunk's frame, which
    /// has no parent and sits at the module scope depth of -1.
    pub fn new(print_errors: bool) -> (c: Compiler)
        ensures
            c.wf(),
            c.frames@.len() == 1,
            c.current == 0,
            c.frames@[0].parent is None,
            c.frames@[0].locals@.len() == 0,
            c.frames@[0].upvalues@.len() == 0,
            c.frames@[0].scope_depth == -1,
            c.frames@[0].code@.len() == 0,
            c.frames@[0].constants@.len() == 0,
            c.frames@[0].loops@.len() == 0,
            c.frames@[0].num_slots == 0,
            c.frames@[0].max_slots == 0,
            c.module_vars@.len() == 0,
            c.enclosing_class is None,
            c.pending_attributes@.len() == 0,
            !c.has_error,
            c.diagnostics@.len() == 0,
            c.print_errors == print_errors,
            c.line == 1,
    {
        let mut frames: Vec<Frame> = Vec::new();
        frames.push(
            Frame {
                parent: Option::None,
                locals: Vec::new(),
                upvalues: Vec::new(),
                scope_depth: -1,
                num_slots: 0,
                max_slots: 0,
                code: Vec::new(),
                constants: Vec::new(),
                loops: Vec::new(),
            },
        );
        Compiler {
            frames,
            current: 0,
            module_vars: Vec::new(),
            enclosing_class: Option::None,
            pending_attributes: Vec::new(),
            line: 1,
            print_errors,
            has_error: false,
            diagnostics: Vec::new(),
        }
    }

    /// Records a compile error at the current line and makes the error flag
    /// sticky. Compilation continues on a best-effort basis afterwards.
    pub fn error(&mut self, kind: DiagKind)
        ensures
            (Compiler {
                has_error: old(self).has_error,
                diagnostics: old(self).diagnostics,
                ..*final(self)
            }) == *old(self),
            final(self).has_error,
            old(self).print_errors ==> final(self).diagnostics@ == old(self).diagnostics@.push(
                (Diagnostic { kind, line: old(self).line }),
            ),
            !old(self).print_errors ==> final(self).diagnostics == old(self).diagnostics,
    {
        self.has_error = true;
        if self.print_errors {
            self.diagnostics.push(Diagnostic { kind, line: self.line });
        }
    }

    /// Begins compiling a function, method or block nested in the current
    /// frame: a new frame is pushed, linked to the current one, and becomes
    /// current. Its scope depth starts at 0, the function's own top.
    pub fn push_frame(&mut self)
        requires
            old(self).wf(),
        ensures
            final(self).wf(),
            (Compiler {
                frames: old(self).frames,
                current: old(self).current,
                ..*final(self)
            }) == *old(self),
            final(self).frames@.len() == old(self).frames@.len() + 1,
            forall|k: int|
                0 <= k < old(self).frames@.len() ==> final(self).frames@[k] == old(self).frames@[k],
            final(self).current == old(self).frames@.len(),
            final(self).frames@.last().parent == Option::Some(old(self).current),
            final(self).frames@.last().locals@.len() == 0,
            final(self).frames@.last().upvalues@.len() == 0,
            final(self).frames@.last().scope_depth == 0,
            final(self).frames@.last().code@.len() == 0,
            final(self).frames@.last().constants@.len() == 0,
            final(self).frames@.last().loops@.len() == 0,
    {
        let parent = self.current;
        self.current = self.frames.len();
        self.frames.push(
            Frame {
                parent: Option::Some(parent),
                locals: Vec::new(),
                upvalues: Vec::new(),
                scope_depth: 0,
                num_slots: 0,
                max_slots: 0,
                code: Vec::new(),
                constants: Vec::new(),
                loops: Vec::new(),
            },
        );
        proof {
            assert forall|k: int| 0 <= k < self.frames@.len() implies frame_ok(
                self.frames@,
                k,
            ) by {
                if k < old(self).frames@.len() {
                    assert(frame_ok(old(self).frames@, k));
                    assert(self.frames@[k] == old(self).frames@[k]);
                }
            }
        }
    }

    /// Finishes compiling the current frame: its parent becomes current
    /// again and the finished frame's arena index — the handle to its
    /// compiled artifact — is returned to be stored as a constant of the
    /// enclosing function.
    pub fn pop_frame(&mut self) -> (r: usize)
        requires
            old(self).wf(),
            old(self).frames@[old(self).current as int].parent is Some,
        ensures
            final(self).wf(),
            (Compiler { current: old(self).current, ..*final(self) }) == *old(self),
            r == old(self).current,
            Option::Some(final(self).current) == old(self).frames@[old(self).current as int].parent,
    {
        let r = self.current;
        proof {
            assert(frame_ok(self.frames@, self.current as int));
        }
        let p = match self.frames[self.current].parent {
            Option::Some(p) => p,
            Option::None => 0,
        };
        self.current = p;
        r
    }

    /// Enters a new block scope in the current frame.
    pub fn begin_scope(&mut self)
        requires
            old(self).wf(),
            old(self).frames@[old(self).current as int].scope_depth < i32::MAX,
        ensures
            final(self).wf(),
            (Compiler { frames: old(self).frames, ..*final(self) }) == *old(self),
            final(self).frames@ == old(self).frames@.update(
                old(self).current as int,
                (Frame {
                    scope_depth: (old(self).frames@[old(self).current as int].scope_depth
                        + 1) as i32,
                    ..old(self).frames@[old(self).current as int]
                }),
            ),
    {
        let cur = self.current;
        let ghost frames0 = self.frames@;
        let d = self.frames[cur].scope_depth;
        self.frames[cur].scope_depth = d + 1;
        proof {
            assert(self.frames@ =~= frames0.update(
                cur as int,
                (Frame { scope_depth: (d + 1) as i32, ..frames0[cur as int] }),
            ));
            assert forall|k: int| 0 <= k < self.frames@.len() implies frame_ok(
                self.frames@,
                k,
            ) by {
                assert(frame_ok(frames0, k));
            }
        }
    }

    /// Appends a local variable slot for `name` at the current scope depth.
    pub fn add_local(&mut self, name: Vec<char>) -> (r: usize)
        requires
            old(self).wf(),
            old(self).frames@[old(self).current as int].locals@.len() < MAX_LOCALS,
            old(self).frames@[old(self).current as int].scope_depth >= 0,
        ensures
            final(self).wf(),
            (Compiler { frames: old(self).frames, ..*final(self) }) == *old(self),
            final(self).frames@ == old(self).frames@.update(
                old(self).current as int,
                (Frame {
                    locals: final(self).frames@[old(self).current as int].locals,
                    ..old(self).frames@[old(self).current as int]
                }),
            ),
            final(self).frames@[old(self).current as int].locals@ == old(self).frames@[old(self).current as int].locals@.push(
                (Local {
                    name,
                    depth: old(self).frames@[old(self).current as int].scope_depth,
                    is_captured: false,
                }),
            ),
            r == old(self).frames@[old(self).current as int].locals@.len(),
    {
        let cur = self.current;
        let ghost frames0 = self.frames@;
        let r = self.frames[cur].locals.len();
        let d = self.frames[cur].scope_depth;
        self.frames[cur].locals.push(Local { name, depth: d, is_captured: false });
        proof {
            assert(self.frames@ =~= frames0.update(
                cur as int,
                (Frame { locals: self.frames@[cur as int].locals, ..frames0[cur as int] }),
            ));
            assert forall|k: int| 0 <= k < self.frames@.len() implies frame_ok(
                self.frames@,
                k,
            ) by {
                assert(frame_ok(frames0, k));
            }
        }
        r
    }

    /// Declares a named variable where the compiler stands. At module level
    /// (scope depth -1) the name becomes a module variable; declaring one
    /// that already exists is a compile error. In a function, redeclaring a
    /// name in the same block is a compile error (shadowing in a nested
    /// block is fine), and the 257th local of one frame is a compile error
    /// that leaves every prior slot intact. The declared slot or symbol
    /// index is returned; None only when a table is full.
    pub fn declare_variable(&mut self, name: Vec<char>) -> (r: Option<usize>)
        requires
            old(self).wf(),
        ensures
            final(self).wf(),
            old(self).frames@[old(self).current as int].scope_depth == -1 ==> (Compiler {
                module_vars: old(self).module_vars,
                has_error: old(self).has_error,
                diagnostics: old(self).diagnostics,
                ..*final(self)
            }) == *old(self),
            old(self).frames@[old(self).current as int].scope_depth == -1 ==> (match find_string(
                old(self).module_vars@,
                name@,
            ) {
                Option::Some(i) => r == Option::Some(i as usize) && final(self).module_vars == old(self).module_vars && final(self).has_error,
                Option::None => if old(self).module_vars@.len() < MAX_MODULE_VARS {
                    r == Option::Some(old(self).module_vars@.len() as usize) && final(self).module_vars@ == old(self).module_vars@.push(name) && final(self).has_error
                        == old(self).has_error && final(self).diagnostics == old(self).diagnostics
                } else {
                    r is None && final(self).module_vars == old(self).module_vars && final(self).has_error
                },
            }),
            old(self).frames@[old(self).current as int].scope_depth >= 0 ==> (Compiler {
                frames: old(self).frames,
                has_error: old(self).has_error,
                diagnostics: old(self).diagnostics,
                ..*final(self)
            }) == *old(self),
            old(self).frames@[old(self).current as int].scope_depth >= 0 ==> (if old(self).frames@[old(self).current as int].locals@.len() < MAX_LOCALS {
                r == Option::Some(
                    old(self).frames@[old(self).current as int].locals@.len() as usize,
                ) && final(self).frames@ == old(self).frames@.update(
                    old(self).current as int,
                    (Frame {
                        locals: final(self).frames@[old(self).current as int].locals,
                        ..old(self).frames@[old(self).current as int]
                    }),
                ) && final(self).frames@[old(self).current as int].locals@ == old(self).frames@[
                    old(self).current as int
                ].locals@.push(
                    (Local {
                        name,
                        depth: old(self).frames@[old(self).current as int].scope_depth,
                        is_captured: false,
                    }),
                )
            } else {
                r is None && final(self).frames == old(self).frames && final(self).has_error
            }),
            old(self).frames@[old(self).current as int].scope_depth >= 0 ==> ((exists|j: int|
                0 <= j < old(self).frames@[old(self).current as int].locals@.len() && (#[trigger] old(self).frames@[old(self).current as int].locals@[j]).depth >= old(self).frames@[old(self).current as int].scope_depth && old(self).frames@[old(self).current as int].locals@[j].name@ == name@) ==> final(self).has_error),
            old(self).frames@[old(self).current as int].scope_depth >= 0 && !(exists|j: int|
                0 <= j < old(self).frames@[old(self).current as int].locals@.len() && (#[trigger] old(self).frames@[old(self).current as int].locals@[j]).depth >= old(self).frames@[old(self).current as int].scope_depth && old(self).frames@[old(self).current as int].locals@[j].name@ == name@) && old(self).frames@[old(self).current as int].locals@.len() < MAX_LOCALS ==> final(self).has_error == old(self).has_error && final(self).diagnostics == old(self).diagnostics,
    {
        let cur = self.current;
        proof {
            assert(frame_ok(self.frames@, cur as int));
        }
        if self.frames[cur].scope_depth == -1 {
            // Module level: top-level names are module variables, resolved
            // by symbol across the whole compilation unit.
            match find_string_exec(&self.module_vars, &name) {
                Option::Some(i) => {
                    self.error(DiagKind::ModuleVariableAlreadyDefined);
                    return Option::Some(i);
                },
                Option::None => {},
            }
            if self.module_vars.len() >= MAX_MODULE_VARS {
                self.error(DiagKind::TooManyModuleVariables);
                return Option::None;
            }
            let i = self.module_vars.len();
            self.module_vars.push(name);
            return Option::Some(i);
        }
        // See if there is already a variable with this name declared in the
        // current scope — earlier (outer) scopes may shadow.
        let sd = self.frames[cur].scope_depth;
        let n = self.frames[cur].locals.len();
        let mut i = n;
        let mut dup = false;
        while i > 0 && !dup
            invariant
                self.wf(),
                *self == *old(self),
                cur == old(self).current,
                i <= n,
                n == self.frames@[cur as int].locals@.len(),
                sd == self.frames@[cur as int].scope_depth,
                !dup ==> forall|j: int|
                    i <= j < n ==> !((#[trigger] self.frames@[cur as int].locals@[j]).depth >= sd
                        && self.frames@[cur as int].locals@[j].name@ == name@),
                dup ==> (exists|j: int|
                    0 <= j < n && (#[trigger] self.frames@[cur as int].locals@[j]).depth >= sd
                        && self.frames@[cur as int].locals@[j].name@ == name@),
            decreases i,
        {
            i = i - 1;
            if self.frames[cur].locals[i].depth < sd {
                proof {
                    assert(frame_ok(self.frames@, cur as int));
                    assert(forall|j: int|
                        i <= j < n ==> self.frames@[cur as int].locals@[i as int].depth <= (
                        #[trigger] self.frames@[cur as int].locals@[j]).depth);
                }
                i = 0;
            } else if chars_eq(&self.frames[cur].locals[i].name, &name) {
                dup = true;
            }
        }
        if dup {
            self.error(DiagKind::VariableAlreadyDeclared);
        }
        if self.frames[cur].locals.len() >= MAX_LOCALS {
            self.error(DiagKind::TooManyLocals);
            return Option::None;
        }
        Option::Some(self.add_local(name))
    }

    /// Resolves `name` against the current frame's locals, innermost
    /// declaration first.
    pub fn resolve_local(&self, name: &Vec<char>) -> (r: Option<usize>)
        requires
            self.wf(),
        ensures
            match r {
                Option::Some(i) => find_local(
                    self.frames@[self.current as int].locals@,
                    name@,
                ) == Option::Some(i as int),
                Option::None => find_local(self.frames@[self.current as int].locals@, name@)
                    is None,
            },
    {
        find_local_exec(&self.frames[self.current].locals, name)
    }

    /// Adds an upvalue descriptor to frame `f`, reusing an existing
    /// descriptor for the same capture: capturing one source variable twice
    /// from one frame yields one index, never a duplicate entry. The 257th
    /// distinct upvalue of a frame is a compile error that leaves the table
    /// intact.
    pub fn add_upvalue(&mut self, f: usize, is_local: bool, index: usize) -> (r: Option<usize>)
        requires
            old(self).wf(),
            f < old(self).frames@.len(),
        ensures
            final(self).wf(),
            (Compiler {
                frames: old(self).frames,
                has_error: old(self).has_error,
                diagnostics: old(self).diagnostics,
                ..*final(self)
            }) == *old(self),
            final(self).frames@.len() == old(self).frames@.len(),
            forall|k: int|
                0 <= k < old(self).frames@.len() && k != f ==> final(self).frames@[k] == old(self).frames@[k],
            final(self).frames@[f as int] == (Frame {
                upvalues: final(self).frames@[f as int].upvalues,
                ..old(self).frames@[f as int]
            }),
            old(self).frames@[f as int].upvalues@.is_prefix_of(
                final(self).frames@[f as int].upvalues@,
            ),
            match find_upvalue_desc(old(self).frames@[f as int].upvalues@, is_local, index) {
                Option::Some(i) => r == Option::Some(i as usize) && final(self).frames == old(self).frames && final(self).has_error == old(self).has_error && final(self).diagnostics
                    == old(self).diagnostics,
                Option::None => if old(self).frames@[f as int].upvalues@.len() < MAX_UPVALUES {
                    r == Option::Some(old(self).frames@[f as int].upvalues@.len() as usize)
                        && final(self).frames@[f as int].upvalues@ == old(self).frames@[
                        f as int
                    ].upvalues@.push((CompilerUpvalue { is_local, index })) && final(self).has_error == old(self).has_error && final(self).diagnostics == old(self).diagnostics
                } else {
                    r is None && final(self).frames == old(self).frames && final(self).has_error
                },
            },
            r matches Some(u) ==> find_upvalue_desc(
                final(self).frames@[f as int].upvalues@,
                is_local,
                index,
            ) == Option::Some(u as int) && u < final(self).frames@[f as int].upvalues@.len(),
    {
        let ghost frames0 = self.frames@;
        // Look for an existing upvalue descriptor for this capture.
        match find_upvalue_desc_exec(&self.frames[f].upvalues, is_local, index) {
            Option::Some(i) => {
                proof {
                    assert(frames0[f as int].upvalues@.is_prefix_of(frames0[f as int].upvalues@));
                }
                return Option::Some(i);
            },
            Option::None => {},
        }
        if self.frames[f].upvalues.len() >= MAX_UPVALUES {
            self.error(DiagKind::TooManyUpvalues);
            proof {
                assert(frames0[f as int].upvalues@.is_prefix_of(frames0[f as int].upvalues@));
            }
            return Option::None;
        }
        let u = self.frames[f].upvalues.len();
        self.frames[f].upvalues.push(CompilerUpvalue { is_local, index });
        proof {
            assert(self.frames@ =~= frames0.update(
                f as int,
                (Frame { upvalues: self.frames@[f as int].upvalues, ..frames0[f as int] }),
            ));
            lemma_find_upvalue_desc_at(self.frames@[f as int].upvalues@, is_local, index, u as int);
            assert forall|k: int| 0 <= k < self.frames@.len() implies frame_ok(
                self.frames@,
                k,
            ) by {
                assert(frame_ok(frames0, k));
            }
        }
        Option::Some(u)
    }

    /// Resolves `name` as an upvalue of frame `f`: a local of some lexically
    /// enclosing frame, captured across every level between. The defining
    /// local is flagged as captured — it must survive its block as a
    /// heap-promoted cell — and a descriptor is recorded, or reused, in each
    /// frame from the defining one down to `f`. Resolving a name that the
    /// descriptor tables already reach returns the identical index and adds
    /// nothing.
    pub fn resolve_upvalue(&mut self, f: usize, name: &Vec<char>) -> (r: Option<usize>)
        requires
            old(self).wf(),
            f < old(self).frames@.len(),
        ensures
            final(self).wf(),
            (Compiler {
                frames: old(self).frames,
                has_error: old(self).has_error,
                diagnostics: old(self).diagnostics,
                ..*final(self)
            }) == *old(self),
            final(self).frames@.len() == old(self).frames@.len(),
            forall|k: int|
                0 <= k < old(self).frames@.len() ==> frame_evolves(
                    old(self).frames@[k],
                    final(self).frames@[k],
                ),
            r is Some || !chain_has_local(old(self).frames@, f as int, name@) ==> final(self).has_error == old(self).has_error && final(self).diagnostics == old(self).diagnostics,
            !chain_has_local(old(self).frames@, f as int, name@) ==> r is None && final(self).frames
                == old(self).frames,
            forall|k: int|
                f < k < old(self).frames@.len() ==> final(self).frames@[k] == old(self).frames@[k],
            r matches Some(u) ==> chain_has_local(old(self).frames@, f as int, name@)
                && lookup_upvalue(final(self).frames@, f as int, name@) == Option::Some(u as int)
                && u < final(self).frames@[f as int].upvalues@.len(),
            r is Some ==> final(self).frames@[defining_frame(
                old(self).frames@,
                f as int,
                name@,
            )].locals@[find_local(
                old(self).frames@[defining_frame(old(self).frames@, f as int, name@)].locals@,
                name@,
            ).unwrap()].is_captured,
            chain_has_local(old(self).frames@, f as int, name@) && (forall|k: int|
                0 <= k < old(self).frames@.len() ==> (#[trigger] old(self).frames@[k]).upvalues@.len()
                    < MAX_UPVALUES) ==> r is Some,
            lookup_upvalue(old(self).frames@, f as int, name@) matches Some(i) ==> r
                == Option::Some(i as usize),
        decreases f,
    {
        proof {
            assert(frame_ok(self.frames@, f as int));
        }
        let parent = match self.frames[f].parent {
            Option::None => {
                return Option::None;
            },
            Option::Some(p) => p,
        };
        let ghost frames0 = self.frames@;
        // If the name is a local of the immediately enclosing frame, capture
        // that local directly.
        match find_local_exec(&self.frames[parent].locals, name) {
            Option::Some(j) => {
                // Mark the defining local as captured so the enclosing
                // frame's scope-exit code promotes it to a cell.
                self.frames[parent].locals[j].is_captured = true;
                proof {
                    assert(self.frames@[parent as int].locals@ =~= frames0[
                        parent as int
                    ].locals@.update(
                        j as int,
                        (Local {
                            is_captured: true,
                            ..frames0[parent as int].locals@[j as int]
                        }),
                    ));
                    assert(self.frames@ =~= frames0.update(
                        parent as int,
                        (Frame {
                            locals: self.frames@[parent as int].locals,
                            ..frames0[parent as int]
                        }),
                    ));
                    assert forall|k: int| 0 <= k < self.frames@.len() implies frame_ok(
                        self.frames@,
                        k,
                    ) by {
                        assert(frame_ok(frames0, k));
                    }
                    lemma_find_local_same_names(
                        frames0[parent as int].locals@,
                        self.frames@[parent as int].locals@,
                        name@,
                    );
                }
                let ghost frames1 = self.frames@;
                let r = self.add_upvalue(f, true, j);
                proof {
                    assert forall|k: int|
                        0 <= k < frames0.len() implies frame_evolves(
                        frames0[k],
                        self.frames@[k],
                    ) by {
                        assert(frames0[k].upvalues@.is_prefix_of(frames0[k].upvalues@));
                    }
                    assert(defining_frame(frames0, f as int, name@) == parent as int);
                    assert(self.frames@[parent as int] == frames1[parent as int]);
                    assert(self.frames@[parent as int].locals@[j as int].is_captured);
                    lemma_find_local_same_names(
                        frames1[parent as int].locals@,
                        self.frames@[parent as int].locals@,
                        name@,
                    );
                    if r is Some {
                        assert(lookup_upvalue(self.frames@, f as int, name@) == Option::Some(
                            r.unwrap() as int,
                        ));
                    }
                    match lookup_upvalue(frames0, f as int, name@) {
                        Option::Some(i) => {
                            assert(find_upvalue_desc(frames0[f as int].upvalues@, true, j as usize)
                                == Option::Some(i));
                        },
                        Option::None => {},
                    }
                }
                r
            },
            Option::None => {
                // Otherwise look for it further up the chain; if found, it
                // becomes an upvalue of the enclosing frame that this frame
                // captures in turn.
                let rec = self.resolve_upvalue(parent, name);
                match rec {
                    Option::Some(u) => {
                        let ghost frames1 = self.frames@;
                        let r = self.add_upvalue(f, false, u);
                        proof {
                            assert forall|k: int|
                                0 <= k < frames0.len() implies frame_evolves(
                                frames0[k],
                                self.frames@[k],
                            ) by {
                                assert(frame_evolves(frames0[k], frames1[k]));
                                assert(frame_evolves(frames1[k], self.frames@[k]));
                                assert(frames0[k].upvalues@.is_prefix_of(frames1[k].upvalues@));
                                assert(frames1[k].upvalues@.is_prefix_of(self.frames@[k].upvalues@));
                            }
                            lemma_find_local_same_names(
                                frames0[parent as int].locals@,
                                self.frames@[parent as int].locals@,
                                name@,
                            );
                            lemma_lookup_agree(frames1, self.frames@, parent as int, name@);
                            lemma_defining_frame_lt(frames0, parent as int, name@);
                            assert(defining_frame(frames0, f as int, name@) == defining_frame(
                                frames0,
                                parent as int,
                                name@,
                            ));
                            if defining_frame(frames0, parent as int, name@) >= 0 {
                                assert(self.frames@[defining_frame(
                                    frames0,
                                    parent as int,
                                    name@,
                                )] == frames1[defining_frame(frames0, parent as int, name@)]);
                            }
                            if r is Some {
                                assert(find_local(self.frames@[parent as int].locals@, name@)
                                    is None);
                                assert(lookup_upvalue(self.frames@, parent as int, name@)
                                    == Option::Some(u as int));
                                assert(lookup_upvalue(self.frames@, f as int, name@)
                                    == Option::Some(r.unwrap() as int));
                            }
                            match lookup_upvalue(frames0, f as int, name@) {
                                Option::Some(i) => {
                                    assert(lookup_upvalue(frames0, parent as int, name@) is Some);
                                    assert(find_upvalue_desc(
                                        frames0[f as int].upvalues@,
                                        false,
                                        lookup_upvalue(
                                            frames0,
                                            parent as int,
                                            name@,
                                        ).unwrap() as usize,
                                    ) == Option::Some(i));
                                },
                                Option::None => {},
                            }
                        }
                        r
                    },
                    Option::None => {
                        proof {
                            assert forall|k: int|
                                0 <= k < frames0.len() implies frame_evolves(
                                frames0[k],
                                self.frames@[k],
                            ) by {
                                assert(frame_evolves(frames0[k], self.frames@[k]));
                            }
                        }
                        Option::None
                    },
                }
            },
        }
    }

    /// Resolves a bare name reference, in search order: the current frame's
    /// locals, innermost declaration first; then as an upvalue captured from
    /// an enclosing frame; and finally as a module-level variable. A module
    /// name that does not exist yet is implicitly declared: module variables
    /// may be referenced before the statement defining them runs, because at
    /// the top level order of execution, not order of declaration, decides.
    /// None only when a table is full, which is a compile error.
    pub fn resolve_name(&mut self, name: &Vec<char>) -> (r: Option<ResolvedVariable>)
        requires
            old(self).wf(),
        ensures
            final(self).wf(),
            (Compiler {
                frames: old(self).frames,
                module_vars: old(self).module_vars,
                has_error: old(self).has_error,
                diagnostics: old(self).diagnostics,
                ..*final(self)
            }) == *old(self),
            final(self).frames@.len() == old(self).frames@.len(),
            forall|k: int|
                0 <= k < old(self).frames@.len() ==> frame_evolves(
                    old(self).frames@[k],
                    final(self).frames@[k],
                ),
            find_local(
                old(self).frames@[old(self).current as int].locals@,
                name@,
            ) matches Some(i) ==> *final(self) == *old(self) && r == Option::Some(
                ResolvedVariable::Local(i as usize),
            ),
            find_local(old(self).frames@[old(self).current as int].locals@, name@) is None
                && lookup_upvalue(old(self).frames@, old(self).current as int, name@) is Some ==> r
                == Option::Some(
                ResolvedVariable::Upvalue(
                    lookup_upvalue(
                        old(self).frames@,
                        old(self).current as int,
                        name@,
                    ).unwrap() as usize,
                ),
            ),
            r matches Some(ResolvedVariable::Upvalue(u)) ==> lookup_upvalue(
                final(self).frames@,
                old(self).current as int,
                name@,
            ) == Option::Some(u as int) && find_local(
                old(self).frames@[old(self).current as int].locals@,
                name@,
            ) is None && chain_has_local(old(self).frames@, old(self).current as int, name@)
                && final(self).frames@[defining_frame(
                old(self).frames@,
                old(self).current as int,
                name@,
            )].locals@[find_local(
                old(self).frames@[defining_frame(
                    old(self).frames@,
                    old(self).current as int,
                    name@,
                )].locals@,
                name@,
            ).unwrap()].is_captured,
            find_local(old(self).frames@[old(self).current as int].locals@, name@) is None
                && chain_has_local(old(self).frames@, old(self).current as int, name@) && (forall|
                k: int,
            |
                0 <= k < old(self).frames@.len() ==> (#[trigger] old(self).frames@[k]).upvalues@.len()
                    < MAX_UPVALUES) ==> r matches Some(ResolvedVariable::Upvalue(_)),
            find_local(old(self).frames@[old(self).current as int].locals@, name@) is None
                && !chain_has_local(old(self).frames@, old(self).current as int, name@) ==> (
            match find_string(old(self).module_vars@, name@) {
                Option::Some(m) => *final(self) == *old(self) && r == Option::Some(
                    ResolvedVariable::Module(m as usize),
                ),
                Option::None => if old(self).module_vars@.len() < MAX_MODULE_VARS {
                    r == Option::Some(
                        ResolvedVariable::Module(old(self).module_vars@.len() as usize),
                    ) && final(self).module_vars@.len() == old(self).module_vars@.len() + 1
                        && final(self).module_vars@.last()@ == name@ && (forall|j: int|
                        0 <= j < old(self).module_vars@.len() ==> final(self).module_vars@[j] == old(self).module_vars@[j]) && final(self).frames == old(self).frames && final(self).has_error == old(self).has_error && final(self).diagnostics == old(self).diagnostics
                } else {
                    r is None && final(self).has_error && final(self).module_vars == old(self).module_vars
                },
            }),
    {
        let cur = self.current;
        // 1. The current frame's own locals, innermost first.
        match self.resolve_local(name) {
            Option::Some(i) => {
                return Option::Some(ResolvedVariable::Local(i));
            },
            Option::None => {},
        }
        // 2. A local of some enclosing frame, captured as an upvalue.
        match self.resolve_upvalue(cur, name) {
            Option::Some(u) => {
                return Option::Some(ResolvedVariable::Upvalue(u));
            },
            Option::None => {},
        }
        // 3. A module-level variable, implicitly declared if new.
        match find_string_exec(&self.module_vars, name) {
            Option::Some(m) => {
                return Option::Some(ResolvedVariable::Module(m));
            },
            Option::None => {},
        }
        if self.module_vars.len() >= MAX_MODULE_VARS {
            self.error(DiagKind::TooManyModuleVariables);
            return Option::None;
        }
        let m = self.module_vars.len();
        self.module_vars.push(chars_clone(name));
        Option::Some(ResolvedVariable::Module(m))
    }

    /// Appends one instruction to the current function, tracking the number
    /// of live stack slots and its high-water mark — what the virtual
    /// machine's stack-growth check at call time relies on. Returns the
    /// instruction's offset.
    pub fn emit(&mut self, i: Instr) -> (r: usize)
        requires
            old(self).wf(),
            old(self).frames@[old(self).current as int].num_slots + stack_effect(i) >= 0,
            old(self).frames@[old(self).current as int].num_slots + stack_effect(i) <= usize::MAX,
        ensures
            final(self).wf(),
            (Compiler { frames: old(self).frames, ..*final(self) }) == *old(self),
            final(self).frames@.len() == old(self).frames@.len(),
            forall|k: int|
                0 <= k < old(self).frames@.len() && k != old(self).current ==> final(self).frames@[k] == old(self).frames@[k],
            final(self).frames@[old(self).current as int] == (Frame {
                code: final(self).frames@[old(self).current as int].code,
                num_slots: final(self).frames@[old(self).current as int].num_slots,
                max_slots: final(self).frames@[old(self).current as int].max_slots,
                ..old(self).frames@[old(self).current as int]
            }),
            final(self).frames@[old(self).current as int].code@ == old(self).frames@[old(self).current as int].code@.push(i),
            final(self).frames@[old(self).current as int].num_slots == old(self).frames@[old(self).current as int].num_slots + stack_effect(i),
            final(self).frames@[old(self).current as int].max_slots == (if old(self).frames@[old(self).current as int].num_slots + stack_effect(i) > old(self).frames@[old(self).current as int].max_slots {
                old(self).frames@[old(self).current as int].num_slots + stack_effect(i)
            } else {
                old(self).frames@[old(self).current as int].max_slots as int
            }),
            r == old(self).frames@[old(self).current as int].code@.len(),
    {
        let cur = self.current;
        let ghost frames0 = self.frames@;
        let r = self.frames[cur].code.len();
        self.frames[cur].code.push(i);
        let ns = self.frames[cur].num_slots;
        let ns2 = match i {
            Instr::Constant(_) => ns + 1,
            Instr::PushNull => ns + 1,
            Instr::LoadLocal(_) => ns + 1,
            Instr::LoadUpvalue(_) => ns + 1,
            Instr::LoadModuleVar(_) => ns + 1,
            Instr::Pop => ns - 1,
            Instr::CloseUpvalue => ns - 1,
            Instr::JumpIf(_) => ns - 1,
            _ => ns,
        };
        self.frames[cur].num_slots = ns2;
        if ns2 > self.frames[cur].max_slots {
            self.frames[cur].max_slots = ns2;
        }
        proof {
            assert(self.frames@ =~= frames0.update(
                cur as int,
                (Frame {
                    code: self.frames@[cur as int].code,
                    num_slots: self.frames@[cur as int].num_slots,
                    max_slots: self.frames@[cur as int].max_slots,
                    ..frames0[cur as int]
                }),
            ));
            assert forall|k: int| 0 <= k < self.frames@.len() implies frame_ok(
                self.frames@,
                k,
            ) by {
                assert(frame_ok(frames0, k));
            }
        }
        r
    }

    /// Interns `v` in the current function's constant pool: re-adding an
    /// already-present constant returns the existing index rather than
    /// duplicating it, which both saves pool space and keeps
    /// identity-sensitive constants — shared string symbols — singular. The
    /// 65537th distinct constant is a compile error that leaves the pool
    /// intact.
    pub fn add_constant(&mut self, v: Value) -> (r: Option<usize>)
        requires
            old(self).wf(),
        ensures
            final(self).wf(),
            (Compiler {
                frames: old(self).frames,
                has_error: old(self).has_error,
                diagnostics: old(self).diagnostics,
                ..*final(self)
            }) == *old(self),
            final(self).frames@.len() == old(self).frames@.len(),
            forall|k: int|
                0 <= k < old(self).frames@.len() && k != old(self).current ==> final(self).frames@[k] == old(self).frames@[k],
            final(self).frames@[old(self).current as int] == (Frame {
                constants: final(self).frames@[old(self).current as int].constants,
                ..old(self).frames@[old(self).current as int]
            }),
            match find_value(old(self).frames@[old(self).current as int].constants@, v) {
                Option::Some(i) => r == Option::Some(i as usize) && final(self).frames == old(self).frames && final(self).has_error == old(self).has_error && final(self).diagnostics
                    == old(self).diagnostics,
                Option::None => if old(self).frames@[old(self).current as int].constants@.len()
                    < MAX_CONSTANTS {
                    r == Option::Some(
                        old(self).frames@[old(self).current as int].constants@.len() as usize,
                    ) && final(self).frames@[old(self).current as int].constants@ == old(self).frames@[old(self).current as int].constants@.push(v) && final(self).has_error
                        == old(self).has_error && final(self).diagnostics == old(self).diagnostics
                } else {
                    r is None && final(self).frames == old(self).frames && final(self).has_error
                },
            },
    {
        let cur = self.current;
        let ghost frames0 = self.frames@;
        match find_value_exec(&self.frames[cur].constants, &v) {
            Option::Some(i) => {
                return Option::Some(i);
            },
            Option::None => {},
        }
        if self.frames[cur].constants.len() >= MAX_CONSTANTS {
            self.error(DiagKind::TooManyConstants);
            return Option::None;
        }
        let i = self.frames[cur].constants.len();
        self.frames[cur].constants.push(v);
        proof {
            assert(self.frames@ =~= frames0.update(
                cur as int,
                (Frame {
                    constants: self.frames@[cur as int].constants,
                    ..frames0[cur as int]
                }),
            ));
            assert forall|k: int| 0 <= k < self.frames@.len() implies frame_ok(
                self.frames@,
                k,
            ) by {
                assert(frame_ok(frames0, k));
            }
        }
        Option::Some(i)
    }

    /// Back-patches the forward jump emitted at `site` with the now-known
    /// relative distance to the current end of the code. A distance the
    /// instruction format cannot represent is a compile error, never a
    /// silent truncation.
    pub fn patch_jump(&mut self, site: usize)
        requires
            old(self).wf(),
            site < old(self).frames@[old(self).current as int].code@.len(),
            old(self).frames@[old(self).current as int].code@[site as int] matches Instr::Jump(_)
                || old(self).frames@[old(self).current as int].code@[site as int] matches
                Instr::JumpIf(_),
        ensures
            final(self).wf(),
            (Compiler {
                frames: old(self).frames,
                has_error: old(self).has_error,
                diagnostics: old(self).diagnostics,
                ..*final(self)
            }) == *old(self),
            final(self).frames@.len() == old(self).frames@.len(),
            forall|k: int|
                0 <= k < old(self).frames@.len() && k != old(self).current ==> final(self).frames@[k] == old(self).frames@[k],
            final(self).frames@[old(self).current as int] == (Frame {
                code: final(self).frames@[old(self).current as int].code,
                ..old(self).frames@[old(self).current as int]
            }),
            final(self).frames@[old(self).current as int].code@ == old(self).frames@[old(self).current as int].code@.update(
                site as int,
                (match old(self).frames@[old(self).current as int].code@[site as int] {
                    Instr::JumpIf(_) => Instr::JumpIf(
                        (old(self).frames@[old(self).current as int].code@.len() - site
                            - 1) as usize,
                    ),
                    _ => Instr::Jump(
                        (old(self).frames@[old(self).current as int].code@.len() - site
                            - 1) as usize,
                    ),
                }),
            ),
            final(self).has_error == (old(self).has_error || old(self).frames@[old(self).current as int].code@.len() - site - 1 > MAX_JUMP),
            old(self).frames@[old(self).current as int].code@.len() - site - 1 <= MAX_JUMP ==>
                final(self).diagnostics == old(self).diagnostics,
    {
        let cur = self.current;
        let ghost frames0 = self.frames@;
        // Offset of the instruction the jump lands past, relative to the
        // slot right after the jump itself.
        let distance = self.frames[cur].code.len() - site - 1;
        if distance > MAX_JUMP {
            self.error(DiagKind::TooMuchCodeToJumpOver);
        }
        let patched = match self.frames[cur].code[site] {
            Instr::JumpIf(_) => Instr::JumpIf(distance),
            _ => Instr::Jump(distance),
        };
        self.frames[cur].code[site] = patched;
        proof {
            assert(self.frames@ =~= frames0.update(
                cur as int,
                (Frame { code: self.frames@[cur as int].code, ..frames0[cur as int] }),
            ));
            assert forall|k: int| 0 <= k < self.frames@.len() implies frame_ok(
                self.frames@,
                k,
            ) by {
                assert(frame_ok(frames0, k));
            }
        }
    }

    /// Emits the run-time pops that leave every block at `depth` or deeper —
    /// a plain pop, or a close for a captured local so it survives as a heap
    /// cell — without touching the compile-time table. Break and continue
    /// unwind scopes the compiler itself stays inside, so only the emitted
    /// code discards the slots. Returns how many locals were discarded; the
    /// pops come innermost-first.
    pub fn discard_locals(&mut self, depth: i32) -> (n: usize)
        requires
            old(self).wf(),
        ensures
            final(self).wf(),
            (Compiler { frames: old(self).frames, ..*final(self) }) == *old(self),
            final(self).frames@.len() == old(self).frames@.len(),
            forall|k: int|
                0 <= k < old(self).frames@.len() && k != old(self).current ==> final(self).frames@[k] == old(self).frames@[k],
            final(self).frames@[old(self).current as int] == (Frame {
                code: final(self).frames@[old(self).current as int].code,
                ..old(self).frames@[old(self).current as int]
            }),
            n <= old(self).frames@[old(self).current as int].locals@.len(),
            forall|j: int|
                old(self).frames@[old(self).current as int].locals@.len() - n <= j < old(self).frames@[old(self).current as int].locals@.len() ==> (#[trigger] old(self).frames@[old(self).current as int].locals@[j]).depth >= depth,
            old(self).frames@[old(self).current as int].locals@.len() - n > 0 ==> old(self).frames@[old(self).current as int].locals@[old(self).frames@[old(self).current as int].locals@.len() - n - 1].depth < depth,
            final(self).frames@[old(self).current as int].code@.len() == old(self).frames@[old(self).current as int].code@.len() + n,
            forall|t: int|
                0 <= t < n ==> final(self).frames@[old(self).current as int].code@[old(self).frames@[old(self).current as int].code@.len() + t] == (if (#[trigger] old(self).frames@[old(self).current as int].locals@[old(self).frames@[old(self).current as int].locals@.len() - 1 - t]).is_captured {
                    Instr::CloseUpvalue
                } else {
                    Instr::Pop
                }),
            forall|t: int|
                0 <= t < old(self).frames@[old(self).current as int].code@.len() ==> final(self).frames@[old(self).current as int].code@[t] == old(self).frames@[old(self).current as int].code@[t],
    {
        let cur = self.current;
        let ghost frames0 = self.frames@;
        let len = self.frames[cur].locals.len();
        let mut i = len;
        let mut stop = false;
        while i > 0 && !stop
            invariant
                old(self).wf(),
                cur == old(self).current,
                frames0 == old(self).frames@,
                i <= len,
                len == frames0[cur as int].locals@.len(),
                self.frames@.len() == frames0.len(),
                (Compiler { frames: old(self).frames, ..*self }) == *old(self),
                forall|k: int|
                    0 <= k < frames0.len() && k != cur ==> self.frames@[k] == frames0[k],
                self.frames@[cur as int] == (Frame {
                    code: self.frames@[cur as int].code,
                    ..frames0[cur as int]
                }),
                self.frames@[cur as int].code@.len() == frames0[cur as int].code@.len() + (len - i),
                forall|j: int|
                    i <= j < len ==> (#[trigger] frames0[cur as int].locals@[j]).depth >= depth,
                stop ==> i > 0 && frames0[cur as int].locals@[i - 1].depth < depth,
                forall|t: int|
                    0 <= t < len - i ==> self.frames@[cur as int].code@[frames0[
                        cur as int
                    ].code@.len() + t] == (if (#[trigger] frames0[cur as int].locals@[len - 1
                        - t]).is_captured {
                        Instr::CloseUpvalue
                    } else {
                        Instr::Pop
                    }),
                forall|t: int|
                    0 <= t < frames0[cur as int].code@.len() ==> self.frames@[cur as int].code@[t]
                        == frames0[cur as int].code@[t],
                self.wf(),
            decreases i + (if stop {
                0int
            } else {
                1int
            }),
        {
            if self.frames[cur].locals[i - 1].depth < depth {
                stop = true;
            } else {
                let ghost framesb = self.frames@;
                let instr = if self.frames[cur].locals[i - 1].is_captured {
                    Instr::CloseUpvalue
                } else {
                    Instr::Pop
                };
                self.frames[cur].code.push(instr);
                i = i - 1;
                proof {
                    assert(self.frames@ =~= framesb.update(
                        cur as int,
                        (Frame { code: self.frames@[cur as int].code, ..framesb[cur as int] }),
                    ));
                    assert forall|k: int| 0 <= k < self.frames@.len() implies frame_ok(
                        self.frames@,
                        k,
                    ) by {
                        assert(frame_ok(framesb, k));
                    }
                    assert forall|k: int|
                        0 <= k < frames0.len() && k != cur implies self.frames@[k] == frames0[
                        k
                    ] by {
                        assert(self.frames@[k] == framesb[k]);
                    }
                }
            }
        }
        len - i
    }

    /// Leaves the current block scope: emits the run-time pops for exactly
    /// the locals declared at the depth being exited — closing the captured
    /// ones — removes them from the table, and steps back out one level.
    pub fn end_scope(&mut self)
        requires
            old(self).wf(),
            old(self).frames@[old(self).current as int].scope_depth >= 0,
        ensures
            final(self).wf(),
            (Compiler { frames: old(self).frames, ..*final(self) }) == *old(self),
            final(self).frames@.len() == old(self).frames@.len(),
            forall|k: int|
                0 <= k < old(self).frames@.len() && k != old(self).current ==> final(self).frames@[k] == old(self).frames@[k],
            final(self).frames@[old(self).current as int] == (Frame {
                code: final(self).frames@[old(self).current as int].code,
                locals: final(self).frames@[old(self).current as int].locals,
                scope_depth: (old(self).frames@[old(self).current as int].scope_depth - 1) as i32,
                ..old(self).frames@[old(self).current as int]
            }),
            final(self).frames@[old(self).current as int].locals@ == old(self).frames@[old(self).current as int].locals@.take(
                final(self).frames@[old(self).current as int].locals@.len() as int,
            ),
            forall|j: int|
                final(self).frames@[old(self).current as int].locals@.len() <= j < old(self).frames@[old(self).current as int].locals@.len() ==> (#[trigger] old(self).frames@[old(self).current as int].locals@[j]).depth >= old(self).frames@[old(self).current as int].scope_depth,
            forall|j: int|
                0 <= j < final(self).frames@[old(self).current as int].locals@.len() ==> (
                #[trigger] final(self).frames@[old(self).current as int].locals@[j]) == old(self).frames@[old(self).current as int].locals@[j] && old(self).frames@[old(self).current as int].locals@[j].depth < old(self).frames@[old(self).current as int].scope_depth,
            final(self).frames@[old(self).current as int].code@.len() == old(self).frames@[old(self).current as int].code@.len() + (old(self).frames@[old(self).current as int].locals@.len() - final(self).frames@[old(self).current as int].locals@.len()),
    {
        let cur = self.current;
        let ghost frames0 = self.frames@;
        let d = self.frames[cur].scope_depth;
        let n = self.discard_locals(d);
        let ghost frames1 = self.frames@;
        let keep = self.frames[cur].locals.len() - n;
        self.frames[cur].locals.truncate(keep);
        self.frames[cur].scope_depth = d - 1;
        proof {
            assert(self.frames@ =~= frames1.update(
                cur as int,
                (Frame {
                    locals: self.frames@[cur as int].locals,
                    scope_depth: (d - 1) as i32,
                    ..frames1[cur as int]
                }),
            ));
            assert(self.frames@[cur as int].locals@ =~= frames0[cur as int].locals@.take(
                keep as int,
            ));
            assert forall|k: int| 0 <= k < self.frames@.len() implies frame_ok(
                self.frames@,
                k,
            ) by {
                assert(frame_ok(frames1, k));
                assert(frame_ok(frames0, k));
            }
            assert forall|k: int|
                0 <= k < frames0.len() && k != cur implies self.frames@[k] == frames0[k] by {
                assert(self.frames@[k] == frames1[k]);
                assert(frames1[k] == frames0[k]);
            }
            assert forall|j: int| 0 <= j < keep implies (#[trigger] frames0[
                cur as int
            ].locals@[j]).depth < d by {
                assert(frame_ok(frames0, cur as int));
                if j < keep - 1 {
                    assert(frames0[cur as int].locals@[j].depth <= frames0[
                        cur as int
                    ].locals@[keep - 1].depth);
                }
            }
            assert forall|j: int|
                keep <= j < frames0[cur as int].locals@.len() implies (#[trigger] frames0[
                cur as int
            ].locals@[j]).depth >= d by {
                assert(frame_ok(frames0, cur as int));
            }
        }
    }

    /// Opens a loop context: continue statements will jump back to the
    /// current end of the code, and break/continue will unwind every local
    /// declared deeper than the current scope depth.
    pub fn start_loop(&mut self)
        requires
            old(self).wf(),
        ensures
            final(self).wf(),
            (Compiler { frames: old(self).frames, ..*final(self) }) == *old(self),
            final(self).frames@.len() == old(self).frames@.len(),
            forall|k: int|
                0 <= k < old(self).frames@.len() && k != old(self).current ==> final(self).frames@[k] == old(self).frames@[k],
            final(self).frames@[old(self).current as int] == (Frame {
                loops: final(self).frames@[old(self).current as int].loops,
                ..old(self).frames@[old(self).current as int]
            }),
            final(self).frames@[old(self).current as int].loops@.len() == old(self).frames@[old(self).current as int].loops@.len() + 1,
            forall|j: int|
                0 <= j < old(self).frames@[old(self).current as int].loops@.len() ==> final(self).frames@[old(self).current as int].loops@[j] == old(self).frames@[old(self).current as int].loops@[j],
            final(self).frames@[old(self).current as int].loops@.last().start == old(self).frames@[old(self).current as int].code@.len(),
            final(self).frames@[old(self).current as int].loops@.last().exit_jump is None,
            final(self).frames@[old(self).current as int].loops@.last().scope_depth == old(self).frames@[old(self).current as int].scope_depth,
            final(self).frames@[old(self).current as int].loops@.last().break_sites@.len() == 0,
    {
        let cur = self.current;
        let ghost frames0 = self.frames@;
        let here = self.frames[cur].code.len();
        let d = self.frames[cur].scope_depth;
        self.frames[cur].loops.push(
            LoopCtx {
                start: here,
                exit_jump: Option::None,
                body: here,
                scope_depth: d,
                break_sites: Vec::new(),
            },
        );
        proof {
            assert(self.frames@ =~= frames0.update(
                cur as int,
                (Frame { loops: self.frames@[cur as int].loops, ..frames0[cur as int] }),
            ));
            assert forall|k: int| 0 <= k < self.frames@.len() implies frame_ok(
                self.frames@,
                k,
            ) by {
                assert(frame_ok(frames0, k));
            }
        }
    }

    /// Compiles a `break`: outside any loop it is a compile error that
    /// emits no jump instruction at all; inside one it unwinds the locals
    /// declared inside the loop body and emits a placeholder jump whose site
    /// is recorded, to be patched to the loop's end when the loop closes.
    pub fn compile_break(&mut self)
        requires
            old(self).wf(),
            old(self).frames@[old(self).current as int].loops@.len() > 0 ==> old(self).frames@[old(self).current as int].loops@.last().scope_depth < i32::MAX,
        ensures
            final(self).wf(),
            (Compiler {
                frames: old(self).frames,
                has_error: old(self).has_error,
                diagnostics: old(self).diagnostics,
                ..*final(self)
            }) == *old(self),
            final(self).frames@.len() == old(self).frames@.len(),
            old(self).frames@[old(self).current as int].loops@.len() == 0 ==> final(self).frames
                == old(self).frames && final(self).has_error,
            old(self).frames@[old(self).current as int].loops@.len() > 0 ==> final(self).has_error
                == old(self).has_error && final(self).diagnostics == old(self).diagnostics && (
            forall|k: int|
                0 <= k < old(self).frames@.len() && k != old(self).current ==> final(self).frames@[k] == old(self).frames@[k]) && final(self).frames@[old(self).current as int] == (Frame {
                code: final(self).frames@[old(self).current as int].code,
                loops: final(self).frames@[old(self).current as int].loops,
                ..old(self).frames@[old(self).current as int]
            }) && final(self).frames@[old(self).current as int].code@.len() > old(self).frames@[
                old(self).current as int
            ].code@.len() && final(self).frames@[old(self).current as int].code@.last()
                == Instr::Jump(0) && final(self).frames@[old(self).current as int].loops@.last().break_sites@ == old(self).frames@[old(self).current as int].loops@.last().break_sites@.push(
                (final(self).frames@[old(self).current as int].code@.len() - 1) as usize,
            ),
    {
        let cur = self.current;
        if self.frames[cur].loops.len() == 0 {
            self.error(DiagKind::BreakOutsideLoop);
            return;
        }
        let li = self.frames[cur].loops.len() - 1;
        let d = self.frames[cur].loops[li].scope_depth;
        // Discard the locals declared inside the loop body before jumping
        // out of it.
        self.discard_locals(d + 1);
        let ghost frames1 = self.frames@;
        let site = self.frames[cur].code.len();
        self.frames[cur].code.push(Instr::Jump(0));
        self.frames[cur].loops[li].break_sites.push(site);
        proof {
            assert(self.frames@[cur as int].loops@ =~= frames1[cur as int].loops@.update(
                li as int,
                (LoopCtx {
                    break_sites: self.frames@[cur as int].loops@[li as int].break_sites,
                    ..frames1[cur as int].loops@[li as int]
                }),
            ));
            assert(self.frames@ =~= frames1.update(
                cur as int,
                (Frame {
                    code: self.frames@[cur as int].code,
                    loops: self.frames@[cur as int].loops,
                    ..frames1[cur as int]
                }),
            ));
            assert forall|k: int| 0 <= k < self.frames@.len() implies frame_ok(
                self.frames@,
                k,
            ) by {
                assert(frame_ok(frames1, k));
            }
        }
    }

    /// Compiles a `continue`: outside any loop it is a compile error that
    /// emits nothing; inside one it unwinds the locals declared inside the
    /// loop body and emits the backward jump to the loop's start. A backward
    /// distance beyond the instruction format is a compile error.
    pub fn compile_continue(&mut self)
        requires
            old(self).wf(),
            old(self).frames@[old(self).current as int].code@.len() + MAX_LOCALS < usize::MAX,
            old(self).frames@[old(self).current as int].loops@.len() > 0 ==> old(self).frames@[old(self).current as int].loops@.last().scope_depth < i32::MAX,
            old(self).frames@[old(self).current as int].loops@.len() > 0 ==> old(self).frames@[old(self).current as int].loops@.last().start <= old(self).frames@[old(self).current as int].code@.len(),
        ensures
            final(self).wf(),
            (Compiler {
                frames: old(self).frames,
                has_error: old(self).has_error,
                diagnostics: old(self).diagnostics,
                ..*final(self)
            }) == *old(self),
            final(self).frames@.len() == old(self).frames@.len(),
            old(self).frames@[old(self).current as int].loops@.len() == 0 ==> final(self).frames
                == old(self).frames && final(self).has_error,
            old(self).frames@[old(self).current as int].loops@.len() > 0 ==> (forall|k: int|
                0 <= k < old(self).frames@.len() && k != old(self).current ==> final(self).frames@[k] == old(self).frames@[k]) && final(self).frames@[old(self).current as int] == (Frame {
                code: final(self).frames@[old(self).current as int].code,
                ..old(self).frames@[old(self).current as int]
            }) && final(self).frames@[old(self).current as int].code@.len() > old(self).frames@[
                old(self).current as int
            ].code@.len() && final(self).frames@[old(self).current as int].code@.last()
                == Instr::LoopBack(
                (final(self).frames@[old(self).current as int].code@.len() - old(self).frames@[old(self).current as int].loops@.last().start) as usize,
            ),
    {
        let cur = self.current;
        if self.frames[cur].loops.len() == 0 {
            self.error(DiagKind::ContinueOutsideLoop);
            return;
        }
        let li = self.frames[cur].loops.len() - 1;
        let d = self.frames[cur].loops[li].scope_depth;
        self.discard_locals(d + 1);
        let ghost frames1 = self.frames@;
        let start = self.frames[cur].loops[li].start;
        // Distance back to the loop's start from the slot after this
        // instruction.
        let here = self.frames[cur].code.len();
        proof {
            assert(frame_ok(old(self).frames@, cur as int));
        }
        let distance = here - start + 1;
        if distance > MAX_JUMP {
            self.error(DiagKind::TooMuchCodeToJumpOver);
        }
        let ghost frames2 = self.frames@;
        proof {
            assert(frame_ok(old(self).frames@, cur as int));
        }
        self.frames[cur].code.push(Instr::LoopBack(distance));
        proof {
            assert(self.frames@ =~= frames2.update(
                cur as int,
                (Frame { code: self.frames@[cur as int].code, ..frames2[cur as int] }),
            ));
            assert forall|k: int| 0 <= k < self.frames@.len() implies frame_ok(
                self.frames@,
                k,
            ) by {
                assert(frame_ok(frames2, k));
            }
        }
    }

    /// Emits the innermost loop's conditional exit jump — taken when the
    /// loop condition fails, consuming it — and records its site to be
    /// patched to the loop's end once that is known.
    pub fn test_exit_loop(&mut self)
        requires
            old(self).wf(),
            old(self).frames@[old(self).current as int].loops@.len() > 0,
            old(self).frames@[old(self).current as int].num_slots >= 1,
        ensures
            final(self).wf(),
            (Compiler { frames: old(self).frames, ..*final(self) }) == *old(self),
            final(self).frames@.len() == old(self).frames@.len(),
            forall|k: int|
                0 <= k < old(self).frames@.len() && k != old(self).current ==> final(self).frames@[k] == old(self).frames@[k],
            final(self).frames@[old(self).current as int] == (Frame {
                code: final(self).frames@[old(self).current as int].code,
                num_slots: final(self).frames@[old(self).current as int].num_slots,
                max_slots: final(self).frames@[old(self).current as int].max_slots,
                loops: final(self).frames@[old(self).current as int].loops,
                ..old(self).frames@[old(self).current as int]
            }),
            final(self).frames@[old(self).current as int].code@ == old(self).frames@[old(self).current as int].code@.push(Instr::JumpIf(0)),
            final(self).frames@[old(self).current as int].loops@ == old(self).frames@[old(self).current as int].loops@.update(
                old(self).frames@[old(self).current as int].loops@.len() - 1,
                (LoopCtx {
                    exit_jump: Option::Some(
                        old(self).frames@[old(self).current as int].code@.len() as usize,
                    ),
                    ..old(self).frames@[old(self).current as int].loops@.last()
                }),
            ),
    {
        let cur = self.current;
        let site = self.emit(Instr::JumpIf(0));
        let ghost frames1 = self.frames@;
        let li = self.frames[cur].loops.len() - 1;
        self.frames[cur].loops[li].exit_jump = Option::Some(site);
        proof {
            assert(self.frames@[cur as int].loops@ =~= frames1[cur as int].loops@.update(
                li as int,
                (LoopCtx {
                    exit_jump: Option::Some(site),
                    ..frames1[cur as int].loops@[li as int]
                }),
            ));
            assert(self.frames@ =~= frames1.update(
                cur as int,
                (Frame { loops: self.frames@[cur as int].loops, ..frames1[cur as int] }),
            ));
            assert forall|k: int| 0 <= k < self.frames@.len() implies frame_ok(
                self.frames@,
                k,
            ) by {
                assert(frame_ok(frames1, k));
            }
        }
    }

    /// Marks the current end of the code as the start of the innermost
    /// loop's body.
    pub fn loop_body(&mut self)
        requires
            old(self).wf(),
            old(self).frames@[old(self).current as int].loops@.len() > 0,
        ensures
            final(self).wf(),
            (Compiler { frames: old(self).frames, ..*final(self) }) == *old(self),
            final(self).frames@.len() == old(self).frames@.len(),
            forall|k: int|
                0 <= k < old(self).frames@.len() && k != old(self).current ==> final(self).frames@[k] == old(self).frames@[k],
            final(self).frames@[old(self).current as int] == (Frame {
                loops: final(self).frames@[old(self).current as int].loops,
                ..old(self).frames@[old(self).current as int]
            }),
            final(self).frames@[old(self).current as int].loops@ == old(self).frames@[old(self).current as int].loops@.update(
                old(self).frames@[old(self).current as int].loops@.len() - 1,
                (LoopCtx {
                    body: old(self).frames@[old(self).current as int].code@.len() as usize,
                    ..old(self).frames@[old(self).current as int].loops@.last()
                }),
            ),
    {
        let cur = self.current;
        let ghost frames0 = self.frames@;
        let here = self.frames[cur].code.len();
        let li = self.frames[cur].loops.len() - 1;
        self.frames[cur].loops[li].body = here;
        proof {
            assert(self.frames@[cur as int].loops@ =~= frames0[cur as int].loops@.update(
                li as int,
                (LoopCtx { body: here, ..frames0[cur as int].loops@[li as int] }),
            ));
            assert(self.frames@ =~= frames0.update(
                cur as int,
                (Frame { loops: self.frames@[cur as int].loops, ..frames0[cur as int] }),
            ));
            assert forall|k: int| 0 <= k < self.frames@.len() implies frame_ok(
                self.frames@,
                k,
            ) by {
                assert(frame_ok(frames0, k));
            }
        }
    }

    /// Closes the innermost loop: emits the backward jump to the loop's
    /// start, patches the conditional exit and every pending break to land
    /// just past the loop, and discards the loop context. A patched distance
    /// past the instruction format's limit is a compile error.
    #[verifier::rlimit(60)]
    pub fn end_loop(&mut self)
        requires
            old(self).wf(),
            old(self).frames@[old(self).current as int].loops@.len() > 0,
            old(self).frames@[old(self).current as int].code@.len() < usize::MAX - 1,
            old(self).frames@[old(self).current as int].loops@.last().start <= old(self).frames@[old(self).current as int].code@.len(),
            old(self).frames@[old(self).current as int].loops@.last().exit_jump matches Some(e)
                ==> e < old(self).frames@[old(self).current as int].code@.len() && (old(self).frames@[old(self).current as int].code@[e as int] matches Instr::JumpIf(_)),
            forall|j: int|
                0 <= j < old(self).frames@[old(self).current as int].loops@.last().break_sites@.len()
                    ==> (#[trigger] old(self).frames@[old(self).current as int].loops@.last().break_sites@[j])
                    < old(self).frames@[old(self).current as int].code@.len() && (old(self).frames@[old(self).current as int].code@[old(self).frames@[old(self).current as int].loops@.last().break_sites@[j] as int] matches Instr::Jump(_)),
            forall|j1: int, j2: int|
                0 <= j1 < j2 < old(self).frames@[old(self).current as int].loops@.last().break_sites@.len()
                    ==> (#[trigger] old(self).frames@[old(self).current as int].loops@.last().break_sites@[j1])
                    != (#[trigger] old(self).frames@[old(self).current as int].loops@.last().break_sites@[j2]),
        ensures
            final(self).wf(),
            (Compiler {
                frames: old(self).frames,
                has_error: old(self).has_error,
                diagnostics: old(self).diagnostics,
                ..*final(self)
            }) == *old(self),
            final(self).frames@.len() == old(self).frames@.len(),
            forall|k: int|
                0 <= k < old(self).frames@.len() && k != old(self).current ==> final(self).frames@[k] == old(self).frames@[k],
            final(self).frames@[old(self).current as int] == (Frame {
                code: final(self).frames@[old(self).current as int].code,
                loops: final(self).frames@[old(self).current as int].loops,
                ..old(self).frames@[old(self).current as int]
            }),
            final(self).frames@[old(self).current as int].loops@ == old(self).frames@[old(self).current as int].loops@.drop_last(),
            final(self).frames@[old(self).current as int].code@.len() == old(self).frames@[old(self).current as int].code@.len() + 1,
            final(self).frames@[old(self).current as int].code@[old(self).frames@[old(self).current as int].code@.len() as int] == Instr::LoopBack(
                (old(self).frames@[old(self).current as int].code@.len() - old(self).frames@[old(self).current as int].loops@.last().start + 1) as usize,
            ),
            old(self).frames@[old(self).current as int].loops@.last().exit_jump matches Some(e)
                ==> final(self).frames@[old(self).current as int].code@[e as int] == Instr::JumpIf(
                (old(self).frames@[old(self).current as int].code@.len() - e) as usize,
            ),
            forall|j: int|
                0 <= j < old(self).frames@[old(self).current as int].loops@.last().break_sites@.len()
                    ==> final(self).frames@[old(self).current as int].code@[(#[trigger] old(self).frames@[old(self).current as int].loops@.last().break_sites@[j]) as int]
                    == Instr::Jump(
                    (old(self).frames@[old(self).current as int].code@.len() - old(self).frames@[old(self).current as int].loops@.last().break_sites@[j]) as usize,
                ),
    {
        let ghost len0 = old(self).frames@[old(self).current as int].code@.len() as int;
        let ghost sites = old(self).frames@[old(self).current as int].loops@.last().break_sites@;
        let cur = self.current;
        let li = self.frames[cur].loops.len() - 1;
        let start = self.frames[cur].loops[li].start;
        let here = self.frames[cur].code.len();
        let distance = here - start + 1;
        if distance > MAX_JUMP {
            self.error(DiagKind::TooMuchCodeToJumpOver);
        }
        let ghost frames1 = self.frames@;
        self.frames[cur].code.push(Instr::LoopBack(distance));
        proof {
            assert(self.frames@ =~= frames1.update(
                cur as int,
                (Frame { code: self.frames@[cur as int].code, ..frames1[cur as int] }),
            ));
            assert forall|k: int| 0 <= k < self.frames@.len() implies frame_ok(
                self.frames@,
                k,
            ) by {
                assert(frame_ok(frames1, k));
            }
        }
        match self.frames[cur].loops[li].exit_jump {
            Option::Some(e) => {
                self.patch_jump(e);
            },
            Option::None => {},
        }
        let nb = self.frames[cur].loops[li].break_sites.len();
        let ghost framesp = self.frames@;
        let mut bi: usize = 0;
        while bi < nb
            invariant
                self.wf(),
                cur == old(self).current,
                cur < self.frames@.len(),
                li == self.frames@[cur as int].loops@.len() - 1,
                nb == sites.len(),
                bi <= nb,
                len0 == old(self).frames@[cur as int].code@.len(),
                sites == self.frames@[cur as int].loops@[li as int].break_sites@,
                forall|j: int|
                    0 <= j < sites.len() ==> (#[trigger] sites[j]) < len0,
                forall|j1: int, j2: int|
                    0 <= j1 < j2 < sites.len() ==> (#[trigger] sites[j1]) != (#[trigger] sites[j2]),
                (Compiler {
                    frames: old(self).frames,
                    has_error: old(self).has_error,
                    diagnostics: old(self).diagnostics,
                    ..*self
                }) == *old(self),
                self.frames@.len() == old(self).frames@.len(),
                forall|k: int|
                    0 <= k < old(self).frames@.len() && k != cur ==> self.frames@[k] == old(self).frames@[k],
                self.frames@[cur as int] == (Frame {
                    code: self.frames@[cur as int].code,
                    ..framesp[cur as int]
                }),
                framesp[cur as int] == (Frame {
                    code: framesp[cur as int].code,
                    ..old(self).frames@[cur as int]
                }),
                self.frames@[cur as int].code@.len() == len0 + 1,
                forall|j: int|
                    bi <= j < nb ==> self.frames@[cur as int].code@[(#[trigger] sites[j]) as int]
                        == framesp[cur as int].code@[sites[j] as int],
                forall|j: int|
                    0 <= j < nb ==> (self.frames@[cur as int].code@[(#[trigger] sites[j]) as int]
                        matches Instr::Jump(_)),
                forall|j: int|
                    0 <= j < bi ==> self.frames@[cur as int].code@[(#[trigger] sites[j]) as int]
                        == Instr::Jump((len0 - sites[j]) as usize),
                forall|t: int|
                    0 <= t < len0 + 1 && !(exists|j: int| 0 <= j < nb && sites[j] == t)
                        ==> self.frames@[cur as int].code@[t] == framesp[cur as int].code@[t],
                self.has_error == old(self).has_error || !(distance <= MAX_JUMP && (match old(self).frames@[cur as int].loops@.last().exit_jump {
                    Option::Some(e) => len0 - e <= MAX_JUMP,
                    Option::None => true,
                })) || (exists|j: int| 0 <= j < bi && len0 - #[trigger] sites[j] > MAX_JUMP),
                (self.has_error == old(self).has_error && self.diagnostics == old(self).diagnostics) || !(distance <= MAX_JUMP && (match old(self).frames@[cur as int].loops@.last().exit_jump {
                    Option::Some(e) => len0 - e <= MAX_JUMP,
                    Option::None => true,
                }) && (forall|j: int| 0 <= j < bi ==> len0 - #[trigger] sites[j] <= MAX_JUMP)),
            decreases nb - bi,
        {
            let b = self.frames[cur].loops[li].break_sites[bi];
            self.patch_jump(b);
            bi = bi + 1;
        }
        proof {
            // The emitted backward jump and the patched exit sit at offsets
            // no break site can share: break sites are below the loop's end
            // and held a forward Jump, while the exit held a JumpIf.
            assert(!(exists|j: int| 0 <= j < nb && sites[j] == len0));
            match old(self).frames@[cur as int].loops@.last().exit_jump {
                Option::Some(e) => {
                    assert forall|j: int| 0 <= j < nb implies sites[j] != e by {
                        assert(old(self).frames@[cur as int].code@[sites[j] as int] matches
                            Instr::Jump(_));
                    }
                    assert(!(exists|j: int| 0 <= j < nb && sites[j] == e));
                    assert(framesp[cur as int].code@[e as int] == Instr::JumpIf(
                        (len0 - e) as usize,
                    ));
                    assert(self.frames@[cur as int].code@[e as int] == framesp[
                        cur as int
                    ].code@[e as int]);
                },
                Option::None => {},
            }
            assert(framesp[cur as int].code@[len0] == Instr::LoopBack(distance));
            assert(self.frames@[cur as int].code@[len0] == framesp[cur as int].code@[len0]);
        }
        let ghost frames3 = self.frames@;
        self.frames[cur].loops.pop();
        proof {
            assert(self.frames@ =~= frames3.update(
                cur as int,
                (Frame { loops: self.frames@[cur as int].loops, ..frames3[cur as int] }),
            ));
            assert(self.frames@[cur as int].loops@ =~= old(self).frames@[cur as int].loops@.drop_last());
            assert forall|k: int| 0 <= k < self.frames@.len() implies frame_ok(
                self.frames@,
                k,
            ) by {
                assert(frame_ok(frames3, k));
            }
        }
    }

    /// Records one attribute of a pending annotation block. The accumulated
    /// attributes attach to the next class or method declaration; the
    /// grammar driver reports the annotation syntax as a compile error
    /// anywhere else.
    pub fn add_attribute(&mut self, name: Vec<char>, value: Value)
        ensures
            (Compiler { pending_attributes: old(self).pending_attributes, ..*final(self) })
                == *old(self),
            final(self).pending_attributes@ == old(self).pending_attributes@.push(
                (Attribute { name, value }),
            ),
    {
        self.pending_attributes.push(Attribute { name, value });
    }

    /// Opens a class compilation context when a class body begins: member
    /// declarations are checked against it until the body ends. Any pending
    /// annotation attributes attach to the class and the accumulator is
    /// cleared.
    pub fn begin_class(&mut self, name: Vec<char>, is_foreign: bool)
        requires
            old(self).wf(),
        ensures
            final(self).wf(),
            (Compiler {
                enclosing_class: old(self).enclosing_class,
                pending_attributes: old(self).pending_attributes,
                ..*final(self)
            }) == *old(self),
            final(self).pending_attributes@.len() == 0,
            final(self).enclosing_class matches Some(c) && c.name == name && c.is_foreign == is_foreign && !c.in_static && c.fields@.len() == 0 && c.methods@.len() == 0 && c.static_methods@.len() == 0 && c.class_attributes == old(self).pending_attributes && c.method_attributes@.len() == 0,
    {
        let mut attrs: Vec<Attribute> = Vec::new();
        core::mem::swap(&mut attrs, &mut self.pending_attributes);
        self.enclosing_class = Option::Some(
            ClassInfo {
                name,
                is_foreign,
                in_static: false,
                fields: Vec::new(),
                methods: Vec::new(),
                static_methods: Vec::new(),
                class_attributes: attrs,
                method_attributes: Vec::new(),
            },
        );
    }

    /// Closes the class body: the collected member tables are handed out to
    /// be given to the virtual machine's class construction, and the context
    /// is discarded — it is not retained beyond the body.
    pub fn end_class(&mut self) -> (r: Option<ClassInfo>)
        requires
            old(self).wf(),
        ensures
            final(self).wf(),
            (Compiler { enclosing_class: old(self).enclosing_class, ..*final(self) }) == *old(self),
            final(self).enclosing_class is None,
            r == old(self).enclosing_class,
    {
        self.enclosing_class.take()
    }

    /// Declares a field of the class being compiled. A duplicate name is a
    /// compile error that returns the existing slot; more fields than the
    /// class-creation instruction's one-byte count can carry is a compile
    /// error that leaves every prior slot intact.
    pub fn declare_field(&mut self, name: Vec<char>) -> (r: Option<usize>)
        requires
            old(self).wf(),
            old(self).enclosing_class is Some,
        ensures
            final(self).wf(),
            (Compiler {
                enclosing_class: old(self).enclosing_class,
                has_error: old(self).has_error,
                diagnostics: old(self).diagnostics,
                ..*final(self)
            }) == *old(self),
            final(self).enclosing_class matches Some(c) && (c == (ClassInfo {
                fields: c.fields,
                ..old(self).enclosing_class.unwrap()
            })),
            match find_string(old(self).enclosing_class.unwrap().fields@, name@) {
                Option::Some(i) => r == Option::Some(i as usize) && final(self).enclosing_class
                    == old(self).enclosing_class && final(self).has_error,
                Option::None => if old(self).enclosing_class.unwrap().fields@.len() < MAX_FIELDS {
                    r == Option::Some(old(self).enclosing_class.unwrap().fields@.len() as usize)
                        && final(self).enclosing_class.unwrap().fields@ == old(self).enclosing_class.unwrap().fields@.push(name)
                        && final(self).has_error == old(self).has_error && final(self).diagnostics == old(self).diagnostics
                } else {
                    r is None && final(self).enclosing_class == old(self).enclosing_class && final(self).has_error
                },
            },
    {
        let c_opt = self.enclosing_class.take();
        match c_opt {
            Option::Some(mut c) => {
                match find_string_exec(&c.fields, &name) {
                    Option::Some(i) => {
                        self.enclosing_class = Option::Some(c);
                        self.error(DiagKind::DuplicateField);
                        return Option::Some(i);
                    },
                    Option::None => {},
                }
                if c.fields.len() >= MAX_FIELDS {
                    self.enclosing_class = Option::Some(c);
                    self.error(DiagKind::TooManyFields);
                    return Option::None;
                }
                let i = c.fields.len();
                c.fields.push(name);
                self.enclosing_class = Option::Some(c);
                Option::Some(i)
            },
            Option::None => {
                // Unreachable: the context is required to be open.
                proof {
                    assert(false);
                }
                Option::None
            },
        }
    }

    /// Declares a method of the class being compiled, keyed by its canonical
    /// signature symbol, in the instance or static table. Redefining an
    /// already-declared signature within the same class is a compile error
    /// that leaves both tables unchanged and reports failure.
    pub fn declare_method(&mut self, symbol: Vec<char>, is_static: bool) -> (r: bool)
        requires
            old(self).wf(),
            old(self).enclosing_class is Some,
        ensures
            final(self).wf(),
            (Compiler {
                enclosing_class: old(self).enclosing_class,
                pending_attributes: old(self).pending_attributes,
                has_error: old(self).has_error,
                diagnostics: old(self).diagnostics,
                ..*final(self)
            }) == *old(self),
            final(self).enclosing_class matches Some(c) && (c == (ClassInfo {
                methods: c.methods,
                static_methods: c.static_methods,
                method_attributes: c.method_attributes,
                ..old(self).enclosing_class.unwrap()
            })),
            r ==> final(self).pending_attributes@.len() == 0,
            !r ==> final(self).pending_attributes == old(self).pending_attributes,
            r && old(self).pending_attributes@.len() > 0 ==> (final(self).enclosing_class.unwrap().method_attributes@.len() == old(self).enclosing_class.unwrap().method_attributes@.len() + 1
                && final(self).enclosing_class.unwrap().method_attributes@.last().0@ == symbol@
                && final(self).enclosing_class.unwrap().method_attributes@.last().1 == old(self).pending_attributes),
            r && old(self).pending_attributes@.len() == 0 ==> final(self).enclosing_class.unwrap().method_attributes == old(self).enclosing_class.unwrap().method_attributes,
            r == (find_string(
                if is_static {
                    old(self).enclosing_class.unwrap().static_methods@
                } else {
                    old(self).enclosing_class.unwrap().methods@
                },
                symbol@,
            ) is None),
            !r ==> final(self).enclosing_class == old(self).enclosing_class && final(self).has_error,
            r ==> final(self).has_error == old(self).has_error && final(self).diagnostics == old(self).diagnostics && (if is_static {
                final(self).enclosing_class.unwrap().static_methods@ == old(self).enclosing_class.unwrap().static_methods@.push(symbol)
                    && final(self).enclosing_class.unwrap().methods == old(self).enclosing_class.unwrap().methods
            } else {
                final(self).enclosing_class.unwrap().methods@ == old(self).enclosing_class.unwrap().methods@.push(symbol)
                    && final(self).enclosing_class.unwrap().static_methods == old(self).enclosing_class.unwrap().static_methods
            }),
    {
        let c_opt = self.enclosing_class.take();
        match c_opt {
            Option::Some(mut c) => {
                let dup = if is_static {
                    find_string_exec(&c.static_methods, &symbol)
                } else {
                    find_string_exec(&c.methods, &symbol)
                };
                match dup {
                    Option::Some(_) => {
                        self.enclosing_class = Option::Some(c);
                        self.error(DiagKind::DuplicateMethod);
                        false
                    },
                    Option::None => {
                        if self.pending_attributes.len() > 0 {
                            let mut attrs: Vec<Attribute> = Vec::new();
                            core::mem::swap(&mut attrs, &mut self.pending_attributes);
                            c.method_attributes.push((chars_clone(&symbol), attrs));
                        }
                        if is_static {
                            c.static_methods.push(symbol);
                        } else {
                            c.methods.push(symbol);
                        }
                        self.enclosing_class = Option::Some(c);
                        true
                    },
                }
            },
            Option::None => {
                proof {
                    assert(false);
                }
                false
            },
        }
    }
}

} // verus!
