//! The mathematical description of the rewrite.
//!
//! `rw_file` (and its companions, one per node sort) maps the instrumentation
//! state and a tree to the state afterwards, the rewritten tree, and the
//! sequence of injected calls, in the order they were issued.  The executable
//! visitor is proved equal to these functions; every stated law of the
//! transformer is a theorem about them.
//!
//! Each block is rewritten in two passes, as the tree is walked top-down:
//! first every statement of the block is examined at its top level (a `let`
//! initialized by a classified bare path, or an assignment statement whose
//! right-hand side is one, earns an injected call before it); then the
//! statements are descended into, which rewrites nested blocks and wraps
//! classified call arguments where they stand.

use vstd::prelude::*;

use crate::ast::BlockView;
use crate::ast::ExprView;
use crate::ast::FileView;
use crate::ast::ItemView;
use crate::ast::StmtView;
use crate::state::StateView;
use crate::state::classify_path;
use crate::state::registry_insert;
use crate::state::state_wf;
use crate::state::variant_key;

verus! {

/// One injected call: its location id, its state id, and the registry key it
/// was issued for.
pub struct Emit {
    pub loc: int,
    pub state: int,
    pub key: Seq<char>,
}

/// The outcome of rewriting one node: the state afterwards, the rewritten
/// node, and the injected calls in issue order.
pub struct Rewritten<T> {
    pub st: StateView,
    pub out: T,
    pub emits: Seq<Emit>,
}

/// The outcome of the statement-level pass over one block: the state
/// afterwards, one optional injected statement per original statement, and
/// the injected calls in issue order.
pub struct Marked {
    pub st: StateView,
    pub marks: Seq<Option<StmtView>>,
    pub emits: Seq<Emit>,
}

/// The injected statement `sginstrument::instrument(loc, state);`.
pub open spec fn instr_stmt(loc: int, state: int) -> StmtView {
    StmtView::ExprStmt {
        expr: ExprView::Call {
            callee: Box::new(
                ExprView::PathExpr {
                    segments: seq!["sginstrument"@, "instrument"@],
                    raw: crate::ast::NO_RAW,
                },
            ),
            args: seq![
                ExprView::LitU32 { value: loc as u32 },
                ExprView::LitU32 { value: state as u32 },
            ],
        },
        has_semi: true,
    }
}

/// The wrapped form of a classified call argument: a block performing the
/// injected call and then evaluating to the original argument, unchanged.
pub open spec fn wrap_arg(instr: StmtView, arg: ExprView) -> ExprView {
    ExprView::BlockExpr {
        block: BlockView {
            stmts: seq![instr, StmtView::ExprStmt { expr: arg, has_semi: false }],
        },
    }
}

/// Allocates a location and resolves the state id for one classified usage.
pub open spec fn alloc_emit(st: StateView, enum_name: Seq<char>, variant_name: Seq<char>) -> (
    StateView,
    Emit,
) {
    let key = variant_key(enum_name, variant_name);
    let r = registry_insert(st.variants, key);
    (
        StateView { enum_types: st.enum_types, variants: r.0, next_location: st.next_location + 1 },
        Emit { loc: st.next_location, state: r.1, key },
    )
}

/// The classified bare usage a statement carries at its top level, if any.
pub open spec fn stmt_usage(types: Set<Seq<char>>, s: StmtView) -> Option<(Seq<char>, Seq<char>)> {
    match s {
        StmtView::Local { pattern, init } => match init {
            Some(e) => match e {
                ExprView::PathExpr { segments, raw } => classify_path(types, segments),
                _ => None,
            },
            None => None,
        },
        StmtView::ExprStmt { expr, has_semi } => match expr {
            ExprView::Assign { lhs, rhs } => match *rhs {
                ExprView::PathExpr { segments, raw } => classify_path(types, segments),
                _ => None,
            },
            _ => None,
        },
        _ => None,
    }
}

/// The classified bare usage a call argument is, if any.
pub open spec fn arg_usage(types: Set<Seq<char>>, e: ExprView) -> Option<(Seq<char>, Seq<char>)> {
    match e {
        ExprView::PathExpr { segments, raw } => classify_path(types, segments),
        _ => None,
    }
}

/// The statement-level pass: walks the statements in order and issues one
/// injected call per classified `let` initializer or assignment right-hand
/// side, unless the block sits in a const context.  Declarations are not
/// recorded here; that happens when the statements are descended into.
pub open spec fn mark_stmts(st: StateView, in_const: bool, stmts: Seq<StmtView>) -> Marked
    decreases stmts,
{
    if stmts.len() == 0 {
        Marked { st, marks: Seq::empty(), emits: Seq::empty() }
    } else {
        match stmt_usage(st.enum_types, stmts[0]) {
            Some(usage) => {
                if !in_const {
                    let a = alloc_emit(st, usage.0, usage.1);
                    let rest = mark_stmts(a.0, in_const, stmts.drop_first());
                    Marked {
                        st: rest.st,
                        marks: seq![Some(instr_stmt(a.1.loc, a.1.state))] + rest.marks,
                        emits: seq![a.1] + rest.emits,
                    }
                } else {
                    let rest = mark_stmts(st, in_const, stmts.drop_first());
                    Marked {
                        st: rest.st,
                        marks: seq![Option::<StmtView>::None] + rest.marks,
                        emits: rest.emits,
                    }
                }
            },
            None => {
                let rest = mark_stmts(st, in_const, stmts.drop_first());
                Marked {
                    st: rest.st,
                    marks: seq![Option::<StmtView>::None] + rest.marks,
                    emits: rest.emits,
                }
            },
        }
    }
}

/// The argument pass of a call: walks the arguments in order and issues one
/// injected call per classified bare-path argument, unless in const context.
pub open spec fn mark_args(st: StateView, in_const: bool, args: Seq<ExprView>) -> Marked
    decreases args,
{
    if args.len() == 0 {
        Marked { st, marks: Seq::empty(), emits: Seq::empty() }
    } else {
        match arg_usage(st.enum_types, args[0]) {
            Some(usage) => {
                if !in_const {
                    let a = alloc_emit(st, usage.0, usage.1);
                    let rest = mark_args(a.0, in_const, args.drop_first());
                    Marked {
                        st: rest.st,
                        marks: seq![Some(instr_stmt(a.1.loc, a.1.state))] + rest.marks,
                        emits: seq![a.1] + rest.emits,
                    }
                } else {
                    let rest = mark_args(st, in_const, args.drop_first());
                    Marked {
                        st: rest.st,
                        marks: seq![Option::<StmtView>::None] + rest.marks,
                        emits: rest.emits,
                    }
                }
            },
            None => {
                let rest = mark_args(st, in_const, args.drop_first());
                Marked {
                    st: rest.st,
                    marks: seq![Option::<StmtView>::None] + rest.marks,
                    emits: rest.emits,
                }
            },
        }
    }
}

/// Interleaves the injected statements before their statements.
pub open spec fn interleave(marks: Seq<Option<StmtView>>, outs: Seq<StmtView>) -> Seq<StmtView>
    decreases outs,
{
    if outs.len() == 0 {
        Seq::empty()
    } else {
        (match marks[0] {
            Some(m) => seq![m, outs[0]],
            None => seq![outs[0]],
        }) + interleave(marks.drop_first(), outs.drop_first())
    }
}

/// Rewrites a whole file, its items in order, outside any const context.
pub open spec fn rw_file(st: StateView, f: FileView) -> Rewritten<FileView>
    decreases f,
{
    let r = rw_items(st, false, f.items);
    Rewritten { st: r.st, out: FileView { items: r.out }, emits: r.emits }
}

/// Rewrites a sequence of items in order, threading the state through.
pub open spec fn rw_items(st: StateView, in_const: bool, items: Seq<ItemView>) -> Rewritten<
    Seq<ItemView>,
>
    decreases items,
{
    if items.len() == 0 {
        Rewritten { st, out: Seq::empty(), emits: Seq::empty() }
    } else {
        let r0 = rw_item(st, in_const, items[0]);
        let rest = rw_items(r0.st, in_const, items.drop_first());
        Rewritten { st: rest.st, out: seq![r0.out] + rest.out, emits: r0.emits + rest.emits }
    }
}

/// Rewrites one item.  An enum declaration records its name; a const
/// function, const item or static item puts its body under the const flag;
/// everything opaque passes through.
pub open spec fn rw_item(st: StateView, in_const: bool, it: ItemView) -> Rewritten<ItemView>
    decreases it,
{
    match it {
        ItemView::EnumDecl { name, decl } => Rewritten {
            st: StateView { enum_types: st.enum_types.insert(name), ..st },
            out: ItemView::EnumDecl { name, decl },
            emits: Seq::empty(),
        },
        ItemView::FnDecl { sig, is_const, body } => {
            let r = rw_block(st, in_const || is_const, body);
            Rewritten {
                st: r.st,
                out: ItemView::FnDecl { sig, is_const, body: r.out },
                emits: r.emits,
            }
        },
        ItemView::ConstDecl { head, init } => {
            let r = rw_expr(st, true, init);
            Rewritten { st: r.st, out: ItemView::ConstDecl { head, init: r.out }, emits: r.emits }
        },
        ItemView::StaticDecl { head, init } => {
            let r = rw_expr(st, true, init);
            Rewritten { st: r.st, out: ItemView::StaticDecl { head, init: r.out }, emits: r.emits }
        },
        ItemView::Opaque { handle, children } => {
            let r = rw_items(st, in_const, children);
            Rewritten {
                st: r.st,
                out: ItemView::Opaque { handle, children: r.out },
                emits: r.emits,
            }
        },
    }
}

/// Rewrites one block: the statement-level pass first, then the descent into
/// each statement, with the injected statements interleaved before theirs.
pub open spec fn rw_block(st: StateView, in_const: bool, b: BlockView) -> Rewritten<BlockView>
    decreases b,
{
    let m = mark_stmts(st, in_const, b.stmts);
    let r = rw_stmts(m.st, in_const, b.stmts);
    Rewritten {
        st: r.st,
        out: BlockView { stmts: interleave(m.marks, r.out) },
        emits: m.emits + r.emits,
    }
}

/// Descends into a sequence of statements in order.
pub open spec fn rw_stmts(st: StateView, in_const: bool, stmts: Seq<StmtView>) -> Rewritten<
    Seq<StmtView>,
>
    decreases stmts,
{
    if stmts.len() == 0 {
        Rewritten { st, out: Seq::empty(), emits: Seq::empty() }
    } else {
        let r0 = rw_stmt(st, in_const, stmts[0]);
        let rest = rw_stmts(r0.st, in_const, stmts.drop_first());
        Rewritten { st: rest.st, out: seq![r0.out] + rest.out, emits: r0.emits + rest.emits }
    }
}

/// Descends into one statement: its expressions are rewritten, and an item
/// declared inside a block is visited like a top-level one.
pub open spec fn rw_stmt(st: StateView, in_const: bool, s: StmtView) -> Rewritten<StmtView>
    decreases s,
{
    match s {
        StmtView::Local { pattern, init } => match init {
            Some(e) => {
                let r = rw_expr(st, in_const, e);
                Rewritten {
                    st: r.st,
                    out: StmtView::Local { pattern, init: Some(r.out) },
                    emits: r.emits,
                }
            },
            None => Rewritten {
                st,
                out: StmtView::Local { pattern, init: None },
                emits: Seq::empty(),
            },
        },
        StmtView::ExprStmt { expr, has_semi } => {
            let r = rw_expr(st, in_const, expr);
            Rewritten {
                st: r.st,
                out: StmtView::ExprStmt { expr: r.out, has_semi },
                emits: r.emits,
            }
        },
        StmtView::ItemStmt { item } => {
            let r = rw_item(st, in_const, *item);
            Rewritten { st: r.st, out: StmtView::ItemStmt { item: Box::new(r.out) }, emits: r.emits }
        },
        StmtView::Opaque { handle } => Rewritten {
            st,
            out: StmtView::Opaque { handle },
            emits: Seq::empty(),
        },
    }
}

/// Rewrites one expression.  A call runs its argument pass first, then
/// descends into its callee and its unwrapped arguments; a bare path on its
/// own is left alone.
pub open spec fn rw_expr(st: StateView, in_const: bool, e: ExprView) -> Rewritten<ExprView>
    decreases e,
{
    match e {
        ExprView::PathExpr { segments, raw } => Rewritten {
            st,
            out: ExprView::PathExpr { segments, raw },
            emits: Seq::empty(),
        },
        ExprView::Assign { lhs, rhs } => {
            let rl = rw_expr(st, in_const, *lhs);
            let rr = rw_expr(rl.st, in_const, *rhs);
            Rewritten {
                st: rr.st,
                out: ExprView::Assign { lhs: Box::new(rl.out), rhs: Box::new(rr.out) },
                emits: rl.emits + rr.emits,
            }
        },
        ExprView::Call { callee, args } => {
            let m = mark_args(st, in_const, args);
            let rc = rw_expr(m.st, in_const, *callee);
            let ra = rw_args(rc.st, in_const, m.marks, args);
            Rewritten {
                st: ra.st,
                out: ExprView::Call { callee: Box::new(rc.out), args: ra.out },
                emits: m.emits + rc.emits + ra.emits,
            }
        },
        ExprView::BlockExpr { block } => {
            let r = rw_block(st, in_const, block);
            Rewritten { st: r.st, out: ExprView::BlockExpr { block: r.out }, emits: r.emits }
        },
        ExprView::LitU32 { value } => Rewritten {
            st,
            out: ExprView::LitU32 { value },
            emits: Seq::empty(),
        },
        ExprView::Opaque { handle, children } => {
            let r = rw_exprs(st, in_const, children);
            Rewritten {
                st: r.st,
                out: ExprView::Opaque { handle, children: r.out },
                emits: r.emits,
            }
        },
    }
}

/// Descends into the expressions directly under an opaque expression, in
/// order.  None of them is a call argument here, so none is wrapped; calls
/// and blocks inside them are rewritten where they stand.
pub open spec fn rw_exprs(st: StateView, in_const: bool, s: Seq<ExprView>) -> Rewritten<
    Seq<ExprView>,
>
    decreases s,
{
    if s.len() == 0 {
        Rewritten { st, out: Seq::empty(), emits: Seq::empty() }
    } else {
        let r0 = rw_expr(st, in_const, s[0]);
        let rest = rw_exprs(r0.st, in_const, s.drop_first());
        Rewritten { st: rest.st, out: seq![r0.out] + rest.out, emits: r0.emits + rest.emits }
    }
}

/// Descends into a call's arguments: a marked argument is wrapped around its
/// original expression and not descended into; the others are rewritten.
pub open spec fn rw_args(
    st: StateView,
    in_const: bool,
    marks: Seq<Option<StmtView>>,
    args: Seq<ExprView>,
) -> Rewritten<Seq<ExprView>>
    decreases args,
{
    if args.len() == 0 {
        Rewritten { st, out: Seq::empty(), emits: Seq::empty() }
    } else {
        match marks[0] {
            Some(m) => {
                let rest = rw_args(st, in_const, marks.drop_first(), args.drop_first());
                Rewritten {
                    st: rest.st,
                    out: seq![wrap_arg(m, args[0])] + rest.out,
                    emits: rest.emits,
                }
            },
            None => {
                let r0 = rw_expr(st, in_const, args[0]);
                let rest = rw_args(r0.st, in_const, marks.drop_first(), args.drop_first());
                Rewritten {
                    st: rest.st,
                    out: seq![r0.out] + rest.out,
                    emits: r0.emits + rest.emits,
                }
            },
        }
    }
}

} // verus!

verus! {

/// Budget on the locations one expression can consume.
pub open spec fn w_expr(e: ExprView) -> nat
    decreases e,
{
    match e {
        ExprView::PathExpr { segments, raw } => 1,
        ExprView::Assign { lhs, rhs } => 1 + w_expr(*lhs) + w_expr(*rhs),
        ExprView::Call { callee, args } => 1 + w_expr(*callee) + args.len() + w_exprs(args),
        ExprView::BlockExpr { block } => 1 + w_block(block),
        ExprView::LitU32 { value } => 1,
        ExprView::Opaque { handle, children } => 1 + w_exprs(children),
    }
}

/// Budget of an argument or expression sequence.
pub open spec fn w_exprs(s: Seq<ExprView>) -> nat
    decreases s,
{
    if s.len() == 0 {
        0
    } else {
        w_expr(s[0]) + w_exprs(s.drop_first())
    }
}

/// Budget of one statement.
pub open spec fn w_stmt(s: StmtView) -> nat
    decreases s,
{
    match s {
        StmtView::Local { pattern, init } => match init {
            Some(e) => 1 + w_expr(e),
            None => 1,
        },
        StmtView::ExprStmt { expr, has_semi } => 1 + w_expr(expr),
        StmtView::ItemStmt { item } => 1 + w_item(*item),
        StmtView::Opaque { handle } => 1,
    }
}

/// Budget of a statement sequence.
pub open spec fn w_stmts(s: Seq<StmtView>) -> nat
    decreases s,
{
    if s.len() == 0 {
        0
    } else {
        w_stmt(s[0]) + w_stmts(s.drop_first())
    }
}

/// Budget of one block: its statement-level pass plus the descent.
pub open spec fn w_block(b: BlockView) -> nat
    decreases b,
{
    1 + b.stmts.len() + w_stmts(b.stmts)
}

/// Budget of one item.
pub open spec fn w_item(it: ItemView) -> nat
    decreases it,
{
    match it {
        ItemView::EnumDecl { name, decl } => 1,
        ItemView::FnDecl { sig, is_const, body } => 1 + w_block(body),
        ItemView::ConstDecl { head, init } => 1 + w_expr(init),
        ItemView::StaticDecl { head, init } => 1 + w_expr(init),
        ItemView::Opaque { handle, children } => 1 + w_items(children),
    }
}

/// Budget of an item sequence.
pub open spec fn w_items(s: Seq<ItemView>) -> nat
    decreases s,
{
    if s.len() == 0 {
        0
    } else {
        w_item(s[0]) + w_items(s.drop_first())
    }
}

/// Budget of a whole file.
pub open spec fn w_file(f: FileView) -> nat {
    1 + w_items(f.items)
}

/// Every statement weighs at least one, so a sequence outweighs its length.
pub proof fn lemma_w_stmts_ge_len(s: Seq<StmtView>)
    ensures
        w_stmts(s) >= s.len(),
    decreases s,
{
    if s.len() > 0 {
        lemma_w_stmts_ge_len(s.drop_first());
        assert(w_stmts(s) == w_stmt(s[0]) + w_stmts(s.drop_first()));
        assert(w_stmt(s[0]) >= 1);
    }
}

/// Every expression weighs at least one, so a sequence outweighs its length.
pub proof fn lemma_w_exprs_ge_len(s: Seq<ExprView>)
    ensures
        w_exprs(s) >= s.len(),
    decreases s,
{
    if s.len() > 0 {
        lemma_w_exprs_ge_len(s.drop_first());
        assert(w_exprs(s) == w_expr(s[0]) + w_exprs(s.drop_first()));
        assert(w_expr(s[0]) >= 1);
    }
}

/// What one rewrite step does to the state and its injected calls: the
/// location counter advances by one per call, within the budget `w`; the
/// calls' locations are consecutive from the old counter on; the registry
/// only grows at its end, each call's state id naming its key in it; the
/// enum type set only grows; well-formedness and freedom from duplicate
/// registry keys are kept.
pub open spec fn frame_ok(st0: StateView, st1: StateView, emits: Seq<Emit>, w: nat) -> bool {
    &&& st0.next_location <= st1.next_location <= st0.next_location + w
    &&& emits.len() == st1.next_location - st0.next_location
    &&& forall|i: int|
        0 <= i < emits.len() ==> (#[trigger] emits[i]).loc == st0.next_location + i
    &&& st0.variants.is_prefix_of(st1.variants)
    &&& forall|i: int|
        0 <= i < emits.len() ==> 0 <= (#[trigger] emits[i]).state < st1.variants.len()
            && st1.variants[emits[i].state] == emits[i].key
    &&& st0.enum_types.subset_of(st1.enum_types)
    &&& (state_wf(st0) ==> state_wf(st1))
    &&& (st0.variants.no_duplicates() ==> st1.variants.no_duplicates())
}

/// A step that does nothing satisfies any budget.
pub proof fn lemma_frame_refl(st: StateView, w: nat)
    ensures
        frame_ok(st, st, Seq::empty(), w),
{
    assert(st.variants.is_prefix_of(st.variants)) by {
        assert(st.variants =~= st.variants.subrange(0, st.variants.len() as int));
    }
}

/// Two consecutive steps compose into one with the summed budget.
pub proof fn lemma_frame_compose(
    st0: StateView,
    st1: StateView,
    st2: StateView,
    e1: Seq<Emit>,
    e2: Seq<Emit>,
    w1: nat,
    w2: nat,
)
    requires
        frame_ok(st0, st1, e1, w1),
        frame_ok(st1, st2, e2, w2),
    ensures
        frame_ok(st0, st2, e1 + e2, w1 + w2),
{
    assert(st0.variants.is_prefix_of(st2.variants)) by {
        assert(st0.variants =~= st2.variants.subrange(0, st0.variants.len() as int));
    }
    assert forall|i: int| 0 <= i < st1.variants.len() implies st1.variants[i]
        == st2.variants[i] by {
        assert(st1.variants =~= st2.variants.subrange(0, st1.variants.len() as int));
    }
    assert forall|i: int|
        0 <= i < (e1 + e2).len() implies ((#[trigger] (e1 + e2)[i]).loc == st0.next_location + i
        && 0 <= (e1 + e2)[i].state < st2.variants.len() && st2.variants[(e1 + e2)[i].state] == (e1
        + e2)[i].key) by {
        if i < e1.len() {
            assert((e1 + e2)[i] == e1[i]);
        } else {
            assert((e1 + e2)[i] == e2[i - e1.len()]);
        }
    }
}

/// One allocation is a step of budget one, emitting one call.
pub proof fn lemma_alloc_emit_frame(st: StateView, enum_name: Seq<char>, variant_name: Seq<char>)
    ensures
        frame_ok(
            st,
            alloc_emit(st, enum_name, variant_name).0,
            seq![alloc_emit(st, enum_name, variant_name).1],
            1,
        ),
        alloc_emit(st, enum_name, variant_name).0.enum_types == st.enum_types,
{
    let key = variant_key(enum_name, variant_name);
    crate::state::lemma_first_index_of(st.variants, key);
    let st1 = alloc_emit(st, enum_name, variant_name).0;
    if st.variants.contains(key) {
        assert(st.variants.is_prefix_of(st1.variants)) by {
            assert(st.variants =~= st1.variants.subrange(0, st.variants.len() as int));
        }
    } else {
        assert(st.variants.is_prefix_of(st1.variants)) by {
            assert(st.variants =~= st1.variants.subrange(0, st.variants.len() as int));
        }
        if st.variants.no_duplicates() {
            assert(st1.variants.no_duplicates()) by {
                assert(forall|i: int|
                    0 <= i < st.variants.len() ==> st1.variants[i] == st.variants[i]);
            }
        }
    }
}

} // verus!

verus! {

/// The statement-level pass is a step of budget `stmts.len()`: it marks each
/// statement at most once, touches no enum type, and yields one mark slot per
/// statement.
pub proof fn lemma_mark_stmts_frame(st: StateView, in_const: bool, stmts: Seq<StmtView>)
    ensures
        ({
            let m = mark_stmts(st, in_const, stmts);
            frame_ok(st, m.st, m.emits, stmts.len() as nat) && m.marks.len() == stmts.len()
                && m.st.enum_types == st.enum_types
        }),
    decreases stmts,
{
    if stmts.len() == 0 {
        lemma_frame_refl(st, 0);
    } else {
        match stmt_usage(st.enum_types, stmts[0]) {
            Some(usage) => {
                if !in_const {
                    let a = alloc_emit(st, usage.0, usage.1);
                    lemma_alloc_emit_frame(st, usage.0, usage.1);
                    lemma_mark_stmts_frame(a.0, in_const, stmts.drop_first());
                    let rest = mark_stmts(a.0, in_const, stmts.drop_first());
                    lemma_frame_compose(
                        st,
                        a.0,
                        rest.st,
                        seq![a.1],
                        rest.emits,
                        1,
                        (stmts.len() - 1) as nat,
                    );
                } else {
                    lemma_mark_stmts_frame(st, in_const, stmts.drop_first());
                }
            },
            None => {
                lemma_mark_stmts_frame(st, in_const, stmts.drop_first());
            },
        }
    }
}

/// The argument pass is a step of budget `args.len()`, one mark slot per
/// argument, touching no enum type.
pub proof fn lemma_mark_args_frame(st: StateView, in_const: bool, args: Seq<ExprView>)
    ensures
        ({
            let m = mark_args(st, in_const, args);
            frame_ok(st, m.st, m.emits, args.len() as nat) && m.marks.len() == args.len()
                && m.st.enum_types == st.enum_types
        }),
    decreases args,
{
    if args.len() == 0 {
        lemma_frame_refl(st, 0);
    } else {
        match arg_usage(st.enum_types, args[0]) {
            Some(usage) => {
                if !in_const {
                    let a = alloc_emit(st, usage.0, usage.1);
                    lemma_alloc_emit_frame(st, usage.0, usage.1);
                    lemma_mark_args_frame(a.0, in_const, args.drop_first());
                    let rest = mark_args(a.0, in_const, args.drop_first());
                    lemma_frame_compose(
                        st,
                        a.0,
                        rest.st,
                        seq![a.1],
                        rest.emits,
                        1,
                        (args.len() - 1) as nat,
                    );
                } else {
                    lemma_mark_args_frame(st, in_const, args.drop_first());
                }
            },
            None => {
                lemma_mark_args_frame(st, in_const, args.drop_first());
            },
        }
    }
}

/// Rewriting a file is a step within the file's budget.
pub proof fn lemma_rw_file_frame(st: StateView, f: FileView)
    ensures
        ({
            let r = rw_file(st, f);
            frame_ok(st, r.st, r.emits, w_file(f))
        }),
    decreases f,
{
    lemma_rw_items_frame(st, false, f.items);
}

/// Rewriting an item sequence is a step within its budget.
pub proof fn lemma_rw_items_frame(st: StateView, in_const: bool, items: Seq<ItemView>)
    ensures
        ({
            let r = rw_items(st, in_const, items);
            frame_ok(st, r.st, r.emits, w_items(items)) && r.out.len() == items.len()
        }),
    decreases items,
{
    if items.len() == 0 {
        lemma_frame_refl(st, 0);
    } else {
        let r0 = rw_item(st, in_const, items[0]);
        lemma_rw_item_frame(st, in_const, items[0]);
        let rest = rw_items(r0.st, in_const, items.drop_first());
        lemma_rw_items_frame(r0.st, in_const, items.drop_first());
        lemma_frame_compose(
            st,
            r0.st,
            rest.st,
            r0.emits,
            rest.emits,
            w_item(items[0]),
            w_items(items.drop_first()),
        );
    }
}

/// Rewriting an item is a step within its budget.
pub proof fn lemma_rw_item_frame(st: StateView, in_const: bool, it: ItemView)
    ensures
        ({
            let r = rw_item(st, in_const, it);
            frame_ok(st, r.st, r.emits, w_item(it))
        }),
    decreases it,
{
    match it {
        ItemView::EnumDecl { name, decl } => {
            let st1 = rw_item(st, in_const, it).st;
            assert(st.variants.is_prefix_of(st1.variants)) by {
                assert(st.variants =~= st1.variants.subrange(0, st.variants.len() as int));
            }
            assert(st.enum_types.subset_of(st1.enum_types));
        },
        ItemView::FnDecl { sig, is_const, body } => {
            lemma_rw_block_frame(st, in_const || is_const, body);
        },
        ItemView::ConstDecl { head, init } => {
            lemma_rw_expr_frame(st, true, init);
        },
        ItemView::StaticDecl { head, init } => {
            lemma_rw_expr_frame(st, true, init);
        },
        ItemView::Opaque { handle, children } => {
            lemma_rw_items_frame(st, in_const, children);
        },
    }
}

/// Rewriting a block is a step within its budget.
pub proof fn lemma_rw_block_frame(st: StateView, in_const: bool, b: BlockView)
    ensures
        ({
            let r = rw_block(st, in_const, b);
            frame_ok(st, r.st, r.emits, w_block(b))
        }),
    decreases b,
{
    let m = mark_stmts(st, in_const, b.stmts);
    lemma_mark_stmts_frame(st, in_const, b.stmts);
    let r = rw_stmts(m.st, in_const, b.stmts);
    lemma_rw_stmts_frame(m.st, in_const, b.stmts);
    lemma_frame_compose(
        st,
        m.st,
        r.st,
        m.emits,
        r.emits,
        b.stmts.len() as nat,
        w_stmts(b.stmts),
    );
}

/// Descending into a statement sequence is a step within its budget.
pub proof fn lemma_rw_stmts_frame(st: StateView, in_const: bool, stmts: Seq<StmtView>)
    ensures
        ({
            let r = rw_stmts(st, in_const, stmts);
            frame_ok(st, r.st, r.emits, w_stmts(stmts)) && r.out.len() == stmts.len()
        }),
    decreases stmts,
{
    if stmts.len() == 0 {
        lemma_frame_refl(st, 0);
    } else {
        let r0 = rw_stmt(st, in_const, stmts[0]);
        lemma_rw_stmt_frame(st, in_const, stmts[0]);
        let rest = rw_stmts(r0.st, in_const, stmts.drop_first());
        lemma_rw_stmts_frame(r0.st, in_const, stmts.drop_first());
        lemma_frame_compose(
            st,
            r0.st,
            rest.st,
            r0.emits,
            rest.emits,
            w_stmt(stmts[0]),
            w_stmts(stmts.drop_first()),
        );
    }
}

/// Descending into a statement is a step within its budget.
pub proof fn lemma_rw_stmt_frame(st: StateView, in_const: bool, s: StmtView)
    ensures
        ({
            let r = rw_stmt(st, in_const, s);
            frame_ok(st, r.st, r.emits, w_stmt(s))
        }),
    decreases s,
{
    match s {
        StmtView::Local { pattern, init } => match init {
            Some(e) => {
                lemma_rw_expr_frame(st, in_const, e);
            },
            None => {
                lemma_frame_refl(st, 1);
            },
        },
        StmtView::ExprStmt { expr, has_semi } => {
            lemma_rw_expr_frame(st, in_const, expr);
        },
        StmtView::ItemStmt { item } => {
            lemma_rw_item_frame(st, in_const, *item);
        },
        StmtView::Opaque { handle } => {
            lemma_frame_refl(st, 1);
        },
    }
}

/// Rewriting an expression is a step within its budget.
pub proof fn lemma_rw_expr_frame(st: StateView, in_const: bool, e: ExprView)
    ensures
        ({
            let r = rw_expr(st, in_const, e);
            frame_ok(st, r.st, r.emits, w_expr(e))
        }),
    decreases e,
{
    match e {
        ExprView::Assign { lhs, rhs } => {
            let rl = rw_expr(st, in_const, *lhs);
            lemma_rw_expr_frame(st, in_const, *lhs);
            let rr = rw_expr(rl.st, in_const, *rhs);
            lemma_rw_expr_frame(rl.st, in_const, *rhs);
            lemma_frame_compose(
                st,
                rl.st,
                rr.st,
                rl.emits,
                rr.emits,
                w_expr(*lhs),
                w_expr(*rhs),
            );
        },
        ExprView::Call { callee, args } => {
            let m = mark_args(st, in_const, args);
            lemma_mark_args_frame(st, in_const, args);
            let rc = rw_expr(m.st, in_const, *callee);
            lemma_rw_expr_frame(m.st, in_const, *callee);
            let ra = rw_args(rc.st, in_const, m.marks, args);
            lemma_rw_args_frame(rc.st, in_const, m.marks, args);
            lemma_frame_compose(
                st,
                m.st,
                rc.st,
                m.emits,
                rc.emits,
                args.len() as nat,
                w_expr(*callee),
            );
            lemma_frame_compose(
                st,
                rc.st,
                ra.st,
                m.emits + rc.emits,
                ra.emits,
                (args.len() + w_expr(*callee)) as nat,
                w_exprs(args),
            );
        },
        ExprView::BlockExpr { block } => {
            lemma_rw_block_frame(st, in_const, block);
        },
        ExprView::Opaque { handle, children } => {
            lemma_rw_exprs_frame(st, in_const, children);
        },
        _ => {
            lemma_frame_refl(st, 1);
        },
    }
}

/// Descending into an opaque expression's children is a step within their
/// summed budget.
pub proof fn lemma_rw_exprs_frame(st: StateView, in_const: bool, s: Seq<ExprView>)
    ensures
        ({
            let r = rw_exprs(st, in_const, s);
            frame_ok(st, r.st, r.emits, w_exprs(s)) && r.out.len() == s.len()
        }),
    decreases s,
{
    if s.len() == 0 {
        lemma_frame_refl(st, 0);
    } else {
        let r0 = rw_expr(st, in_const, s[0]);
        lemma_rw_expr_frame(st, in_const, s[0]);
        let rest = rw_exprs(r0.st, in_const, s.drop_first());
        lemma_rw_exprs_frame(r0.st, in_const, s.drop_first());
        lemma_frame_compose(
            st,
            r0.st,
            rest.st,
            r0.emits,
            rest.emits,
            w_expr(s[0]),
            w_exprs(s.drop_first()),
        );
    }
}

/// Descending into a call's arguments is a step within their summed budget.
pub proof fn lemma_rw_args_frame(
    st: StateView,
    in_const: bool,
    marks: Seq<Option<StmtView>>,
    args: Seq<ExprView>,
)
    ensures
        ({
            let r = rw_args(st, in_const, marks, args);
            frame_ok(st, r.st, r.emits, w_exprs(args)) && r.out.len() == args.len()
        }),
    decreases args,
{
    if args.len() == 0 {
        lemma_frame_refl(st, 0);
    } else {
        match marks[0] {
            Some(m) => {
                lemma_rw_args_frame(st, in_const, marks.drop_first(), args.drop_first());
            },
            None => {
                let r0 = rw_expr(st, in_const, args[0]);
                lemma_rw_expr_frame(st, in_const, args[0]);
                let rest = rw_args(r0.st, in_const, marks.drop_first(), args.drop_first());
                lemma_rw_args_frame(r0.st, in_const, marks.drop_first(), args.drop_first());
                lemma_frame_compose(
                    st,
                    r0.st,
                    rest.st,
                    r0.emits,
                    rest.emits,
                    w_expr(args[0]),
                    w_exprs(args.drop_first()),
                );
            },
        }
    }
}

} // verus!

verus! {

/// The enum names declared anywhere inside one expression.
pub open spec fn declared_in_expr(e: ExprView) -> Set<Seq<char>>
    decreases e,
{
    match e {
        ExprView::Assign { lhs, rhs } => declared_in_expr(*lhs).union(declared_in_expr(*rhs)),
        ExprView::Call { callee, args } => declared_in_expr(*callee).union(
            declared_in_exprs(args),
        ),
        ExprView::BlockExpr { block } => declared_in_block(block),
        ExprView::Opaque { handle, children } => declared_in_exprs(children),
        _ => Set::empty(),
    }
}

/// The enum names declared anywhere inside an expression sequence.
pub open spec fn declared_in_exprs(s: Seq<ExprView>) -> Set<Seq<char>>
    decreases s,
{
    if s.len() == 0 {
        Set::empty()
    } else {
        declared_in_expr(s[0]).union(declared_in_exprs(s.drop_first()))
    }
}

/// The enum names declared anywhere inside one statement.
pub open spec fn declared_in_stmt(s: StmtView) -> Set<Seq<char>>
    decreases s,
{
    match s {
        StmtView::Local { pattern, init } => match init {
            Some(e) => declared_in_expr(e),
            None => Set::empty(),
        },
        StmtView::ExprStmt { expr, has_semi } => declared_in_expr(expr),
        StmtView::ItemStmt { item } => declared_in_item(*item),
        StmtView::Opaque { handle } => Set::empty(),
    }
}

/// The enum names declared anywhere inside a statement sequence.
pub open spec fn declared_in_stmts(s: Seq<StmtView>) -> Set<Seq<char>>
    decreases s,
{
    if s.len() == 0 {
        Set::empty()
    } else {
        declared_in_stmt(s[0]).union(declared_in_stmts(s.drop_first()))
    }
}

/// The enum names declared anywhere inside one block.
pub open spec fn declared_in_block(b: BlockView) -> Set<Seq<char>>
    decreases b,
{
    declared_in_stmts(b.stmts)
}

/// The enum names declared by one item, at any depth.
pub open spec fn declared_in_item(it: ItemView) -> Set<Seq<char>>
    decreases it,
{
    match it {
        ItemView::EnumDecl { name, decl } => Set::empty().insert(name),
        ItemView::FnDecl { sig, is_const, body } => declared_in_block(body),
        ItemView::ConstDecl { head, init } => declared_in_expr(init),
        ItemView::StaticDecl { head, init } => declared_in_expr(init),
        ItemView::Opaque { handle, children } => declared_in_items(children),
    }
}

/// The enum names declared by an item sequence.
pub open spec fn declared_in_items(s: Seq<ItemView>) -> Set<Seq<char>>
    decreases s,
{
    if s.len() == 0 {
        Set::empty()
    } else {
        declared_in_item(s[0]).union(declared_in_items(s.drop_first()))
    }
}

/// The enum names declared anywhere in a file.
pub open spec fn declared_in_file(f: FileView) -> Set<Seq<char>> {
    declared_in_items(f.items)
}

/// An argument is marked only when it is a bare path.
pub proof fn lemma_marked_args_are_paths(st: StateView, in_const: bool, args: Seq<ExprView>)
    ensures
        ({
            let m = mark_args(st, in_const, args);
            forall|i: int|
                0 <= i < args.len() && (#[trigger] m.marks[i]) is Some ==> args[i] is PathExpr
        }),
    decreases args,
{
    if args.len() > 0 {
        let m = mark_args(st, in_const, args);
        let st1 = match arg_usage(st.enum_types, args[0]) {
            Some(u) => if !in_const {
                alloc_emit(st, u.0, u.1).0
            } else {
                st
            },
            None => st,
        };
        lemma_marked_args_are_paths(st1, in_const, args.drop_first());
        let rest = mark_args(st1, in_const, args.drop_first());
        lemma_mark_args_frame(st, in_const, args);
        lemma_mark_args_frame(st1, in_const, args.drop_first());
        assert forall|i: int|
            0 <= i < args.len() && (#[trigger] m.marks[i]) is Some implies args[i]
            is PathExpr by {
            if i > 0 {
                assert(m.marks[i] == rest.marks[i - 1]);
                assert(args.drop_first()[i - 1] == args[i]);
            } else {
                if !(args[0] is PathExpr) {
                    assert(arg_usage(st.enum_types, args[0]) is None);
                }
            }
        }
    }
}

} // verus!
