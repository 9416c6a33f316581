//! The stated laws of the transformer, proved of the mathematical rewrite
//! that the visitor is equal to.

use vstd::prelude::*;

use crate::ast::BlockView;
use crate::ast::ExprView;
use crate::ast::FileView;
use crate::ast::ItemView;
use crate::ast::StmtView;
use crate::rewrite::arg_usage;
use crate::rewrite::declared_in_block;
use crate::rewrite::declared_in_expr;
use crate::rewrite::declared_in_exprs;
use crate::rewrite::declared_in_file;
use crate::rewrite::declared_in_item;
use crate::rewrite::declared_in_items;
use crate::rewrite::declared_in_stmt;
use crate::rewrite::declared_in_stmts;
use crate::rewrite::lemma_marked_args_are_paths;
use crate::rewrite::instr_stmt;
use crate::rewrite::interleave;
use crate::rewrite::lemma_mark_args_frame;
use crate::rewrite::lemma_mark_stmts_frame;
use crate::rewrite::lemma_rw_file_frame;
use crate::rewrite::mark_args;
use crate::rewrite::mark_stmts;
use crate::rewrite::rw_args;
use crate::rewrite::rw_block;
use crate::rewrite::rw_expr;
use crate::rewrite::rw_exprs;
use crate::rewrite::rw_file;
use crate::rewrite::rw_item;
use crate::rewrite::rw_items;
use crate::rewrite::rw_stmt;
use crate::rewrite::rw_stmts;
use crate::rewrite::stmt_usage;
use crate::rewrite::w_file;
use crate::rewrite::wrap_arg;
use crate::state::StateView;
use crate::state::first_index_of;
use crate::state::registry_insert;
use crate::state::variant_key;

verus! {

/// Law: every injected call's state id names its registry key, the registry
/// grows only at its end and never registers a key twice; hence ids, once
/// given out, are stable for the rest of the run.
pub proof fn lemma_variant_ids_stable(st: StateView, f: FileView)
    requires
        st.variants.no_duplicates(),
    ensures
        ({
            let r = rw_file(st, f);
            &&& st.variants.is_prefix_of(r.st.variants)
            &&& r.st.variants.no_duplicates()
            &&& forall|i: int|
                0 <= i < r.emits.len() ==> 0 <= (#[trigger] r.emits[i]).state
                    < r.st.variants.len() && r.st.variants[r.emits[i].state] == r.emits[i].key
        }),
{
    lemma_rw_file_frame(st, f);
}

/// Law: two injected calls for the same `Enum::Variant` key carry the same
/// state id, wherever in the run they stand; and a key already registered
/// before the file keeps the id it had.
pub proof fn lemma_same_key_same_state(st: StateView, f: FileView, i: int, j: int)
    requires
        st.variants.no_duplicates(),
        0 <= i < rw_file(st, f).emits.len(),
        0 <= j < rw_file(st, f).emits.len(),
        rw_file(st, f).emits[i].key == rw_file(st, f).emits[j].key,
    ensures
        rw_file(st, f).emits[i].state == rw_file(st, f).emits[j].state,
{
    lemma_rw_file_frame(st, f);
    let r = rw_file(st, f);
    let si = r.emits[i].state;
    let sj = r.emits[j].state;
    if si != sj {
        assert(r.st.variants[si] == r.st.variants[sj]);
        assert(false);
    }
}

/// Law: the injected calls of one file carry consecutive locations: the
/// k-th call of the file gets the location counter's value at entry plus k,
/// with no gaps and no repeats, one location per call, whichever of the
/// three injection shapes produced it.
pub proof fn lemma_locations_consecutive(st: StateView, f: FileView)
    ensures
        ({
            let r = rw_file(st, f);
            &&& r.emits.len() == r.st.next_location - st.next_location
            &&& forall|i: int|
                0 <= i < r.emits.len() ==> (#[trigger] r.emits[i]).loc == st.next_location + i
            &&& r.st.next_location <= st.next_location + w_file(f)
        }),
{
    lemma_rw_file_frame(st, f);
}

/// Law: a marked call argument is replaced by a block that performs the
/// injected statement and then evaluates to the original argument expression,
/// unchanged; the hook thus runs exactly once, strictly before the
/// argument's value is produced, and the replacement's value is the
/// argument's own.
pub proof fn lemma_wrapped_arg_shape(
    st: StateView,
    in_const: bool,
    marks: Seq<Option<StmtView>>,
    args: Seq<ExprView>,
    i: int,
)
    requires
        marks.len() == args.len(),
        0 <= i < args.len(),
        (marks[i] is Some),
    ensures
        rw_args(st, in_const, marks, args).out[i] == wrap_arg(marks[i]->0, args[i]),
        (wrap_arg(marks[i]->0, args[i]) == ExprView::BlockExpr {
            block: BlockView {
                stmts: seq![
                    marks[i]->0,
                    StmtView::ExprStmt { expr: args[i], has_semi: false },
                ],
            },
        }),
    decreases args,
{
    crate::rewrite::lemma_rw_args_frame(st, in_const, marks, args);
    if args.len() > 0 {
        let rest_st = match marks[0] {
            Some(m) => st,
            None => rw_expr(st, in_const, args[0]).st,
        };
        crate::rewrite::lemma_rw_args_frame(
            rest_st,
            in_const,
            marks.drop_first(),
            args.drop_first(),
        );
        if i == 0 {
        } else {
            assert(marks.drop_first()[i - 1] == marks[i]);
            assert(args.drop_first()[i - 1] == args[i]);
            lemma_wrapped_arg_shape(
                rest_st,
                in_const,
                marks.drop_first(),
                args.drop_first(),
                i - 1,
            );
            assert(rw_args(st, in_const, marks, args).out[i] == rw_args(
                rest_st,
                in_const,
                marks.drop_first(),
                args.drop_first(),
            ).out[i - 1]);
        }
    }
}

/// Law: an argument that is not a bare path — in particular a block, such as
/// an already-wrapped argument — is never marked for wrapping.
pub proof fn lemma_non_path_arg_never_marked(types: Set<Seq<char>>, e: ExprView)
    requires
        !(e is PathExpr),
    ensures
        arg_usage(types, e) is None,
{
}

/// Law: an injected statement is itself never instrumented: its expression
/// is a call whose arguments are integer literals, not enum-variant paths,
/// so rewriting a block holding only an injected call emits nothing, changes
/// no state, and returns the block unchanged — a second run over its own
/// output adds no layer around the calls it injected.
pub proof fn lemma_injected_call_fixed(st: StateView, in_const: bool, loc: int, state: int)
    ensures
        ({
            let b = BlockView { stmts: seq![instr_stmt(loc, state)] };
            let r = rw_block(st, in_const, b);
            r.st == st && r.emits == Seq::<crate::rewrite::Emit>::empty() && r.out == b
        }),
{
    reveal_with_fuel(mark_stmts, 4);
    reveal_with_fuel(mark_args, 4);
    reveal_with_fuel(rw_stmts, 4);
    reveal_with_fuel(rw_args, 4);
    reveal_with_fuel(rw_expr, 4);
    reveal_with_fuel(rw_stmt, 4);
    reveal_with_fuel(rw_block, 4);
    reveal_with_fuel(interleave, 4);
    let s = instr_stmt(loc, state);
    let b = BlockView { stmts: seq![s] };
    let stmts = seq![s];
    assert(stmt_usage(st.enum_types, s) is None);
    assert(stmts.drop_first() =~= Seq::<StmtView>::empty());
    let m = mark_stmts(st, in_const, stmts);
    assert(m.st == st && m.marks =~= seq![Option::<StmtView>::None] && m.emits =~= Seq::<
        crate::rewrite::Emit,
    >::empty());
    let callee = ExprView::PathExpr {
        segments: seq!["sginstrument"@, "instrument"@],
        raw: crate::ast::NO_RAW,
    };
    let args = seq![
        ExprView::LitU32 { value: loc as u32 },
        ExprView::LitU32 { value: state as u32 },
    ];
    assert(args.drop_first() =~= seq![ExprView::LitU32 { value: state as u32 }]);
    assert(args.drop_first().drop_first() =~= Seq::<ExprView>::empty());
    let ma = mark_args(st, in_const, args);
    assert(arg_usage(st.enum_types, args[0]) is None);
    assert(arg_usage(st.enum_types, args.drop_first()[0]) is None);
    assert(ma.st == st && ma.marks =~= seq![Option::<StmtView>::None, Option::<StmtView>::None]
        && ma.emits =~= Seq::<crate::rewrite::Emit>::empty());
    let ra = rw_args(st, in_const, ma.marks, args);
    assert(ma.marks[0] is None);
    assert(ma.marks.drop_first() =~= seq![Option::<StmtView>::None]);
    assert(ra.st == st && ra.out =~= args && ra.emits =~= Seq::<crate::rewrite::Emit>::empty());
    let re = rw_expr(st, in_const, ExprView::Call { callee: Box::new(callee), args });
    assert(re.st == st && re.emits =~= Seq::<crate::rewrite::Emit>::empty());
    assert(re.out =~~= ExprView::Call { callee: Box::new(callee), args });
    let rs = rw_stmts(st, in_const, stmts);
    assert(rs.st == st && rs.emits =~= Seq::<crate::rewrite::Emit>::empty());
    assert(rs.out =~~= stmts);
    let r = rw_block(st, in_const, b);
    assert(r.emits =~= Seq::<crate::rewrite::Emit>::empty());
    assert(r.out.stmts =~~= interleave(m.marks, rs.out));
    assert(interleave(m.marks, rs.out) =~~= stmts);
    assert(r.out =~~= b);
}

/// Law: a usage is classified exactly when its path has at least two
/// segments and the second-to-last names an already-declared enum; so a
/// `let` bound to `Enum::Variant` before `Enum`'s declaration has been
/// visited is passed over, and the same statement after the declaration —
/// outside const context — earns exactly one injected call, keyed
/// `Enum::Variant`.
pub proof fn lemma_use_before_decl(st: StateView, pattern: u64, segments: Seq<Seq<char>>, raw: u64)
    ensures
        ({
            let s = StmtView::Local {
                pattern,
                init: Some(ExprView::PathExpr { segments, raw }),
            };
            let m = mark_stmts(st, false, seq![s]);
            &&& (segments.len() < 2 || !st.enum_types.contains(segments[segments.len() - 2]))
                ==> m.st == st && m.emits == Seq::<crate::rewrite::Emit>::empty()
            &&& (segments.len() >= 2 && st.enum_types.contains(segments[segments.len() - 2]))
                ==> m.emits.len() == 1 && m.emits[0].loc == st.next_location
                && m.emits[0].key == variant_key(
                segments[segments.len() - 2],
                segments[segments.len() - 1],
            ) && m.st.next_location == st.next_location + 1
        }),
{
    reveal_with_fuel(mark_stmts, 4);
    reveal_with_fuel(mark_args, 4);
    reveal_with_fuel(rw_stmts, 4);
    reveal_with_fuel(rw_args, 4);
    reveal_with_fuel(rw_expr, 4);
    reveal_with_fuel(rw_stmt, 4);
    reveal_with_fuel(rw_block, 4);
    reveal_with_fuel(interleave, 4);
    let s = StmtView::Local { pattern, init: Some(ExprView::PathExpr { segments, raw }) };
    let stmts = seq![s];
    assert(stmts.drop_first() =~= Seq::<StmtView>::empty());
    if segments.len() >= 2 && st.enum_types.contains(segments[segments.len() - 2]) {
        let u = stmt_usage(st.enum_types, s);
        assert(u == Some((segments[segments.len() - 2], segments[segments.len() - 1])));
        let a = crate::rewrite::alloc_emit(
            st,
            segments[segments.len() - 2],
            segments[segments.len() - 1],
        );
        let m = mark_stmts(st, false, stmts);
        assert(m.emits =~= seq![a.1]);
    } else {
        assert(stmt_usage(st.enum_types, s) is None);
        let m = mark_stmts(st, false, stmts);
        assert(m.emits =~= Seq::<crate::rewrite::Emit>::empty());
    }
}

} // verus!

verus! {

/// Interleaving with no marks at all changes nothing.
proof fn lemma_interleave_all_none(marks: Seq<Option<StmtView>>, outs: Seq<StmtView>)
    requires
        marks.len() == outs.len(),
        forall|i: int| 0 <= i < marks.len() ==> marks[i] is None,
    ensures
        interleave(marks, outs) == outs,
    decreases outs,
{
    if outs.len() == 0 {
        assert(interleave(marks, outs) =~= outs);
    } else {
        assert(marks[0] is None);
        assert(forall|i: int| 0 <= i < marks.drop_first().len() ==> marks.drop_first()[i] is None);
        lemma_interleave_all_none(marks.drop_first(), outs.drop_first());
        assert(interleave(marks, outs) =~= outs);
    }
}

/// In const context the statement pass issues nothing: no marks, no calls,
/// no state change.
pub proof fn lemma_const_mark_stmts(st: StateView, stmts: Seq<StmtView>)
    ensures
        ({
            let m = mark_stmts(st, true, stmts);
            &&& m.st == st
            &&& m.emits == Seq::<crate::rewrite::Emit>::empty()
            &&& m.marks.len() == stmts.len()
            &&& forall|i: int| 0 <= i < m.marks.len() ==> m.marks[i] is None
        }),
    decreases stmts,
{
    if stmts.len() > 0 {
        lemma_const_mark_stmts(st, stmts.drop_first());
        let m = mark_stmts(st, true, stmts);
        let rest = mark_stmts(st, true, stmts.drop_first());
        assert(m.marks == seq![Option::<StmtView>::None] + rest.marks);
        assert(forall|i: int| 0 <= i < m.marks.len() ==> m.marks[i] is None) by {
            assert(m.marks[0] is None);
            assert(forall|i: int|
                1 <= i < m.marks.len() ==> m.marks[i] == rest.marks[i - 1]);
        }
        assert(m.emits =~= Seq::<crate::rewrite::Emit>::empty());
    } else {
        assert(mark_stmts(st, true, stmts).emits =~= Seq::<crate::rewrite::Emit>::empty());
    }
}

/// In const context the argument pass issues nothing either.
pub proof fn lemma_const_mark_args(st: StateView, args: Seq<ExprView>)
    ensures
        ({
            let m = mark_args(st, true, args);
            &&& m.st == st
            &&& m.emits == Seq::<crate::rewrite::Emit>::empty()
            &&& m.marks.len() == args.len()
            &&& forall|i: int| 0 <= i < m.marks.len() ==> m.marks[i] is None
        }),
    decreases args,
{
    if args.len() > 0 {
        lemma_const_mark_args(st, args.drop_first());
        let m = mark_args(st, true, args);
        let rest = mark_args(st, true, args.drop_first());
        assert(m.marks == seq![Option::<StmtView>::None] + rest.marks);
        assert(forall|i: int| 0 <= i < m.marks.len() ==> m.marks[i] is None) by {
            assert(m.marks[0] is None);
            assert(forall|i: int|
                1 <= i < m.marks.len() ==> m.marks[i] == rest.marks[i - 1]);
        }
        assert(m.emits =~= Seq::<crate::rewrite::Emit>::empty());
    } else {
        assert(mark_args(st, true, args).emits =~= Seq::<crate::rewrite::Emit>::empty());
    }
}

/// Law (const suppression), expression form: under the const flag an
/// expression is returned exactly as it came, no call is injected, and
/// neither the registry nor the location counter moves — only enum
/// declarations encountered on the way are still recorded.
pub proof fn lemma_const_expr_untouched(st: StateView, e: ExprView)
    ensures
        ({
            let r = rw_expr(st, true, e);
            &&& r.st.variants == st.variants
            &&& r.st.next_location == st.next_location
            &&& r.emits == Seq::<crate::rewrite::Emit>::empty()
            &&& r.out == e
        }),
    decreases e,
{
    match e {
        ExprView::Assign { lhs, rhs } => {
            lemma_const_expr_untouched(st, *lhs);
            let rl = rw_expr(st, true, *lhs);
            lemma_const_expr_untouched(rl.st, *rhs);
            let rr = rw_expr(rl.st, true, *rhs);
            assert(rl.emits + rr.emits =~= Seq::<crate::rewrite::Emit>::empty());
            assert(rw_expr(st, true, e).out =~~= e);
        },
        ExprView::Call { callee, args } => {
            lemma_const_mark_args(st, args);
            let m = mark_args(st, true, args);
            lemma_const_expr_untouched(st, *callee);
            let rc = rw_expr(m.st, true, *callee);
            lemma_const_args_untouched(rc.st, m.marks, args);
            let ra = rw_args(rc.st, true, m.marks, args);
            assert(m.emits + rc.emits + ra.emits =~= Seq::<crate::rewrite::Emit>::empty());
            assert(rw_expr(st, true, e).out =~~= e);
        },
        ExprView::BlockExpr { block } => {
            lemma_const_block_untouched(st, block);
            assert(rw_expr(st, true, e).out =~~= e);
        },
        ExprView::Opaque { handle, children } => {
            lemma_const_exprs_untouched(st, children);
            assert(rw_expr(st, true, e).out =~~= e);
        },
        _ => {},
    }
}

/// Law (const suppression), opaque-children form.
pub proof fn lemma_const_exprs_untouched(st: StateView, s: Seq<ExprView>)
    ensures
        ({
            let r = rw_exprs(st, true, s);
            &&& r.st.variants == st.variants
            &&& r.st.next_location == st.next_location
            &&& r.emits == Seq::<crate::rewrite::Emit>::empty()
            &&& r.out == s
        }),
    decreases s,
{
    if s.len() == 0 {
        assert(rw_exprs(st, true, s).out =~= s);
        assert(rw_exprs(st, true, s).emits =~= Seq::<crate::rewrite::Emit>::empty());
    } else {
        lemma_const_expr_untouched(st, s[0]);
        let r0 = rw_expr(st, true, s[0]);
        lemma_const_exprs_untouched(r0.st, s.drop_first());
        let rest = rw_exprs(r0.st, true, s.drop_first());
        assert(r0.emits + rest.emits =~= Seq::<crate::rewrite::Emit>::empty());
        assert(rw_exprs(st, true, s).out =~= s);
    }
}

/// Law (const suppression), item-sequence form, for an opaque item's members.
pub proof fn lemma_const_items_untouched(st: StateView, s: Seq<ItemView>)
    ensures
        ({
            let r = rw_items(st, true, s);
            &&& r.st.variants == st.variants
            &&& r.st.next_location == st.next_location
            &&& r.emits == Seq::<crate::rewrite::Emit>::empty()
            &&& r.out == s
        }),
    decreases s,
{
    if s.len() == 0 {
        assert(rw_items(st, true, s).out =~= s);
        assert(rw_items(st, true, s).emits =~= Seq::<crate::rewrite::Emit>::empty());
    } else {
        lemma_const_item_untouched(st, s[0]);
        let r0 = rw_item(st, true, s[0]);
        lemma_const_items_untouched(r0.st, s.drop_first());
        let rest = rw_items(r0.st, true, s.drop_first());
        assert(r0.emits + rest.emits =~= Seq::<crate::rewrite::Emit>::empty());
        assert(rw_items(st, true, s).out =~= s);
    }
}

/// Law (const suppression), argument form: with no marks, const-context
/// arguments come back exactly as they came.
pub proof fn lemma_const_args_untouched(
    st: StateView,
    marks: Seq<Option<StmtView>>,
    args: Seq<ExprView>,
)
    requires
        forall|i: int| 0 <= i < marks.len() ==> marks[i] is None,
        marks.len() == args.len(),
    ensures
        ({
            let r = rw_args(st, true, marks, args);
            &&& r.st.variants == st.variants
            &&& r.st.next_location == st.next_location
            &&& r.emits == Seq::<crate::rewrite::Emit>::empty()
            &&& r.out == args
        }),
    decreases args,
{
    if args.len() == 0 {
        assert(rw_args(st, true, marks, args).out =~= args);
        assert(rw_args(st, true, marks, args).emits =~= Seq::<crate::rewrite::Emit>::empty());
    } else {
        assert(marks[0] is None);
        lemma_const_expr_untouched(st, args[0]);
        let r0 = rw_expr(st, true, args[0]);
        assert(forall|i: int|
            0 <= i < marks.drop_first().len() ==> marks.drop_first()[i] is None);
        lemma_const_args_untouched(r0.st, marks.drop_first(), args.drop_first());
        let rest = rw_args(r0.st, true, marks.drop_first(), args.drop_first());
        assert(r0.emits + rest.emits =~= Seq::<crate::rewrite::Emit>::empty());
        assert(rw_args(st, true, marks, args).out =~= args);
    }
}

/// Law (const suppression), statement form.
pub proof fn lemma_const_stmt_untouched(st: StateView, s: StmtView)
    ensures
        ({
            let r = rw_stmt(st, true, s);
            &&& r.st.variants == st.variants
            &&& r.st.next_location == st.next_location
            &&& r.emits == Seq::<crate::rewrite::Emit>::empty()
            &&& r.out == s
        }),
    decreases s,
{
    match s {
        StmtView::Local { pattern, init } => match init {
            Some(e) => {
                lemma_const_expr_untouched(st, e);
                assert(rw_stmt(st, true, s).out =~~= s);
            },
            None => {},
        },
        StmtView::ExprStmt { expr, has_semi } => {
            lemma_const_expr_untouched(st, expr);
            assert(rw_stmt(st, true, s).out =~~= s);
        },
        StmtView::ItemStmt { item } => {
            lemma_const_item_untouched(st, *item);
            assert(rw_stmt(st, true, s).out =~~= s);
        },
        StmtView::Opaque { handle } => {},
    }
}

/// Law (const suppression), statement-sequence form.
pub proof fn lemma_const_stmts_untouched(st: StateView, stmts: Seq<StmtView>)
    ensures
        ({
            let r = rw_stmts(st, true, stmts);
            &&& r.st.variants == st.variants
            &&& r.st.next_location == st.next_location
            &&& r.emits == Seq::<crate::rewrite::Emit>::empty()
            &&& r.out == stmts
        }),
    decreases stmts,
{
    if stmts.len() == 0 {
        assert(rw_stmts(st, true, stmts).out =~= stmts);
    } else {
        lemma_const_stmt_untouched(st, stmts[0]);
        let r0 = rw_stmt(st, true, stmts[0]);
        lemma_const_stmts_untouched(r0.st, stmts.drop_first());
        let rest = rw_stmts(r0.st, true, stmts.drop_first());
        assert(r0.emits + rest.emits =~= Seq::<crate::rewrite::Emit>::empty());
        assert(rw_stmts(st, true, stmts).out =~= stmts);
    }
}

/// Law (const suppression): no instrumentation call is emitted for any bare
/// variant usage lexically inside a const scope, however deeply nested in
/// ordinary blocks: the block comes back unchanged, and neither the variant
/// registry nor the location counter moves.  Enum declarations inside the
/// scope are still recorded.
pub proof fn lemma_const_block_untouched(st: StateView, b: BlockView)
    ensures
        ({
            let r = rw_block(st, true, b);
            &&& r.st.variants == st.variants
            &&& r.st.next_location == st.next_location
            &&& r.emits == Seq::<crate::rewrite::Emit>::empty()
            &&& r.out == b
        }),
    decreases b,
{
    lemma_const_mark_stmts(st, b.stmts);
    let m = mark_stmts(st, true, b.stmts);
    lemma_const_stmts_untouched(m.st, b.stmts);
    let r = rw_stmts(m.st, true, b.stmts);
    crate::rewrite::lemma_rw_stmts_frame(m.st, true, b.stmts);
    lemma_interleave_all_none(m.marks, r.out);
    assert(m.emits + r.emits =~= Seq::<crate::rewrite::Emit>::empty());
    assert(rw_block(st, true, b).out =~~= b);
}

/// Law (const suppression), item form: a const function's body, like any
/// item under an enclosing const scope, is left untouched.
pub proof fn lemma_const_item_untouched(st: StateView, it: ItemView)
    ensures
        ({
            let r = rw_item(st, true, it);
            &&& r.st.variants == st.variants
            &&& r.st.next_location == st.next_location
            &&& r.emits == Seq::<crate::rewrite::Emit>::empty()
            &&& r.out == it
        }),
    decreases it,
{
    match it {
        ItemView::FnDecl { sig, is_const, body } => {
            lemma_const_block_untouched(st, body);
            assert(rw_item(st, true, it).out =~~= it);
        },
        ItemView::ConstDecl { head, init } => {
            lemma_const_expr_untouched(st, init);
            assert(rw_item(st, true, it).out =~~= it);
        },
        ItemView::StaticDecl { head, init } => {
            lemma_const_expr_untouched(st, init);
            assert(rw_item(st, true, it).out =~~= it);
        },
        ItemView::Opaque { handle, children } => {
            lemma_const_items_untouched(st, children);
            assert(rw_item(st, true, it).out =~~= it);
        },
        _ => {},
    }
}

/// Law: a const function's body, a const item's initializer and a static
/// item's initializer are all rewritten under the const flag, so nothing in
/// them is instrumented, whatever context the item stands in.
pub proof fn lemma_const_scopes_suppressed(st: StateView, in_const: bool, it: ItemView)
    ensures
        (it matches ItemView::FnDecl { is_const: true, body, .. } ==> rw_item(
            st,
            in_const,
            it,
        ).out == it && rw_item(st, in_const, it).emits == Seq::<crate::rewrite::Emit>::empty()),
        (it matches ItemView::ConstDecl { head, init } ==> rw_item(st, in_const, it).out == it
            && rw_item(st, in_const, it).emits == Seq::<crate::rewrite::Emit>::empty()),
        (it matches ItemView::StaticDecl { head, init } ==> rw_item(st, in_const, it).out == it
            && rw_item(st, in_const, it).emits == Seq::<crate::rewrite::Emit>::empty()),
{
    match it {
        ItemView::FnDecl { sig, is_const, body } => {
            if is_const {
                lemma_const_block_untouched(st, body);
                assert(rw_item(st, in_const, it).out =~~= it);
            }
        },
        ItemView::ConstDecl { head, init } => {
            lemma_const_expr_untouched(st, init);
            assert(rw_item(st, in_const, it).out =~~= it);
        },
        ItemView::StaticDecl { head, init } => {
            lemma_const_expr_untouched(st, init);
            assert(rw_item(st, in_const, it).out =~~= it);
        },
        _ => {},
    }
}

} // verus!

verus! {

/// Law (declaration before use), expression form: walking an expression adds
/// to the enum set exactly the names its nested declarations carry.
pub proof fn lemma_declarations_accumulate_expr(st: StateView, in_const: bool, e: ExprView)
    ensures
        rw_expr(st, in_const, e).st.enum_types == st.enum_types.union(declared_in_expr(e)),
    decreases e,
{
    match e {
        ExprView::Assign { lhs, rhs } => {
            lemma_declarations_accumulate_expr(st, in_const, *lhs);
            let rl = rw_expr(st, in_const, *lhs);
            lemma_declarations_accumulate_expr(rl.st, in_const, *rhs);
            assert(rw_expr(st, in_const, e).st.enum_types =~= st.enum_types.union(
                declared_in_expr(e),
            ));
        },
        ExprView::Call { callee, args } => {
            lemma_mark_args_frame(st, in_const, args);
            let m = mark_args(st, in_const, args);
            lemma_marked_args_are_paths(st, in_const, args);
            lemma_declarations_accumulate_expr(m.st, in_const, *callee);
            let rc = rw_expr(m.st, in_const, *callee);
            lemma_declarations_accumulate_args(rc.st, in_const, m.marks, args);
            assert(rw_expr(st, in_const, e).st.enum_types =~= st.enum_types.union(
                declared_in_expr(e),
            ));
        },
        ExprView::BlockExpr { block } => {
            lemma_declarations_accumulate_block(st, in_const, block);
        },
        ExprView::Opaque { handle, children } => {
            lemma_declarations_accumulate_exprs(st, in_const, children);
        },
        _ => {
            assert(rw_expr(st, in_const, e).st.enum_types =~= st.enum_types.union(
                declared_in_expr(e),
            ));
        },
    }
}

/// Law (declaration before use), opaque-children form.
pub proof fn lemma_declarations_accumulate_exprs(st: StateView, in_const: bool, s: Seq<ExprView>)
    ensures
        rw_exprs(st, in_const, s).st.enum_types == st.enum_types.union(declared_in_exprs(s)),
    decreases s,
{
    if s.len() == 0 {
        assert(rw_exprs(st, in_const, s).st.enum_types =~= st.enum_types.union(
            declared_in_exprs(s),
        ));
    } else {
        lemma_declarations_accumulate_expr(st, in_const, s[0]);
        let r0 = rw_expr(st, in_const, s[0]);
        lemma_declarations_accumulate_exprs(r0.st, in_const, s.drop_first());
        assert(rw_exprs(st, in_const, s).st.enum_types =~= st.enum_types.union(
            declared_in_exprs(s),
        ));
    }
}

/// Law (declaration before use), argument form: marked arguments are bare
/// paths and declare nothing; the rest are walked.
pub proof fn lemma_declarations_accumulate_args(
    st: StateView,
    in_const: bool,
    marks: Seq<Option<StmtView>>,
    args: Seq<ExprView>,
)
    requires
        marks.len() == args.len(),
        forall|i: int| 0 <= i < args.len() && (#[trigger] marks[i]) is Some ==> args[i] is PathExpr,
    ensures
        rw_args(st, in_const, marks, args).st.enum_types == st.enum_types.union(
            declared_in_exprs(args),
        ),
    decreases args,
{
    if args.len() == 0 {
        assert(rw_args(st, in_const, marks, args).st.enum_types =~= st.enum_types.union(
            declared_in_exprs(args),
        ));
    } else {
        assert(forall|i: int|
            0 <= i < args.drop_first().len() && (#[trigger] marks.drop_first()[i]) is Some
                ==> args.drop_first()[i] is PathExpr) by {
            assert(forall|i: int|
                0 <= i < args.drop_first().len() ==> marks.drop_first()[i] == marks[i + 1]
                    && args.drop_first()[i] == args[i + 1]);
        }
        match marks[0] {
            Some(m) => {
                assert(marks[0int] is Some);
                assert(args[0int] is PathExpr);
                assert(declared_in_expr(args[0]) =~= Set::<Seq<char>>::empty());
                lemma_declarations_accumulate_args(
                    st,
                    in_const,
                    marks.drop_first(),
                    args.drop_first(),
                );
                assert(rw_args(st, in_const, marks, args).st.enum_types =~= st.enum_types.union(
                    declared_in_exprs(args),
                ));
            },
            None => {
                lemma_declarations_accumulate_expr(st, in_const, args[0]);
                let r0 = rw_expr(st, in_const, args[0]);
                lemma_declarations_accumulate_args(
                    r0.st,
                    in_const,
                    marks.drop_first(),
                    args.drop_first(),
                );
                assert(rw_args(st, in_const, marks, args).st.enum_types =~= st.enum_types.union(
                    declared_in_exprs(args),
                ));
            },
        }
    }
}

/// Law (declaration before use), statement form.
pub proof fn lemma_declarations_accumulate_stmt(st: StateView, in_const: bool, s: StmtView)
    ensures
        rw_stmt(st, in_const, s).st.enum_types == st.enum_types.union(declared_in_stmt(s)),
    decreases s,
{
    match s {
        StmtView::Local { pattern, init } => match init {
            Some(e) => {
                lemma_declarations_accumulate_expr(st, in_const, e);
            },
            None => {
                assert(rw_stmt(st, in_const, s).st.enum_types =~= st.enum_types.union(
                    declared_in_stmt(s),
                ));
            },
        },
        StmtView::ExprStmt { expr, has_semi } => {
            lemma_declarations_accumulate_expr(st, in_const, expr);
        },
        StmtView::ItemStmt { item } => {
            lemma_declarations_accumulate_item(st, in_const, *item);
        },
        StmtView::Opaque { handle } => {
            assert(rw_stmt(st, in_const, s).st.enum_types =~= st.enum_types.union(
                declared_in_stmt(s),
            ));
        },
    }
}

/// Law (declaration before use), statement-sequence form.
pub proof fn lemma_declarations_accumulate_stmts(
    st: StateView,
    in_const: bool,
    stmts: Seq<StmtView>,
)
    ensures
        rw_stmts(st, in_const, stmts).st.enum_types == st.enum_types.union(
            declared_in_stmts(stmts),
        ),
    decreases stmts,
{
    if stmts.len() == 0 {
        assert(rw_stmts(st, in_const, stmts).st.enum_types =~= st.enum_types.union(
            declared_in_stmts(stmts),
        ));
    } else {
        lemma_declarations_accumulate_stmt(st, in_const, stmts[0]);
        let r0 = rw_stmt(st, in_const, stmts[0]);
        lemma_declarations_accumulate_stmts(r0.st, in_const, stmts.drop_first());
        assert(rw_stmts(st, in_const, stmts).st.enum_types =~= st.enum_types.union(
            declared_in_stmts(stmts),
        ));
    }
}

/// Law (declaration before use), block form: the statement-level pass never
/// records a declaration; only the descent does.
pub proof fn lemma_declarations_accumulate_block(st: StateView, in_const: bool, b: BlockView)
    ensures
        rw_block(st, in_const, b).st.enum_types == st.enum_types.union(declared_in_block(b)),
    decreases b,
{
    lemma_mark_stmts_frame(st, in_const, b.stmts);
    let m = mark_stmts(st, in_const, b.stmts);
    lemma_declarations_accumulate_stmts(m.st, in_const, b.stmts);
}

/// Law (declaration before use), item form: an enum declaration contributes
/// its own name; the other items contribute what their bodies declare.
pub proof fn lemma_declarations_accumulate_item(st: StateView, in_const: bool, it: ItemView)
    ensures
        rw_item(st, in_const, it).st.enum_types == st.enum_types.union(declared_in_item(it)),
    decreases it,
{
    match it {
        ItemView::EnumDecl { name, decl } => {
            assert(rw_item(st, in_const, it).st.enum_types =~= st.enum_types.union(
                declared_in_item(it),
            ));
        },
        ItemView::FnDecl { sig, is_const, body } => {
            lemma_declarations_accumulate_block(st, in_const || is_const, body);
        },
        ItemView::ConstDecl { head, init } => {
            lemma_declarations_accumulate_expr(st, true, init);
        },
        ItemView::StaticDecl { head, init } => {
            lemma_declarations_accumulate_expr(st, true, init);
        },
        ItemView::Opaque { handle, children } => {
            lemma_declarations_accumulate_items(st, in_const, children);
        },
    }
}

/// Law (declaration before use), item-sequence form.
pub proof fn lemma_declarations_accumulate_items(
    st: StateView,
    in_const: bool,
    items: Seq<ItemView>,
)
    ensures
        rw_items(st, in_const, items).st.enum_types == st.enum_types.union(
            declared_in_items(items),
        ),
    decreases items,
{
    if items.len() == 0 {
        assert(rw_items(st, in_const, items).st.enum_types =~= st.enum_types.union(
            declared_in_items(items),
        ));
    } else {
        lemma_declarations_accumulate_item(st, in_const, items[0]);
        let r0 = rw_item(st, in_const, items[0]);
        lemma_declarations_accumulate_items(r0.st, in_const, items.drop_first());
        assert(rw_items(st, in_const, items).st.enum_types =~= st.enum_types.union(
            declared_in_items(items),
        ));
    }
}

/// Law (declaration before use): after a file, the enum set is exactly what
/// it was plus the names the file declares — membership in the set at any
/// point of the walk means the declaration was visited earlier in traversal
/// order.  With the classifier's contract, a bare `Enum::Variant` usage is
/// instrumented exactly when `Enum`'s declaration came before it.
pub proof fn lemma_declarations_accumulate(st: StateView, f: FileView)
    ensures
        rw_file(st, f).st.enum_types == st.enum_types.union(declared_in_file(f)),
{
    lemma_declarations_accumulate_items(st, false, f.items);
}

} // verus!

verus! {

/// Law: a key new to the registry is given the count of keys registered
/// before it — ids are handed out 0, 1, 2, ... in first-seen order — and a
/// key already present keeps the id of its first registration.
pub proof fn lemma_first_seen_order(variants: Seq<Seq<char>>, key: Seq<char>)
    ensures
        !variants.contains(key) ==> registry_insert(variants, key) == (
            variants.push(key),
            variants.len() as int,
        ),
        variants.contains(key) ==> registry_insert(variants, key).0 == variants
            && registry_insert(variants, key).1 == first_index_of(variants, key),
        variants.no_duplicates() ==> forall|j: int|
            0 <= j < variants.len() && variants[j] == key ==> registry_insert(
                variants,
                key,
            ).1 == j,
{
    crate::state::lemma_first_index_of(variants, key);
    if variants.no_duplicates() {
        assert forall|j: int|
            0 <= j < variants.len() && variants[j] == key implies registry_insert(
            variants,
            key,
        ).1 == j by {
            assert(variants.contains(key));
            let fi = first_index_of(variants, key);
            if fi != j {
                assert(variants[fi] == variants[j]);
            }
        }
    }
}

} // verus!

verus! {

/// Law: a tuple- or struct-style variant construction is a call expression,
/// not a bare path, so a `let` bound to one is never marked: the statement
/// pass passes it over and no call is allocated for it.
pub proof fn lemma_construction_not_instrumented(
    st: StateView,
    in_const: bool,
    pattern: u64,
    callee: ExprView,
    args: Seq<ExprView>,
)
    ensures
        stmt_usage(
            st.enum_types,
            StmtView::Local {
                pattern,
                init: Some(ExprView::Call { callee: Box::new(callee), args }),
            },
        ) is None,
        ({
            let m = mark_stmts(
                st,
                in_const,
                seq![
                    StmtView::Local {
                        pattern,
                        init: Some(ExprView::Call { callee: Box::new(callee), args }),
                    },
                ],
            );
            m.st == st && m.emits == Seq::<crate::rewrite::Emit>::empty()
        }),
{
    reveal_with_fuel(mark_stmts, 3);
    let s = StmtView::Local {
        pattern,
        init: Some(ExprView::Call { callee: Box::new(callee), args }),
    };
    assert(seq![s].drop_first() =~= Seq::<StmtView>::empty());
    assert(mark_stmts(st, in_const, seq![s]).emits =~= Seq::<crate::rewrite::Emit>::empty());
}

/// Law: a wrapped argument is a fixed point of the rewrite: the block that
/// performs the injected call and evaluates to the bare path is not a bare
/// path itself, so it is never wrapped again, and nothing inside it — the
/// injected call with its literal arguments, the trailing path — is ever
/// instrumented.  Together with `lemma_injected_call_fixed`, a second run
/// adds no layer around what the first run injected.
pub proof fn lemma_wrapped_arg_fixed(
    st: StateView,
    in_const: bool,
    loc: int,
    state: int,
    segments: Seq<Seq<char>>,
    raw: u64,
)
    ensures
        ({
            let w = wrap_arg(instr_stmt(loc, state), ExprView::PathExpr { segments, raw });
            let r = rw_expr(st, in_const, w);
            &&& arg_usage(st.enum_types, w) is None
            &&& r.st == st
            &&& r.emits == Seq::<crate::rewrite::Emit>::empty()
            &&& r.out == w
        }),
{
    reveal_with_fuel(mark_stmts, 4);
    reveal_with_fuel(mark_args, 4);
    reveal_with_fuel(rw_stmts, 4);
    reveal_with_fuel(rw_args, 4);
    reveal_with_fuel(rw_expr, 4);
    reveal_with_fuel(rw_stmt, 4);
    reveal_with_fuel(rw_block, 4);
    reveal_with_fuel(interleave, 4);
    let tail = StmtView::ExprStmt {
        expr: ExprView::PathExpr { segments, raw },
        has_semi: false,
    };
    let s = instr_stmt(loc, state);
    let stmts = seq![s, tail];
    let b = BlockView { stmts };
    let w = wrap_arg(instr_stmt(loc, state), ExprView::PathExpr { segments, raw });
    assert(w == ExprView::BlockExpr { block: b });
    assert(stmt_usage(st.enum_types, s) is None);
    assert(stmt_usage(st.enum_types, tail) is None);
    assert(stmts.drop_first() =~= seq![tail]);
    assert(stmts.drop_first().drop_first() =~= Seq::<StmtView>::empty());
    let m = mark_stmts(st, in_const, stmts);
    assert(m.st == st && m.marks =~= seq![Option::<StmtView>::None, Option::<StmtView>::None]
        && m.emits =~= Seq::<crate::rewrite::Emit>::empty());
    lemma_injected_call_fixed(st, in_const, loc, state);
    let r0 = rw_stmt(st, in_const, s);
    assert(r0.st == st && r0.emits =~= Seq::<crate::rewrite::Emit>::empty() && r0.out == s) by {
        let rb = rw_block(st, in_const, BlockView { stmts: seq![s] });
        assert(rb.out.stmts =~~= seq![rw_stmt(st, in_const, s).out]);
    }
    let r1 = rw_stmt(st, in_const, tail);
    assert(r1.st == st && r1.emits =~= Seq::<crate::rewrite::Emit>::empty());
    assert(r1.out =~~= tail);
    let rs = rw_stmts(st, in_const, stmts);
    assert(rs.st == st && rs.emits =~= Seq::<crate::rewrite::Emit>::empty());
    assert(rs.out =~~= stmts);
    let rb = rw_block(st, in_const, b);
    assert(rb.emits =~= Seq::<crate::rewrite::Emit>::empty());
    assert(rb.out.stmts =~~= interleave(m.marks, rs.out));
    assert(interleave(m.marks, rs.out) =~~= stmts);
    assert(rw_expr(st, in_const, w).out =~~= w);
}

} // verus!
