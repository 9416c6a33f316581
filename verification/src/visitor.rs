//! The executable transformer: a top-down visitor proved equal to the
//! mathematical rewrite of `rewrite`.

use vstd::prelude::*;
use vstd::string::StringExecFns;

use crate::ast::Block;
use crate::ast::Expr;
use crate::ast::ExprView;
use crate::ast::Item;
use crate::ast::SourceFile;
use crate::ast::Stmt;
use crate::ast::StmtView;
use crate::ast::lemma_view_exprs;
use crate::ast::lemma_view_exprs_cons;
use crate::ast::lemma_view_items_cons;
use crate::ast::lemma_view_stmts_cons;
use crate::ast::lemma_view_items;
use crate::ast::lemma_view_stmts;
use crate::ast::view_block;
use crate::ast::view_expr;
use crate::ast::view_exprs;
use crate::ast::view_item;
use crate::ast::view_items;
use crate::ast::view_stmt;
use crate::ast::view_stmts;
use crate::rewrite::alloc_emit;
use crate::rewrite::arg_usage;
use crate::rewrite::instr_stmt;
use crate::rewrite::interleave;
use crate::rewrite::lemma_mark_args_frame;
use crate::rewrite::lemma_mark_stmts_frame;
use crate::rewrite::lemma_rw_expr_frame;
use crate::rewrite::lemma_rw_item_frame;
use crate::rewrite::lemma_rw_stmt_frame;
use crate::rewrite::lemma_w_exprs_ge_len;
use crate::rewrite::lemma_w_stmts_ge_len;
use crate::rewrite::mark_args;
use crate::rewrite::mark_stmts;
use crate::rewrite::rw_args;
use crate::rewrite::rw_block;
use crate::rewrite::rw_expr;
use crate::rewrite::rw_exprs;
use crate::rewrite::rw_file;
use crate::rewrite::rw_item;
use crate::rewrite::rw_items;
use crate::rewrite::rw_stmt;
use crate::rewrite::rw_stmts;
use crate::rewrite::stmt_usage;
use crate::rewrite::w_block;
use crate::rewrite::w_expr;
use crate::rewrite::w_exprs;
use crate::rewrite::w_file;
use crate::rewrite::w_item;
use crate::rewrite::w_items;
use crate::rewrite::w_stmt;
use crate::rewrite::w_stmts;
use crate::rewrite::wrap_arg;
use crate::state::EnumInstrumenter;
use crate::state::state_wf;

verus! {

/// The views of a sequence of optional injected statements.
pub open spec fn marks_view(s: Seq<Option<Stmt>>) -> Seq<Option<StmtView>> {
    Seq::new(
        s.len(),
        |i: int|
            match s[i] {
                Some(m) => Some(view_stmt(m)),
                None => None,
            },
    )
}

/// Builds the injected statement `sginstrument::instrument(loc, state);`.
fn make_instr_stmt(loc: u32, state: u32) -> (s: Stmt)
    ensures
        s@ == instr_stmt(loc as int, state as int),
{
    let mut segments: Vec<String> = Vec::new();
    segments.push(String::from_str("sginstrument"));
    segments.push(String::from_str("instrument"));
    let mut args: Vec<Expr> = Vec::new();
    args.push(Expr::LitU32 { value: loc });
    args.push(Expr::LitU32 { value: state });
    let s = Stmt::ExprStmt {
        expr: Expr::Call {
            callee: Box::new(Expr::PathExpr { segments, raw: crate::ast::NO_RAW }),
            args,
        },
        has_semi: true,
    };
    proof {
        let target = instr_stmt(loc as int, state as int);
        lemma_view_exprs(args@);
        assert(view_exprs(args@) =~= seq![
            ExprView::LitU32 { value: loc },
            ExprView::LitU32 { value: state },
        ]);
        assert(segments.deep_view() =~= seq!["sginstrument"@, "instrument"@]);
        assert(view_stmt(s) =~~= target);
    }
    s
}

impl EnumInstrumenter {
    /// Generates the instrumentation call for one classified usage: allocates
    /// a location, resolves the variant's state id, and builds the statement
    /// to inject — unless the usage sits in a const context, in which case
    /// nothing is allocated and nothing is injected.
    pub fn create_instrumentation_call(
        &mut self,
        in_const: bool,
        enum_name: &String,
        variant_name: &String,
    ) -> (r: Option<Stmt>)
        requires
            state_wf(old(self)@),
            !in_const ==> old(self)@.next_location < u32::MAX,
        ensures
            state_wf(final(self)@),
            in_const ==> r is None && final(self)@ == old(self)@,
            !in_const ==> ({
                let a = alloc_emit(old(self)@, enum_name@, variant_name@);
                &&& final(self)@ == a.0
                &&& match r {
                    Some(s) => s@ == instr_stmt(a.1.loc, a.1.state),
                    None => false,
                }
            }),
    {
        if in_const {
            return None;
        }
        let loc = self.next_location();
        let key = crate::state::make_variant_key(enum_name, variant_name);
        let id = self.variant_id(key);
        proof {
            let a = alloc_emit(old(self)@, enum_name@, variant_name@);
            assert(self@ =~~= a.0);
        }
        Some(make_instr_stmt(loc, id))
    }

    /// The classified bare usage a statement carries at its top level: a
    /// `let` initialized by a classified path, or an assignment statement
    /// whose right-hand side is one.
    fn stmt_usage_exec(&self, s: &Stmt) -> (r: Option<(String, String)>)
        ensures
            match r {
                Some(u) => stmt_usage(self@.enum_types, s@) == Some((u.0@, u.1@)),
                None => stmt_usage(self@.enum_types, s@) is None,
            },
    {
        match s {
            Stmt::Local { init: Some(e), .. } => match e {
                Expr::PathExpr { segments, .. } => self.extract_enum_info(segments),
                _ => None,
            },
            Stmt::ExprStmt { expr: Expr::Assign { rhs, .. }, .. } => match &**rhs {
                Expr::PathExpr { segments, .. } => self.extract_enum_info(segments),
                _ => None,
            },
            _ => None,
        }
    }

    /// The classified bare usage a call argument is: a classified plain path.
    fn arg_usage_exec(&self, e: &Expr) -> (r: Option<(String, String)>)
        ensures
            match r {
                Some(u) => arg_usage(self@.enum_types, e@) == Some((u.0@, u.1@)),
                None => arg_usage(self@.enum_types, e@) is None,
            },
    {
        match e {
            Expr::PathExpr { segments, .. } => self.extract_enum_info(segments),
            _ => None,
        }
    }

    /// The statement-level pass over a block's statements, from index `i`
    /// on: one optional injected statement per original statement.
    fn mark_stmts_exec(&mut self, in_const: bool, stmts: &Vec<Stmt>, i: usize) -> (marks: Vec<
        Option<Stmt>,
    >)
        requires
            state_wf(old(self)@),
            i <= stmts@.len(),
            old(self)@.next_location + (stmts@.len() - i) <= u32::MAX,
        ensures
            state_wf(final(self)@),
            ({
                let m = mark_stmts(old(self)@, in_const, view_stmts(stmts@).skip(i as int));
                final(self)@ == m.st && marks_view(marks@) == m.marks
            }),
        decreases stmts@.len() - i,
    {
        proof {
            lemma_view_stmts(stmts@);
        }
        if i == stmts.len() {
            let marks: Vec<Option<Stmt>> = Vec::new();
            proof {
                assert(view_stmts(stmts@).skip(i as int) =~= Seq::empty());
                assert(marks_view(marks@) =~= Seq::<Option<StmtView>>::empty());
            }
            return marks;
        }
        let usage = self.stmt_usage_exec(&stmts[i]);
        let mark: Option<Stmt> = match usage {
            Some((e, v)) => self.create_instrumentation_call(in_const, &e, &v),
            None => None,
        };
        let ghost st_mid = self@;
        let mut rest = self.mark_stmts_exec(in_const, stmts, i + 1);
        rest.insert(0, mark);
        proof {
            let tail = view_stmts(stmts@).skip(i as int);
            assert(tail[0] == view_stmt(stmts@[i as int]));
            assert(tail.drop_first() =~= view_stmts(stmts@).skip(i as int + 1));
            let m = mark_stmts(old(self)@, in_const, tail);
            let mrest = mark_stmts(st_mid, in_const, tail.drop_first());
            assert(marks_view(rest@) =~= (match stmt_usage(old(self)@.enum_types, tail[0]) {
                Some(u) => if !in_const {
                    seq![Some(instr_stmt(alloc_emit(old(self)@, u.0, u.1).1.loc, alloc_emit(old(self)@, u.0, u.1).1.state))]
                } else {
                    seq![Option::<StmtView>::None]
                },
                None => seq![Option::<StmtView>::None],
            }) + mrest.marks);
            assert(marks_view(rest@) =~= m.marks);
        }
        rest
    }

    /// The argument pass of a call, from index `i` on: one optional injected
    /// statement per argument.
    fn mark_args_exec(&mut self, in_const: bool, args: &Vec<Expr>, i: usize) -> (marks: Vec<
        Option<Stmt>,
    >)
        requires
            state_wf(old(self)@),
            i <= args@.len(),
            old(self)@.next_location + (args@.len() - i) <= u32::MAX,
        ensures
            state_wf(final(self)@),
            ({
                let m = mark_args(old(self)@, in_const, view_exprs(args@).skip(i as int));
                final(self)@ == m.st && marks_view(marks@) == m.marks
            }),
        decreases args@.len() - i,
    {
        proof {
            lemma_view_exprs(args@);
        }
        if i == args.len() {
            let marks: Vec<Option<Stmt>> = Vec::new();
            proof {
                assert(view_exprs(args@).skip(i as int) =~= Seq::empty());
                assert(marks_view(marks@) =~= Seq::<Option<StmtView>>::empty());
            }
            return marks;
        }
        let usage = self.arg_usage_exec(&args[i]);
        let mark: Option<Stmt> = match usage {
            Some((e, v)) => self.create_instrumentation_call(in_const, &e, &v),
            None => None,
        };
        let ghost st_mid = self@;
        let mut rest = self.mark_args_exec(in_const, args, i + 1);
        rest.insert(0, mark);
        proof {
            let tail = view_exprs(args@).skip(i as int);
            assert(tail[0] == view_expr(args@[i as int]));
            assert(tail.drop_first() =~= view_exprs(args@).skip(i as int + 1));
            let m = mark_args(old(self)@, in_const, tail);
            let mrest = mark_args(st_mid, in_const, tail.drop_first());
            assert(marks_view(rest@) =~= (match arg_usage(old(self)@.enum_types, tail[0]) {
                Some(u) => if !in_const {
                    seq![Some(instr_stmt(alloc_emit(old(self)@, u.0, u.1).1.loc, alloc_emit(old(self)@, u.0, u.1).1.state))]
                } else {
                    seq![Option::<StmtView>::None]
                },
                None => seq![Option::<StmtView>::None],
            }) + mrest.marks);
            assert(marks_view(rest@) =~= m.marks);
        }
        rest
    }
}

} // verus!

verus! {

impl EnumInstrumenter {
    /// Rewrites one expression, in place of the mathematical `rw_expr`.
    pub fn visit_expr(&mut self, in_const: bool, e: Expr) -> (out: Expr)
        requires
            state_wf(old(self)@),
            old(self)@.next_location + w_expr(e@) <= u32::MAX,
        ensures
            state_wf(final(self)@),
            final(self)@ == rw_expr(old(self)@, in_const, e@).st,
            out@ == rw_expr(old(self)@, in_const, e@).out,
        decreases w_expr(e@), 0int,
    {
        match e {
            Expr::PathExpr { segments, raw } => Expr::PathExpr { segments, raw },
            Expr::Assign { lhs, rhs } => {
                proof {
                    lemma_rw_expr_frame(self@, in_const, view_expr(*lhs));
                }
                let l2 = self.visit_expr(in_const, *lhs);
                let r2 = self.visit_expr(in_const, *rhs);
                let out = Expr::Assign { lhs: Box::new(l2), rhs: Box::new(r2) };
                proof {
                    assert(out@ =~~= rw_expr(old(self)@, in_const, e@).out);
                }
                out
            },
            Expr::Call { callee, args } => {
                let ghost st0 = self@;
                let ghost vargs = view_exprs(args@);
                proof {
                    lemma_view_exprs(args@);
                    lemma_w_exprs_ge_len(vargs);
                    assert(vargs.skip(0) =~= vargs);
                }
                let marks = self.mark_args_exec(in_const, &args, 0);
                proof {
                    lemma_mark_args_frame(st0, in_const, vargs);
                    lemma_rw_expr_frame(self@, in_const, view_expr(*callee));
                }
                let c2 = self.visit_expr(in_const, *callee);
                let args2 = self.rewrite_args(in_const, marks, args);
                let out = Expr::Call { callee: Box::new(c2), args: args2 };
                proof {
                    assert(out@ =~~= rw_expr(old(self)@, in_const, e@).out);
                }
                out
            },
            Expr::BlockExpr { block } => {
                let b2 = self.visit_block(in_const, block);
                let out = Expr::BlockExpr { block: b2 };
                proof {
                    assert(out@ =~~= rw_expr(old(self)@, in_const, e@).out);
                }
                out
            },
            Expr::LitU32 { value } => Expr::LitU32 { value },
            Expr::Opaque { handle, children } => {
                let out_children = self.visit_exprs(in_const, children);
                let out = Expr::Opaque { handle, children: out_children };
                proof {
                    assert(out@ =~~= rw_expr(old(self)@, in_const, e@).out);
                }
                out
            },
        }
    }

    /// Descends into the expressions directly under an opaque expression.
    fn visit_exprs(&mut self, in_const: bool, s: Vec<Expr>) -> (out: Vec<Expr>)
        requires
            state_wf(old(self)@),
            old(self)@.next_location + w_exprs(view_exprs(s@)) <= u32::MAX,
        ensures
            state_wf(final(self)@),
            final(self)@ == rw_exprs(old(self)@, in_const, view_exprs(s@)).st,
            view_exprs(out@) == rw_exprs(old(self)@, in_const, view_exprs(s@)).out,
        decreases w_exprs(view_exprs(s@)), 1int,
    {
        let ghost st0 = self@;
        let ghost eseq0 = s@;
        let ghost vexprs0 = view_exprs(s@);
        proof {
            lemma_view_exprs(eseq0);
        }
        if s.len() == 0 {
            let out: Vec<Expr> = Vec::new();
            proof {
                assert(vexprs0 =~= Seq::<ExprView>::empty());
                assert(view_exprs(out@) =~= Seq::<ExprView>::empty());
                assert(view_exprs(out@) =~= rw_exprs(st0, in_const, vexprs0).out);
            }
            return out;
        }
        let mut s = s;
        let e0 = s.remove(0);
        proof {
            assert(s@ =~= eseq0.drop_first());
            assert(view_exprs(s@) =~= vexprs0.drop_first());
            assert(view_expr(e0) == vexprs0[0]);
            assert(w_expr(vexprs0[0]) >= 1);
        }
        let e2 = self.visit_expr(in_const, e0);
        proof {
            lemma_rw_expr_frame(st0, in_const, vexprs0[0]);
        }
        let mut rest = self.visit_exprs(in_const, s);
        let ghost rseq = rest@;
        let ghost rest_view = view_exprs(rseq);
        rest.insert(0, e2);
        proof {
            assert(rest@ =~= seq![e2] + rseq);
            lemma_view_exprs_cons(e2, rseq);
            assert(view_exprs(rest@) =~= seq![view_expr(e2)] + rest_view);
            assert(view_exprs(rest@) =~= rw_exprs(st0, in_const, vexprs0).out);
        }
        rest
    }

    /// Descends into a call's arguments: wraps each marked argument with its
    /// injected statement, rewrites the others.
    #[verifier::rlimit(60)]
    fn rewrite_args(&mut self, in_const: bool, marks: Vec<Option<Stmt>>, args: Vec<Expr>) -> (out:
        Vec<Expr>)
        requires
            state_wf(old(self)@),
            marks@.len() == args@.len(),
            old(self)@.next_location + w_exprs(view_exprs(args@)) <= u32::MAX,
        ensures
            state_wf(final(self)@),
            final(self)@ == rw_args(
                old(self)@,
                in_const,
                marks_view(marks@),
                view_exprs(args@),
            ).st,
            view_exprs(out@) == rw_args(
                old(self)@,
                in_const,
                marks_view(marks@),
                view_exprs(args@),
            ).out,
        decreases w_exprs(view_exprs(args@)), 1int,
    {
        let ghost st0 = self@;
        let ghost aseq0 = args@;
        let ghost vargs0 = view_exprs(args@);
        let ghost mv0 = marks_view(marks@);
        proof {
            lemma_view_exprs(aseq0);
        }
        if args.len() == 0 {
            let out: Vec<Expr> = Vec::new();
            proof {
                assert(vargs0 =~= Seq::<ExprView>::empty());
                assert(view_exprs(out@) =~= Seq::<ExprView>::empty());
                assert(view_exprs(out@) =~= rw_args(st0, in_const, mv0, vargs0).out);
            }
            return out;
        }
        let mut args = args;
        let mut marks = marks;
        let arg0 = args.remove(0);
        let mark0 = marks.remove(0);
        proof {
            assert(args@ =~= aseq0.drop_first());
            assert(view_exprs(args@) =~= vargs0.drop_first());
            assert(marks_view(marks@) =~= mv0.drop_first());
            assert(view_expr(arg0) == vargs0[0]);
            assert(w_expr(vargs0[0]) >= 1);
        }
        match mark0 {
            Some(m) => {
                let ghost mview = view_stmt(m);
                proof {
                    assert(mv0[0] == Some(mview));
                }
                let mut stmts_v: Vec<Stmt> = Vec::new();
                stmts_v.push(m);
                stmts_v.push(Stmt::ExprStmt { expr: arg0, has_semi: false });
                let ghost sv = stmts_v@;
                let blk = Block { stmts: stmts_v };
                proof {
                    lemma_view_stmts(sv);
                    assert(view_stmts(sv) =~= seq![
                        mview,
                        StmtView::ExprStmt { expr: vargs0[0], has_semi: false },
                    ]);
                    assert(view_block(blk) =~~= wrap_arg(mview, vargs0[0])->block);
                }
                let wrapped = Expr::BlockExpr { block: blk };
                proof {
                    assert(view_expr(wrapped) =~~= wrap_arg(mview, vargs0[0]));
                }
                let mut rest = self.rewrite_args(in_const, marks, args);
                let ghost rseq = rest@;
                let ghost rest_view = view_exprs(rseq);
                rest.insert(0, wrapped);
                proof {
                    assert(rest@ =~= seq![wrapped] + rseq);
                    lemma_view_exprs_cons(wrapped, rseq);
                    assert(view_exprs(rest@) =~= seq![view_expr(wrapped)] + rest_view);
                    assert(view_exprs(rest@) =~= rw_args(st0, in_const, mv0, vargs0).out);
                }
                rest
            },
            None => {
                proof {
                    assert(mv0[0] is None);
                }
                let a2 = self.visit_expr(in_const, arg0);
                proof {
                    lemma_rw_expr_frame(st0, in_const, vargs0[0]);
                }
                let mut rest = self.rewrite_args(in_const, marks, args);
                let ghost rseq = rest@;
                let ghost rest_view = view_exprs(rseq);
                rest.insert(0, a2);
                proof {
                    assert(rest@ =~= seq![a2] + rseq);
                    lemma_view_exprs_cons(a2, rseq);
                    assert(view_exprs(rest@) =~= seq![view_expr(a2)] + rest_view);
                    assert(view_exprs(rest@) =~= rw_args(st0, in_const, mv0, vargs0).out);
                }
                rest
            },
        }
    }
}

} // verus!

verus! {

impl EnumInstrumenter {
    /// Rewrites one block: the statement-level pass, then the descent, with
    /// the injected statements interleaved before their statements.
    pub fn visit_block(&mut self, in_const: bool, b: Block) -> (out: Block)
        requires
            state_wf(old(self)@),
            old(self)@.next_location + w_block(b@) <= u32::MAX,
        ensures
            state_wf(final(self)@),
            final(self)@ == rw_block(old(self)@, in_const, b@).st,
            out@ == rw_block(old(self)@, in_const, b@).out,
        decreases w_block(b@), 0int,
    {
        let ghost st0 = self@;
        let ghost bv = b@;
        let Block { stmts } = b;
        let ghost vstmts = view_stmts(stmts@);
        proof {
            lemma_view_stmts(stmts@);
            lemma_w_stmts_ge_len(vstmts);
            assert(vstmts.skip(0) =~= vstmts);
        }
        let marks = self.mark_stmts_exec(in_const, &stmts, 0);
        proof {
            lemma_mark_stmts_frame(st0, in_const, vstmts);
        }
        let out_stmts = self.rewrite_stmts(in_const, marks, stmts);
        let out = Block { stmts: out_stmts };
        proof {
            assert(out@ =~~= rw_block(st0, in_const, bv).out);
        }
        out
    }

    /// Descends into the statements of one block, interleaving the marks.
    #[verifier::rlimit(60)]
    fn rewrite_stmts(&mut self, in_const: bool, marks: Vec<Option<Stmt>>, stmts: Vec<Stmt>) -> (out:
        Vec<Stmt>)
        requires
            state_wf(old(self)@),
            marks@.len() == stmts@.len(),
            old(self)@.next_location + w_stmts(view_stmts(stmts@)) <= u32::MAX,
        ensures
            state_wf(final(self)@),
            final(self)@ == rw_stmts(old(self)@, in_const, view_stmts(stmts@)).st,
            view_stmts(out@) == interleave(
                marks_view(marks@),
                rw_stmts(old(self)@, in_const, view_stmts(stmts@)).out,
            ),
        decreases w_stmts(view_stmts(stmts@)), 1int,
    {
        let ghost st0 = self@;
        let ghost sseq0 = stmts@;
        let ghost vstmts0 = view_stmts(stmts@);
        let ghost mv0 = marks_view(marks@);
        proof {
            lemma_view_stmts(sseq0);
        }
        if stmts.len() == 0 {
            let out: Vec<Stmt> = Vec::new();
            proof {
                assert(vstmts0 =~= Seq::<StmtView>::empty());
                assert(view_stmts(out@) =~= Seq::<StmtView>::empty());
                assert(view_stmts(out@) =~= interleave(mv0, rw_stmts(st0, in_const, vstmts0).out));
            }
            return out;
        }
        let mut stmts = stmts;
        let mut marks = marks;
        let s0 = stmts.remove(0);
        let m0 = marks.remove(0);
        proof {
            assert(stmts@ =~= sseq0.drop_first());
            assert(view_stmts(stmts@) =~= vstmts0.drop_first());
            assert(marks_view(marks@) =~= mv0.drop_first());
            assert(view_stmt(s0) == vstmts0[0]);
            assert(w_stmt(vstmts0[0]) >= 1);
        }
        let s2 = self.visit_stmt(in_const, s0);
        proof {
            lemma_rw_stmt_frame(st0, in_const, vstmts0[0]);
        }
        let mut rest = self.rewrite_stmts(in_const, marks, stmts);
        let ghost rseq = rest@;
        let ghost rest_view = view_stmts(rseq);
        rest.insert(0, s2);
        proof {
            assert(rest@ =~= seq![s2] + rseq);
            lemma_view_stmts_cons(s2, rseq);
            assert(view_stmts(rest@) =~= seq![view_stmt(s2)] + rest_view);
        }
        let ghost routs = rw_stmts(st0, in_const, vstmts0).out;
        proof {
            assert(routs.drop_first() =~= rw_stmts(
                rw_stmt(st0, in_const, vstmts0[0]).st,
                in_const,
                vstmts0.drop_first(),
            ).out);
        }
        match m0 {
            Some(m) => {
                let ghost rseq2 = rest@;
                let ghost rv2 = view_stmts(rseq2);
                rest.insert(0, m);
                proof {
                    assert(mv0[0] == Some(view_stmt(m)));
                    assert(rest@ =~= seq![m] + rseq2);
                    lemma_view_stmts_cons(m, rseq2);
                    assert(view_stmts(rest@) =~= seq![view_stmt(m)] + rv2);
                    assert(view_stmts(rest@) =~= interleave(mv0, routs));
                }
            },
            None => {
                proof {
                    assert(mv0[0] is None);
                    assert(view_stmts(rest@) =~= interleave(mv0, routs));
                }
            },
        }
        rest
    }

    /// Descends into one statement.
    pub fn visit_stmt(&mut self, in_const: bool, s: Stmt) -> (out: Stmt)
        requires
            state_wf(old(self)@),
            old(self)@.next_location + w_stmt(s@) <= u32::MAX,
        ensures
            state_wf(final(self)@),
            final(self)@ == rw_stmt(old(self)@, in_const, s@).st,
            out@ == rw_stmt(old(self)@, in_const, s@).out,
        decreases w_stmt(s@), 0int,
    {
        let ghost st0 = self@;
        let ghost sv = s@;
        match s {
            Stmt::Local { pattern, init } => match init {
                Some(e) => {
                    let e2 = self.visit_expr(in_const, e);
                    let out = Stmt::Local { pattern, init: Some(e2) };
                    proof {
                        assert(out@ =~~= rw_stmt(st0, in_const, sv).out);
                    }
                    out
                },
                None => Stmt::Local { pattern, init: None },
            },
            Stmt::ExprStmt { expr, has_semi } => {
                let e2 = self.visit_expr(in_const, expr);
                let out = Stmt::ExprStmt { expr: e2, has_semi };
                proof {
                    assert(out@ =~~= rw_stmt(st0, in_const, sv).out);
                }
                out
            },
            Stmt::ItemStmt { item } => {
                let it2 = self.visit_item(in_const, *item);
                let out = Stmt::ItemStmt { item: Box::new(it2) };
                proof {
                    assert(out@ =~~= rw_stmt(st0, in_const, sv).out);
                }
                out
            },
            Stmt::Opaque { handle } => Stmt::Opaque { handle },
        }
    }

    /// Visits one item: records an enum declaration's name, descends into a
    /// function body (under the const flag if the function is const), puts a
    /// const or static initializer under the const flag, and passes every
    /// opaque item through.
    pub fn visit_item(&mut self, in_const: bool, it: Item) -> (out: Item)
        requires
            state_wf(old(self)@),
            old(self)@.next_location + w_item(it@) <= u32::MAX,
        ensures
            state_wf(final(self)@),
            final(self)@ == rw_item(old(self)@, in_const, it@).st,
            out@ == rw_item(old(self)@, in_const, it@).out,
        decreases w_item(it@), 0int,
    {
        let ghost st0 = self@;
        let ghost iv = it@;
        match it {
            Item::EnumDecl { name, decl } => {
                self.record_enum_type(&name);
                let out = Item::EnumDecl { name, decl };
                proof {
                    assert(self@ =~~= rw_item(st0, in_const, iv).st);
                }
                out
            },
            Item::FnDecl { sig, is_const, body } => {
                let b2 = self.visit_block(in_const || is_const, body);
                let out = Item::FnDecl { sig, is_const, body: b2 };
                proof {
                    assert(out@ =~~= rw_item(st0, in_const, iv).out);
                }
                out
            },
            Item::ConstDecl { head, init } => {
                let e2 = self.visit_expr(true, init);
                let out = Item::ConstDecl { head, init: e2 };
                proof {
                    assert(out@ =~~= rw_item(st0, in_const, iv).out);
                }
                out
            },
            Item::StaticDecl { head, init } => {
                let e2 = self.visit_expr(true, init);
                let out = Item::StaticDecl { head, init: e2 };
                proof {
                    assert(out@ =~~= rw_item(st0, in_const, iv).out);
                }
                out
            },
            Item::Opaque { handle, children } => {
                proof {
                    lemma_view_items(children@);
                }
                let out_children = self.visit_items(in_const, children);
                let out = Item::Opaque { handle, children: out_children };
                proof {
                    assert(out@ =~~= rw_item(st0, in_const, iv).out);
                }
                out
            },
        }
    }

    /// Visits a sequence of items in order.
    #[verifier::rlimit(60)]
    fn visit_items(&mut self, in_const: bool, items: Vec<Item>) -> (out: Vec<Item>)
        requires
            state_wf(old(self)@),
            old(self)@.next_location + w_items(view_items(items@)) <= u32::MAX,
        ensures
            state_wf(final(self)@),
            final(self)@ == rw_items(old(self)@, in_const, view_items(items@)).st,
            view_items(out@) == rw_items(old(self)@, in_const, view_items(items@)).out,
        decreases w_items(view_items(items@)), 1int,
    {
        let ghost st0 = self@;
        let ghost iseq0 = items@;
        let ghost vitems0 = view_items(items@);
        proof {
            lemma_view_items(iseq0);
        }
        if items.len() == 0 {
            let out: Vec<Item> = Vec::new();
            proof {
                assert(vitems0 =~= Seq::<crate::ast::ItemView>::empty());
                assert(view_items(out@) =~= Seq::<crate::ast::ItemView>::empty());
                assert(view_items(out@) =~= rw_items(st0, in_const, vitems0).out);
            }
            return out;
        }
        let mut items = items;
        let i0 = items.remove(0);
        proof {
            assert(items@ =~= iseq0.drop_first());
            assert(view_items(items@) =~= vitems0.drop_first());
            assert(view_item(i0) == vitems0[0]);
            assert(w_item(vitems0[0]) >= 1);
        }
        let i2 = self.visit_item(in_const, i0);
        proof {
            lemma_rw_item_frame(st0, in_const, vitems0[0]);
        }
        let mut rest = self.visit_items(in_const, items);
        let ghost rseq = rest@;
        let ghost rest_view = view_items(rseq);
        rest.insert(0, i2);
        proof {
            assert(rest@ =~= seq![i2] + rseq);
            lemma_view_items_cons(i2, rseq);
            assert(view_items(rest@) =~= seq![view_item(i2)] + rest_view);
            assert(view_items(rest@) =~= rw_items(st0, in_const, vitems0).out);
        }
        rest
    }

    /// Rewrites a whole file top-down: declarations are recorded before later
    /// usages are classified, and every injected call carries a fresh
    /// location id and the stable state id of its variant.
    pub fn visit_file(&mut self, f: SourceFile) -> (out: SourceFile)
        requires
            state_wf(old(self)@),
            old(self)@.next_location + w_file(f@) <= u32::MAX,
        ensures
            state_wf(final(self)@),
            final(self)@ == rw_file(old(self)@, f@).st,
            out@ == rw_file(old(self)@, f@).out,
    {
        let ghost st0 = self@;
        let ghost fv = f@;
        let SourceFile { items } = f;
        proof {
            assert(fv.items == view_items(items@));
        }
        let out_items = self.visit_items(false, items);
        let out = SourceFile { items: out_items };
        proof {
            assert(out@ =~~= rw_file(st0, fv).out);
        }
        out
    }
}

} // verus!

verus! {

/// A value capped at the largest `u64`.
pub open spec fn sat64(n: nat) -> nat {
    if n > u64::MAX {
        u64::MAX as nat
    } else {
        n
    }
}

/// Saturating addition over the capped weights.
fn sat_add(a: u64, b: u64) -> (r: u64)
    ensures
        r as nat == sat64(a as nat + b as nat),
{
    if a <= u64::MAX - b {
        a + b
    } else {
        u64::MAX
    }
}

/// Capping twice is capping once: saturated summands do not lose the cap.
proof fn lemma_sat_fold(k: nat, a: nat)
    ensures
        sat64(k + sat64(a)) == sat64(k + a),
{
}

/// The budget of one expression, capped.
fn weight_expr(e: &Expr) -> (w: u64)
    ensures
        w as nat == sat64(w_expr(e@)),
    decreases w_expr(e@), 0int,
{
    match e {
        Expr::PathExpr { segments, raw } => 1,
        Expr::Assign { lhs, rhs } => {
            let wl = weight_expr(lhs);
            let wr = weight_expr(rhs);
            let r = sat_add(1, sat_add(wl, wr));
            proof {
                lemma_sat_fold(1 + w_expr(lhs@), w_expr(rhs@));
                lemma_sat_fold(1nat, w_expr(lhs@) + sat64(w_expr(rhs@)));
                lemma_sat_fold(1nat, w_expr(lhs@) + w_expr(rhs@));
            }
            r
        },
        Expr::Call { callee, args } => {
            let ghost vargs = view_exprs(args@);
            proof {
                lemma_view_exprs(args@);
                assert(vargs.skip(0) =~= vargs);
            }
            let wc = weight_expr(callee);
            let wa = weight_exprs(args, 0);
            let r = sat_add(1, sat_add(wc, sat_add(args.len() as u64, wa)));
            proof {
                let c = w_expr(callee@);
                let n = args@.len();
                let a = w_exprs(vargs);
                lemma_sat_fold(n, a);
                lemma_sat_fold(c + n, a);
                lemma_sat_fold(1 + c + n, a);
                lemma_sat_fold(1nat, c + sat64(n + a));
                lemma_sat_fold(1nat, c + n + a);
            }
            r
        },
        Expr::BlockExpr { block } => {
            let wb = weight_block(block);
            let r = sat_add(1, wb);
            proof {
                lemma_sat_fold(1nat, w_block(block@));
            }
            r
        },
        Expr::LitU32 { value } => 1,
        Expr::Opaque { handle, children } => {
            let ghost vkids = view_exprs(children@);
            proof {
                lemma_view_exprs(children@);
                assert(vkids.skip(0) =~= vkids);
            }
            let wk = weight_exprs(children, 0);
            let r = sat_add(1, wk);
            proof {
                lemma_sat_fold(1nat, w_exprs(vkids));
            }
            r
        },
    }
}

/// The summed budget of the expressions from index `i` on, capped.
fn weight_exprs(args: &Vec<Expr>, i: usize) -> (w: u64)
    requires
        i <= args@.len(),
    ensures
        w as nat == sat64(w_exprs(view_exprs(args@).skip(i as int))),
    decreases w_exprs(view_exprs(args@).skip(i as int)), 1int,
{
    let ghost tail = view_exprs(args@).skip(i as int);
    proof {
        lemma_view_exprs(args@);
    }
    if i == args.len() {
        proof {
            assert(tail =~= Seq::<ExprView>::empty());
        }
        return 0;
    }
    proof {
        assert(tail[0] == view_expr(args@[i as int]));
        assert(tail.drop_first() =~= view_exprs(args@).skip(i as int + 1));
        assert(w_expr(tail[0]) >= 1);
    }
    let w0 = weight_expr(&args[i]);
    let wr = weight_exprs(args, i + 1);
    let r = sat_add(w0, wr);
    proof {
        lemma_sat_fold(w_expr(tail[0]), w_exprs(tail.drop_first()));
        assert(sat64(sat64(w_expr(tail[0])) + sat64(w_exprs(tail.drop_first()))) == sat64(
            w_expr(tail[0]) + w_exprs(tail.drop_first()),
        )) by {
            lemma_sat_fold(0nat, w_expr(tail[0]));
            lemma_sat_fold(sat64(w_expr(tail[0])), w_exprs(tail.drop_first()));
            lemma_sat_fold(w_expr(tail[0]), w_exprs(tail.drop_first()));
        }
    }
    r
}

/// The budget of one statement, capped.
fn weight_stmt(s: &Stmt) -> (w: u64)
    ensures
        w as nat == sat64(w_stmt(s@)),
    decreases w_stmt(s@), 0int,
{
    match s {
        Stmt::Local { pattern, init } => match init {
            Some(e) => {
                let we = weight_expr(e);
                let r = sat_add(1, we);
                proof {
                    lemma_sat_fold(1nat, w_expr(e@));
                }
                r
            },
            None => 1,
        },
        Stmt::ExprStmt { expr, has_semi } => {
            let we = weight_expr(expr);
            let r = sat_add(1, we);
            proof {
                lemma_sat_fold(1nat, w_expr(expr@));
            }
            r
        },
        Stmt::ItemStmt { item } => {
            let wi = weight_item(item);
            let r = sat_add(1, wi);
            proof {
                lemma_sat_fold(1nat, w_item(item@));
            }
            r
        },
        Stmt::Opaque { handle } => 1,
    }
}

/// The summed budget of the statements from index `i` on, capped.
fn weight_stmts(stmts: &Vec<Stmt>, i: usize) -> (w: u64)
    requires
        i <= stmts@.len(),
    ensures
        w as nat == sat64(w_stmts(view_stmts(stmts@).skip(i as int))),
    decreases w_stmts(view_stmts(stmts@).skip(i as int)), 1int,
{
    let ghost tail = view_stmts(stmts@).skip(i as int);
    proof {
        lemma_view_stmts(stmts@);
    }
    if i == stmts.len() {
        proof {
            assert(tail =~= Seq::<StmtView>::empty());
        }
        return 0;
    }
    proof {
        assert(tail[0] == view_stmt(stmts@[i as int]));
        assert(tail.drop_first() =~= view_stmts(stmts@).skip(i as int + 1));
        assert(w_stmt(tail[0]) >= 1);
    }
    let w0 = weight_stmt(&stmts[i]);
    let wr = weight_stmts(stmts, i + 1);
    let r = sat_add(w0, wr);
    proof {
        assert(sat64(sat64(w_stmt(tail[0])) + sat64(w_stmts(tail.drop_first()))) == sat64(
            w_stmt(tail[0]) + w_stmts(tail.drop_first()),
        )) by {
            lemma_sat_fold(sat64(w_stmt(tail[0])), w_stmts(tail.drop_first()));
            lemma_sat_fold(w_stmt(tail[0]), w_stmts(tail.drop_first()));
        }
    }
    r
}

/// The budget of one block, capped.
fn weight_block(b: &Block) -> (w: u64)
    ensures
        w as nat == sat64(w_block(b@)),
    decreases w_block(b@), 0int,
{
    let ghost vstmts = view_stmts(b.stmts@);
    proof {
        lemma_view_stmts(b.stmts@);
        assert(vstmts.skip(0) =~= vstmts);
    }
    let ws = weight_stmts(&b.stmts, 0);
    let r = sat_add(1, sat_add(b.stmts.len() as u64, ws));
    proof {
        let n = b.stmts@.len();
        let a = w_stmts(vstmts);
        lemma_sat_fold(n, a);
        lemma_sat_fold(1 + n, a);
        lemma_sat_fold(1nat, n + sat64(a));
        lemma_sat_fold(1nat, n + a);
    }
    r
}

/// The budget of one item, capped.
fn weight_item(it: &Item) -> (w: u64)
    ensures
        w as nat == sat64(w_item(it@)),
    decreases w_item(it@), 0int,
{
    match it {
        Item::EnumDecl { name, decl } => 1,
        Item::FnDecl { sig, is_const, body } => {
            let wb = weight_block(body);
            let r = sat_add(1, wb);
            proof {
                lemma_sat_fold(1nat, w_block(body@));
            }
            r
        },
        Item::ConstDecl { head, init } => {
            let we = weight_expr(init);
            let r = sat_add(1, we);
            proof {
                lemma_sat_fold(1nat, w_expr(init@));
            }
            r
        },
        Item::StaticDecl { head, init } => {
            let we = weight_expr(init);
            let r = sat_add(1, we);
            proof {
                lemma_sat_fold(1nat, w_expr(init@));
            }
            r
        },
        Item::Opaque { handle, children } => {
            let ghost vkids = view_items(children@);
            proof {
                lemma_view_items(children@);
                assert(vkids.skip(0) =~= vkids);
            }
            let wk = weight_items(children, 0);
            let r = sat_add(1, wk);
            proof {
                lemma_sat_fold(1nat, w_items(vkids));
            }
            r
        },
    }
}

/// The summed budget of the items from index `i` on, capped.
fn weight_items(items: &Vec<Item>, i: usize) -> (w: u64)
    requires
        i <= items@.len(),
    ensures
        w as nat == sat64(w_items(view_items(items@).skip(i as int))),
    decreases w_items(view_items(items@).skip(i as int)), 1int,
{
    let ghost tail = view_items(items@).skip(i as int);
    proof {
        lemma_view_items(items@);
    }
    if i == items.len() {
        proof {
            assert(tail =~= Seq::<crate::ast::ItemView>::empty());
        }
        return 0;
    }
    proof {
        assert(tail[0] == view_item(items@[i as int]));
        assert(tail.drop_first() =~= view_items(items@).skip(i as int + 1));
        assert(w_item(tail[0]) >= 1);
    }
    let w0 = weight_item(&items[i]);
    let wr = weight_items(items, i + 1);
    let r = sat_add(w0, wr);
    proof {
        assert(sat64(sat64(w_item(tail[0])) + sat64(w_items(tail.drop_first()))) == sat64(
            w_item(tail[0]) + w_items(tail.drop_first()),
        )) by {
            lemma_sat_fold(sat64(w_item(tail[0])), w_items(tail.drop_first()));
            lemma_sat_fold(w_item(tail[0]), w_items(tail.drop_first()));
        }
    }
    r
}

/// The worst-case number of locations a file can demand, capped.
pub fn weight_file(f: &SourceFile) -> (w: u64)
    ensures
        w as nat == sat64(w_file(f@)),
{
    let ghost vitems = view_items(f.items@);
    proof {
        assert(vitems.skip(0) =~= vitems);
    }
    let wi = weight_items(&f.items, 0);
    let r = sat_add(1, wi);
    proof {
        lemma_sat_fold(1nat, w_items(vitems));
    }
    r
}

/// What instrumenting one file came to.
#[derive(Debug)]
pub enum InstrumentOutcome {
    /// The rewritten file.
    Instrumented(SourceFile),
    /// The file given back unchanged: rewriting it could have exhausted the
    /// location ids.
    TooLarge(SourceFile),
}

impl EnumInstrumenter {
    /// Rewrites one file, sharing this state with every file of the run.  A
    /// file whose worst-case location demand no longer fits the 32-bit
    /// location counter is handed back unchanged.
    pub fn instrument_file(&mut self, f: SourceFile) -> (r: InstrumentOutcome)
        requires
            state_wf(old(self)@),
        ensures
            state_wf(final(self)@),
            match r {
                InstrumentOutcome::Instrumented(out) => {
                    &&& old(self)@.next_location + w_file(f@) <= u32::MAX
                    &&& final(self)@ == rw_file(old(self)@, f@).st
                    &&& out@ == rw_file(old(self)@, f@).out
                },
                InstrumentOutcome::TooLarge(out) => {
                    &&& old(self)@.next_location + w_file(f@) > u32::MAX
                    &&& final(self)@ == old(self)@
                    &&& out == f
                },
            },
    {
        let w = weight_file(&f);
        if w <= u32::MAX as u64 && self.location_counter as u64 <= u32::MAX as u64 - w {
            let out = self.visit_file(f);
            InstrumentOutcome::Instrumented(out)
        } else {
            proof {
                assert(self@.next_location + w_file(f@) > u32::MAX);
            }
            InstrumentOutcome::TooLarge(f)
        }
    }
}

} // verus!
