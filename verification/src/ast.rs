//! The syntax-tree model the transformer works on.
//!
//! A file is reduced to the node shapes the rewrite acts on: enum
//! declarations, functions (with their const-ness), const and static items,
//! blocks of statements, and the expression shapes that can host a bare
//! variant usage.  Every other node is carried through as an opaque handle:
//! a number the driver uses to look the original node up again, and which
//! the transformer passes through untouched.

use vstd::prelude::*;

verus! {

/// A whole source file: its items in order.
#[derive(Debug, PartialEq, Eq)]
pub struct SourceFile {
    pub items: Vec<Item>,
}

/// A top-level or nested item.
#[derive(Debug, PartialEq, Eq)]
pub enum Item {
    /// An enum declaration: its name and an opaque handle for the rest.
    EnumDecl { name: String, decl: u64 },
    /// A function: an opaque handle for its signature, whether it is a
    /// `const fn`, and its body.
    FnDecl { sig: u64, is_const: bool, body: Block },
    /// A const item: an opaque handle for its head and its initializer.
    ConstDecl { head: u64, init: Expr },
    /// A static item: an opaque handle for its head and its initializer.
    StaticDecl { head: u64, init: Expr },
    /// Any other item: an opaque handle for its own shape, and the items
    /// directly under it (an impl's or trait's function members with their
    /// const-ness and bodies, its const members, an inline module's items),
    /// which the rewrite descends into in order.
    Opaque { handle: u64, children: Vec<Item> },
}

/// A block: a statement sequence.  A trailing expression is a statement
/// without a semicolon, as the external parser represents it.
#[derive(Debug, PartialEq, Eq)]
pub struct Block {
    pub stmts: Vec<Stmt>,
}

/// A statement.
#[derive(Debug, PartialEq, Eq)]
pub enum Stmt {
    /// A `let` binding: an opaque handle for its pattern and its
    /// initializer, if any.
    Local { pattern: u64, init: Option<Expr> },
    /// An expression statement, with or without a semicolon.
    ExprStmt { expr: Expr, has_semi: bool },
    /// An item declared inside a block.
    ItemStmt { item: Box<Item> },
    /// Any other statement, untouched by the rewrite.
    Opaque { handle: u64 },
}

/// An expression.
#[derive(Debug, PartialEq, Eq)]
pub enum Expr {
    /// A path such as `Status::Active`: its segment names in order, for
    /// classification, and an opaque handle for the path's exact original
    /// form (qualifiers, generic arguments), which the rewrite never changes.
    /// An injected call's path carries `NO_RAW` instead: it has no original.
    PathExpr { segments: Vec<String>, raw: u64 },
    /// An assignment expression.
    Assign { lhs: Box<Expr>, rhs: Box<Expr> },
    /// A call expression.
    Call { callee: Box<Expr>, args: Vec<Expr> },
    /// A block expression.
    BlockExpr { block: Block },
    /// An unsigned 32-bit integer literal, as the injected calls use.
    LitU32 { value: u32 },
    /// Any other expression: an opaque handle for its own shape, and the
    /// expressions and blocks directly under it (an `if`'s condition and
    /// branches, a loop body, a closure body, a method call's receiver and
    /// arguments), which the rewrite descends into in order.
    Opaque { handle: u64, children: Vec<Expr> },
}

/// The `raw` handle of a path the rewrite created itself.
pub const NO_RAW: u64 = u64::MAX;

/// Mathematical model of a source file.
#[verifier::ext_equal]
pub struct FileView {
    pub items: Seq<ItemView>,
}

/// Mathematical model of an item.
#[verifier::ext_equal]
pub enum ItemView {
    EnumDecl { name: Seq<char>, decl: u64 },
    FnDecl { sig: u64, is_const: bool, body: BlockView },
    ConstDecl { head: u64, init: ExprView },
    StaticDecl { head: u64, init: ExprView },
    Opaque { handle: u64, children: Seq<ItemView> },
}

/// Mathematical model of a block.
#[verifier::ext_equal]
pub struct BlockView {
    pub stmts: Seq<StmtView>,
}

/// Mathematical model of a statement.
#[verifier::ext_equal]
pub enum StmtView {
    Local { pattern: u64, init: Option<ExprView> },
    ExprStmt { expr: ExprView, has_semi: bool },
    ItemStmt { item: Box<ItemView> },
    Opaque { handle: u64 },
}

/// Mathematical model of an expression.
#[verifier::ext_equal]
pub enum ExprView {
    PathExpr { segments: Seq<Seq<char>>, raw: u64 },
    Assign { lhs: Box<ExprView>, rhs: Box<ExprView> },
    Call { callee: Box<ExprView>, args: Seq<ExprView> },
    BlockExpr { block: BlockView },
    LitU32 { value: u32 },
    Opaque { handle: u64, children: Seq<ExprView> },
}

pub open spec fn view_file(f: SourceFile) -> FileView {
    FileView { items: view_items(f.items@) }
}

pub open spec fn view_items(s: Seq<Item>) -> Seq<ItemView>
    decreases s,
{
    if s.len() == 0 {
        Seq::empty()
    } else {
        seq![view_item(s[0])] + view_items(s.drop_first())
    }
}

pub open spec fn view_item(i: Item) -> ItemView
    decreases i,
{
    match i {
        Item::EnumDecl { name, decl } => ItemView::EnumDecl { name: name@, decl },
        Item::FnDecl { sig, is_const, body } => ItemView::FnDecl {
            sig,
            is_const,
            body: view_block(body),
        },
        Item::ConstDecl { head, init } => ItemView::ConstDecl { head, init: view_expr(init) },
        Item::StaticDecl { head, init } => ItemView::StaticDecl { head, init: view_expr(init) },
        Item::Opaque { handle, children } => ItemView::Opaque {
            handle,
            children: view_items(children@),
        },
    }
}

pub open spec fn view_block(b: Block) -> BlockView
    decreases b,
{
    BlockView { stmts: view_stmts(b.stmts@) }
}

pub open spec fn view_stmts(s: Seq<Stmt>) -> Seq<StmtView>
    decreases s,
{
    if s.len() == 0 {
        Seq::empty()
    } else {
        seq![view_stmt(s[0])] + view_stmts(s.drop_first())
    }
}

pub open spec fn view_stmt(s: Stmt) -> StmtView
    decreases s,
{
    match s {
        Stmt::Local { pattern, init } => StmtView::Local {
            pattern,
            init: match init {
                Some(e) => Some(view_expr(e)),
                None => None,
            },
        },
        Stmt::ExprStmt { expr, has_semi } => StmtView::ExprStmt {
            expr: view_expr(expr),
            has_semi,
        },
        Stmt::ItemStmt { item } => StmtView::ItemStmt { item: Box::new(view_item(*item)) },
        Stmt::Opaque { handle } => StmtView::Opaque { handle },
    }
}

pub open spec fn view_exprs(s: Seq<Expr>) -> Seq<ExprView>
    decreases s,
{
    if s.len() == 0 {
        Seq::empty()
    } else {
        seq![view_expr(s[0])] + view_exprs(s.drop_first())
    }
}

pub open spec fn view_expr(e: Expr) -> ExprView
    decreases e,
{
    match e {
        Expr::PathExpr { segments, raw } => ExprView::PathExpr {
            segments: segments.deep_view(),
            raw,
        },
        Expr::Assign { lhs, rhs } => ExprView::Assign {
            lhs: Box::new(view_expr(*lhs)),
            rhs: Box::new(view_expr(*rhs)),
        },
        Expr::Call { callee, args } => ExprView::Call {
            callee: Box::new(view_expr(*callee)),
            args: view_exprs(args@),
        },
        Expr::BlockExpr { block } => ExprView::BlockExpr { block: view_block(block) },
        Expr::LitU32 { value } => ExprView::LitU32 { value },
        Expr::Opaque { handle, children } => ExprView::Opaque {
            handle,
            children: view_exprs(children@),
        },
    }
}

impl View for SourceFile {
    type V = FileView;

    open spec fn view(&self) -> FileView {
        view_file(*self)
    }
}

impl View for Item {
    type V = ItemView;

    open spec fn view(&self) -> ItemView {
        view_item(*self)
    }
}

impl View for Block {
    type V = BlockView;

    open spec fn view(&self) -> BlockView {
        view_block(*self)
    }
}

impl View for Stmt {
    type V = StmtView;

    open spec fn view(&self) -> StmtView {
        view_stmt(*self)
    }
}

impl View for Expr {
    type V = ExprView;

    open spec fn view(&self) -> ExprView {
        view_expr(*self)
    }
}

/// Facts relating the view of a statement sequence to its elements.
pub proof fn lemma_view_stmts(s: Seq<Stmt>)
    ensures
        view_stmts(s).len() == s.len(),
        forall|i: int| 0 <= i < s.len() ==> view_stmts(s)[i] == view_stmt(s[i]),
    decreases s,
{
    if s.len() > 0 {
        lemma_view_stmts(s.drop_first());
    }
}

/// Facts relating the view of an item sequence to its elements.
pub proof fn lemma_view_items(s: Seq<Item>)
    ensures
        view_items(s).len() == s.len(),
        forall|i: int| 0 <= i < s.len() ==> view_items(s)[i] == view_item(s[i]),
    decreases s,
{
    if s.len() > 0 {
        lemma_view_items(s.drop_first());
    }
}

/// Facts relating the view of an expression sequence to its elements.
pub proof fn lemma_view_exprs(s: Seq<Expr>)
    ensures
        view_exprs(s).len() == s.len(),
        forall|i: int| 0 <= i < s.len() ==> view_exprs(s)[i] == view_expr(s[i]),
    decreases s,
{
    if s.len() > 0 {
        lemma_view_exprs(s.drop_first());
    }
}

} // verus!

verus! {

/// Viewing a statement sequence commutes with prepending.
pub proof fn lemma_view_stmts_cons(x: Stmt, s: Seq<Stmt>)
    ensures
        view_stmts(seq![x] + s) == seq![view_stmt(x)] + view_stmts(s),
{
    assert((seq![x] + s)[0] == x);
    assert((seq![x] + s).drop_first() =~= s);
    assert(view_stmts(seq![x] + s) == seq![view_stmt(x)] + view_stmts(s));
}

/// Viewing an expression sequence commutes with prepending.
pub proof fn lemma_view_exprs_cons(x: Expr, s: Seq<Expr>)
    ensures
        view_exprs(seq![x] + s) == seq![view_expr(x)] + view_exprs(s),
{
    assert((seq![x] + s)[0] == x);
    assert((seq![x] + s).drop_first() =~= s);
    assert(view_exprs(seq![x] + s) == seq![view_expr(x)] + view_exprs(s));
}

/// Viewing an item sequence commutes with prepending.
pub proof fn lemma_view_items_cons(x: Item, s: Seq<Item>)
    ensures
        view_items(seq![x] + s) == seq![view_item(x)] + view_items(s),
{
    assert((seq![x] + s)[0] == x);
    assert((seq![x] + s).drop_first() =~= s);
    assert(view_items(seq![x] + s) == seq![view_item(x)] + view_items(s));
}

} // verus!
