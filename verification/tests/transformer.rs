use sginstrument::ast::Block;
use sginstrument::ast::NO_RAW;
use sginstrument::ast::Expr;
use sginstrument::ast::Item;
use sginstrument::ast::SourceFile;
use sginstrument::ast::Stmt;
use sginstrument::state::EnumInstrumenter;
use sginstrument::visitor::InstrumentOutcome;

fn path(segs: &[&str]) -> Expr {
    path_raw(segs, NO_RAW)
}

fn path_raw(segs: &[&str], raw: u64) -> Expr {
    Expr::PathExpr { segments: segs.iter().map(|s| s.to_string()).collect(), raw }
}

fn instr(loc: u32, state: u32) -> Stmt {
    Stmt::ExprStmt {
        expr: Expr::Call {
            callee: Box::new(path(&["sginstrument", "instrument"])),
            args: vec![Expr::LitU32 { value: loc }, Expr::LitU32 { value: state }],
        },
        has_semi: true,
    }
}

fn let_stmt(pattern: u64, init: Expr) -> Stmt {
    Stmt::Local { pattern, init: Some(init) }
}

fn assign_stmt(lhs: Expr, rhs: Expr) -> Stmt {
    Stmt::ExprStmt {
        expr: Expr::Assign { lhs: Box::new(lhs), rhs: Box::new(rhs) },
        has_semi: true,
    }
}

fn call_stmt(callee: Expr, args: Vec<Expr>) -> Stmt {
    Stmt::ExprStmt {
        expr: Expr::Call { callee: Box::new(callee), args },
        has_semi: true,
    }
}

fn status_enum() -> Item {
    Item::EnumDecl { name: "Status".to_string(), decl: 0 }
}

/// The statements of `fn main` in the scenario: a `let` bound to a bare
/// variant, a `let` bound to a parenthesized construction, an assignment to
/// a bare variant, and a call with a bare-variant argument.
fn scenario_main_stmts() -> Vec<Stmt> {
    vec![
        let_stmt(10, path(&["Status", "Active"])),
        let_stmt(11, Expr::Call {
            callee: Box::new(path(&["Status", "Pending"])),
            args: vec![Expr::Opaque { handle: 42, children: vec![] }],
        }),
        assign_stmt(path(&["other"]), path(&["Status", "Inactive"])),
        call_stmt(path(&["process_status"]), vec![path(&["Status", "Active"])]),
    ]
}

fn scenario_file() -> SourceFile {
    SourceFile {
        items: vec![
            status_enum(),
            Item::FnDecl { sig: 1, is_const: false, body: Block { stmts: scenario_main_stmts() } },
        ],
    }
}

fn instrument_or_panic(inst: &mut EnumInstrumenter, f: SourceFile) -> SourceFile {
    match inst.instrument_file(f) {
        InstrumentOutcome::Instrumented(out) => out,
        InstrumentOutcome::TooLarge(_) => panic!("file weight exhausted the location ids"),
    }
}

fn main_body(out: &SourceFile, index: usize) -> &Vec<Stmt> {
    match &out.items[index] {
        Item::FnDecl { body, .. } => &body.stmts,
        other => panic!("expected a function, got {:?}", other),
    }
}

#[test]
fn test_enum_instrumentation() {
    let mut instrumenter = EnumInstrumenter::new();
    let out = instrument_or_panic(&mut instrumenter, scenario_file());
    // The first bare usage gets the call `sginstrument::instrument(1u32, 0u32)`.
    let body = main_body(&out, 1);
    assert!(body.contains(&instr(1, 0)));
    println!("Instrumented tree:\n{:?}", out);
}

#[test]
fn test_scenario_locations_and_states() {
    let mut instrumenter = EnumInstrumenter::new();
    let out = instrument_or_panic(&mut instrumenter, scenario_file());
    assert_eq!(out.items.len(), 2);
    assert_eq!(out.items[0], status_enum());
    let body = main_body(&out, 1);
    // `Status::Active` gets location 1, state 0; `Status::Pending(42)` is a
    // construction and is not instrumented; the assignment gets location 2,
    // state 1; the call argument gets location 3 and the reused state 0,
    // wrapped in a nested block.
    let wrapped_arg = Expr::BlockExpr {
        block: Block {
            stmts: vec![
                instr(3, 0),
                Stmt::ExprStmt { expr: path(&["Status", "Active"]), has_semi: false },
            ],
        },
    };
    let mut expected = scenario_main_stmts();
    // The last statement's argument is wrapped; everything else is original.
    expected[3] = call_stmt(path(&["process_status"]), vec![wrapped_arg]);
    expected.insert(2, instr(2, 1));
    expected.insert(0, instr(1, 0));
    assert_eq!(*body, expected);
    // Registry and counter afterwards: two keys, three locations used.
    assert_eq!(instrumenter.enum_variants, vec!["Status::Active".to_string(),
        "Status::Inactive".to_string()]);
    assert_eq!(instrumenter.location_counter, 4);
    assert_eq!(instrumenter.enum_types, vec!["Status".to_string()]);
}

#[test]
fn test_const_contexts_suppressed() {
    // A const function body, a const item initializer and a static item
    // initializer — with usages nested inside an ordinary block too — get no
    // calls; the registry and counter do not move.
    let nested = Stmt::ExprStmt {
        expr: Expr::BlockExpr {
            block: Block { stmts: vec![let_stmt(21, path(&["Status", "Active"]))] },
        },
        has_semi: true,
    };
    let f = SourceFile {
        items: vec![
            status_enum(),
            Item::FnDecl {
                sig: 2,
                is_const: true,
                body: Block {
                    stmts: vec![let_stmt(20, path(&["Status", "Active"])), nested],
                },
            },
            Item::ConstDecl { head: 3, init: path(&["Status", "Inactive"]) },
            Item::StaticDecl { head: 4, init: path(&["Status", "Active"]) },
        ],
    };
    let rebuilt = SourceFile {
        items: vec![
            status_enum(),
            Item::FnDecl {
                sig: 2,
                is_const: true,
                body: Block {
                    stmts: vec![
                        let_stmt(20, path(&["Status", "Active"])),
                        Stmt::ExprStmt {
                            expr: Expr::BlockExpr {
                                block: Block {
                                    stmts: vec![let_stmt(21, path(&["Status", "Active"]))],
                                },
                            },
                            has_semi: true,
                        },
                    ],
                },
            },
            Item::ConstDecl { head: 3, init: path(&["Status", "Inactive"]) },
            Item::StaticDecl { head: 4, init: path(&["Status", "Active"]) },
        ],
    };
    let mut instrumenter = EnumInstrumenter::new();
    let out = instrument_or_panic(&mut instrumenter, f);
    assert_eq!(out, rebuilt);
    assert_eq!(instrumenter.location_counter, 1);
    assert!(instrumenter.enum_variants.is_empty());
    // The enum declared before the const scopes was still recorded.
    assert_eq!(instrumenter.enum_types, vec!["Status".to_string()]);
}

#[test]
fn test_use_before_declaration() {
    // A bare usage before the enum's declaration is visited is not
    // instrumented; the same usage after it is.
    let f = SourceFile {
        items: vec![
            Item::FnDecl {
                sig: 1,
                is_const: false,
                body: Block { stmts: vec![let_stmt(30, path(&["Status", "Active"]))] },
            },
            status_enum(),
            Item::FnDecl {
                sig: 2,
                is_const: false,
                body: Block { stmts: vec![let_stmt(31, path(&["Status", "Active"]))] },
            },
        ],
    };
    let mut instrumenter = EnumInstrumenter::new();
    let out = instrument_or_panic(&mut instrumenter, f);
    assert_eq!(
        *main_body(&out, 0),
        vec![let_stmt(30, path(&["Status", "Active"]))],
    );
    assert_eq!(
        *main_body(&out, 2),
        vec![instr(1, 0), let_stmt(31, path(&["Status", "Active"]))],
    );
    assert_eq!(instrumenter.location_counter, 2);
}

#[test]
fn test_wrap_preserves_argument() {
    // The wrapped argument is a block whose last expression is the original
    // argument, untouched, preceded by exactly one injected call.
    let f = SourceFile {
        items: vec![
            status_enum(),
            Item::FnDecl {
                sig: 1,
                is_const: false,
                body: Block {
                    stmts: vec![call_stmt(path(&["takes"]), vec![
                        path(&["Status", "Active"]),
                        Expr::LitU32 { value: 7 },
                    ])],
                },
            },
        ],
    };
    let mut instrumenter = EnumInstrumenter::new();
    let out = instrument_or_panic(&mut instrumenter, f);
    let body = main_body(&out, 1);
    match &body[0] {
        Stmt::ExprStmt { expr: Expr::Call { args, .. }, .. } => {
            assert_eq!(args.len(), 2);
            match &args[0] {
                Expr::BlockExpr { block } => {
                    assert_eq!(block.stmts.len(), 2);
                    assert_eq!(block.stmts[0], instr(1, 0));
                    assert_eq!(
                        block.stmts[1],
                        Stmt::ExprStmt { expr: path(&["Status", "Active"]), has_semi: false },
                    );
                }
                other => panic!("expected a wrapping block, got {:?}", other),
            }
            // The non-variant argument is untouched.
            assert_eq!(args[1], Expr::LitU32 { value: 7 });
        }
        other => panic!("expected the call statement, got {:?}", other),
    }
}

#[test]
fn test_rerun_no_second_layer() {
    // Already-instrumented output: an injected call and a wrapped argument.
    // A fresh run over it leaves both exactly as they are: the injected
    // call's arguments are literals, not enum-variant paths, and the wrapped
    // argument is a block, not a bare path.
    let already = || SourceFile {
        items: vec![
            status_enum(),
            Item::FnDecl {
                sig: 1,
                is_const: false,
                body: Block {
                    stmts: vec![call_stmt(path(&["takes"]), vec![Expr::BlockExpr {
                        block: Block {
                            stmts: vec![
                                instr(1, 0),
                                Stmt::ExprStmt {
                                    expr: path(&["Status", "Active"]),
                                    has_semi: false,
                                },
                            ],
                        },
                    }])],
                },
            },
        ],
    };
    let mut second_run = EnumInstrumenter::new();
    let out = instrument_or_panic(&mut second_run, already());
    assert_eq!(out, already());
    assert_eq!(second_run.location_counter, 1);
    assert!(second_run.enum_variants.is_empty());
}

#[test]
fn test_state_shared_across_files() {
    // One run, two files: locations continue across the file boundary and a
    // variant seen in the first file keeps its state id in the second.
    let file = |sig: u64| SourceFile {
        items: vec![
            Item::FnDecl {
                sig,
                is_const: false,
                body: Block { stmts: vec![let_stmt(40, path(&["Status", "Active"]))] },
            },
        ],
    };
    let mut instrumenter = EnumInstrumenter::new();
    let first = SourceFile {
        items: {
            let mut v = vec![status_enum()];
            v.extend(file(1).items);
            v
        },
    };
    let out1 = instrument_or_panic(&mut instrumenter, first);
    let out2 = instrument_or_panic(&mut instrumenter, file(2));
    assert_eq!(*main_body(&out1, 1), vec![instr(1, 0), let_stmt(40, path(&["Status", "Active"]))]);
    // Same key in the second file: a new location, the same state id.
    assert_eq!(*main_body(&out2, 0), vec![instr(2, 0), let_stmt(40, path(&["Status", "Active"]))]);
    assert_eq!(instrumenter.enum_variants, vec!["Status::Active".to_string()]);
    assert_eq!(instrumenter.location_counter, 3);
}

#[test]
fn test_registry_and_allocator() {
    let mut instrumenter = EnumInstrumenter::new();
    assert_eq!(instrumenter.location_counter, 1);
    assert!(instrumenter.enum_types.is_empty());
    assert!(instrumenter.enum_variants.is_empty());
    assert_eq!(instrumenter.next_location(), 1);
    assert_eq!(instrumenter.next_location(), 2);
    assert_eq!(instrumenter.variant_id("Status::Active".to_string()), 0);
    assert_eq!(instrumenter.variant_id("Status::Inactive".to_string()), 1);
    assert_eq!(instrumenter.variant_id("Status::Active".to_string()), 0);
    assert_eq!(instrumenter.variant_id("Status::Inactive".to_string()), 1);
    assert_eq!(instrumenter.enum_variants.len(), 2);
}

#[test]
fn test_classifier() {
    let mut instrumenter = EnumInstrumenter::new();
    let segs1 = vec!["Active".to_string()];
    let segs2 = vec!["Status".to_string(), "Active".to_string()];
    let segs3 = vec!["crate".to_string(), "Status".to_string(), "Active".to_string()];
    // One segment is never classified; an undeclared enum is not classified.
    assert_eq!(instrumenter.extract_enum_info(&segs1), None);
    assert_eq!(instrumenter.extract_enum_info(&segs2), None);
    instrumenter.record_enum_type(&"Status".to_string());
    assert_eq!(
        instrumenter.extract_enum_info(&segs2),
        Some(("Status".to_string(), "Active".to_string())),
    );
    // Only the last two segments are inspected.
    assert_eq!(
        instrumenter.extract_enum_info(&segs3),
        Some(("Status".to_string(), "Active".to_string())),
    );
    // A declaration recorded twice stays one entry.
    instrumenter.record_enum_type(&"Status".to_string());
    assert_eq!(instrumenter.enum_types, vec!["Status".to_string()]);
}

#[test]
fn test_create_instrumentation_call() {
    let mut instrumenter = EnumInstrumenter::new();
    let e = "Status".to_string();
    let v = "Active".to_string();
    // In const context: nothing allocated, nothing injected.
    assert_eq!(instrumenter.create_instrumentation_call(true, &e, &v), None);
    assert_eq!(instrumenter.location_counter, 1);
    assert!(instrumenter.enum_variants.is_empty());
    // Outside: the statement carries the fresh location and the state id.
    assert_eq!(instrumenter.create_instrumentation_call(false, &e, &v), Some(instr(1, 0)));
    assert_eq!(instrumenter.location_counter, 2);
    assert_eq!(instrumenter.enum_variants, vec!["Status::Active".to_string()]);
}

#[test]
fn test_too_large_run_hands_file_back() {
    let mut instrumenter = EnumInstrumenter::new();
    instrumenter.enum_types.push("Status".to_string());
    instrumenter.location_counter = u32::MAX;
    let f = SourceFile {
        items: vec![Item::FnDecl {
            sig: 1,
            is_const: false,
            body: Block { stmts: vec![let_stmt(50, path(&["Status", "Active"]))] },
        }],
    };
    match instrumenter.instrument_file(f) {
        InstrumentOutcome::TooLarge(back) => {
            assert_eq!(back.items.len(), 1);
            assert_eq!(
                *main_body(&back, 0),
                vec![let_stmt(50, path(&["Status", "Active"]))],
            );
        }
        InstrumentOutcome::Instrumented(_) => {
            panic!("a run at the counter's end must hand the file back")
        }
    }
    assert_eq!(instrumenter.location_counter, u32::MAX);
}

#[test]
fn test_empty_file_untouched() {
    let mut instrumenter = EnumInstrumenter::new();
    let out = instrument_or_panic(&mut instrumenter, SourceFile { items: vec![] });
    assert!(out.items.is_empty());
    assert_eq!(instrumenter.location_counter, 1);
}

#[test]
fn test_descends_into_control_flow() {
    // A bare usage inside an `if` body — an expression the model keeps
    // opaque, with its condition and branches as children — is instrumented
    // where it stands, and the opaque handle survives.
    let if_expr = || Expr::Opaque {
        handle: 90,
        children: vec![
            path_raw(&["cond"], 5),
            Expr::BlockExpr {
                block: Block { stmts: vec![let_stmt(60, path(&["Status", "Active"]))] },
            },
        ],
    };
    let f = SourceFile {
        items: vec![
            status_enum(),
            Item::FnDecl {
                sig: 1,
                is_const: false,
                body: Block {
                    stmts: vec![Stmt::ExprStmt { expr: if_expr(), has_semi: true }],
                },
            },
        ],
    };
    let mut instrumenter = EnumInstrumenter::new();
    let out = instrument_or_panic(&mut instrumenter, f);
    let expected = Expr::Opaque {
        handle: 90,
        children: vec![
            path_raw(&["cond"], 5),
            Expr::BlockExpr {
                block: Block {
                    stmts: vec![instr(1, 0), let_stmt(60, path(&["Status", "Active"]))],
                },
            },
        ],
    };
    assert_eq!(
        *main_body(&out, 1),
        vec![Stmt::ExprStmt { expr: expected, has_semi: true }],
    );
    assert_eq!(instrumenter.location_counter, 2);
}

#[test]
fn test_descends_into_opaque_items() {
    // An enum declared inside an inline module is recorded; a bare usage in
    // an impl method after it is instrumented; a const method's body is not.
    let f = SourceFile {
        items: vec![
            // mod m { enum Status { ... } }
            Item::Opaque { handle: 70, children: vec![status_enum()] },
            // impl T { fn m() { let a = Status::Active; } const fn k() { let b = Status::Active; } }
            Item::Opaque {
                handle: 71,
                children: vec![
                    Item::FnDecl {
                        sig: NO_RAW,
                        is_const: false,
                        body: Block { stmts: vec![let_stmt(80, path(&["Status", "Active"]))] },
                    },
                    Item::FnDecl {
                        sig: NO_RAW,
                        is_const: true,
                        body: Block { stmts: vec![let_stmt(81, path(&["Status", "Active"]))] },
                    },
                ],
            },
        ],
    };
    let mut instrumenter = EnumInstrumenter::new();
    let out = instrument_or_panic(&mut instrumenter, f);
    assert_eq!(out.items[0], Item::Opaque { handle: 70, children: vec![status_enum()] });
    assert_eq!(
        out.items[1],
        Item::Opaque {
            handle: 71,
            children: vec![
                Item::FnDecl {
                    sig: NO_RAW,
                    is_const: false,
                    body: Block {
                        stmts: vec![instr(1, 0), let_stmt(80, path(&["Status", "Active"]))],
                    },
                },
                Item::FnDecl {
                    sig: NO_RAW,
                    is_const: true,
                    body: Block { stmts: vec![let_stmt(81, path(&["Status", "Active"]))] },
                },
            ],
        },
    );
    assert_eq!(instrumenter.enum_types, vec!["Status".to_string()]);
    assert_eq!(instrumenter.location_counter, 2);
}

#[test]
fn test_path_form_is_kept() {
    // A classified path keeps the handle of its exact original form through
    // the rewrite, wrapped or not; only injected paths carry none.
    let f = SourceFile {
        items: vec![
            status_enum(),
            Item::FnDecl {
                sig: 1,
                is_const: false,
                body: Block {
                    stmts: vec![call_stmt(
                        path_raw(&["takes"], 21),
                        vec![path_raw(&["m", "Status", "Active"], 22)],
                    )],
                },
            },
        ],
    };
    let mut instrumenter = EnumInstrumenter::new();
    let out = instrument_or_panic(&mut instrumenter, f);
    let wrapped = Expr::BlockExpr {
        block: Block {
            stmts: vec![
                instr(1, 0),
                Stmt::ExprStmt {
                    expr: path_raw(&["m", "Status", "Active"], 22),
                    has_semi: false,
                },
            ],
        },
    };
    assert_eq!(
        *main_body(&out, 1),
        vec![call_stmt(path_raw(&["takes"], 21), vec![wrapped])],
    );
}
