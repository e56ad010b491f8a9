//! Tests of the compile-time bookkeeping: scope and upvalue resolution,
//! module variables, the hard limits, loop contexts with break patching,
//! constant interning, jump patching, and class member tables.

use wren_compile::compiler::{Compiler, Instr, ResolvedVariable};
use wren_compile::diag::DiagKind;
use wren_compile::signature::{Signature, SignatureKind};
use wren_compile::token::Value;

fn chars(s: &str) -> Vec<char> {
    s.chars().collect()
}

#[test]
fn local_declared_then_referenced_resolves_to_its_slot() {
    let mut c = Compiler::new(true);
    c.push_frame();
    let a = chars("a");
    let x = chars("x");
    let slot_a = c.declare_variable(a.clone()).unwrap();
    let slot_x = c.declare_variable(x.clone()).unwrap();
    assert_eq!(slot_a, 0);
    assert_eq!(slot_x, 1);
    assert_eq!(c.resolve_name(&x), Some(ResolvedVariable::Local(1)));
    // A nested block sees it too.
    c.begin_scope();
    assert_eq!(c.resolve_name(&x), Some(ResolvedVariable::Local(1)));
    assert!(!c.has_error);
}

#[test]
fn shadowing_in_nested_block_hides_outer_local() {
    let mut c = Compiler::new(true);
    c.push_frame();
    let x = chars("x");
    c.declare_variable(x.clone()).unwrap();
    c.begin_scope();
    let inner = c.declare_variable(x.clone()).unwrap();
    assert_eq!(inner, 1);
    assert_eq!(c.resolve_name(&x), Some(ResolvedVariable::Local(1)));
    assert!(!c.has_error);
}

#[test]
fn redeclaration_in_same_block_is_error() {
    let mut c = Compiler::new(true);
    c.push_frame();
    let x = chars("x");
    c.declare_variable(x.clone()).unwrap();
    c.declare_variable(x.clone());
    assert!(c.has_error);
    assert!(c
        .diagnostics
        .iter()
        .any(|d| matches!(d.kind, DiagKind::VariableAlreadyDeclared)));
}

#[test]
fn nested_function_reference_becomes_upvalue_and_is_reused() {
    let mut c = Compiler::new(true);
    c.push_frame();
    let x = chars("x");
    let slot = c.declare_variable(x.clone()).unwrap();
    // A nested function body.
    c.push_frame();
    let first = c.resolve_name(&x);
    let u = match first {
        Some(ResolvedVariable::Upvalue(u)) => u,
        other => panic!("expected an upvalue, got {:?}", other),
    };
    // A second reference to the same outer variable reuses the identical
    // descriptor index: no duplicate entry.
    assert_eq!(c.resolve_name(&x), Some(ResolvedVariable::Upvalue(u)));
    let f = c.current;
    assert_eq!(c.frames[f].upvalues.len(), 1);
    assert!(c.frames[f].upvalues[0].is_local);
    assert_eq!(c.frames[f].upvalues[0].index, slot);
    // The defining local is flagged for heap promotion.
    assert!(c.frames[1].locals[slot].is_captured);
    assert!(!c.has_error);
}

#[test]
fn capture_across_two_levels_threads_descriptors() {
    let mut c = Compiler::new(true);
    c.push_frame();
    let x = chars("x");
    c.declare_variable(x.clone()).unwrap();
    c.push_frame();
    let middle = c.current;
    c.push_frame();
    let inner = c.current;
    let r = c.resolve_name(&x);
    assert!(matches!(r, Some(ResolvedVariable::Upvalue(_))));
    // The middle frame captures the local; the inner frame captures the
    // middle frame's upvalue.
    assert!(c.frames[middle].upvalues[0].is_local);
    assert!(!c.frames[inner].upvalues[0].is_local);
    assert!(!c.has_error);
}

#[test]
fn top_level_var_is_module_scoped() {
    let mut c = Compiler::new(true);
    // The module-level chunk sits at the scope-depth sentinel.
    assert_eq!(c.frames[c.current].scope_depth, -1);
    let x = chars("x");
    let sym = c.declare_variable(x.clone()).unwrap();
    assert_eq!(sym, 0);
    assert_eq!(c.resolve_name(&x), Some(ResolvedVariable::Module(0)));
    assert_eq!(c.frames[c.current].locals.len(), 0);
    assert!(!c.has_error);
}

#[test]
fn unknown_module_name_is_implicitly_declared() {
    let mut c = Compiler::new(true);
    let later = chars("definedLater");
    assert_eq!(c.resolve_name(&later), Some(ResolvedVariable::Module(0)));
    assert_eq!(c.module_vars.len(), 1);
    assert!(!c.has_error);
}

#[test]
fn local_limit_leaves_prior_slots_intact() {
    let mut c = Compiler::new(true);
    c.push_frame();
    for i in 0..256 {
        let name = chars(&format!("v{}", i));
        assert_eq!(c.declare_variable(name), Some(i));
    }
    assert!(!c.has_error);
    // The 257th local in one frame is a compile error, not a panic, and
    // does not corrupt prior state.
    assert_eq!(c.declare_variable(chars("overflow")), None);
    assert!(c.has_error);
    assert!(c
        .diagnostics
        .iter()
        .any(|d| matches!(d.kind, DiagKind::TooManyLocals)));
    let f = c.current;
    assert_eq!(c.frames[f].locals.len(), 256);
    let first: String = c.frames[f].locals[0].name.iter().collect();
    let last: String = c.frames[f].locals[255].name.iter().collect();
    assert_eq!(first, "v0");
    assert_eq!(last, "v255");
    assert_eq!(c.resolve_name(&chars("v255")), Some(ResolvedVariable::Local(255)));
}

#[test]
fn upvalue_limit_leaves_prior_descriptors_intact() {
    let mut c = Compiler::new(true);
    c.push_frame();
    let f = c.current;
    for i in 0..256 {
        assert_eq!(c.add_upvalue(f, true, i), Some(i));
    }
    assert!(!c.has_error);
    assert_eq!(c.add_upvalue(f, true, 256), None);
    assert!(c.has_error);
    assert!(c
        .diagnostics
        .iter()
        .any(|d| matches!(d.kind, DiagKind::TooManyUpvalues)));
    assert_eq!(c.frames[f].upvalues.len(), 256);
    assert_eq!(c.frames[f].upvalues[255].index, 255);
    // An existing descriptor is still found and reused.
    assert_eq!(c.add_upvalue(f, true, 7), Some(7));
}

#[test]
fn field_limit_leaves_prior_fields_intact() {
    let mut c = Compiler::new(true);
    c.begin_class(chars("Big"), false);
    for i in 0..255 {
        let name = chars(&format!("f{}", i));
        assert_eq!(c.declare_field(name), Some(i));
    }
    assert!(!c.has_error);
    // The 256th field is a compile error: the class-creation instruction
    // carries the field count in a single byte.
    assert_eq!(c.declare_field(chars("tooMany")), None);
    assert!(c.has_error);
    assert!(c
        .diagnostics
        .iter()
        .any(|d| matches!(d.kind, DiagKind::TooManyFields)));
    let info = c.end_class().unwrap();
    assert_eq!(info.fields.len(), 255);
    let last: String = info.fields[254].iter().collect();
    assert_eq!(last, "f254");
}

#[test]
fn constant_limit_leaves_pool_intact() {
    let mut c = Compiler::new(true);
    let f = c.current;
    // Fill the pool to its capacity with distinct constants.
    for i in 0..65536u32 {
        c.frames[f].constants.push(Value::Num(chars(&format!("{}", i))));
    }
    // The 65537th distinct constant is a compile error.
    assert_eq!(c.add_constant(Value::Num(chars("fresh"))), None);
    assert!(c.has_error);
    assert!(c
        .diagnostics
        .iter()
        .any(|d| matches!(d.kind, DiagKind::TooManyConstants)));
    assert_eq!(c.frames[f].constants.len(), 65536);
    // Prior entries remain addressable, and interning still finds them.
    assert_eq!(c.add_constant(Value::Num(chars("70"))), Some(70));
}

#[test]
fn constants_are_interned() {
    let mut c = Compiler::new(true);
    let a = c.add_constant(Value::Str(chars("sym"))).unwrap();
    let b = c.add_constant(Value::Num(chars("1"))).unwrap();
    let again = c.add_constant(Value::Str(chars("sym"))).unwrap();
    assert_eq!(a, 0);
    assert_eq!(b, 1);
    assert_eq!(again, a);
    assert_eq!(c.frames[c.current].constants.len(), 2);
}

#[test]
fn break_outside_loop_emits_no_jump() {
    let mut c = Compiler::new(true);
    c.push_frame();
    let before = c.frames[c.current].code.len();
    c.compile_break();
    assert!(c.has_error);
    assert!(c
        .diagnostics
        .iter()
        .any(|d| matches!(d.kind, DiagKind::BreakOutsideLoop)));
    // Zero emitted jump instructions for that statement.
    assert_eq!(c.frames[c.current].code.len(), before);
}

#[test]
fn continue_outside_loop_is_error() {
    let mut c = Compiler::new(true);
    c.push_frame();
    let before = c.frames[c.current].code.len();
    c.compile_continue();
    assert!(c.has_error);
    assert!(c
        .diagnostics
        .iter()
        .any(|d| matches!(d.kind, DiagKind::ContinueOutsideLoop)));
    assert_eq!(c.frames[c.current].code.len(), before);
}

#[test]
fn loop_breaks_are_all_patched_to_the_end() {
    let mut c = Compiler::new(true);
    c.push_frame();
    let f = c.current;
    c.emit(Instr::PushNull); // something before the loop
    c.start_loop();
    c.emit(Instr::PushNull); // condition value
    c.test_exit_loop();
    c.loop_body();
    c.compile_break();
    c.emit(Instr::PushNull);
    c.emit(Instr::Pop);
    c.compile_break();
    c.end_loop();
    assert!(!c.has_error);
    let code = &c.frames[f].code;
    let end = code.len();
    // The loop ends with the backward jump to its start.
    assert!(matches!(code[end - 1], Instr::LoopBack(_)));
    // Both break jumps land just past the loop's end.
    let mut patched = 0;
    for (i, instr) in code.iter().enumerate() {
        if let Instr::Jump(d) = instr {
            assert_eq!(i + 1 + d, end, "break at {} must jump to the end", i);
            patched += 1;
        }
    }
    assert_eq!(patched, 2);
    // The exit jump lands there too.
    let mut exits = 0;
    for (i, instr) in code.iter().enumerate() {
        if let Instr::JumpIf(d) = instr {
            assert_eq!(i + 1 + d, end);
            exits += 1;
        }
    }
    assert_eq!(exits, 1);
    // The loop context is gone: a further break is an error.
    assert_eq!(c.frames[f].loops.len(), 0);
}

#[test]
fn continue_jumps_back_to_loop_start() {
    let mut c = Compiler::new(true);
    c.push_frame();
    let f = c.current;
    c.emit(Instr::PushNull);
    c.start_loop();
    let start = c.frames[f].loops[0].start;
    c.emit(Instr::PushNull);
    c.emit(Instr::Pop);
    c.compile_continue();
    assert!(!c.has_error);
    let code = &c.frames[f].code;
    let at = code.len() - 1;
    match code[at] {
        Instr::LoopBack(d) => assert_eq!(at + 1 - d, start),
        ref other => panic!("expected a backward jump, got {:?}", other),
    }
}

#[test]
fn end_scope_pops_exactly_the_scope_and_closes_captured() {
    let mut c = Compiler::new(true);
    c.push_frame();
    let f = c.current;
    c.declare_variable(chars("outer")).unwrap();
    c.begin_scope();
    c.declare_variable(chars("a")).unwrap();
    c.declare_variable(chars("b")).unwrap();
    // Mark one of the block's locals as captured.
    c.frames[f].locals[1].is_captured = true;
    let code_before = c.frames[f].code.len();
    c.end_scope();
    // Exactly the two block locals are gone; the outer one stays.
    assert_eq!(c.frames[f].locals.len(), 1);
    let kept: String = c.frames[f].locals[0].name.iter().collect();
    assert_eq!(kept, "outer");
    // Their slots are released in emitted code, innermost first, with a
    // close for the captured one.
    let code = &c.frames[f].code;
    assert_eq!(code.len(), code_before + 2);
    assert!(matches!(code[code_before], Instr::Pop));
    assert!(matches!(code[code_before + 1], Instr::CloseUpvalue));
    assert_eq!(c.frames[f].scope_depth, 0);
}

#[test]
fn patch_jump_writes_exact_distance() {
    let mut c = Compiler::new(true);
    let f = c.current;
    let site = c.emit(Instr::Jump(0));
    c.emit(Instr::PushNull);
    c.emit(Instr::Pop);
    c.patch_jump(site);
    assert!(!c.has_error);
    match c.frames[f].code[site] {
        Instr::Jump(d) => assert_eq!(d, 2),
        ref other => panic!("expected a jump, got {:?}", other),
    }
}

#[test]
fn emit_tracks_slot_high_water_mark() {
    let mut c = Compiler::new(true);
    let f = c.current;
    c.emit(Instr::PushNull);
    c.emit(Instr::PushNull);
    c.emit(Instr::Pop);
    c.emit(Instr::PushNull);
    c.emit(Instr::Pop);
    c.emit(Instr::Pop);
    // Two slots were live at once even though none are now.
    assert_eq!(c.frames[f].num_slots, 0);
    assert_eq!(c.frames[f].max_slots, 2);
}

#[test]
fn pop_frame_returns_to_parent() {
    let mut c = Compiler::new(true);
    c.push_frame();
    c.push_frame();
    let inner = c.current;
    let artifact = c.pop_frame();
    assert_eq!(artifact, inner);
    assert_eq!(c.current, 1);
    let artifact = c.pop_frame();
    assert_eq!(artifact, 1);
    assert_eq!(c.current, 0);
}

#[test]
fn duplicate_method_signature_is_error() {
    let mut c = Compiler::new(true);
    c.begin_class(chars("Point"), false);
    let sig = Signature { name: chars("foo"), kind: SignatureKind::Method, arity: 0 };
    let symbol = sig.to_symbol();
    assert!(c.declare_method(symbol.clone(), false));
    assert!(!c.has_error);
    // Same name, same arity, same kind in the same class body: a
    // duplicate-method compile error on the second declaration.
    assert!(!c.declare_method(symbol.clone(), false));
    assert!(c.has_error);
    assert!(c
        .diagnostics
        .iter()
        .any(|d| matches!(d.kind, DiagKind::DuplicateMethod)));
    let info = c.end_class().unwrap();
    assert_eq!(info.methods.len(), 1);
}

#[test]
fn static_and_instance_methods_are_separate() {
    let mut c = Compiler::new(true);
    c.begin_class(chars("Point"), false);
    let symbol = chars("foo()");
    assert!(c.declare_method(symbol.clone(), false));
    assert!(c.declare_method(symbol.clone(), true));
    assert!(!c.has_error);
}

#[test]
fn duplicate_field_is_error() {
    let mut c = Compiler::new(true);
    c.begin_class(chars("Point"), false);
    assert_eq!(c.declare_field(chars("x")), Some(0));
    assert_eq!(c.declare_field(chars("y")), Some(1));
    let again = c.declare_field(chars("x"));
    assert_eq!(again, Some(0));
    assert!(c.has_error);
    assert!(c
        .diagnostics
        .iter()
        .any(|d| matches!(d.kind, DiagKind::DuplicateField)));
}

#[test]
fn signature_symbols_are_canonical() {
    let sym = |name: &str, kind: SignatureKind, arity: usize| -> String {
        Signature { name: chars(name), kind, arity }.to_symbol().iter().collect()
    };
    assert_eq!(sym("foo", SignatureKind::Getter, 0), "foo");
    assert_eq!(sym("foo", SignatureKind::Setter, 1), "foo=(_)");
    assert_eq!(sym("foo", SignatureKind::Method, 0), "foo()");
    assert_eq!(sym("foo", SignatureKind::Method, 2), "foo(_,_)");
    assert_eq!(sym("", SignatureKind::SubscriptGetter, 1), "[_]");
    assert_eq!(sym("", SignatureKind::SubscriptSetter, 2), "[_]=(_)");
    assert_eq!(sym("foo", SignatureKind::Initializer, 1), "init foo(_)");
    // A two-argument method encodes distinctly from the zero-argument
    // getter of the same name.
    assert_ne!(
        sym("foo", SignatureKind::Method, 2),
        sym("foo", SignatureKind::Getter, 0)
    );
}

#[test]
fn module_variable_duplicate_definition_is_error() {
    let mut c = Compiler::new(true);
    let x = chars("x");
    assert_eq!(c.declare_variable(x.clone()), Some(0));
    assert_eq!(c.declare_variable(x.clone()), Some(0));
    assert!(c.has_error);
    assert!(c
        .diagnostics
        .iter()
        .any(|d| matches!(d.kind, DiagKind::ModuleVariableAlreadyDefined)));
}

#[test]
fn attributes_attach_to_class_and_method() {
    let mut c = Compiler::new(true);
    c.add_attribute(chars("doc"), Value::Str(chars("a point")));
    c.begin_class(chars("Point"), false);
    assert!(c.pending_attributes.is_empty());
    c.add_attribute(chars("deprecated"), Value::Boolean(true));
    assert!(c.declare_method(chars("foo()"), false));
    assert!(c.pending_attributes.is_empty());
    let info = c.end_class().unwrap();
    assert_eq!(info.class_attributes.len(), 1);
    let cname: String = info.class_attributes[0].name.iter().collect();
    assert_eq!(cname, "doc");
    assert_eq!(info.method_attributes.len(), 1);
    let key: String = info.method_attributes[0].0.iter().collect();
    assert_eq!(key, "foo()");
    assert_eq!(info.method_attributes[0].1.len(), 1);
}
