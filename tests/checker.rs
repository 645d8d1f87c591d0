use std::collections::VecDeque;
use frontend::hir::{HIRInstruction, PrimitiveType, TypeSignature, HIR};
use frontend::notices::NoticeLevel;
use frontend::pos::{BiPos, Position};
use frontend::typeck::TypeckVM;

fn at(line: usize) -> BiPos {
    BiPos { start: Position { line, col: 0 }, end: Position { line, col: 4 } }
}

fn ir(ins: HIRInstruction, sig: TypeSignature, line: usize) -> HIR {
    HIR { ins, sig, pos: at(line) }
}

fn prim(p: PrimitiveType) -> TypeSignature {
    TypeSignature::Primitive(p)
}

fn halt(line: usize) -> HIR {
    ir(HIRInstruction::Halt, TypeSignature::Untyped, line)
}

fn decl(sig: TypeSignature) -> HIR {
    ir(HIRInstruction::Property("x".to_string()), sig, 1)
}

fn run(items: Vec<HIR>) -> frontend::typeck::CheckReport {
    TypeckVM::start_checking("main".to_string(), VecDeque::from(items))
}

fn render(items: &[HIR]) -> Vec<String> {
    items.iter().map(|h| format!("{:?}", h)).collect()
}

fn assert_only_halting(report: &frontend::typeck::CheckReport) {
    assert_eq!(report.notices.len(), 1);
    let n = &report.notices[0];
    assert_eq!(n.level, NoticeLevel::Halt);
    assert_eq!(n.msg, "Halting");
    assert_eq!(n.from, "Type checker");
    assert_eq!(n.file, "main");
    assert_eq!(n.pos, BiPos::origin());
}

#[test]
fn typed_integer_declaration_is_verified() {
    let report = run(vec![
        decl(prim(PrimitiveType::Integer)),
        ir(HIRInstruction::Integer(5), TypeSignature::Untyped, 2),
        halt(3),
    ]);
    assert_only_halting(&report);
    assert_eq!(report.forwarded.len(), 2);
    assert!(matches!(report.forwarded[0].ins, HIRInstruction::Integer(5)));
    assert!(matches!(report.forwarded[0].sig, TypeSignature::Primitive(PrimitiveType::Integer)));
    assert!(matches!(report.forwarded[1].ins, HIRInstruction::Halt));
}

#[test]
fn integer_declaration_with_string_value_fails() {
    let report = run(vec![
        decl(prim(PrimitiveType::Integer)),
        ir(HIRInstruction::String("x".to_string()), TypeSignature::Untyped, 2),
        halt(3),
    ]);
    assert!(report.forwarded.is_empty());
    assert_eq!(report.notices.len(), 1);
    let n = &report.notices[0];
    assert_eq!(n.level, NoticeLevel::Error);
    assert_eq!(n.msg, "Expected an expression of type Integer but instead got String");
    assert_eq!(n.from, "Type checker came back with an error.");
    assert_eq!(n.file, "main");
    assert_eq!(n.pos, at(1));
}

#[test]
fn untyped_declaration_is_inferred() {
    let report = run(vec![
        decl(TypeSignature::Untyped),
        ir(HIRInstruction::Integer(5), TypeSignature::Untyped, 2),
        halt(3),
    ]);
    assert_only_halting(&report);
    assert_eq!(report.forwarded.len(), 3);
    assert!(matches!(report.forwarded[0].ins, HIRInstruction::Property(_)));
    assert!(matches!(report.forwarded[0].sig, TypeSignature::Primitive(PrimitiveType::Integer)));
    assert_eq!(report.forwarded[0].pos, at(1));
    assert!(matches!(report.forwarded[1].ins, HIRInstruction::Integer(5)));
    assert!(matches!(report.forwarded[1].sig, TypeSignature::Untyped));
    assert!(matches!(report.forwarded[2].ins, HIRInstruction::Halt));
}

#[test]
fn rerunning_a_well_typed_stream_gives_the_same_output() {
    let stream = || {
        vec![
            decl(prim(PrimitiveType::String)),
            ir(HIRInstruction::String("hi".to_string()), TypeSignature::Untyped, 2),
            decl(TypeSignature::Untyped),
            ir(HIRInstruction::Bool(true), TypeSignature::Untyped, 4),
            halt(5),
        ]
    };
    let first = run(stream());
    let second = run(stream());
    assert_only_halting(&first);
    assert_only_halting(&second);
    assert_eq!(render(&first.forwarded), render(&second.forwarded));
    assert_eq!(first.forwarded.len(), 4);
}

#[test]
fn untyped_inference_by_opcode() {
    let cases = vec![
        (HIRInstruction::Float("1.5".to_string()), PrimitiveType::String),
        (HIRInstruction::String("s".to_string()), PrimitiveType::String),
        (HIRInstruction::Bool(false), PrimitiveType::Bool),
        (HIRInstruction::Property("y".to_string()), PrimitiveType::Unit),
    ];
    for (value, expected) in cases {
        let report = run(vec![decl(TypeSignature::Untyped), ir(value, TypeSignature::Untyped, 2)]);
        assert_only_halting(&report);
        assert_eq!(report.forwarded.len(), 2);
        match &report.forwarded[0].sig {
            TypeSignature::Primitive(p) => assert_eq!(*p, expected),
            other => panic!("expected a primitive, got {:?}", other),
        }
    }
}

#[test]
fn float_and_string_declarations_are_verified() {
    let report = run(vec![
        decl(prim(PrimitiveType::Float)),
        ir(HIRInstruction::Float("2.5".to_string()), TypeSignature::Untyped, 2),
        decl(prim(PrimitiveType::String)),
        ir(HIRInstruction::String("s".to_string()), TypeSignature::Untyped, 4),
    ]);
    assert_only_halting(&report);
    assert_eq!(report.forwarded.len(), 2);
    assert!(matches!(report.forwarded[0].sig, TypeSignature::Primitive(PrimitiveType::Float)));
    assert_eq!(report.forwarded[1].pos, at(4));
}

#[test]
fn float_declaration_with_integer_value_fails() {
    let report = run(vec![
        decl(prim(PrimitiveType::Float)),
        ir(HIRInstruction::Integer(1), TypeSignature::Untyped, 2),
    ]);
    assert!(report.forwarded.is_empty());
    assert_eq!(report.notices[0].msg, "Expected an expression of type Float but instead got Integer");
}

#[test]
fn bool_declaration_cannot_be_verified() {
    let report = run(vec![
        decl(prim(PrimitiveType::Bool)),
        ir(HIRInstruction::Bool(true), TypeSignature::Untyped, 2),
        halt(3),
    ]);
    assert!(report.forwarded.is_empty());
    assert_eq!(report.notices.len(), 1);
    assert_eq!(report.notices[0].level, NoticeLevel::Error);
    assert_eq!(report.notices[0].msg, "Expected an expression of type Bool but instead got Bool");
}

#[test]
fn mismatch_names_the_value_signature() {
    let report = run(vec![
        decl(prim(PrimitiveType::Integer)),
        ir(HIRInstruction::Property("f".to_string()), TypeSignature::Composite("Point".to_string()), 2),
    ]);
    assert_eq!(report.notices[0].msg, "Expected an expression of type Integer but instead got Point");
    let report = run(vec![
        decl(prim(PrimitiveType::Unit)),
        ir(HIRInstruction::Property("f".to_string()), TypeSignature::Untyped, 2),
    ]);
    assert_eq!(report.notices[0].msg, "Expected an expression of type Unit but instead got Untyped");
}

#[test]
fn parameters_and_composites_pass_through() {
    let report = run(vec![
        ir(HIRInstruction::FnParam("a".to_string()), prim(PrimitiveType::Integer), 1),
        ir(HIRInstruction::Property("p".to_string()), TypeSignature::Composite("Point".to_string()), 2),
        halt(3),
    ]);
    assert_only_halting(&report);
    assert_eq!(report.forwarded.len(), 3);
    assert!(matches!(report.forwarded[0].ins, HIRInstruction::FnParam(_)));
    match &report.forwarded[1].sig {
        TypeSignature::Composite(n) => assert_eq!(n, "Point"),
        other => panic!("expected a composite, got {:?}", other),
    }
}

#[test]
fn check_stops_at_halt() {
    let report = run(vec![
        halt(1),
        decl(prim(PrimitiveType::Integer)),
        ir(HIRInstruction::String("x".to_string()), TypeSignature::Untyped, 2),
    ]);
    assert_only_halting(&report);
    assert_eq!(report.forwarded.len(), 1);
    assert!(matches!(report.forwarded[0].ins, HIRInstruction::Halt));
}

#[test]
fn exhausted_stream_completes() {
    let report = run(vec![]);
    assert_only_halting(&report);
    assert!(report.forwarded.is_empty());
    let report = run(vec![
        ir(HIRInstruction::FnParam("a".to_string()), prim(PrimitiveType::Integer), 1),
        decl(TypeSignature::Untyped),
    ]);
    assert_only_halting(&report);
    assert_eq!(report.forwarded.len(), 1);
}
