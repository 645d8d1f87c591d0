use vstd::prelude::*;
use std::collections::VecDeque;
use crate::hir::{found_sig, prim_name, sig_name, HIR, HIRInstruction, PrimitiveType, TypeSignature};
use crate::notices::{Notice, NoticeLevel, NoticeView};
use crate::pos::{BiPos, Position};

verus! {

/// Why a check failed: the declared primitive type, the declaration's
/// position, and the signature found on the value that followed it.
pub struct Mismatch {
    pub expected: PrimitiveType,
    pub pos: BiPos,
    pub found: TypeSignature,
}

/// Whether an instruction with opcode `ins` is a value of primitive type `p`.
/// Only the Integer, Float and String types can be verified here.
pub open spec fn satisfies(p: PrimitiveType, ins: HIRInstruction) -> bool {
    match p {
        PrimitiveType::Integer => ins is Integer,
        PrimitiveType::Float => ins is Float,
        PrimitiveType::String => ins is String,
        _ => false,
    }
}

/// The type inferred for an untyped declaration from the opcode of the
/// instruction that follows it. A Float literal gives String: this looks
/// unintended, and stays until it is settled; the fix is one arm here and
/// one in `TypeckVM::inferred_type`.
pub open spec fn inferred_type(ins: HIRInstruction) -> PrimitiveType {
    match ins {
        HIRInstruction::Integer(_) => PrimitiveType::Integer,
        HIRInstruction::Float(_) => PrimitiveType::String,
        HIRInstruction::String(_) => PrimitiveType::String,
        HIRInstruction::Bool(_) => PrimitiveType::Bool,
        _ => PrimitiveType::Unit,
    }
}

/// `h` with signature `Primitive(p)`.
pub open spec fn retag(h: HIR, p: PrimitiveType) -> HIR {
    HIR { ins: h.ins, sig: TypeSignature::Primitive(p), pos: h.pos }
}

/// What a successful check yields: the instructions it pushes onto the
/// operand stack, in order, and the `Halt` that stopped it, if one did.
pub struct Checked {
    pub stack: Seq<HIR>,
    pub halt: Option<HIR>,
}

/// `front` placed before the pushed instructions of a successful result; a
/// failure stays as it is.
pub open spec fn prepend(front: Seq<HIR>, r: Result<Checked, Mismatch>) -> Result<Checked, Mismatch> {
    match r {
        Ok(c) => Ok(Checked { stack: front + c.stack, halt: c.halt }),
        Err(e) => Err(e),
    }
}

/// A successful result that pushes nothing and ends with `halt`.
pub open spec fn finished(halt: Option<HIR>) -> Result<Checked, Mismatch> {
    Ok(Checked { stack: Seq::empty(), halt })
}

/// The instruction sequence of an optional `Halt`.
pub open spec fn halt_seq(halt: Option<HIR>) -> Seq<HIR> {
    match halt {
        Some(h) => seq![h],
        None => Seq::empty(),
    }
}

/// What checking the instruction stream `s` gives: the instructions pushed
/// onto the operand stack, in order, and the `Halt` that stopped the check if
/// there was one (it is forwarded, not pushed); or the first mismatch.
///
/// A declaration with a primitive type is checked against the value that
/// follows it; on a match the value itself is forwarded, at its own
/// position, tagged with the declared type, and the declaration is not
/// forwarded. So `[Primitive(Integer) declaration, Integer(5), Halt]`
/// forwards `[Integer(5) tagged Primitive(Integer), Halt]`. An untyped
/// declaration is forwarded re-tagged with the inferred type, followed by
/// the value unchanged.
pub open spec fn check_stream(s: Seq<HIR>) -> Result<Checked, Mismatch>
    decreases s.len(),
{
    if s.len() == 0 {
        finished(None)
    } else {
        let h = s[0];
        if h.ins is Halt {
            finished(Some(h))
        } else {
            match h.sig {
                TypeSignature::Primitive(p) => {
                    if h.ins is FnParam {
                        prepend(seq![h], check_stream(s.drop_first()))
                    } else if s.len() < 2 {
                        finished(None)
                    } else if satisfies(p, s[1].ins) {
                        prepend(seq![retag(s[1], p)], check_stream(s.subrange(2, s.len() as int)))
                    } else {
                        Err(Mismatch { expected: p, pos: h.pos, found: found_sig(s[1]) })
                    }
                },
                TypeSignature::Untyped => {
                    if s.len() < 2 {
                        finished(None)
                    } else {
                        prepend(
                            seq![retag(h, inferred_type(s[1].ins)), s[1]],
                            check_stream(s.subrange(2, s.len() as int)),
                        )
                    }
                },
                TypeSignature::Composite(_) => prepend(seq![h], check_stream(s.drop_first())),
            }
        }
    }
}

/// The message of a mismatch.
pub open spec fn mismatch_msg(e: Mismatch) -> Seq<char> {
    "Expected an expression of type "@ + prim_name(e.expected) + " but instead got "@ + sig_name(
        e.found,
    )
}

/// The diagnostic sent for a mismatch in module `module`.
pub open spec fn error_notice(module: Seq<char>, e: Mismatch) -> NoticeView {
    NoticeView {
        from: "Type checker came back with an error."@,
        msg: mismatch_msg(e),
        file: module,
        level: NoticeLevel::Error,
        pos: e.pos,
    }
}

/// The diagnostic sent when a check of module `module` finishes.
pub open spec fn halting_notice(module: Seq<char>) -> NoticeView {
    NoticeView {
        from: "Type checker"@,
        msg: "Halting"@,
        file: module,
        level: NoticeLevel::Halt,
        pos: BiPos { start: Position { line: 0, col: 0 }, end: Position { line: 0, col: 0 } },
    }
}

/// What a check of module `module` over stream `s` sends: its diagnostics,
/// and the instructions forwarded downstream (none on failure).
pub open spec fn report_of(module: Seq<char>, s: Seq<HIR>) -> (Seq<NoticeView>, Seq<HIR>) {
    match check_stream(s) {
        Ok(c) => (seq![halting_notice(module)], c.stack + halt_seq(c.halt)),
        Err(e) => (seq![error_notice(module, e)], Seq::empty()),
    }
}

/// What a check sends: diagnostics on one channel, typed instructions on
/// the other.
pub struct CheckReport {
    pub notices: Vec<Notice>,
    pub forwarded: Vec<HIR>,
}

/// The views of a sequence of diagnostics.
pub open spec fn notice_views(ns: Seq<Notice>) -> Seq<NoticeView> {
    ns.map_values(|n: Notice| n@)
}

/// The type-checking automaton of one module.
pub struct TypeckVM {
    module_name: String,
    ir_stack: Vec<HIR>,
    ir_rx: VecDeque<HIR>,
}

impl TypeckVM {
    /// Builds a diagnostic about this module.
    fn emit_notice(&self, from: &str, msg: String, level: NoticeLevel, pos: BiPos) -> (r: Notice)
        ensures
            r@ == (NoticeView { from: from@, msg: msg@, file: self.module_name@, level, pos }),
    {
        Notice { from: String::from_str(from), msg, file: String::from_str(self.module_name.as_str()), level, pos }
    }

    /// Pulls the next instruction from the inbound stream.
    fn recv(&mut self) -> (r: Option<HIR>)
        ensures
            final(self).module_name == old(self).module_name,
            final(self).ir_stack == old(self).ir_stack,
            old(self).ir_rx@.len() == 0 ==> r is None && final(self).ir_rx@ == old(self).ir_rx@,
            old(self).ir_rx@.len() > 0 ==> r == Some(old(self).ir_rx@[0])
                && final(self).ir_rx@ == old(self).ir_rx@.drop_first(),
    {
        self.ir_rx.pop_front()
    }

    /// Checks the inbound stream, pushing what it verifies or annotates onto
    /// the operand stack, until a `Halt` arrives or the stream runs out. On
    /// success it gives the terminal "Halting" diagnostic and the `Halt` to
    /// forward, if one arrived; on a mismatch, the error diagnostic.
    fn check(&mut self) -> (r: Result<(Notice, Option<HIR>), Notice>)
        ensures
            final(self).module_name == old(self).module_name,
            old(self).ir_stack@.is_prefix_of(final(self).ir_stack@),
            match check_stream(old(self).ir_rx@) {
                Ok(c) => {
                    &&& r is Ok
                    &&& r->Ok_0.0@ == halting_notice(old(self).module_name@)
                    &&& r->Ok_0.1 == c.halt
                    &&& final(self).ir_stack@ == old(self).ir_stack@ + c.stack
                },
                Err(e) => r is Err && r->Err_0@ == error_notice(old(self).module_name@, e),
            },
    {
        let mut halt: Option<HIR> = None;
        loop
            invariant_except_break
                halt is None,
                prepend(self.ir_stack@, check_stream(self.ir_rx@)) == prepend(
                    old(self).ir_stack@,
                    check_stream(old(self).ir_rx@),
                ),
            invariant
                self.module_name == old(self).module_name,
                old(self).ir_stack@.len() <= self.ir_stack@.len(),
                forall|j: int|
                    0 <= j < old(self).ir_stack@.len() ==> self.ir_stack@[j] == old(self).ir_stack@[j],
            ensures
                prepend(self.ir_stack@, finished(halt)) == prepend(
                    old(self).ir_stack@,
                    check_stream(old(self).ir_rx@),
                ),
            decreases self.ir_rx@.len(),
        {
            let ghost s = self.ir_rx@;
            let ghost stack = self.ir_stack@;
            let ir = match self.recv() {
                Some(ir) => ir,
                None => {
                    proof {
                        assert(self.ir_stack@ + Seq::<HIR>::empty() =~= self.ir_stack@);
                    }
                    break;
                },
            };
            if let HIRInstruction::Halt = ir.ins {
                halt = Some(ir);
                proof {
                    assert(stack + Seq::<HIR>::empty() =~= stack);
                }
                break;
            }
            match ir.sig {
                TypeSignature::Primitive(p) => {
                    if let HIRInstruction::FnParam(_) = ir.ins {
                        self.ir_stack.push(ir);
                        proof {
                            assert(s.drop_first() == self.ir_rx@);
                            lemma_prepend_assoc(stack, seq![s[0]], check_stream(self.ir_rx@));
                        }
                    } else {
                        let next = match self.recv() {
                            Some(next) => next,
                            None => {
                                proof {
                                    assert(self.ir_stack@ + Seq::<HIR>::empty() =~= self.ir_stack@);
                                }
                                break;
                            },
                        };
                        proof {
                            assert(self.ir_rx@ =~= s.subrange(2, s.len() as int));
                        }
                        if Self::satisfies(p, &next.ins) {
                            self.ir_stack.push(
                                HIR { ins: next.ins, sig: TypeSignature::Primitive(p), pos: next.pos },
                            );
                            proof {
                                lemma_prepend_assoc(stack, seq![retag(s[1], p)], check_stream(self.ir_rx@));
                            }
                        } else {
                            let mut msg = String::from_str("Expected an expression of type ");
                            msg.append(p.name());
                            msg.append(" but instead got ");
                            let found = next.found_name();
                            msg.append(found.as_str());
                            let n = self.emit_notice(
                                "Type checker came back with an error.",
                                msg,
                                NoticeLevel::Error,
                                ir.pos,
                            );
                            proof {
                                assert(old(self).ir_stack@ =~= self.ir_stack@.subrange(
                                    0,
                                    old(self).ir_stack@.len() as int,
                                ));
                            }
                            return Err(n);
                        }
                    }
                },
                TypeSignature::Untyped => {
                    let next = match self.recv() {
                        Some(next) => next,
                        None => {
                            proof {
                                assert(self.ir_stack@ + Seq::<HIR>::empty() =~= self.ir_stack@);
                            }
                            break;
                        },
                    };
                    proof {
                        assert(self.ir_rx@ =~= s.subrange(2, s.len() as int));
                    }
                    let p = Self::inferred_type(&next.ins);
                    self.ir_stack.push(HIR { ins: ir.ins, sig: TypeSignature::Primitive(p), pos: ir.pos });
                    self.ir_stack.push(next);
                    proof {
                        lemma_prepend_assoc(
                            stack,
                            seq![retag(s[0], p), s[1]],
                            check_stream(self.ir_rx@),
                        );
                        assert(stack + seq![retag(s[0], p), s[1]] =~= self.ir_stack@);
                    }
                },
                TypeSignature::Composite(n) => {
                    self.ir_stack.push(HIR { ins: ir.ins, sig: TypeSignature::Composite(n), pos: ir.pos });
                    proof {
                        assert(s.drop_first() == self.ir_rx@);
                        lemma_prepend_assoc(stack, seq![s[0]], check_stream(self.ir_rx@));
                    }
                },
            }
        }
        proof {
            assert(old(self).ir_stack@ =~= self.ir_stack@.subrange(0, old(self).ir_stack@.len() as int));
        }
        let halting = self.emit_notice(
            "Type checker",
            String::from_str("Halting"),
            NoticeLevel::Halt,
            BiPos::origin(),
        );
        Ok((halting, halt))
    }

    /// Whether an instruction with opcode `ins` is a value of type `p`.
    fn satisfies(p: PrimitiveType, ins: &HIRInstruction) -> (r: bool)
        ensures
            r == satisfies(p, *ins),
    {
        match p {
            PrimitiveType::Integer => matches!(ins, HIRInstruction::Integer(_)),
            PrimitiveType::Float => matches!(ins, HIRInstruction::Float(_)),
            PrimitiveType::String => matches!(ins, HIRInstruction::String(_)),
            _ => false,
        }
    }

    /// The type inferred for an untyped declaration followed by `ins`.
    fn inferred_type(ins: &HIRInstruction) -> (r: PrimitiveType)
        ensures
            r == inferred_type(*ins),
    {
        match ins {
            HIRInstruction::Integer(_) => PrimitiveType::Integer,
            HIRInstruction::Float(_) => PrimitiveType::String,
            HIRInstruction::String(_) => PrimitiveType::String,
            HIRInstruction::Bool(_) => PrimitiveType::Bool,
            _ => PrimitiveType::Unit,
        }
    }

    /// Checks the instruction stream of module `module_name`. On success the
    /// report holds the one terminal "Halting" diagnostic and the checked
    /// instructions in order; on a mismatch, the one error diagnostic and
    /// nothing to forward.
    pub fn start_checking(module_name: String, ir_rx: VecDeque<HIR>) -> (r: CheckReport)
        ensures
            (notice_views(r.notices@), r.forwarded@) == report_of(module_name@, ir_rx@),
    {
        let mut typeck = TypeckVM { module_name, ir_stack: Vec::new(), ir_rx };
        let ghost m = typeck.module_name@;
        let ghost s = typeck.ir_rx@;
        match typeck.check() {
            Ok((halting, halt)) => {
                let mut notices = Vec::new();
                notices.push(halting);
                let mut forwarded = typeck.ir_stack;
                let ghost stack = forwarded@;
                if let Some(h) = halt {
                    forwarded.push(h);
                }
                proof {
                    assert(notice_views(notices@) =~= seq![halting_notice(m)]);
                    assert(Seq::<HIR>::empty() + stack =~= stack);
                    assert(forwarded@ =~= stack + halt_seq(halt));
                }
                CheckReport { notices, forwarded }
            },
            Err(n) => {
                let mut notices = Vec::new();
                notices.push(n);
                let forwarded: Vec<HIR> = Vec::new();
                proof {
                    assert(notice_views(notices@) =~= seq![n@]);
                    assert(forwarded@ =~= Seq::<HIR>::empty());
                }
                CheckReport { notices, forwarded }
            },
        }
    }
}

/// Placing two prefixes in turn before a result places their concatenation.
proof fn lemma_prepend_assoc(a: Seq<HIR>, b: Seq<HIR>, r: Result<Checked, Mismatch>)
    ensures
        prepend(a, prepend(b, r)) == prepend(a + b, r),
{
    if let Ok(c) = r {
        assert(a + (b + c.stack) =~= a + b + c.stack);
    }
}

/// Checking a well-typed stream, once or again, sends the same two streams
/// each time: no diagnostic but the terminal "Halting" one, and the checked
/// instructions.
pub proof fn lemma_rerun_well_typed(module: Seq<char>, s: Seq<HIR>, again: Seq<HIR>)
    requires
        check_stream(s) is Ok,
        again == s,
    ensures
        report_of(module, again) == report_of(module, s),
        report_of(module, s).0 == seq![halting_notice(module)],
        report_of(module, s).1 == check_stream(s)->Ok_0.stack + halt_seq(check_stream(s)->Ok_0.halt),
{
}

} // verus!
