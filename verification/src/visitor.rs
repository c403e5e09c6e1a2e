//! The tree-walking code generator.
//!
//! A [`Compiler`] owns a fixed file of 32 registers: numbers 0 to 30 form the
//! allocatable pool and register 31 is reserved as the implicit return-value
//! slot. Walking the syntax tree post-order, it emits one text instruction
//! per primitive operation, keeps intermediate results on a stack of occupied
//! registers, and binds identifiers to registers in the innermost scope of a
//! scope stack.
//!
//! The whole walk is mirrored, step for step, by the specification function
//! [`spec_visit`]; every public operation's contract is stated against that
//! model.

use vstd::prelude::*;
use vstd::multiset::Multiset;

use crate::bytes::push_all;
use crate::emit::binop_line;
use crate::emit::call_line;
use crate::emit::code_line;
use crate::emit::data_line;
use crate::emit::hlt_line;
use crate::emit::is_binop;
use crate::emit::label_line;
use crate::emit::line_binop;
use crate::emit::line_call;
use crate::emit::line_code;
use crate::emit::line_data;
use crate::emit::line_hlt;
use crate::emit::line_label;
use crate::emit::line_load_int;
use crate::emit::line_load_text;
use crate::emit::line_not;
use crate::emit::line_push;
use crate::emit::line_ret;
use crate::emit::load_int_line;
use crate::emit::load_text_line;
use crate::emit::mnemonic_of;
use crate::emit::not_line;
use crate::emit::push_line;
use crate::emit::ret_line;
use crate::errors::CompileError;
use crate::errors::NodeKind;
use crate::scope::Scope;
use crate::scope::ScopeView;
use crate::tokens::Token;

verus! {

/// The views of a sequence's elements, element by element.
pub open spec fn views_of<T: View>(s: Seq<T>) -> Seq<T::V> {
    Seq::new(s.len(), |i: int| s[i]@)
}

/// The register reserved for the value a function returns.
pub open spec fn return_register() -> u8 {
    31
}

/// The free pool a fresh compiler starts from: registers 0 to 30 in
/// ascending order, allocated from the back, so register 30 is handed out
/// first, then 29, and so on. This order is deliberate: the compiler's
/// contract with its callers includes instruction sequences such as
/// `LOAD $30 #3`, `LOAD $29 #4`, `ADD $30 $29 $28` for the first
/// expression compiled.
pub open spec fn initial_free() -> Seq<u8> {
    Seq::new(31, |i: int| i as u8)
}

/// The emitted lines joined by single line feeds: the program text handed
/// to the external assembler.
pub open spec fn joined_lines(lines: Seq<Seq<u8>>) -> Seq<u8>
    decreases lines.len(),
{
    if lines.len() == 0 {
        Seq::empty()
    } else if lines.len() == 1 {
        lines[0]
    } else {
        joined_lines(lines.drop_last()) + seq![10u8] + lines.last()
    }
}

/// Mathematical state of a [`Compiler`] mid-walk.
#[verifier::ext_equal]
pub ghost struct CompilerView {
    /// Registers available for allocation, allocated from the back.
    pub free: Seq<u8>,
    /// The result stack: registers holding intermediate values, most recent
    /// last.
    pub used: Seq<u8>,
    /// The instruction lines emitted so far.
    pub lines: Seq<Seq<u8>>,
    /// The scope stack, innermost last.
    pub scopes: Seq<ScopeView>,
    /// Identifier names seen but not yet consumed by a binding.
    pub idbuf: Seq<Seq<u8>>,
    /// Whether literals must target the return register.
    pub in_return: bool,
}

/// An empty scope, as a view.
pub open spec fn empty_scope_view() -> ScopeView {
    ScopeView { vars: Map::empty(), used: Seq::empty(), rets: Seq::empty() }
}

/// The state a fresh compiler starts in: the full pool free, nothing held,
/// nothing emitted, one open scope.
pub open spec fn initial_state() -> CompilerView {
    CompilerView {
        free: initial_free(),
        used: Seq::empty(),
        lines: Seq::empty(),
        scopes: seq![empty_scope_view()],
        idbuf: Seq::empty(),
        in_return: false,
    }
}

/// What `name` resolves to, searching the scope stack innermost to
/// outermost.
pub open spec fn resolve_in(scopes: Seq<ScopeView>, name: Seq<u8>) -> Option<u8>
    decreases scopes.len(),
{
    if scopes.len() == 0 {
        None
    } else if scopes.last().vars.contains_key(name) {
        Some(scopes.last().vars[name])
    } else {
        resolve_in(scopes.drop_last(), name)
    }
}

/// `st` with `name` bound to `reg` in the innermost scope, `reg` recorded as
/// live there. Unchanged when no scope exists.
pub open spec fn bind_in(st: CompilerView, name: Seq<u8>, reg: u8) -> CompilerView {
    if st.scopes.len() == 0 {
        st
    } else {
        let sc = st.scopes.last();
        CompilerView {
            scopes: st.scopes.update(
                st.scopes.len() - 1,
                ScopeView { vars: sc.vars.insert(name, reg), used: sc.used.push(reg), rets: sc.rets },
            ),
            ..st
        }
    }
}

/// Spec-level image of a [`CompileError`].
pub ghost enum ErrView {
    Exhausted(NodeKind),
    Underflow(NodeKind),
    Unresolved(Seq<u8>),
    NoTarget,
}

/// The spec-level image of a compile error value.
pub open spec fn err_view(e: CompileError) -> ErrView {
    match e {
        CompileError::RegisterExhausted { node } => ErrView::Exhausted(node),
        CompileError::RegisterUnderflow { node } => ErrView::Underflow(node),
        CompileError::UnresolvedIdentifier { name } => ErrView::Unresolved(name@),
        CompileError::MissingAssignmentTarget => ErrView::NoTarget,
    }
}

/// One step of the specification walk: the state reached, and the error that
/// aborted the walk there, if one did.
#[verifier::ext_equal]
pub ghost struct Step {
    pub st: CompilerView,
    pub err: Option<ErrView>,
}

pub open spec fn step_ok(st: CompilerView) -> Step {
    Step { st, err: None }
}

pub open spec fn step_err(st: CompilerView, e: ErrView) -> Step {
    Step { st, err: Some(e) }
}

/// The label a `Function` node is emitted under: its name node's text.
pub open spec fn label_of(name: Token) -> Seq<u8> {
    match name {
        Token::FunctionName { name: n } => n@,
        _ => Seq::empty(),
    }
}

/// Leaving a scope: it is dropped and its live registers return to the free
/// pool. Unchanged when no scope exists.
pub open spec fn close_scope(st: CompilerView) -> CompilerView {
    if st.scopes.len() == 0 {
        st
    } else {
        CompilerView {
            scopes: st.scopes.drop_last(),
            free: st.free + st.scopes.last().used,
            ..st
        }
    }
}

/// A binary operator: the two most recent result registers are consumed
/// (the earlier one is the left operand), a destination register is
/// allocated, one instruction is emitted, and the operand registers return
/// to the free pool.
pub open spec fn spec_binop(st: CompilerView, t: Token) -> Step {
    let kind = t.spec_kind();
    if st.free.len() == 0 {
        step_err(st, ErrView::Exhausted(kind))
    } else if st.used.len() < 2 {
        step_err(st, ErrView::Underflow(kind))
    } else {
        let d = st.free.last();
        let rtop = st.used.last();
        let lsec = st.used[st.used.len() - 2];
        step_ok(
            CompilerView {
                free: st.free.drop_last().push(rtop).push(lsec),
                used: st.used.drop_last().drop_last().push(d),
                lines: st.lines.push(binop_line(mnemonic_of(t), lsec, rtop, d)),
                ..st
            },
        )
    }
}

/// Logical not: one operand register is consumed, a destination is
/// allocated.
pub open spec fn spec_not(st: CompilerView) -> Step {
    if st.free.len() == 0 {
        step_err(st, ErrView::Exhausted(NodeKind::LogicalNot))
    } else if st.used.len() == 0 {
        step_err(st, ErrView::Underflow(NodeKind::LogicalNot))
    } else {
        let d = st.free.last();
        let a = st.used.last();
        step_ok(
            CompilerView {
                free: st.free.drop_last().push(a),
                used: st.used.drop_last().push(d),
                lines: st.lines.push(not_line(a, d)),
                ..st
            },
        )
    }
}

/// An integer literal: in return mode it is loaded straight into the return
/// register; otherwise a fresh register is allocated and pushed as the
/// node's result.
pub open spec fn spec_load_int(st: CompilerView, v: i64) -> Step {
    if st.in_return {
        step_ok(
            CompilerView { lines: st.lines.push(load_int_line(return_register(), v as int)), ..st },
        )
    } else if st.free.len() == 0 {
        step_err(st, ErrView::Exhausted(NodeKind::Integer))
    } else {
        let d = st.free.last();
        step_ok(
            CompilerView {
                free: st.free.drop_last(),
                used: st.used.push(d),
                lines: st.lines.push(load_int_line(d, v as int)),
                ..st
            },
        )
    }
}

/// A float literal: as an integer literal, with the literal's text as the
/// immediate.
pub open spec fn spec_load_text(st: CompilerView, text: Seq<u8>) -> Step {
    if st.in_return {
        step_ok(
            CompilerView { lines: st.lines.push(load_text_line(return_register(), text)), ..st },
        )
    } else if st.free.len() == 0 {
        step_err(st, ErrView::Exhausted(NodeKind::Float))
    } else {
        let d = st.free.last();
        step_ok(
            CompilerView {
                free: st.free.drop_last(),
                used: st.used.push(d),
                lines: st.lines.push(load_text_line(d, text)),
                ..st
            },
        )
    }
}

/// An assignment fold: the pending identifier is bound, in the innermost
/// scope, to the register holding the evaluated right-hand side. No
/// instruction is emitted. (A compiler under its invariant always has a
/// scope to bind in; `bind_in` is vacuous otherwise.)
pub open spec fn spec_assign(st: CompilerView, kind: NodeKind) -> Step {
    if st.idbuf.len() == 0 {
        step_err(st, ErrView::NoTarget)
    } else if st.used.len() == 0 {
        step_err(st, ErrView::Underflow(kind))
    } else {
        let name = st.idbuf.last();
        let reg = st.used.last();
        step_ok(
            bind_in(
                CompilerView { idbuf: st.idbuf.drop_last(), used: st.used.drop_last(), ..st },
                name,
                reg,
            ),
        )
    }
}

/// Formal arguments: each is bound, innermost, to a freshly allocated
/// register (the caller's pushed values are expected to occupy them).
pub open spec fn spec_bind_args(st: CompilerView, args: Seq<Seq<u8>>) -> Step
    decreases args.len(),
{
    if args.len() == 0 {
        step_ok(st)
    } else if st.free.len() == 0 {
        step_err(st, ErrView::Exhausted(NodeKind::FunctionArgs))
    } else {
        let reg = st.free.last();
        let st1 = bind_in(CompilerView { free: st.free.drop_last(), ..st }, args[0], reg);
        spec_bind_args(st1, args.drop_first())
    }
}

/// Actual arguments of a call: each is resolved through the scope stack and
/// pushed; an unresolved name aborts.
pub open spec fn spec_push_args(st: CompilerView, args: Seq<Seq<u8>>) -> Step
    decreases args.len(),
{
    if args.len() == 0 {
        step_ok(st)
    } else {
        match resolve_in(st.scopes, args[0]) {
            None => step_err(st, ErrView::Unresolved(args[0])),
            Some(reg) => spec_push_args(
                CompilerView { lines: st.lines.push(push_line(reg)), ..st },
                args.drop_first(),
            ),
        }
    }
}

/// The specification of the whole walk: what visiting `t` from state `st`
/// emits, allocates and binds, or the error that aborts it.
pub open spec fn spec_visit(st: CompilerView, t: Token) -> Step
    decreases t,
{
    if is_binop(t) {
        spec_binop(st, t)
    } else {
        match t {
            Token::LogicalNot => spec_not(st),
            Token::Integer { value } => spec_load_int(st, value),
            Token::Float { text } => spec_load_text(st, text@),
            Token::Identifier { values } => step_ok(
                CompilerView { idbuf: st.idbuf + views_of(values@), ..st },
            ),
            Token::Factor { value } => spec_visit(st, *value),
            Token::Term { left, right } => {
                if right@.len() > 0 && right@[0].0 is Assignment {
                    let s1 = spec_visit(st, *left);
                    if s1.err is Some {
                        s1
                    } else {
                        let s2 = spec_visit(s1.st, right@[0].1);
                        if s2.err is Some {
                            s2
                        } else {
                            spec_assign(s2.st, NodeKind::Term)
                        }
                    }
                } else {
                    let s1 = spec_visit(st, *left);
                    if s1.err is Some {
                        s1
                    } else {
                        spec_visit_pairs(s1.st, right@)
                    }
                }
            },
            Token::Expression { left, right } => {
                if right@.len() > 0 && right@[0].0 is Assignment {
                    let s1 = spec_visit(st, *left);
                    if s1.err is Some {
                        s1
                    } else {
                        let s2 = spec_visit(s1.st, right@[0].1);
                        if s2.err is Some {
                            s2
                        } else {
                            spec_assign(s2.st, NodeKind::Expression)
                        }
                    }
                } else {
                    let s1 = spec_visit(st, *left);
                    if s1.err is Some {
                        s1
                    } else {
                        spec_visit_pairs(s1.st, right@)
                    }
                }
            },
            Token::FunctionCall { name, parameters } => {
                let s1 = match *parameters {
                    Token::FunctionArgs { args } => spec_push_args(st, views_of(args@)),
                    _ => step_ok(st),
                };
                if s1.err is Some {
                    s1
                } else {
                    step_ok(CompilerView { lines: s1.st.lines.push(call_line(name@)), ..s1.st })
                }
            },
            Token::FunctionArgs { args } => spec_bind_args(st, views_of(args@)),
            Token::FunctionBody { expressions } => spec_visit_seq(st, expressions@),
            Token::ReturnArgs { args } => spec_visit_seq(st, args@),
            Token::ReturnStatement { parameters } => {
                let s1 = spec_visit(CompilerView { in_return: true, ..st }, *parameters);
                if s1.err is Some {
                    s1
                } else {
                    step_ok(CompilerView { in_return: false, ..s1.st })
                }
            },
            Token::Function { name, args, body, return_statement } => {
                let s0 = CompilerView { scopes: st.scopes.push(empty_scope_view()), ..st };
                let s1 = spec_visit(s0, *args);
                if s1.err is Some {
                    s1
                } else {
                    let s2 = CompilerView {
                        lines: s1.st.lines.push(label_line(label_of(*name))),
                        ..s1.st
                    };
                    let s3 = spec_visit(s2, *body);
                    if s3.err is Some {
                        s3
                    } else {
                        let s4 = spec_visit(s3.st, *return_statement);
                        if s4.err is Some {
                            s4
                        } else {
                            step_ok(
                                close_scope(
                                    CompilerView { lines: s4.st.lines.push(ret_line()), ..s4.st },
                                ),
                            )
                        }
                    }
                }
            },
            Token::Program { expressions } => {
                let s0 = CompilerView {
                    lines: st.lines.push(data_line()).push(code_line()),
                    ..st
                };
                let s1 = spec_visit_seq(s0, expressions@);
                if s1.err is Some {
                    s1
                } else {
                    step_ok(CompilerView { lines: s1.st.lines.push(hlt_line()), ..s1.st })
                }
            },
            _ => step_ok(st),
        }
    }
}

/// Visiting a sequence of nodes in order, stopping at the first error.
pub open spec fn spec_visit_seq(st: CompilerView, ts: Seq<Token>) -> Step
    decreases ts,
{
    if ts.len() == 0 {
        step_ok(st)
    } else {
        let s1 = spec_visit(st, ts[0]);
        if s1.err is Some {
            s1
        } else {
            spec_visit_seq(s1.st, ts.drop_first())
        }
    }
}

/// Folding the right-hand pairs of a `Term` or `Expression`: each operand is
/// visited, then its operator, stopping at the first error.
pub open spec fn spec_visit_pairs(st: CompilerView, ps: Seq<(Token, Token)>) -> Step
    decreases ps,
{
    if ps.len() == 0 {
        step_ok(st)
    } else {
        let s1 = spec_visit(st, ps[0].1);
        if s1.err is Some {
            s1
        } else {
            let s2 = spec_visit(s1.st, ps[0].0);
            if s2.err is Some {
                s2
            } else {
                spec_visit_pairs(s2.st, ps.drop_first())
            }
        }
    }
}

/// Compiles a syntax tree into assembly text for the target virtual
/// machine, allocating registers from a fixed pool and tracking lexical
/// scopes.
pub struct Compiler {
    free_registers: Vec<u8>,
    used_registers: Vec<u8>,
    assembly: Vec<Vec<u8>>,
    scopes: Vec<Scope>,
    identifier_buffer: Vec<Vec<u8>>,
    in_return: bool,
}

impl View for Compiler {
    type V = CompilerView;

    closed spec fn view(&self) -> CompilerView {
        CompilerView {
            free: self.free_registers@,
            used: self.used_registers@,
            lines: views_of(self.assembly@),
            scopes: views_of(self.scopes@),
            idbuf: views_of(self.identifier_buffer@),
            in_return: self.in_return,
        }
    }
}

impl Compiler {
    /// The scope stack is never empty and every scope's internal map is
    /// well-formed.
    pub closed spec fn wf(self) -> bool {
        self.scopes@.len() >= 1 && forall|i: int|
            0 <= i < self.scopes@.len() ==> (#[trigger] self.scopes@[i]).wf()
    }

    /// Creates and returns a new `Compiler`: registers 0 to 30 free, one
    /// (top-level) scope, nothing emitted.
    pub fn new() -> (c: Compiler)
        ensures
            c.wf(),
            c@ == initial_state(),
    {
        let mut free_registers: Vec<u8> = Vec::new();
        let mut i: u8 = 0;
        while i < 31
            invariant
                0 <= i <= 31,
                free_registers@ == initial_free().subrange(0, i as int),
            decreases 31 - i,
        {
            free_registers.push(i);
            i = i + 1;
            proof {
                assert(free_registers@ =~= initial_free().subrange(0, i as int));
            }
        }
        let mut scopes: Vec<Scope> = Vec::new();
        scopes.push(Scope::new());
        let c = Compiler {
            free_registers,
            used_registers: Vec::new(),
            assembly: Vec::new(),
            scopes,
            identifier_buffer: Vec::new(),
            in_return: false,
        };
        proof {
            assert(c@.free =~= initial_free());
            assert(c@.scopes =~= seq![empty_scope_view()]);
            assert(c@.used =~= Seq::<u8>::empty());
            assert(c@.lines =~= Seq::<Seq<u8>>::empty());
            assert(c@.idbuf =~= Seq::<Seq<u8>>::empty());
            assert(c@ =~= initial_state());
        }
        c
    }

    /// Resolves `variable` through the scope stack, innermost to outermost.
    pub fn get_variable(&self, variable: &[u8]) -> (r: Option<u8>)
        requires
            self.wf(),
        ensures
            r == resolve_in(self@.scopes, variable@),
    {
        let n: usize = self.scopes.len();
        let mut i: usize = n;
        proof {
            assert(views_of(self.scopes@).subrange(0, n as int) =~= self@.scopes);
        }
        while i > 0
            invariant
                0 <= i <= n,
                n == self.scopes@.len(),
                self.wf(),
                resolve_in(self@.scopes, variable@) == resolve_in(
                    views_of(self.scopes@).subrange(0, i as int),
                    variable@,
                ),
            decreases i,
        {
            let ghost pre = views_of(self.scopes@).subrange(0, i as int);
            i = i - 1;
            if let Some(register) = self.scopes[i].get_variable(variable) {
                proof {
                    assert(pre.last() == self.scopes@[i as int]@);
                }
                return Some(register);
            }
            proof {
                assert(pre.last() == self.scopes@[i as int]@);
                assert(pre.drop_last() =~= views_of(self.scopes@).subrange(0, i as int));
            }
        }
        proof {
            assert(views_of(self.scopes@).subrange(0, 0) =~= Seq::<ScopeView>::empty());
        }
        None
    }

    /// Binds `identifier` to `register` in the innermost scope's table and
    /// records the register as live there, so that removing the scope
    /// reclaims it.
    pub fn new_variable(&mut self, identifier: &[u8], register: u8)
        requires
            old(self).wf(),
        ensures
            final(self).wf(),
            final(self)@ == bind_in(old(self)@, identifier@, register),
    {
        self.bind_current(identifier, register);
    }

    /// Opens a new innermost scope.
    pub fn new_scope(&mut self)
        requires
            old(self).wf(),
        ensures
            final(self).wf(),
            final(self)@ == (CompilerView {
                scopes: old(self)@.scopes.push(empty_scope_view()),
                ..old(self)@
            }),
    {
        self.scopes.push(Scope::new());
        proof {
            assert(final(self)@.scopes =~= old(self)@.scopes.push(empty_scope_view()));
        }
    }

    /// Closes the innermost scope and returns its live registers to the free
    /// pool. Does nothing on an empty scope stack.
    pub fn remove_scope(&mut self)
        ensures
            old(self)@.scopes.len() == 0 ==> final(self)@ == old(self)@ && final(self).wf() == old(
                self,
            ).wf(),
            old(self)@.scopes.len() > 0 ==> final(self)@ == (CompilerView {
                scopes: old(self)@.scopes.drop_last(),
                free: old(self)@.free + old(self)@.scopes.last().used,
                ..old(self)@
            }),
            old(self).wf() && old(self)@.scopes.len() > 1 ==> final(self).wf(),
    {
        if let Some(newest_scope) = self.scopes.pop() {
            let regs = newest_scope.get_registers();
            let n: usize = regs.len();
            let mut i: usize = 0;
            while i < n
                invariant
                    0 <= i <= n,
                    n == regs@.len(),
                    self.free_registers@ == old(self).free_registers@ + regs@.subrange(
                        0,
                        i as int,
                    ),
                    self.used_registers@ == old(self).used_registers@,
                    self.assembly@ == old(self).assembly@,
                    self.scopes@ == old(self).scopes@.drop_last(),
                    self.identifier_buffer@ == old(self).identifier_buffer@,
                    self.in_return == old(self).in_return,
                decreases n - i,
            {
                self.free_registers.push(regs[i]);
                i = i + 1;
                proof {
                    assert(self.free_registers@ =~= old(self).free_registers@ + regs@.subrange(
                        0,
                        i as int,
                    ));
                }
            }
            proof {
                assert(regs@.subrange(0, n as int) =~= regs@);
                assert(views_of(self.scopes@) =~= views_of(old(self).scopes@).drop_last());
                assert(old(self)@.scopes.last() == old(self).scopes@.last()@);
                if old(self).wf() && old(self).scopes@.len() > 1 {
                    assert forall|i: int|
                        0 <= i < self.scopes@.len() implies (#[trigger] self.scopes@[i]).wf() by {
                        assert(self.scopes@[i] == old(self).scopes@[i]);
                    }
                }
            }
        } else {
            proof {
                assert(final(self)@ =~= old(self)@);
            }
        }
    }

    /// Pops and returns the innermost scope without releasing its registers.
    pub fn pop_current_scope(&mut self) -> (r: Option<Scope>)
        ensures
            old(self)@.scopes.len() == 0 ==> final(self)@ == old(self)@ && r is None,
            old(self)@.scopes.len() > 0 ==> final(self)@ == (CompilerView {
                scopes: old(self)@.scopes.drop_last(),
                ..old(self)@
            }) && (r matches Some(sc) && sc@ == old(self)@.scopes.last()),
            old(self).wf() && old(self)@.scopes.len() > 1 ==> final(self).wf(),
    {
        let r = self.scopes.pop();
        proof {
            if old(self).scopes@.len() > 0 {
                assert(views_of(self.scopes@) =~= views_of(old(self).scopes@).drop_last());
            } else {
                assert(final(self)@ =~= old(self)@);
            }
        }
        r
    }

    /// A mutable borrow of the innermost scope.
    pub fn current_scope(&mut self) -> (r: &mut Scope)
        requires
            old(self).wf(),
        ensures
            (*r)@ == old(self)@.scopes.last(),
            final(self)@ == (CompilerView {
                scopes: old(self)@.scopes.update(
                    old(self)@.scopes.len() - 1,
                    (*final(r))@,
                ),
                ..old(self)@
            }),
            (*final(r)).wf() ==> final(self).wf(),
    {
        let n = self.scopes.len();
        &mut self.scopes[n - 1]
    }

    /// Emits the fixed `.data` / `.code` preamble that opens every program.
    pub fn write_prologue(&mut self)
        ensures
            final(self)@ == (CompilerView {
                lines: old(self)@.lines.push(data_line()).push(code_line()),
                ..old(self)@
            }),
            final(self).wf() == old(self).wf(),
    {
        let d = line_data();
        self.assembly.push(d);
        let c = line_code();
        self.assembly.push(c);
        proof {
            assert(views_of(self.assembly@) =~= old(self)@.lines.push(data_line()).push(
                code_line(),
            ));
        }
    }

    /// The instruction lines emitted so far.
    pub fn assembly_lines(&self) -> (r: &Vec<Vec<u8>>)
        ensures
            views_of(r@) == self@.lines,
    {
        &self.assembly
    }

    /// The registers currently in the free pool.
    pub fn free_register_list(&self) -> (r: &Vec<u8>)
        ensures
            r@ == self@.free,
    {
        &self.free_registers
    }

    /// The registers currently occupied by intermediate results.
    pub fn used_register_list(&self) -> (r: &Vec<u8>)
        ensures
            r@ == self@.used,
    {
        &self.used_registers
    }

    /// How many scopes are open.
    pub fn scope_count(&self) -> (r: usize)
        ensures
            r == self@.scopes.len(),
    {
        self.scopes.len()
    }

    /// The emitted lines as one newline-joined program text.
    fn join_lines(&self) -> (r: Vec<u8>)
        ensures
            r@ == joined_lines(self@.lines),
    {
        let n: usize = self.assembly.len();
        let mut out: Vec<u8> = Vec::new();
        let mut i: usize = 0;
        proof {
            assert(self@.lines.subrange(0, 0) =~= Seq::<Seq<u8>>::empty());
        }
        while i < n
            invariant
                0 <= i <= n,
                n == self.assembly@.len(),
                out@ == joined_lines(self@.lines.subrange(0, i as int)),
            decreases n - i,
        {
            let ghost pre = self@.lines.subrange(0, i as int);
            if i > 0 {
                out.push(10);
            }
            push_all(&mut out, self.assembly[i].as_slice());
            i = i + 1;
            proof {
                let cur = self@.lines.subrange(0, i as int);
                assert(cur.drop_last() =~= pre);
                assert(cur.last() == self@.lines[i - 1]);
                if i == 1 {
                    assert(out@ =~= joined_lines(cur));
                } else {
                    assert(out@ =~= joined_lines(cur));
                }
            }
        }
        proof {
            assert(self@.lines.subrange(0, n as int) =~= self@.lines);
        }
        out
    }

    /// Joins the emitted instructions into one program text and hands it to
    /// the external assembler; returns the bytecode, or an empty vector when
    /// the assembler rejects the text. Because the assembler panics rather
    /// than erring on some texts (see [`crate::assemble::assembler_safe`]),
    /// the text is checked first, and an unsafe text - for instance an
    /// immediate beyond 32 bits, which the source language's 64-bit literals
    /// can produce - yields no bytecode instead of being handed over.
    pub fn compile(&mut self) -> (r: Vec<u8>)
        ensures
            *final(self) == *old(self),
            ({
                let text = joined_lines(old(self)@.lines);
                if crate::assemble::assembler_safe(text) {
                    match crate::assemble::assembled_of(text) {
                        Some(b) => r@ == b,
                        None => r@ == Seq::<u8>::empty(),
                    }
                } else {
                    r@ == Seq::<u8>::empty()
                }
            }),
    {
        let program = self.join_lines();
        if !crate::assemble::check_assembler_safe(program.as_slice()) {
            return Vec::new();
        }
        match crate::assemble::assemble_bytes(program.as_slice()) {
            Some(bytecode) => bytecode,
            None => Vec::new(),
        }
    }

    /// Appends one emitted instruction line.
    fn emit_line(&mut self, line: Vec<u8>)
        ensures
            final(self)@ == (CompilerView { lines: old(self)@.lines.push(line@), ..old(self)@ }),
            final(self).wf() == old(self).wf(),
    {
        self.assembly.push(line);
        proof {
            assert(views_of(self.assembly@) =~= old(self)@.lines.push(line@));
            assert(self@ =~= (CompilerView { lines: old(self)@.lines.push(line@), ..old(self)@ }));
        }
    }

    /// Binds `name` to `reg` in the innermost scope and records the register
    /// as live there.
    fn bind_current(&mut self, name: &[u8], reg: u8)
        requires
            old(self).wf(),
        ensures
            final(self).wf(),
            final(self)@ == bind_in(old(self)@, name@, reg),
    {
        let mut sc = self.scopes.pop().unwrap();
        sc.new_variable(name, reg);
        sc.add_used_register(reg);
        self.scopes.push(sc);
        proof {
            let n = old(self).scopes@.len();
            assert(views_of(self.scopes@) =~= old(self)@.scopes.update(
                n - 1,
                ScopeView {
                    vars: old(self)@.scopes.last().vars.insert(name@, reg),
                    used: old(self)@.scopes.last().used.push(reg),
                    rets: old(self)@.scopes.last().rets,
                },
            ));
            assert(self@ =~= bind_in(old(self)@, name@, reg));
            assert forall|i: int| 0 <= i < self.scopes@.len() implies (#[trigger] self.scopes@[i]).wf() by {
                if i < n - 1 {
                    assert(self.scopes@[i] == old(self).scopes@[i]);
                }
            }
        }
    }

    /// The binary-operator step of the walk.
    fn emit_binop(&mut self, node: &Token) -> (r: Result<(), CompileError>)
        requires
            old(self).wf(),
            is_binop(*node),
        ensures
            final(self).wf(),
            spec_binop(old(self)@, *node) == step_of(final(self)@, r),
    {
        if self.free_registers.len() == 0 {
            return Err(CompileError::RegisterExhausted { node: node.kind() });
        }
        if self.used_registers.len() < 2 {
            return Err(CompileError::RegisterUnderflow { node: node.kind() });
        }
        let d = self.free_registers.pop().unwrap();
        let rtop = self.used_registers.pop().unwrap();
        let lsec = self.used_registers.pop().unwrap();
        let line = line_binop(node, lsec, rtop, d);
        self.assembly.push(line);
        self.used_registers.push(d);
        self.free_registers.push(rtop);
        self.free_registers.push(lsec);
        proof {
            assert(self.free_registers@ =~= old(self)@.free.drop_last().push(rtop).push(lsec));
            assert(self.used_registers@ =~= old(self)@.used.drop_last().drop_last().push(d));
            assert(views_of(self.assembly@) =~= old(self)@.lines.push(
                binop_line(mnemonic_of(*node), lsec, rtop, d),
            ));
            assert(self@ =~= spec_binop(old(self)@, *node).st);
        }
        Ok(())
    }

    /// The logical-not step of the walk.
    fn emit_not(&mut self) -> (r: Result<(), CompileError>)
        requires
            old(self).wf(),
        ensures
            final(self).wf(),
            spec_not(old(self)@) == step_of(final(self)@, r),
    {
        if self.free_registers.len() == 0 {
            return Err(CompileError::RegisterExhausted { node: NodeKind::LogicalNot });
        }
        if self.used_registers.len() == 0 {
            return Err(CompileError::RegisterUnderflow { node: NodeKind::LogicalNot });
        }
        let d = self.free_registers.pop().unwrap();
        let a = self.used_registers.pop().unwrap();
        let line = line_not(a, d);
        self.assembly.push(line);
        self.used_registers.push(d);
        self.free_registers.push(a);
        proof {
            assert(self.free_registers@ =~= old(self)@.free.drop_last().push(a));
            assert(self.used_registers@ =~= old(self)@.used.drop_last().push(d));
            assert(views_of(self.assembly@) =~= old(self)@.lines.push(not_line(a, d)));
            assert(self@ =~= spec_not(old(self)@).st);
        }
        Ok(())
    }

    /// The integer-literal step of the walk.
    fn emit_load_int(&mut self, value: i64) -> (r: Result<(), CompileError>)
        requires
            old(self).wf(),
        ensures
            final(self).wf(),
            spec_load_int(old(self)@, value) == step_of(final(self)@, r),
    {
        if self.in_return {
            let line = line_load_int(31, value);
            self.assembly.push(line);
            proof {
                assert(views_of(self.assembly@) =~= old(self)@.lines.push(
                    load_int_line(return_register(), value as int),
                ));
                assert(self@ =~= spec_load_int(old(self)@, value).st);
            }
            return Ok(());
        }
        if self.free_registers.len() == 0 {
            return Err(CompileError::RegisterExhausted { node: NodeKind::Integer });
        }
        let d = self.free_registers.pop().unwrap();
        let line = line_load_int(d, value);
        self.assembly.push(line);
        self.used_registers.push(d);
        proof {
            assert(views_of(self.assembly@) =~= old(self)@.lines.push(
                load_int_line(d, value as int),
            ));
            assert(self@ =~= spec_load_int(old(self)@, value).st);
        }
        Ok(())
    }

    /// The float-literal step of the walk.
    fn emit_load_text(&mut self, text: &Vec<u8>) -> (r: Result<(), CompileError>)
        requires
            old(self).wf(),
        ensures
            final(self).wf(),
            spec_load_text(old(self)@, text@) == step_of(final(self)@, r),
    {
        if self.in_return {
            let line = line_load_text(31, text.as_slice());
            self.assembly.push(line);
            proof {
                assert(views_of(self.assembly@) =~= old(self)@.lines.push(
                    load_text_line(return_register(), text@),
                ));
                assert(self@ =~= spec_load_text(old(self)@, text@).st);
            }
            return Ok(());
        }
        if self.free_registers.len() == 0 {
            return Err(CompileError::RegisterExhausted { node: NodeKind::Float });
        }
        let d = self.free_registers.pop().unwrap();
        let line = line_load_text(d, text.as_slice());
        self.assembly.push(line);
        self.used_registers.push(d);
        proof {
            assert(views_of(self.assembly@) =~= old(self)@.lines.push(load_text_line(d, text@)));
            assert(self@ =~= spec_load_text(old(self)@, text@).st);
        }
        Ok(())
    }

    /// Pushes identifier names into the pending-identifier buffer.
    fn buffer_identifiers(&mut self, values: &Vec<Vec<u8>>)
        ensures
            final(self)@ == (CompilerView {
                idbuf: old(self)@.idbuf + views_of(values@),
                ..old(self)@
            }),
            final(self).wf() == old(self).wf(),
    {
        let n: usize = values.len();
        let mut i: usize = 0;
        proof {
            assert(self@ =~= (CompilerView {
                idbuf: old(self)@.idbuf + views_of(values@).subrange(0, 0),
                ..old(self)@
            }));
        }
        while i < n
            invariant
                0 <= i <= n,
                n == values@.len(),
                self@ == (CompilerView {
                    idbuf: old(self)@.idbuf + views_of(values@).subrange(0, i as int),
                    ..old(self)@
                }),
                self.wf() == old(self).wf(),
            decreases n - i,
        {
            let name = crate::bytes::to_vec_bytes(values[i].as_slice());
            let ghost prev = self.identifier_buffer@;
            self.identifier_buffer.push(name);
            i = i + 1;
            proof {
                assert(name@ == values@[i - 1]@);
                assert(views_of(self.identifier_buffer@) =~= views_of(prev).push(name@));
                assert(views_of(self.identifier_buffer@) =~= old(self)@.idbuf + views_of(
                    values@,
                ).subrange(0, i as int));
                assert(self@ =~= (CompilerView {
                    idbuf: old(self)@.idbuf + views_of(values@).subrange(0, i as int),
                    ..old(self)@
                }));
            }
        }
        proof {
            assert(views_of(values@).subrange(0, n as int) =~= views_of(values@));
            assert(self@ =~= (CompilerView {
                idbuf: old(self)@.idbuf + views_of(values@),
                ..old(self)@
            }));
        }
    }

    /// The assignment step: binds the pending identifier to the register
    /// holding the evaluated right-hand side.
    fn do_assign(&mut self, kind: NodeKind) -> (r: Result<(), CompileError>)
        requires
            old(self).wf(),
        ensures
            final(self).wf(),
            spec_assign(old(self)@, kind) == step_of(final(self)@, r),
    {
        if self.identifier_buffer.len() == 0 {
            return Err(CompileError::MissingAssignmentTarget);
        }
        if self.used_registers.len() == 0 {
            return Err(CompileError::RegisterUnderflow { node: kind });
        }
        let name = self.identifier_buffer.pop().unwrap();
        let reg = self.used_registers.pop().unwrap();
        proof {
            assert(views_of(self.identifier_buffer@) =~= old(self)@.idbuf.drop_last());
            assert(name@ == old(self)@.idbuf.last());
            assert(self@ =~= (CompilerView {
                idbuf: old(self)@.idbuf.drop_last(),
                used: old(self)@.used.drop_last(),
                ..old(self)@
            }));
        }
        self.bind_current(name.as_slice(), reg);
        Ok(())
    }

    /// The formal-argument step: each argument gets a fresh register.
    fn bind_args(&mut self, args: &Vec<Vec<u8>>) -> (r: Result<(), CompileError>)
        requires
            old(self).wf(),
        ensures
            final(self).wf(),
            spec_bind_args(old(self)@, views_of(args@)) == step_of(final(self)@, r),
    {
        let n: usize = args.len();
        let mut i: usize = 0;
        proof {
            assert(views_of(args@).subrange(0, n as int) =~= views_of(args@));
        }
        while i < n
            invariant
                0 <= i <= n,
                n == args@.len(),
                self.wf(),
                spec_bind_args(old(self)@, views_of(args@)) == spec_bind_args(
                    self@,
                    views_of(args@).subrange(i as int, n as int),
                ),
            decreases n - i,
        {
            let ghost suffix = views_of(args@).subrange(i as int, n as int);
            proof {
                assert(suffix[0] == args@[i as int]@);
            }
            if self.free_registers.len() == 0 {
                return Err(CompileError::RegisterExhausted { node: NodeKind::FunctionArgs });
            }
            let ghost pre = self@;
            let reg = self.free_registers.pop().unwrap();
            proof {
                assert(self@ =~= (CompilerView { free: pre.free.drop_last(), ..pre }));
            }
            self.bind_current(args[i].as_slice(), reg);
            i = i + 1;
            proof {
                assert(suffix.drop_first() =~= views_of(args@).subrange(i as int, n as int));
            }
        }
        proof {
            assert(views_of(args@).subrange(n as int, n as int) =~= Seq::<Seq<u8>>::empty());
        }
        Ok(())
    }

    /// The actual-argument step of a call: resolve and push each argument.
    fn push_call_args(&mut self, args: &Vec<Vec<u8>>) -> (r: Result<(), CompileError>)
        requires
            old(self).wf(),
        ensures
            final(self).wf(),
            spec_push_args(old(self)@, views_of(args@)) == step_of(final(self)@, r),
    {
        let n: usize = args.len();
        let mut i: usize = 0;
        proof {
            assert(views_of(args@).subrange(0, n as int) =~= views_of(args@));
        }
        while i < n
            invariant
                0 <= i <= n,
                n == args@.len(),
                self.wf(),
                spec_push_args(old(self)@, views_of(args@)) == spec_push_args(
                    self@,
                    views_of(args@).subrange(i as int, n as int),
                ),
            decreases n - i,
        {
            let ghost suffix = views_of(args@).subrange(i as int, n as int);
            proof {
                assert(suffix[0] == args@[i as int]@);
            }
            match self.get_variable(args[i].as_slice()) {
                None => {
                    return Err(
                        CompileError::UnresolvedIdentifier {
                            name: crate::bytes::to_vec_bytes(args[i].as_slice()),
                        },
                    );
                },
                Some(reg) => {
                    let ghost pre = self@;
                    let line = line_push(reg);
                    self.assembly.push(line);
                    proof {
                        assert(views_of(self.assembly@) =~= pre.lines.push(push_line(reg)));
                        assert(self@ =~= (CompilerView { lines: pre.lines.push(push_line(reg)), ..pre }));
                    }
                },
            }
            i = i + 1;
            proof {
                assert(suffix.drop_first() =~= views_of(args@).subrange(i as int, n as int));
            }
        }
        proof {
            assert(views_of(args@).subrange(n as int, n as int) =~= Seq::<Seq<u8>>::empty());
        }
        Ok(())
    }

    /// Visits one syntax node: the executable walk, step for step the same
    /// as [`spec_visit`].
    #[verifier::rlimit(100)]
    pub fn visit_token(&mut self, node: &Token) -> (r: Result<(), CompileError>)
        requires
            old(self).wf(),
        ensures
            final(self).wf(),
            spec_visit(old(self)@, *node) == step_of(final(self)@, r),
        decreases *node,
    {
        match node {
            Token::AdditionOperator | Token::SubtractionOperator | Token::MultiplicationOperator
                | Token::DivisionOperator | Token::GreaterThan | Token::LessThan
                | Token::GreaterThanOrEqual | Token::LessThanOrEqual | Token::EqualTo
                | Token::LogicalAnd | Token::LogicalOr => self.emit_binop(node),
            Token::LogicalNot => self.emit_not(),
            Token::Integer { value } => self.emit_load_int(*value),
            Token::Float { text } => self.emit_load_text(text),
            Token::Identifier { values } => {
                self.buffer_identifiers(values);
                Ok(())
            },
            Token::Factor { value } => self.visit_token(&**value),
            Token::Term { left, right } => {
                let is_assign = right.len() > 0 && matches!(right[0].0, Token::Assignment);
                match self.visit_token(&**left) {
                    Err(e) => {
                        return Err(e);
                    },
                    Ok(()) => {},
                }
                if is_assign {
                    match self.visit_token(&right[0].1) {
                        Err(e) => {
                            return Err(e);
                        },
                        Ok(()) => {},
                    }
                    self.do_assign(NodeKind::Term)
                } else {
                    self.visit_pairs_exec(right)
                }
            },
            Token::Expression { left, right } => {
                let is_assign = right.len() > 0 && matches!(right[0].0, Token::Assignment);
                match self.visit_token(&**left) {
                    Err(e) => {
                        return Err(e);
                    },
                    Ok(()) => {},
                }
                if is_assign {
                    match self.visit_token(&right[0].1) {
                        Err(e) => {
                            return Err(e);
                        },
                        Ok(()) => {},
                    }
                    self.do_assign(NodeKind::Expression)
                } else {
                    self.visit_pairs_exec(right)
                }
            },
            Token::FunctionCall { name, parameters } => {
                match &**parameters {
                    Token::FunctionArgs { args } => {
                        match self.push_call_args(args) {
                            Err(e) => {
                                return Err(e);
                            },
                            Ok(()) => {},
                        }
                    },
                    _ => {},
                }
                let line = line_call(name.as_slice());
                self.emit_line(line);
                Ok(())
            },
            Token::FunctionArgs { args } => self.bind_args(args),
            Token::FunctionBody { expressions } => self.visit_seq_exec(expressions),
            Token::ReturnArgs { args } => self.visit_seq_exec(args),
            Token::ReturnStatement { parameters } => {
                self.in_return = true;
                proof {
                    assert(self@ =~= (CompilerView { in_return: true, ..old(self)@ }));
                }
                match self.visit_token(&**parameters) {
                    Err(e) => {
                        return Err(e);
                    },
                    Ok(()) => {},
                }
                self.in_return = false;
                proof {
                    assert(self@ =~= (CompilerView {
                        in_return: false,
                        ..spec_visit(
                            CompilerView { in_return: true, ..old(self)@ },
                            *(*parameters),
                        ).st
                    }));
                }
                Ok(())
            },
            Token::Function { name, args, body, return_statement } => {
                let ghost st_in = old(self)@;
                self.new_scope();
                let ghost s0 = self@;
                match self.visit_token(&**args) {
                    Err(e) => {
                        return Err(e);
                    },
                    Ok(()) => {},
                }
                let ghost s1st = self@;
                let line = match &**name {
                    Token::FunctionName { name: n } => line_label(n.as_slice()),
                    _ => {
                        let empty: Vec<u8> = Vec::new();
                        let l = line_label(empty.as_slice());
                        proof {
                            assert(empty@ =~= Seq::<u8>::empty());
                        }
                        l
                    },
                };
                proof {
                    assert(line@ == label_line(label_of(**name)));
                }
                self.emit_line(line);
                let ghost s2 = self@;
                match self.visit_token(&**body) {
                    Err(e) => {
                        return Err(e);
                    },
                    Ok(()) => {},
                }
                let ghost s3st = self@;
                match self.visit_token(&**return_statement) {
                    Err(e) => {
                        return Err(e);
                    },
                    Ok(()) => {},
                }
                let ghost s4st = self@;
                let rl = line_ret();
                self.emit_line(rl);
                let ghost s5 = self@;
                proof {
                    lemma_visit_scope_depth(s0, **args);
                    lemma_visit_scope_depth(s2, **body);
                    lemma_visit_scope_depth(s3st, **return_statement);
                    assert(s5.scopes.len() >= st_in.scopes.len() + 1);
                }
                self.remove_scope();
                proof {
                    assert(self@ =~= close_scope(s5));
                }
                Ok(())
            },
            Token::Program { expressions } => {
                self.write_prologue();
                match self.visit_seq_exec(expressions) {
                    Err(e) => {
                        return Err(e);
                    },
                    Ok(()) => {},
                }
                let h = line_hlt();
                self.emit_line(h);
                Ok(())
            },
            _ => Ok(()),
        }
    }

    /// Visits each node of a list in order, stopping at the first error.
    fn visit_seq_exec(&mut self, ts: &Vec<Token>) -> (r: Result<(), CompileError>)
        requires
            old(self).wf(),
        ensures
            final(self).wf(),
            spec_visit_seq(old(self)@, ts@) == step_of(final(self)@, r),
        decreases ts@,
    {
        let n: usize = ts.len();
        let mut i: usize = 0;
        proof {
            assert(ts@.subrange(0, n as int) =~= ts@);
        }
        while i < n
            invariant
                0 <= i <= n,
                n == ts@.len(),
                self.wf(),
                spec_visit_seq(old(self)@, ts@) == spec_visit_seq(
                    self@,
                    ts@.subrange(i as int, n as int),
                ),
            decreases n - i,
        {
            let ghost suffix = ts@.subrange(i as int, n as int);
            proof {
                assert(suffix[0] == ts@[i as int]);
            }
            match self.visit_token(&ts[i]) {
                Err(e) => {
                    return Err(e);
                },
                Ok(()) => {},
            }
            i = i + 1;
            proof {
                assert(suffix.drop_first() =~= ts@.subrange(i as int, n as int));
            }
        }
        proof {
            assert(ts@.subrange(n as int, n as int) =~= Seq::<Token>::empty());
        }
        Ok(())
    }

    /// Folds the right-hand pairs of a chain: operand, then operator.
    fn visit_pairs_exec(&mut self, ps: &Vec<(Token, Token)>) -> (r: Result<(), CompileError>)
        requires
            old(self).wf(),
        ensures
            final(self).wf(),
            spec_visit_pairs(old(self)@, ps@) == step_of(final(self)@, r),
        decreases ps@,
    {
        let n: usize = ps.len();
        let mut i: usize = 0;
        proof {
            assert(ps@.subrange(0, n as int) =~= ps@);
        }
        while i < n
            invariant
                0 <= i <= n,
                n == ps@.len(),
                self.wf(),
                spec_visit_pairs(old(self)@, ps@) == spec_visit_pairs(
                    self@,
                    ps@.subrange(i as int, n as int),
                ),
            decreases n - i,
        {
            let ghost suffix = ps@.subrange(i as int, n as int);
            proof {
                assert(suffix[0] == ps@[i as int]);
            }
            match self.visit_token(&ps[i].1) {
                Err(e) => {
                    return Err(e);
                },
                Ok(()) => {},
            }
            match self.visit_token(&ps[i].0) {
                Err(e) => {
                    return Err(e);
                },
                Ok(()) => {},
            }
            i = i + 1;
            proof {
                assert(suffix.drop_first() =~= ps@.subrange(i as int, n as int));
            }
        }
        proof {
            assert(ps@.subrange(n as int, n as int) =~= Seq::<(Token, Token)>::empty());
        }
        Ok(())
    }
}

/// The step a call's result denotes: the state reached, with the error if
/// the call failed.
pub open spec fn step_of(st: CompilerView, r: Result<(), CompileError>) -> Step {
    match r {
        Ok(()) => step_ok(st),
        Err(e) => step_err(st, err_view(e)),
    }
}

/// The walk never shrinks the scope stack below its starting depth.
pub proof fn lemma_visit_scope_depth(st: CompilerView, t: Token)
    ensures
        spec_visit(st, t).st.scopes.len() >= st.scopes.len(),
    decreases t,
{
    if is_binop(t) {
    } else {
        match t {
            Token::Factor { value } => lemma_visit_scope_depth(st, *value),
            Token::Term { left, right } => {
                lemma_visit_scope_depth(st, *left);
                let s1 = spec_visit(st, *left);
                if right@.len() > 0 && right@[0].0 is Assignment {
                    if s1.err is None {
                        lemma_visit_scope_depth(s1.st, right@[0].1);
                    }
                } else {
                    if s1.err is None {
                        lemma_visit_pairs_scope_depth(s1.st, right@);
                    }
                }
            },
            Token::Expression { left, right } => {
                lemma_visit_scope_depth(st, *left);
                let s1 = spec_visit(st, *left);
                if right@.len() > 0 && right@[0].0 is Assignment {
                    if s1.err is None {
                        lemma_visit_scope_depth(s1.st, right@[0].1);
                    }
                } else {
                    if s1.err is None {
                        lemma_visit_pairs_scope_depth(s1.st, right@);
                    }
                }
            },
            Token::FunctionCall { name, parameters } => {
                match *parameters {
                    Token::FunctionArgs { args } => {
                        lemma_push_args_scope_depth(st, views_of(args@));
                    },
                    _ => {},
                }
            },
            Token::FunctionArgs { args } => lemma_bind_args_scope_depth(st, views_of(args@)),
            Token::FunctionBody { expressions } => lemma_visit_seq_scope_depth(st, expressions@),
            Token::ReturnArgs { args } => lemma_visit_seq_scope_depth(st, args@),
            Token::ReturnStatement { parameters } => {
                lemma_visit_scope_depth(CompilerView { in_return: true, ..st }, *parameters);
            },
            Token::Function { name, args, body, return_statement } => {
                let s0 = CompilerView { scopes: st.scopes.push(empty_scope_view()), ..st };
                lemma_visit_scope_depth(s0, *args);
                let s1 = spec_visit(s0, *args);
                if s1.err is None {
                    let s2 = CompilerView {
                        lines: s1.st.lines.push(label_line(label_of(*name))),
                        ..s1.st
                    };
                    lemma_visit_scope_depth(s2, *body);
                    let s3 = spec_visit(s2, *body);
                    if s3.err is None {
                        lemma_visit_scope_depth(s3.st, *return_statement);
                    }
                }
            },
            Token::Program { expressions } => {
                let s0 = CompilerView {
                    lines: st.lines.push(data_line()).push(code_line()),
                    ..st
                };
                lemma_visit_seq_scope_depth(s0, expressions@);
            },
            _ => {},
        }
    }
}

/// As [`lemma_visit_scope_depth`], over a node list.
pub proof fn lemma_visit_seq_scope_depth(st: CompilerView, ts: Seq<Token>)
    ensures
        spec_visit_seq(st, ts).st.scopes.len() >= st.scopes.len(),
    decreases ts,
{
    if ts.len() > 0 {
        lemma_visit_scope_depth(st, ts[0]);
        let s1 = spec_visit(st, ts[0]);
        if s1.err is None {
            lemma_visit_seq_scope_depth(s1.st, ts.drop_first());
        }
    }
}

/// As [`lemma_visit_scope_depth`], over right-hand pairs.
pub proof fn lemma_visit_pairs_scope_depth(st: CompilerView, ps: Seq<(Token, Token)>)
    ensures
        spec_visit_pairs(st, ps).st.scopes.len() >= st.scopes.len(),
    decreases ps,
{
    if ps.len() > 0 {
        lemma_visit_scope_depth(st, ps[0].1);
        let s1 = spec_visit(st, ps[0].1);
        if s1.err is None {
            lemma_visit_scope_depth(s1.st, ps[0].0);
            let s2 = spec_visit(s1.st, ps[0].0);
            if s2.err is None {
                lemma_visit_pairs_scope_depth(s2.st, ps.drop_first());
            }
        }
    }
}

/// Binding formal arguments keeps the scope stack's depth.
pub proof fn lemma_bind_args_scope_depth(st: CompilerView, args: Seq<Seq<u8>>)
    ensures
        spec_bind_args(st, args).st.scopes.len() >= st.scopes.len(),
    decreases args.len(),
{
    if args.len() > 0 && st.free.len() > 0 {
        let reg = st.free.last();
        let st1 = bind_in(CompilerView { free: st.free.drop_last(), ..st }, args[0], reg);
        lemma_bind_args_scope_depth(st1, args.drop_first());
    }
}

/// Pushing actual arguments leaves the scope stack untouched.
pub proof fn lemma_push_args_scope_depth(st: CompilerView, args: Seq<Seq<u8>>)
    ensures
        spec_push_args(st, args).st.scopes.len() >= st.scopes.len(),
        spec_push_args(st, args).st.scopes == st.scopes,
    decreases args.len(),
{
    if args.len() > 0 {
        match resolve_in(st.scopes, args[0]) {
            None => {},
            Some(reg) => {
                lemma_push_args_scope_depth(
                    CompilerView { lines: st.lines.push(push_line(reg)), ..st },
                    args.drop_first(),
                );
            },
        }
    }
}

/// The tree-walking interface: one call per syntax node.
pub trait Visitor {
    /// Whether this visitor is ready to walk a tree (for the compiler, its
    /// structural invariant).
    spec fn ready(&self) -> bool;

    /// Called for every `Token` in the tree.
    fn visit_token(&mut self, node: &Token) -> (r: Result<(), CompileError>)
        requires
            old(self).ready(),
    ;
}

impl Visitor for Compiler {
    open spec fn ready(&self) -> bool {
        self.wf()
    }

    fn visit_token(&mut self, node: &Token) -> (r: Result<(), CompileError>) {
        Compiler::visit_token(self, node)
    }
}

/// The registers recorded as live in any scope of the stack, counted with
/// multiplicity.
pub open spec fn scopes_regs(scopes: Seq<ScopeView>) -> Multiset<u8>
    decreases scopes.len(),
{
    if scopes.len() == 0 {
        Multiset::empty()
    } else {
        scopes_regs(scopes.drop_last()).add(scopes.last().used.to_multiset())
    }
}

/// Every register the state accounts for: the free pool, the result stack,
/// and the registers live in scopes, with multiplicity.
pub open spec fn all_regs(st: CompilerView) -> Multiset<u8> {
    st.free.to_multiset().add(st.used.to_multiset()).add(scopes_regs(st.scopes))
}

/// Concatenation of byte runs adds their multisets.
proof fn lemma_to_multiset_add(a: Seq<u8>, b: Seq<u8>)
    ensures
        (a + b).to_multiset() == a.to_multiset().add(b.to_multiset()),
    decreases b.len(),
{
    broadcast use vstd::seq_lib::group_to_multiset_ensures;

    if b.len() == 0 {
        assert(a + b =~= a);
        assert(b.to_multiset() =~= Multiset::<u8>::empty());
        assert(a.to_multiset().add(b.to_multiset()) =~= a.to_multiset());
    } else {
        lemma_to_multiset_add(a, b.drop_last());
        assert(a + b =~= (a + b.drop_last()).push(b.last()));
        assert(b =~= b.drop_last().push(b.last()));
        assert((a + b).to_multiset() =~= a.to_multiset().add(b.to_multiset()));
    }
}

/// Register conservation, the central allocator invariant: no walk step
/// leaks a register or frees one twice. Whatever `spec_visit` does from a
/// state with at least one open scope - and whether or not it aborts on an
/// error - the multiset of registers split across the free pool, the result
/// stack and the scopes' live lists is exactly what it was.
pub proof fn lemma_register_conservation(st: CompilerView, t: Token)
    requires
        st.scopes.len() >= 1,
    ensures
        all_regs(spec_visit(st, t).st) == all_regs(st),
    decreases t,
{
    broadcast use vstd::seq_lib::group_to_multiset_ensures;

    if is_binop(t) {
        if st.free.len() > 0 && st.used.len() >= 2 {
            let d = st.free.last();
            let rtop = st.used.last();
            let lsec = st.used[st.used.len() - 2];
            assert(st.free =~= st.free.drop_last().push(d));
            assert(st.used =~= st.used.drop_last().drop_last().push(lsec).push(rtop));
            assert(all_regs(spec_visit(st, t).st) =~= all_regs(st));
        }
    } else {
        match t {
            Token::LogicalNot => {
                if st.free.len() > 0 && st.used.len() > 0 {
                    assert(st.free =~= st.free.drop_last().push(st.free.last()));
                    assert(st.used =~= st.used.drop_last().push(st.used.last()));
                    assert(all_regs(spec_visit(st, t).st) =~= all_regs(st));
                }
            },
            Token::Integer { value } => {
                if !st.in_return && st.free.len() > 0 {
                    assert(st.free =~= st.free.drop_last().push(st.free.last()));
                    assert(all_regs(spec_visit(st, t).st) =~= all_regs(st));
                }
            },
            Token::Float { text } => {
                if !st.in_return && st.free.len() > 0 {
                    assert(st.free =~= st.free.drop_last().push(st.free.last()));
                    assert(all_regs(spec_visit(st, t).st) =~= all_regs(st));
                }
            },
            Token::Factor { value } => lemma_register_conservation(st, *value),
            Token::Term { left, right } => {
                lemma_register_conservation(st, *left);
                lemma_visit_scope_depth(st, *left);
                let s1 = spec_visit(st, *left);
                if right@.len() > 0 && right@[0].0 is Assignment {
                    if s1.err is None {
                        lemma_register_conservation(s1.st, right@[0].1);
                        lemma_visit_scope_depth(s1.st, right@[0].1);
                        let s2 = spec_visit(s1.st, right@[0].1);
                        if s2.err is None {
                            lemma_assign_regs(s2.st, NodeKind::Term);
                        }
                    }
                } else {
                    if s1.err is None {
                        lemma_visit_pairs_conservation(s1.st, right@);
                    }
                }
            },
            Token::Expression { left, right } => {
                lemma_register_conservation(st, *left);
                lemma_visit_scope_depth(st, *left);
                let s1 = spec_visit(st, *left);
                if right@.len() > 0 && right@[0].0 is Assignment {
                    if s1.err is None {
                        lemma_register_conservation(s1.st, right@[0].1);
                        lemma_visit_scope_depth(s1.st, right@[0].1);
                        let s2 = spec_visit(s1.st, right@[0].1);
                        if s2.err is None {
                            lemma_assign_regs(s2.st, NodeKind::Expression);
                        }
                    }
                } else {
                    if s1.err is None {
                        lemma_visit_pairs_conservation(s1.st, right@);
                    }
                }
            },
            Token::FunctionCall { name, parameters } => {
                match *parameters {
                    Token::FunctionArgs { args } => {
                        lemma_push_args_regs(st, views_of(args@));
                    },
                    _ => {},
                }
            },
            Token::FunctionArgs { args } => lemma_bind_args_regs(st, views_of(args@)),
            Token::FunctionBody { expressions } => lemma_visit_seq_conservation(st, expressions@),
            Token::ReturnArgs { args } => lemma_visit_seq_conservation(st, args@),
            Token::ReturnStatement { parameters } => {
                lemma_register_conservation(CompilerView { in_return: true, ..st }, *parameters);
            },
            Token::Function { name, args, body, return_statement } => {
                let s0 = CompilerView { scopes: st.scopes.push(empty_scope_view()), ..st };
                assert(scopes_regs(s0.scopes) =~= scopes_regs(st.scopes)) by {
                    assert(s0.scopes.drop_last() =~= st.scopes);
                    assert(empty_scope_view().used.to_multiset() =~= Multiset::<u8>::empty());
                    assert(scopes_regs(st.scopes).add(Multiset::empty()) =~= scopes_regs(
                        st.scopes,
                    ));
                }
                lemma_register_conservation(s0, *args);
                lemma_visit_scope_depth(s0, *args);
                let s1 = spec_visit(s0, *args);
                if s1.err is None {
                    let s2 = CompilerView {
                        lines: s1.st.lines.push(label_line(label_of(*name))),
                        ..s1.st
                    };
                    lemma_register_conservation(s2, *body);
                    lemma_visit_scope_depth(s2, *body);
                    let s3 = spec_visit(s2, *body);
                    if s3.err is None {
                        lemma_register_conservation(s3.st, *return_statement);
                        lemma_visit_scope_depth(s3.st, *return_statement);
                        let s4 = spec_visit(s3.st, *return_statement);
                        if s4.err is None {
                            let s5 = CompilerView { lines: s4.st.lines.push(ret_line()), ..s4.st };
                            lemma_to_multiset_add(s5.free, s5.scopes.last().used);
                            assert(scopes_regs(s5.scopes) == scopes_regs(
                                s5.scopes.drop_last(),
                            ).add(s5.scopes.last().used.to_multiset()));
                            assert(all_regs(close_scope(s5)) =~= all_regs(s5));
                        }
                    }
                }
            },
            Token::Program { expressions } => {
                let s0 = CompilerView {
                    lines: st.lines.push(data_line()).push(code_line()),
                    ..st
                };
                lemma_visit_seq_conservation(s0, expressions@);
            },
            _ => {},
        }
    }
}

/// As [`lemma_register_conservation`], over a node list.
proof fn lemma_visit_seq_conservation(st: CompilerView, ts: Seq<Token>)
    requires
        st.scopes.len() >= 1,
    ensures
        all_regs(spec_visit_seq(st, ts).st) == all_regs(st),
    decreases ts,
{
    if ts.len() > 0 {
        lemma_register_conservation(st, ts[0]);
        lemma_visit_scope_depth(st, ts[0]);
        let s1 = spec_visit(st, ts[0]);
        if s1.err is None {
            lemma_visit_seq_conservation(s1.st, ts.drop_first());
        }
    }
}

/// As [`lemma_register_conservation`], over right-hand pairs.
proof fn lemma_visit_pairs_conservation(st: CompilerView, ps: Seq<(Token, Token)>)
    requires
        st.scopes.len() >= 1,
    ensures
        all_regs(spec_visit_pairs(st, ps).st) == all_regs(st),
    decreases ps,
{
    if ps.len() > 0 {
        lemma_register_conservation(st, ps[0].1);
        lemma_visit_scope_depth(st, ps[0].1);
        let s1 = spec_visit(st, ps[0].1);
        if s1.err is None {
            lemma_register_conservation(s1.st, ps[0].0);
            lemma_visit_scope_depth(s1.st, ps[0].0);
            let s2 = spec_visit(s1.st, ps[0].0);
            if s2.err is None {
                lemma_visit_pairs_conservation(s2.st, ps.drop_first());
            }
        }
    }
}

/// The assignment step conserves registers: the one popped from the result
/// stack reappears in the innermost scope's live list.
proof fn lemma_assign_regs(st: CompilerView, kind: NodeKind)
    requires
        st.scopes.len() >= 1,
    ensures
        all_regs(spec_assign(st, kind).st) == all_regs(st),
{
    broadcast use vstd::seq_lib::group_to_multiset_ensures;

    if st.idbuf.len() > 0 && st.used.len() > 0 {
        let reg = st.used.last();
        let mid = CompilerView { idbuf: st.idbuf.drop_last(), used: st.used.drop_last(), ..st };
        let bound = bind_in(mid, st.idbuf.last(), reg);
        assert(bound.scopes.drop_last() =~= st.scopes.drop_last());
        assert(bound.scopes.last().used == st.scopes.last().used.push(reg));
        assert(st.used =~= st.used.drop_last().push(reg));
        assert(all_regs(bound) =~= all_regs(st));
    }
}

/// Binding formal arguments conserves registers: each one moves from the
/// free pool to the innermost scope's live list.
proof fn lemma_bind_args_regs(st: CompilerView, args: Seq<Seq<u8>>)
    requires
        st.scopes.len() >= 1,
    ensures
        all_regs(spec_bind_args(st, args).st) == all_regs(st),
    decreases args.len(),
{
    broadcast use vstd::seq_lib::group_to_multiset_ensures;

    if args.len() > 0 && st.free.len() > 0 {
        let reg = st.free.last();
        let st1 = bind_in(CompilerView { free: st.free.drop_last(), ..st }, args[0], reg);
        assert(st1.scopes.drop_last() =~= st.scopes.drop_last());
        assert(st1.scopes.last().used == st.scopes.last().used.push(reg));
        assert(st.free =~= st.free.drop_last().push(reg));
        assert(all_regs(st1) =~= all_regs(st));
        lemma_bind_args_regs(st1, args.drop_first());
    }
}

/// Pushing a call's actual arguments only emits text: the register state is
/// untouched.
proof fn lemma_push_args_regs(st: CompilerView, args: Seq<Seq<u8>>)
    ensures
        spec_push_args(st, args).st.free == st.free,
        spec_push_args(st, args).st.used == st.used,
        spec_push_args(st, args).st.scopes == st.scopes,
    decreases args.len(),
{
    if args.len() > 0 {
        match resolve_in(st.scopes, args[0]) {
            None => {},
            Some(reg) => {
                lemma_push_args_regs(
                    CompilerView { lines: st.lines.push(push_line(reg)), ..st },
                    args.drop_first(),
                );
            },
        }
    }
}

/// A `Factor` node is transparent to code generation: it compiles exactly as
/// the node it wraps, so a parenthesized expression compiles to the same
/// instruction sequence as the expression itself.
pub proof fn lemma_factor_transparent(st: CompilerView, t: Token)
    requires
        t is Factor,
    ensures
        (match t {
            Token::Factor { value } => spec_visit(st, t) == spec_visit(st, *value),
            _ => true,
        }),
{
}

/// Shadowing: a nested scope that binds `name` hides the outer binding
/// while it is open, leaves every other name's resolution alone, and - the
/// scope stack being all that resolution reads - popping it restores the
/// outer resolution of `name` unchanged.
pub proof fn lemma_shadowing(scopes: Seq<ScopeView>, inner: ScopeView, name: Seq<u8>, reg: u8)
    requires
        inner.vars == Map::<Seq<u8>, u8>::empty().insert(name, reg),
    ensures
        resolve_in(scopes.push(inner), name) == Some(reg),
        forall|n: Seq<u8>| n != name ==> resolve_in(scopes.push(inner), n) == resolve_in(scopes, n),
        scopes.push(inner).drop_last() == scopes,
        resolve_in(scopes.push(inner).drop_last(), name) == resolve_in(scopes, name),
{
    assert(scopes.push(inner).last() == inner);
    assert(scopes.push(inner).drop_last() =~= scopes);
    assert forall|n: Seq<u8>| n != name implies resolve_in(scopes.push(inner), n) == resolve_in(
        scopes,
        n,
    ) by {
        assert(!inner.vars.contains_key(n));
    }
}

} // verus!
