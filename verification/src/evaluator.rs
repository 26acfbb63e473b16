//! Evaluation of a line against a context.
//!
//! A line is parsed, its expression is laid out as a sequence of
//! instructions for a stack, and the instructions are run. The numeric
//! operations are not done here: the run stops at each one and hands it
//! out as a request, and goes on when it is given the answer. A line is
//! written to the history when its evaluation ends, with its result or,
//! if it failed, without one.

use vstd::prelude::*;
use vstd::string::*;
use crate::ast::{Expr, ExprView, Operation};
use crate::context::{Context, ContextView, HistView};
use crate::error::{CalcError, CalcErrorType, ErrorView};
use crate::number::Number;
use crate::parser::{parse_input, parse_text};
use crate::request::{Request, RequestView};
use crate::semantics::{
    drive, fuel, kept, lemma_drive_computes_outcome, lemma_run_effects, lemma_run_progress,
    lemma_run_well_formed, outcome,
};

verus! {

/// An instruction as contracts see it.
pub enum InstrView {
    Literal(Seq<char>),
    Load(Seq<char>),
    Apply(Operation),
    Factorial,
    Invoke(Seq<char>, nat),
}

/// One instruction for the stack of an evaluation.
#[derive(Debug)]
pub enum Instr {
    /// Push the number that a literal stands for.
    Literal(String),
    /// Push the value of a name.
    Load(String),
    /// Replace the two numbers on top by the result of an operator.
    Apply(Operation),
    /// Replace the number on top by its factorial.
    Factorial,
    /// Replace that many numbers on top by the result of a function.
    Invoke(String, usize),
}

impl View for Instr {
    type V = InstrView;

    open spec fn view(&self) -> InstrView {
        match self {
            Instr::Literal(text) => InstrView::Literal(text@),
            Instr::Load(name) => InstrView::Load(name@),
            Instr::Apply(op) => InstrView::Apply(*op),
            Instr::Factorial => InstrView::Factorial,
            Instr::Invoke(name, count) => InstrView::Invoke(name@, *count as nat),
        }
    }
}

/// The views of a sequence of instructions.
pub open spec fn instr_views(code: Seq<Instr>) -> Seq<InstrView> {
    code.map_values(|i: Instr| i@)
}

/// The instructions for a list of expressions, one after the other.
pub open spec fn program_all(args: Seq<ExprView>) -> Seq<InstrView>
    decreases args, 0nat,
{
    if args.len() == 0 {
        Seq::empty()
    } else {
        program_all(args.drop_last()) + program(args.last())
    }
}

/// The instructions for an expression: those of its operands from left
/// to right, then its own.
pub open spec fn program(e: ExprView) -> Seq<InstrView>
    decreases e, 1nat,
{
    match e {
        ExprView::Num(text) => seq![InstrView::Literal(text)],
        ExprView::Var(name) => seq![InstrView::Load(name)],
        ExprView::Op(lhs, op, rhs) => program(*lhs) + program(*rhs) + seq![InstrView::Apply(op)],
        ExprView::Fac(operand) => program(*operand) + seq![InstrView::Factorial],
        ExprView::Func(name, args) => program_all(args) + seq![InstrView::Invoke(name, args.len())],
    }
}

/// An evaluation that waits for an answer, as contracts see it.
pub struct PendingView {
    pub input: Seq<char>,
    pub target: Option<Seq<char>>,
    pub code: Seq<InstrView>,
    pub pc: int,
    pub stack: Seq<Number>,
}

/// An evaluation that waits for the answer to a request.
#[derive(Debug)]
pub struct Pending {
    /// The line that is evaluated.
    pub input: String,
    /// The name that the result is assigned to, if any.
    pub target: Option<String>,
    /// The instructions of the expression.
    pub code: Vec<Instr>,
    /// The place of the next instruction.
    pub pc: usize,
    /// The numbers computed and not yet used.
    pub stack: Vec<Number>,
}

impl View for Pending {
    type V = PendingView;

    open spec fn view(&self) -> PendingView {
        PendingView {
            input: self.input@,
            target: match self.target {
                Some(name) => Some(name@),
                None => None,
            },
            code: instr_views(self.code@),
            pc: self.pc as int,
            stack: self.stack@,
        }
    }
}

/// A step of an evaluation as contracts see it.
pub enum StepView {
    Need(RequestView, PendingView),
    Done(Result<Number, ErrorView>),
}

/// Where an evaluation stands after a call into the library.
#[derive(Debug)]
pub enum Step {
    /// The evaluation needs the answer to the request, and goes on when
    /// `Pending::resume` is given it.
    Need(Request, Pending),
    /// The evaluation has ended, with its result or its error.
    Done(Result<Number, CalcError>),
}

impl View for Step {
    type V = StepView;

    open spec fn view(&self) -> StepView {
        match self {
            Step::Need(request, pending) => StepView::Need(request@, pending@),
            Step::Done(Ok(value)) => StepView::Done(Ok(*value)),
            Step::Done(Err(e)) => StepView::Done(Err(e@)),
        }
    }
}

/// The error for a name that is neither a variable nor a function.
pub open spec fn undefined(name: Seq<char>) -> ErrorView {
    ErrorView {
        kind: CalcErrorType::UndefinedIdentifier,
        msg: "Undefined identifier '"@ + name + "'"@,
    }
}

/// The error for instructions that no expression gives.
pub open spec fn malformed() -> ErrorView {
    ErrorView { kind: CalcErrorType::ParserError, msg: "Malformed expression"@ }
}

impl PendingView {
    /// The evaluation after one instruction, with `stack` as its stack.
    pub open spec fn step(self, stack: Seq<Number>) -> PendingView {
        PendingView { pc: self.pc + 1, stack, ..self }
    }

    /// The end of a failed evaluation: the line goes to the history
    /// without a result.
    pub open spec fn fail(self, c: ContextView, e: ErrorView) -> (StepView, ContextView) {
        (StepView::Done(Err(e)), c.record(self.input, None))
    }

    /// The end of an evaluation whose instructions have all run: the
    /// number left on the stack is the result. It is assigned to the
    /// target, if there is one, and the line goes to the history with it.
    pub open spec fn finish(self, c: ContextView) -> (StepView, ContextView) {
        if self.stack.len() != 1 {
            self.fail(c, malformed())
        } else {
            let value = self.stack[0];
            match self.target {
                None => (StepView::Done(Ok(value)), c.record(self.input, Some(value))),
                Some(name) => match c.assign(name, value) {
                    Err(e) => self.fail(c, e),
                    Ok(assigned) => (
                        StepView::Done(Ok(value)),
                        assigned.record(self.input, Some(value)),
                    ),
                },
            }
        }
    }

    /// Runs the instructions from the next one on, up to the first that
    /// needs an answer, or to the end.
    pub open spec fn run(self, c: ContextView) -> (StepView, ContextView)
        decreases self.code.len() - self.pc,
    {
        let depth = self.stack.len() as int;
        if !(0 <= self.pc < self.code.len()) {
            self.finish(c)
        } else {
            match self.code[self.pc] {
                InstrView::Literal(text) => (
                    StepView::Need(RequestView::Literal(text), self.step(self.stack)),
                    c,
                ),
                InstrView::Load(name) => match c.lookup(name) {
                    None => self.fail(c, undefined(name)),
                    Some(Err(e)) => self.fail(c, e),
                    Some(Ok(value)) => self.step(self.stack.push(value)).run(c),
                },
                InstrView::Apply(op) => if depth < 2 {
                    self.fail(c, malformed())
                } else {
                    (
                        StepView::Need(
                            RequestView::Binary(op, self.stack[depth - 2], self.stack[depth - 1]),
                            self.step(self.stack.subrange(0, depth - 2)),
                        ),
                        c,
                    )
                },
                InstrView::Factorial => if depth < 1 {
                    self.fail(c, malformed())
                } else {
                    (
                        StepView::Need(
                            RequestView::Factorial(self.stack[depth - 1]),
                            self.step(self.stack.subrange(0, depth - 1)),
                        ),
                        c,
                    )
                },
                InstrView::Invoke(name, count) => if depth < count {
                    self.fail(c, malformed())
                } else {
                    match c.dispatch(name, count) {
                        None => self.fail(c, undefined(name)),
                        Some(Err(e)) => self.fail(c, e),
                        Some(Ok(function)) => (
                            StepView::Need(
                                RequestView::Call(
                                    function,
                                    self.stack.subrange(depth - count, depth),
                                ),
                                self.step(self.stack.subrange(0, depth - count)),
                            ),
                            c,
                        ),
                    }
                },
            }
        }
    }

    /// Goes on with `value` as the answer to the request.
    pub open spec fn resume(self, value: Number, c: ContextView) -> (StepView, ContextView) {
        PendingView { stack: self.stack.push(value), ..self }.run(c)
    }
}

/// The first step of the evaluation of a line.
pub open spec fn begin(input: Seq<char>, c: ContextView) -> (StepView, ContextView) {
    match parse_text(input) {
        Err(e) => (StepView::Done(Err(e)), c.record(input, None)),
        Ok(statement) => PendingView {
            input,
            target: statement.target,
            code: program(statement.expr),
            pc: 0,
            stack: Seq::empty(),
        }.run(c),
    }
}

/// Appends the instructions for `expr` to `code`.
fn emit(expr: &Expr, code: &mut Vec<Instr>)
    ensures
        instr_views(final(code)@) == instr_views(old(code)@) + program(expr.view()),
    decreases expr,
{
    match expr {
        Expr::Num(text) => {
            code.push(Instr::Literal(text.clone()));
        },
        Expr::Var(name) => {
            code.push(Instr::Load(name.clone()));
        },
        Expr::Op(lhs, op, rhs) => {
            emit(lhs, code);
            emit(rhs, code);
            let ghost operands = instr_views(code@);
            code.push(Instr::Apply(*op));
            assert(instr_views(code@) =~= operands.push(InstrView::Apply(*op)));
        },
        Expr::Fac(operand) => {
            emit(operand, code);
            let ghost operands = instr_views(code@);
            code.push(Instr::Factorial);
            assert(instr_views(code@) =~= operands.push(InstrView::Factorial));
        },
        Expr::Func(name, args) => {
            let mut i: usize = 0;
            while i < args.len()
                invariant
                    i <= args.len(),
                    expr == Expr::Func(*name, *args),
                    instr_views(code@) == instr_views(old(code)@) + program_all(
                        Expr::views(args@).take(i as int),
                    ),
                decreases args.len() - i,
            {
                proof {
                    assert(decreases_to!(expr => expr->Func_1));
                    let upto = Expr::views(args@).take(i + 1);
                    assert(upto.drop_last() =~= Expr::views(args@).take(i as int));
                }
                emit(&args[i], code);
                i += 1;
            }
            assert(Expr::views(args@).take(i as int) =~= Expr::views(args@));
            let ghost operands = instr_views(code@);
            let ghost invoke = InstrView::Invoke(name@, args@.len());
            code.push(Instr::Invoke(name.clone(), args.len()));
            assert(instr_views(code@) =~= operands.push(invoke));
        },
    }
}

/// Lays an expression out as instructions.
pub fn compile(expr: &Expr) -> (code: Vec<Instr>)
    ensures
        instr_views(code@) == program(expr.view()),
{
    let mut code: Vec<Instr> = Vec::new();
    emit(expr, &mut code);
    code
}

/// The error for a name that is neither a variable nor a function.
fn undefined_identifier(name: &String) -> (e: CalcError)
    ensures
        e@ == undefined(name@),
{
    let mut msg = String::from_str("Undefined identifier '");
    msg.append(name.as_str());
    msg.append("'");
    CalcError::new(CalcErrorType::UndefinedIdentifier, msg)
}

/// The error for instructions that no expression gives.
fn malformed_expression() -> (e: CalcError)
    ensures
        e@ == malformed(),
{
    CalcError::new(CalcErrorType::ParserError, String::from_str("Malformed expression"))
}

impl Pending {
    /// Ends the evaluation with an error.
    fn fail(self, ctx: &mut Context, e: CalcError) -> (step: Step)
        ensures
            (step@, final(ctx)@) == self@.fail(old(ctx)@, e@),
    {
        ctx.record(self.input.as_str(), None);
        Step::Done(Err(e))
    }

    /// Ends the evaluation after its last instruction.
    fn finish(self, ctx: &mut Context) -> (step: Step)
        ensures
            (step@, final(ctx)@) == self@.finish(old(ctx)@),
    {
        if self.stack.len() != 1 {
            return self.fail(ctx, malformed_expression());
        }
        let value = self.stack[0];
        match &self.target {
            None => {},
            Some(name) => {
                match ctx.assign_var(name, value) {
                    Ok(()) => {},
                    Err(e) => {
                        return self.fail(ctx, e);
                    },
                }
            },
        }
        ctx.record(self.input.as_str(), Some(value));
        Step::Done(Ok(value))
    }

    /// Runs the instructions from the next one on, up to the first that
    /// needs an answer, or to the end.
    fn run(self, ctx: &mut Context) -> (step: Step)
        ensures
            (step@, final(ctx)@) == self@.run(old(ctx)@),
    {
        let mut p = self;
        loop
            invariant
                *ctx == *old(ctx),
                p@.run(ctx@) == self@.run(old(ctx)@),
            decreases p.code.len() - p.pc,
        {
            if p.pc >= p.code.len() {
                return p.finish(ctx);
            }
            let depth = p.stack.len();
            match &p.code[p.pc] {
                Instr::Literal(text) => {
                    let request = Request::Literal(text.clone());
                    p.pc += 1;
                    return Step::Need(request, p);
                },
                Instr::Load(name) => {
                    match ctx.lookup_var(name) {
                        None => {
                            let e = undefined_identifier(name);
                            return p.fail(ctx, e);
                        },
                        Some(Err(e)) => {
                            return p.fail(ctx, e);
                        },
                        Some(Ok(value)) => {
                            p.stack.push(value);
                            p.pc += 1;
                        },
                    }
                },
                Instr::Apply(op) => {
                    if depth < 2 {
                        return p.fail(ctx, malformed_expression());
                    }
                    let request = Request::Binary(*op, p.stack[depth - 2], p.stack[depth - 1]);
                    p.stack.truncate(depth - 2);
                    p.pc += 1;
                    return Step::Need(request, p);
                },
                Instr::Factorial => {
                    if depth < 1 {
                        return p.fail(ctx, malformed_expression());
                    }
                    let request = Request::Factorial(p.stack[depth - 1]);
                    p.stack.truncate(depth - 1);
                    p.pc += 1;
                    return Step::Need(request, p);
                },
                Instr::Invoke(name, count) => {
                    if depth < *count {
                        return p.fail(ctx, malformed_expression());
                    }
                    let args = p.stack.split_off(depth - *count);
                    match ctx.try_function(name, args) {
                        None => {
                            let e = undefined_identifier(name);
                            return p.fail(ctx, e);
                        },
                        Some(Err(e)) => {
                            return p.fail(ctx, e);
                        },
                        Some(Ok(request)) => {
                            p.pc += 1;
                            return Step::Need(request, p);
                        },
                    }
                },
            }
        }
    }

    /// Goes on with the evaluation, with `value` as the answer to the
    /// request that came with this state.
    ///
    /// The result is the next request, or the end of the evaluation. At
    /// the end the context has the line in its history, and a target has
    /// its value, as `PendingView::finish` says.
    pub fn resume(self, value: Number, ctx: &mut Context) -> (step: Step)
        ensures
            (step@, final(ctx)@) == self@.resume(value, old(ctx)@),
            old(ctx)@.well_formed() ==> final(ctx)@.well_formed(),
    {
        proof {
            if old(ctx)@.well_formed() {
                lemma_run_well_formed(
                    PendingView { stack: self@.stack.push(value), ..self@ },
                    old(ctx)@,
                );
            }
        }
        let mut p = self;
        p.stack.push(value);
        p.run(ctx)
    }
}

/// Starts the evaluation of a line against a context.
///
/// The line is parsed; a syntax error ends the evaluation at once.
/// Otherwise the expression is run up to its first request, or to its end.
/// Whenever an evaluation ends, the line is written to the history of the
/// context, with its result if it has one.
///
/// Whoever goes on from the step that is returned, and answers every
/// request as some `f` does, ends with the outcome of the line under `f`.
pub fn calculate(input_str: &str, ctx: &mut Context) -> (step: Step)
    ensures
        (step@, final(ctx)@) == begin(input_str@, old(ctx)@),
        forall|f: spec_fn(RequestView) -> Number| #[trigger]
            drive(step@, final(ctx)@, f) == outcome(input_str@, old(ctx)@, f),
        old(ctx)@.well_formed() ==> final(ctx)@.well_formed(),
{
    let step = match parse_input(input_str) {
        Err(e) => {
            ctx.record(input_str, None);
            Step::Done(Err(e))
        },
        Ok(statement) => {
            let pending = Pending {
                input: String::from_str(input_str),
                target: statement.target,
                code: compile(&statement.expr),
                pc: 0,
                stack: Vec::new(),
            };
            pending.run(ctx)
        },
    };
    proof {
        assert forall|f: spec_fn(RequestView) -> Number| #[trigger]
            drive(step@, ctx@, f) == outcome(input_str@, old(ctx)@, f) by {
            lemma_drive_computes_outcome(input_str@, old(ctx)@, f);
        }
        if old(ctx)@.well_formed() && parse_text(input_str@) is Ok {
            let statement = parse_text(input_str@)->Ok_0;
            lemma_run_well_formed(
                PendingView {
                    input: input_str@,
                    target: statement.target,
                    code: program(statement.expr),
                    pc: 0,
                    stack: Seq::empty(),
                },
                old(ctx)@,
            );
        }
    }
    step
}

/// A result as contracts see it.
pub open spec fn result_view(result: Result<Number, CalcError>) -> Result<Number, ErrorView> {
    match result {
        Ok(value) => Ok(value),
        Err(e) => Err(e@),
    }
}

/// Whether `arithmetic` answers every request as `f` does.
pub open spec fn answers_as<F: Fn(&Request) -> Number>(
    arithmetic: F,
    f: spec_fn(RequestView) -> Number,
) -> bool {
    forall|request: &Request, value: Number|
        call_ensures(arithmetic, (request,), value) ==> value == f(request@)
}

/// Evaluates a line against a context, with `arithmetic` to do the
/// numeric operations.
///
/// The result is the value of the line, or the first error in it. A
/// successful assignment gives its target the value. The line is written
/// to the history, with its result if it has one. All of this is as
/// `outcome` says, for the answers that `arithmetic` gives.
///
/// Whatever `arithmetic` answers, the history grows by this line alone, a
/// line that does not parse fails with its syntax error, the functions
/// stay as they are, and so do the variables unless the line is an
/// assignment that succeeded.
pub fn evaluate<F: Fn(&Request) -> Number>(
    input_str: &str,
    ctx: &mut Context,
    arithmetic: F,
) -> (result: Result<Number, CalcError>)
    requires
        forall|request: &Request| call_requires(arithmetic, (request,)),
    ensures
        forall|f: spec_fn(RequestView) -> Number|
            answers_as(arithmetic, f) ==> (result_view(result), final(ctx)@) == #[trigger] outcome(
                input_str@,
                old(ctx)@,
                f,
            ),
        final(ctx)@.history == old(ctx)@.history.push(
            HistView { input: input_str@, result: kept(result_view(result)) },
        ),
        final(ctx)@.functions == old(ctx)@.functions,
        result is Err || parse_text(input_str@)->Ok_0.target is None ==> final(ctx)@.vars == old(
            ctx,
        )@.vars,
        parse_text(input_str@) is Err ==> result_view(result) == Err::<Number, ErrorView>(
            parse_text(input_str@)->Err_0,
        ),
        old(ctx)@.well_formed() ==> final(ctx)@.well_formed(),
{
    let mut step = calculate(input_str, ctx);
    proof {
        if parse_text(input_str@) is Ok {
            let statement = parse_text(input_str@)->Ok_0;
            let start = PendingView {
                input: input_str@,
                target: statement.target,
                code: program(statement.expr),
                pc: 0,
                stack: Seq::empty(),
            };
            lemma_run_progress(start, old(ctx)@);
            lemma_run_effects(start, old(ctx)@);
        }
    }
    loop
        invariant
            forall|request: &Request| call_requires(arithmetic, (request,)),
            forall|f: spec_fn(RequestView) -> Number|
                answers_as(arithmetic, f) ==> #[trigger] drive(step@, ctx@, f) == outcome(
                    input_str@,
                    old(ctx)@,
                    f,
                ),
            old(ctx)@.well_formed() ==> ctx@.well_formed(),
            match step@ {
                StepView::Need(_, pending) => {
                    &&& ctx@ == old(ctx)@
                    &&& pending.input == input_str@
                    &&& parse_text(input_str@) is Ok
                    &&& pending.target == parse_text(input_str@)->Ok_0.target
                },
                StepView::Done(result) => {
                    &&& ctx@.history == old(ctx)@.history.push(
                        HistView { input: input_str@, result: kept(result) },
                    )
                    &&& ctx@.functions == old(ctx)@.functions
                    &&& result is Err || parse_text(input_str@)->Ok_0.target is None ==> ctx@.vars
                        == old(ctx)@.vars
                    &&& parse_text(input_str@) is Err ==> result == Err::<Number, ErrorView>(
                        parse_text(input_str@)->Err_0,
                    )
                },
            },
        decreases fuel(step@),
    {
        match step {
            Step::Done(result) => {
                proof {
                    assert forall|f: spec_fn(RequestView) -> Number|
                        answers_as(arithmetic, f) implies (result_view(result), ctx@)
                        == #[trigger] outcome(input_str@, old(ctx)@, f) by {
                        assert(drive(step@, ctx@, f) == (result_view(result), ctx@));
                    }
                }
                return result;
            },
            Step::Need(request, pending) => {
                let value = arithmetic(&request);
                let ghost before = ctx@;
                let ghost resumed = PendingView {
                    stack: pending@.stack.push(value),
                    ..pending@
                };
                let next = pending.resume(value, ctx);
                proof {
                    lemma_run_progress(resumed, before);
                    lemma_run_effects(resumed, before);
                    assert forall|f: spec_fn(RequestView) -> Number|
                        answers_as(arithmetic, f) implies #[trigger] drive(next@, ctx@, f)
                        == outcome(input_str@, old(ctx)@, f) by {
                        assert(drive(step@, before, f) == drive(next@, ctx@, f));
                    }
                }
                step = next;
            },
        }
    }
}

} // verus!
