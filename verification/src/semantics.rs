//! What an evaluation computes.
//!
//! `eval` gives the value of an expression tree, and `outcome` the result
//! of a whole line with the context it leaves behind, for any way `f` of
//! answering requests. `drive` is the loop that a caller runs around
//! `calculate` and `Pending::resume`. The laws of this file say that the
//! loop computes the outcome, and what follows from that.

use vstd::prelude::*;
use crate::ast::ExprView;
use crate::context::{
    last_answer, lemma_answer_after_record, lemma_answer_is_most_recent,
    lemma_assign_well_formed, lemma_no_answer, no_answer, without_results, ContextView,
    HistView,
};
use crate::error::{CalcErrorType, ErrorView};
use crate::evaluator::{begin, program, program_all, undefined, InstrView, PendingView, StepView};
use crate::number::Number;
use crate::parser::parse_text;
use crate::request::RequestView;

verus! {

/// The values of a list of expressions, from left to right, or the first
/// error among them.
pub open spec fn eval_all(
    args: Seq<ExprView>,
    c: ContextView,
    f: spec_fn(RequestView) -> Number,
) -> Result<Seq<Number>, ErrorView>
    decreases args, 0nat,
{
    if args.len() == 0 {
        Ok(Seq::empty())
    } else {
        match eval_all(args.drop_last(), c, f) {
            Err(e) => Err(e),
            Ok(values) => match eval(args.last(), c, f) {
                Err(e) => Err(e),
                Ok(value) => Ok(values.push(value)),
            },
        }
    }
}

/// The value of an expression in a context, or the first error met on the
/// way through the tree, depth first and from left to right. `f` does the
/// arithmetic.
pub open spec fn eval(e: ExprView, c: ContextView, f: spec_fn(RequestView) -> Number) -> Result<
    Number,
    ErrorView,
>
    decreases e, 1nat,
{
    match e {
        ExprView::Num(text) => Ok(f(RequestView::Literal(text))),
        ExprView::Var(name) => match c.lookup(name) {
            None => Err(undefined(name)),
            Some(found) => found,
        },
        ExprView::Op(lhs, op, rhs) => match eval(*lhs, c, f) {
            Err(e) => Err(e),
            Ok(a) => match eval(*rhs, c, f) {
                Err(e) => Err(e),
                Ok(b) => Ok(f(RequestView::Binary(op, a, b))),
            },
        },
        ExprView::Fac(operand) => match eval(*operand, c, f) {
            Err(e) => Err(e),
            Ok(a) => Ok(f(RequestView::Factorial(a))),
        },
        ExprView::Func(name, args) => match eval_all(args, c, f) {
            Err(e) => Err(e),
            Ok(values) => match c.dispatch(name, args.len()) {
                None => Err(undefined(name)),
                Some(Err(e)) => Err(e),
                Some(Ok(function)) => Ok(f(RequestView::Call(function, values))),
            },
        },
    }
}

/// The result of a line and the context after it.
///
/// The line is parsed and its expression evaluated. A value is assigned to
/// the target, if the line has one. The line is written to the history:
/// with the value if all of this succeeded, else without a result.
pub open spec fn outcome(input: Seq<char>, c: ContextView, f: spec_fn(RequestView) -> Number) -> (
    Result<Number, ErrorView>,
    ContextView,
) {
    match parse_text(input) {
        Err(e) => (Err(e), c.record(input, None)),
        Ok(statement) => match eval(statement.expr, c, f) {
            Err(e) => (Err(e), c.record(input, None)),
            Ok(value) => match statement.target {
                None => (Ok(value), c.record(input, Some(value))),
                Some(name) => match c.assign(name, value) {
                    Err(e) => (Err(e), c.record(input, None)),
                    Ok(assigned) => (Ok(value), assigned.record(input, Some(value))),
                },
            },
        },
    }
}

/// How many more requests an evaluation can make at most, and one.
pub open spec fn fuel(step: StepView) -> nat {
    match step {
        StepView::Done(_) => 0,
        StepView::Need(_, pending) => if pending.pc <= pending.code.len() {
            (pending.code.len() - pending.pc + 1) as nat
        } else {
            1
        },
    }
}

/// The result of an evaluation that stands at `step`, and the context
/// after it, when every request is answered by `f`.
pub open spec fn drive(step: StepView, c: ContextView, f: spec_fn(RequestView) -> Number) -> (
    Result<Number, ErrorView>,
    ContextView,
)
    decreases fuel(step),
{
    match step {
        StepView::Done(result) => (result, c),
        StepView::Need(request, pending) => {
            let resumed = PendingView { stack: pending.stack.push(f(request)), ..pending };
            proof {
                lemma_run_progress(resumed, c);
            }
            let (next, after) = pending.resume(f(request), c);
            drive(next, after, f)
        },
    }
}

/// The result of running the instructions from the state `p` on.
pub open spec fn complete(p: PendingView, c: ContextView, f: spec_fn(RequestView) -> Number) -> (
    Result<Number, ErrorView>,
    ContextView,
) {
    let (step, after) = p.run(c);
    drive(step, after, f)
}

/// A run that stops at a request has moved on in the same instructions,
/// for the same line, and has left the context as it was.
pub proof fn lemma_run_progress(p: PendingView, c: ContextView)
    ensures
        match p.run(c).0 {
            StepView::Need(_, q) => {
                &&& q.code == p.code
                &&& q.input == p.input
                &&& q.target == p.target
                &&& 0 <= p.pc < q.pc <= p.code.len()
                &&& p.run(c).1 == c
            },
            StepView::Done(_) => true,
        },
    decreases p.code.len() - p.pc,
{
    if 0 <= p.pc < p.code.len() {
        match p.code[p.pc] {
            InstrView::Load(name) => {
                match c.lookup(name) {
                    Some(Ok(value)) => {
                        lemma_run_progress(p.step(p.stack.push(value)), c);
                    },
                    _ => {},
                }
            },
            _ => {},
        }
    }
}

/// A run that ends writes the line to the history, with its result if
/// it has one; it leaves the functions as they are, and also the
/// variables if it failed or has no target.
pub proof fn lemma_run_effects(p: PendingView, c: ContextView)
    ensures
        match p.run(c).0 {
            StepView::Need(_, _) => true,
            StepView::Done(result) => {
                &&& p.run(c).1.history == c.history.push(
                    HistView { input: p.input, result: kept(result) },
                )
                &&& p.run(c).1.functions == c.functions
                &&& result is Err || p.target is None ==> p.run(c).1.vars == c.vars
            },
        },
    decreases p.code.len() - p.pc,
{
    if 0 <= p.pc < p.code.len() {
        match p.code[p.pc] {
            InstrView::Load(name) => {
                match c.lookup(name) {
                    Some(Ok(value)) => {
                        lemma_run_effects(p.step(p.stack.push(value)), c);
                    },
                    _ => {},
                }
            },
            _ => {},
        }
    }
}

/// A run leaves a well-formed context well formed.
pub proof fn lemma_run_well_formed(p: PendingView, c: ContextView)
    requires
        c.well_formed(),
    ensures
        p.run(c).1.well_formed(),
    decreases p.code.len() - p.pc,
{
    if 0 <= p.pc < p.code.len() {
        match p.code[p.pc] {
            InstrView::Load(name) => {
                match c.lookup(name) {
                    Some(Ok(value)) => {
                        lemma_run_well_formed(p.step(p.stack.push(value)), c);
                    },
                    _ => {},
                }
            },
            _ => {},
        }
    } else if p.stack.len() == 1 && p.target is Some {
        if c.assign(p.target->Some_0, p.stack[0]) is Ok {
            lemma_assign_well_formed(c, p.target->Some_0, p.stack[0]);
        }
    }
}

/// Whether the instructions `segment` stand in `code` from `pc` on.
pub open spec fn holds_at(code: Seq<InstrView>, pc: int, segment: Seq<InstrView>) -> bool {
    &&& 0 <= pc
    &&& pc + segment.len() <= code.len()
    &&& code.subrange(pc, pc + segment.len()) == segment
}

/// Where two segments in a row stand in the code, each of them stands.
proof fn lemma_holds_at_split(
    code: Seq<InstrView>,
    pc: int,
    first: Seq<InstrView>,
    second: Seq<InstrView>,
)
    requires
        holds_at(code, pc, first + second),
    ensures
        holds_at(code, pc, first),
        holds_at(code, pc + first.len(), second),
{
    let whole = code.subrange(pc, pc + (first + second).len());
    assert forall|k: int| 0 <= k < first.len() implies code[pc + k] == first[k] by {
        assert(whole[k] == (first + second)[k]);
    }
    assert forall|k: int| 0 <= k < second.len() implies code[pc + first.len() + k]
        == second[k] by {
        assert(whole[first.len() + k] == (first + second)[first.len() + k]);
    }
    assert(code.subrange(pc, pc + first.len()) =~= first);
    assert(code.subrange(pc + first.len(), pc + first.len() + second.len()) =~= second);
}

/// The state after the instructions of a segment of length `len` have
/// left `values` on the stack.
pub open spec fn past(p: PendingView, len: nat, values: Seq<Number>) -> PendingView {
    PendingView { pc: p.pc + len, stack: p.stack + values, ..p }
}

/// The values of a list are as many as its expressions.
pub proof fn lemma_eval_all_len(
    args: Seq<ExprView>,
    c: ContextView,
    f: spec_fn(RequestView) -> Number,
)
    ensures
        eval_all(args, c, f) is Ok ==> eval_all(args, c, f)->Ok_0.len() == args.len(),
    decreases args.len(),
{
    if args.len() > 0 {
        lemma_eval_all_len(args.drop_last(), c, f);
    }
}

/// Running the instructions of a list of expressions leaves their values
/// on the stack, or ends with the first error among them.
pub proof fn lemma_program_all_computes_eval_all(
    args: Seq<ExprView>,
    p: PendingView,
    c: ContextView,
    f: spec_fn(RequestView) -> Number,
)
    requires
        holds_at(p.code, p.pc, program_all(args)),
    ensures
        complete(p, c, f) == match eval_all(args, c, f) {
            Err(e) => (Err::<Number, ErrorView>(e), c.record(p.input, None)),
            Ok(values) => complete(past(p, program_all(args).len(), values), c, f),
        },
    decreases args, 0nat,
{
    if args.len() > 0 {
        let front = args.drop_last();
        let head = program_all(front);
        let tail = program(args.last());
        lemma_holds_at_split(p.code, p.pc, head, tail);
        lemma_program_all_computes_eval_all(front, p, c, f);
        match eval_all(front, c, f) {
            Err(e) => {},
            Ok(values) => {
                let q = past(p, head.len(), values);
                lemma_program_computes_eval(args.last(), q, c, f);
                match eval(args.last(), c, f) {
                    Err(e) => {},
                    Ok(value) => {
                        assert(past(q, tail.len(), seq![value]) == past(
                            p,
                            program_all(args).len(),
                            values.push(value),
                        )) by {
                            assert((p.stack + values) + seq![value] =~= p.stack + values.push(
                                value,
                            ));
                        }
                    },
                }
            },
        }
    }
}

/// Running the instructions of an expression leaves its value on the
/// stack, or ends with the error of its evaluation.
pub proof fn lemma_program_computes_eval(
    e: ExprView,
    p: PendingView,
    c: ContextView,
    f: spec_fn(RequestView) -> Number,
)
    requires
        holds_at(p.code, p.pc, program(e)),
    ensures
        complete(p, c, f) == match eval(e, c, f) {
            Err(x) => (Err::<Number, ErrorView>(x), c.record(p.input, None)),
            Ok(value) => complete(past(p, program(e).len(), seq![value]), c, f),
        },
    decreases e, 1nat,
{
    let len = program(e).len();
    assert(p.code[p.pc + len - 1] == program(e)[len - 1]);
    match e {
        ExprView::Num(text) => {
            lemma_answer(p, p.stack, RequestView::Literal(text), c, f);
        },
        ExprView::Var(name) => {
            match c.lookup(name) {
                Some(Ok(value)) => {
                    assert(p.step(p.stack.push(value)) == past(p, 1, seq![value])) by {
                        assert(p.stack.push(value) =~= p.stack + seq![value]);
                    }
                },
                _ => {},
            }
        },
        ExprView::Op(lhs, op, rhs) => {
            let left = program(*lhs);
            let right = program(*rhs);
            let apply = seq![InstrView::Apply(op)];
            assert(program(e) =~= left + (right + apply));
            lemma_holds_at_split(p.code, p.pc, left, right + apply);
            lemma_holds_at_split(p.code, p.pc + left.len(), right, apply);
            lemma_program_computes_eval(*lhs, p, c, f);
            match eval(*lhs, c, f) {
                Err(x) => {},
                Ok(a) => {
                    let q = past(p, left.len(), seq![a]);
                    lemma_program_computes_eval(*rhs, q, c, f);
                    match eval(*rhs, c, f) {
                        Err(x) => {},
                        Ok(b) => {
                            let r = past(q, right.len(), seq![b]);
                            assert(r.stack.subrange(0, r.stack.len() - 2) =~= p.stack);
                            lemma_answer(r, p.stack, RequestView::Binary(op, a, b), c, f);
                        },
                    }
                },
            }
        },
        ExprView::Fac(operand) => {
            let inner = program(*operand);
            let factorial = seq![InstrView::Factorial];
            lemma_holds_at_split(p.code, p.pc, inner, factorial);
            lemma_program_computes_eval(*operand, p, c, f);
            match eval(*operand, c, f) {
                Err(x) => {},
                Ok(a) => {
                    let q = past(p, inner.len(), seq![a]);
                    assert(q.stack.subrange(0, q.stack.len() - 1) =~= p.stack);
                    lemma_answer(q, p.stack, RequestView::Factorial(a), c, f);
                },
            }
        },
        ExprView::Func(name, args) => {
            let operands = program_all(args);
            let invoke = seq![InstrView::Invoke(name, args.len())];
            lemma_holds_at_split(p.code, p.pc, operands, invoke);
            lemma_program_all_computes_eval_all(args, p, c, f);
            lemma_eval_all_len(args, c, f);
            match eval_all(args, c, f) {
                Err(x) => {},
                Ok(values) => {
                    let q = past(p, operands.len(), values);
                    let depth = q.stack.len() as int;
                    assert(q.stack.subrange(0, depth - args.len()) =~= p.stack);
                    assert(q.stack.subrange(depth - args.len(), depth) =~= values);
                    match c.dispatch(name, args.len()) {
                        Some(Ok(function)) => {
                            lemma_answer(q, p.stack, RequestView::Call(function, values), c, f);
                        },
                        _ => {},
                    }
                },
            }
        },
    }
}

/// Where a run stops at a request and leaves `rest` on the stack, the
/// evaluation goes on after the instruction with the answer on top.
proof fn lemma_answer(
    p: PendingView,
    rest: Seq<Number>,
    request: RequestView,
    c: ContextView,
    f: spec_fn(RequestView) -> Number,
)
    requires
        p.run(c) == (StepView::Need(request, p.step(rest)), c),
    ensures
        complete(p, c, f) == complete(
            PendingView { pc: p.pc + 1, stack: rest + seq![f(request)], ..p },
            c,
            f,
        ),
{
    assert(rest.push(f(request)) =~= rest + seq![f(request)]);
}

/// The loop around `calculate` and `Pending::resume` computes the outcome
/// of the line: the same result, and the same context after it.
pub proof fn lemma_drive_computes_outcome(
    input: Seq<char>,
    c: ContextView,
    f: spec_fn(RequestView) -> Number,
)
    ensures
        drive(begin(input, c).0, begin(input, c).1, f) == outcome(input, c, f),
{
    match parse_text(input) {
        Err(e) => {},
        Ok(statement) => {
            let code = program(statement.expr);
            let p = PendingView {
                input,
                target: statement.target,
                code,
                pc: 0,
                stack: Seq::empty(),
            };
            assert(code.subrange(0, code.len() as int) =~= code);
            lemma_program_computes_eval(statement.expr, p, c, f);
            match eval(statement.expr, c, f) {
                Err(x) => {},
                Ok(value) => {},
            }
        },
    }
}

/// The result that a line leaves in the history.
pub open spec fn kept(result: Result<Number, ErrorView>) -> Option<Number> {
    match result {
        Ok(value) => Some(value),
        Err(_) => None,
    }
}

/// Every evaluation writes one entry to the history: the line, with its
/// result if it succeeded. It leaves the functions as they are, and also
/// the variables unless it is a successful assignment.
pub proof fn lemma_outcome_effects(
    input: Seq<char>,
    c: ContextView,
    f: spec_fn(RequestView) -> Number,
)
    ensures
        outcome(input, c, f).1.history == c.history.push(
            HistView { input, result: kept(outcome(input, c, f).0) },
        ),
        outcome(input, c, f).1.functions == c.functions,
        outcome(input, c, f).0 is Err ==> outcome(input, c, f).1.vars == c.vars,
        parse_text(input) is Ok && parse_text(input)->Ok_0.target is None ==> outcome(
            input,
            c,
            f,
        ).1.vars == c.vars,
{
}

/// After a line that succeeded, `ans` is its result. After a line that
/// failed, `ans` is the result that it was before, if there was one.
pub proof fn lemma_ans_after_outcome(
    input: Seq<char>,
    c: ContextView,
    f: spec_fn(RequestView) -> Number,
)
    ensures
        match outcome(input, c, f).0 {
            Ok(value) => outcome(input, c, f).1.lookup("ans"@) == Some(
                Ok::<Number, ErrorView>(value),
            ),
            Err(_) => last_answer(outcome(input, c, f).1.history) == last_answer(c.history),
        },
{
    lemma_outcome_effects(input, c, f);
    lemma_answer_after_record(c, input, kept(outcome(input, c, f).0));
}

/// The context after a session: the lines are evaluated one after the
/// other, each in the context that the one before it left.
pub open spec fn session(
    c: ContextView,
    lines: Seq<Seq<char>>,
    f: spec_fn(RequestView) -> Number,
) -> ContextView
    decreases lines.len(),
{
    if lines.len() == 0 {
        c
    } else {
        outcome(lines.last(), session(c, lines.drop_last(), f), f).1
    }
}

/// The result of the line at `k` of a session.
pub open spec fn result_at(
    c: ContextView,
    lines: Seq<Seq<char>>,
    f: spec_fn(RequestView) -> Number,
    k: int,
) -> Result<Number, ErrorView> {
    outcome(lines[k], session(c, lines.take(k), f), f).0
}

/// A session adds one entry to the history for each of its lines, in
/// order, each with the result of its line.
pub proof fn lemma_session_history(
    c: ContextView,
    lines: Seq<Seq<char>>,
    f: spec_fn(RequestView) -> Number,
)
    ensures
        session(c, lines, f).history.len() == c.history.len() + lines.len(),
        forall|i: int|
            0 <= i < c.history.len() ==> #[trigger] session(c, lines, f).history[i]
                == c.history[i],
        forall|k: int|
            0 <= k < lines.len() ==> #[trigger] session(c, lines, f).history[c.history.len() + k]
                == (HistView { input: lines[k], result: kept(result_at(c, lines, f, k)) }),
    decreases lines.len(),
{
    if lines.len() > 0 {
        let front = lines.drop_last();
        let before = session(c, front, f);
        lemma_session_history(c, front, f);
        lemma_outcome_effects(lines.last(), before, f);
        assert forall|k: int| 0 <= k < lines.len() implies #[trigger] session(
            c,
            lines,
            f,
        ).history[c.history.len() + k] == (HistView {
            input: lines[k],
            result: kept(result_at(c, lines, f, k)),
        }) by {
            if k < lines.len() - 1 {
                assert(front.take(k) =~= lines.take(k));
            }
        }
    }
}

/// In a session that starts without an answer, `ans` fails as long as no
/// line has succeeded.
pub proof fn lemma_ans_fails_before_first_success(
    c: ContextView,
    lines: Seq<Seq<char>>,
    f: spec_fn(RequestView) -> Number,
)
    requires
        without_results(c.history),
        forall|k: int| 0 <= k < lines.len() ==> result_at(c, lines, f, k) is Err,
    ensures
        session(c, lines, f).lookup("ans"@) == Some(
            Err::<Number, ErrorView>(no_answer(session(c, lines, f).history)),
        ),
{
    let after = session(c, lines, f);
    lemma_session_history(c, lines, f);
    assert forall|i: int| 0 <= i < after.history.len() implies (#[trigger] after.history[i]).result
        is None by {
        if i >= c.history.len() {
            let k = i - c.history.len();
            assert(after.history[c.history.len() + k].result == kept(result_at(c, lines, f, k)));
        }
    }
    lemma_no_answer(after.history);
}

/// After a session, `ans` is the result of the last line that succeeded:
/// the failed lines after it are passed over.
pub proof fn lemma_ans_is_last_success(
    c: ContextView,
    lines: Seq<Seq<char>>,
    f: spec_fn(RequestView) -> Number,
    k: int,
)
    requires
        0 <= k < lines.len(),
        result_at(c, lines, f, k) is Ok,
        forall|j: int| k < j < lines.len() ==> result_at(c, lines, f, j) is Err,
    ensures
        session(c, lines, f).lookup("ans"@) == Some(
            Ok::<Number, ErrorView>(result_at(c, lines, f, k)->Ok_0),
        ),
{
    let after = session(c, lines, f);
    let base = c.history.len() as int;
    lemma_session_history(c, lines, f);
    assert forall|i: int| base + k < i < after.history.len() implies (
    #[trigger] after.history[i]).result is None by {
        let j = i - base;
        assert(after.history[base + j].result == kept(result_at(c, lines, f, j)));
    }
    lemma_answer_is_most_recent(after.history, base + k);
}

/// Whether one of the expressions reads the name.
pub open spec fn any_mentions(args: Seq<ExprView>, name: Seq<char>) -> bool
    decreases args, 0nat,
{
    if args.len() == 0 {
        false
    } else {
        any_mentions(args.drop_last(), name) || mentions(args.last(), name)
    }
}

/// Whether the expression reads the name as a value.
pub open spec fn mentions(e: ExprView, name: Seq<char>) -> bool
    decreases e, 1nat,
{
    match e {
        ExprView::Num(_) => false,
        ExprView::Var(other) => other == name,
        ExprView::Op(lhs, _, rhs) => mentions(*lhs, name) || mentions(*rhs, name),
        ExprView::Fac(operand) => mentions(*operand, name),
        ExprView::Func(_, args) => any_mentions(args, name),
    }
}

/// Whether two contexts give every expression that does not read `ans`
/// the same value: they have the same variables and functions.
pub open spec fn same_tables(a: ContextView, b: ContextView) -> bool {
    a.vars == b.vars && a.functions == b.functions
}

/// The values of a list depend on the variables and the functions, and on
/// the history only through `ans`.
pub proof fn lemma_eval_all_reads_tables(
    args: Seq<ExprView>,
    a: ContextView,
    b: ContextView,
    f: spec_fn(RequestView) -> Number,
)
    requires
        same_tables(a, b),
        !any_mentions(args, "ans"@) || a.lookup("ans"@) == b.lookup("ans"@),
    ensures
        eval_all(args, a, f) == eval_all(args, b, f),
    decreases args, 0nat,
{
    if args.len() > 0 {
        lemma_eval_all_reads_tables(args.drop_last(), a, b, f);
        lemma_eval_reads_tables(args.last(), a, b, f);
    }
}

/// The value of an expression depends on the variables and the
/// functions, and on the history only through `ans`.
pub proof fn lemma_eval_reads_tables(
    e: ExprView,
    a: ContextView,
    b: ContextView,
    f: spec_fn(RequestView) -> Number,
)
    requires
        same_tables(a, b),
        !mentions(e, "ans"@) || a.lookup("ans"@) == b.lookup("ans"@),
    ensures
        eval(e, a, f) == eval(e, b, f),
    decreases e, 1nat,
{
    match e {
        ExprView::Num(_) => {},
        ExprView::Var(_) => {},
        ExprView::Op(lhs, _, rhs) => {
            lemma_eval_reads_tables(*lhs, a, b, f);
            lemma_eval_reads_tables(*rhs, a, b, f);
        },
        ExprView::Fac(operand) => {
            lemma_eval_reads_tables(*operand, a, b, f);
        },
        ExprView::Func(_, args) => {
            lemma_eval_all_reads_tables(args, a, b, f);
        },
    }
}

/// Whether a line assigns nothing: it has no target, or does not parse.
pub open spec fn read_only(input: Seq<char>) -> bool {
    match parse_text(input) {
        Ok(statement) => statement.target is None,
        Err(_) => true,
    }
}

/// Whether the expression of a line reads `ans`.
pub open spec fn reads_answer(input: Seq<char>) -> bool {
    match parse_text(input) {
        Ok(statement) => mentions(statement.expr, "ans"@),
        Err(_) => false,
    }
}

/// A line that assigns nothing and does not read `ans` gives the same
/// result when it is evaluated again, as long as the arithmetic answers as
/// before. The first evaluation changes the history and nothing else.
pub proof fn lemma_evaluation_repeats(
    input: Seq<char>,
    c: ContextView,
    f: spec_fn(RequestView) -> Number,
)
    requires
        read_only(input),
        !reads_answer(input),
    ensures
        same_tables(outcome(input, c, f).1, c),
        outcome(input, outcome(input, c, f).1, f).0 == outcome(input, c, f).0,
{
    if parse_text(input) is Ok {
        lemma_eval_reads_tables(parse_text(input)->Ok_0.expr, outcome(input, c, f).1, c, f);
    }
}

/// Between two evaluations of a line that assigns nothing and does not
/// read `ans`, any lines may be evaluated that leave the variables as
/// they are: the result is the same.
pub proof fn lemma_evaluation_repeats_later(
    input: Seq<char>,
    c: ContextView,
    later: ContextView,
    f: spec_fn(RequestView) -> Number,
)
    requires
        read_only(input),
        !reads_answer(input),
        same_tables(later, c),
    ensures
        outcome(input, later, f).0 == outcome(input, c, f).0,
{
    if parse_text(input) is Ok {
        lemma_eval_reads_tables(parse_text(input)->Ok_0.expr, later, c, f);
    }
}

/// The values of a list are found without a parser error.
pub proof fn lemma_eval_all_error_kinds(
    args: Seq<ExprView>,
    c: ContextView,
    f: spec_fn(RequestView) -> Number,
)
    ensures
        eval_all(args, c, f) is Err ==> evaluation_error(eval_all(args, c, f)->Err_0.kind),
    decreases args, 0nat,
{
    if args.len() > 0 {
        lemma_eval_all_error_kinds(args.drop_last(), c, f);
        lemma_eval_error_kinds(args.last(), c, f);
    }
}

/// Whether a kind of error can come from the evaluation of a tree: a name
/// that is not defined, a call with the wrong number of arguments, or
/// `ans` without an answer.
pub open spec fn evaluation_error(kind: CalcErrorType) -> bool {
    kind == CalcErrorType::UndefinedIdentifier || kind == CalcErrorType::ArgumentError || kind
        == CalcErrorType::CalculationError
}

/// The evaluation of a tree fails with one of three kinds of error.
pub proof fn lemma_eval_error_kinds(
    e: ExprView,
    c: ContextView,
    f: spec_fn(RequestView) -> Number,
)
    ensures
        eval(e, c, f) is Err ==> evaluation_error(eval(e, c, f)->Err_0.kind),
    decreases e, 1nat,
{
    match e {
        ExprView::Num(_) => {},
        ExprView::Var(_) => {},
        ExprView::Op(lhs, _, rhs) => {
            lemma_eval_error_kinds(*lhs, c, f);
            lemma_eval_error_kinds(*rhs, c, f);
        },
        ExprView::Fac(operand) => {
            lemma_eval_error_kinds(*operand, c, f);
        },
        ExprView::Func(_, args) => {
            lemma_eval_all_error_kinds(args, c, f);
        },
    }
}

/// A line fails with a syntax error exactly when it does not parse, with
/// an assignment error only when it assigns to a constant, and never with
/// a parser error.
pub proof fn lemma_outcome_error_kinds(
    input: Seq<char>,
    c: ContextView,
    f: spec_fn(RequestView) -> Number,
)
    ensures
        match outcome(input, c, f).0 {
            Ok(_) => parse_text(input) is Ok,
            Err(e) => {
                &&& e.kind != CalcErrorType::ParserError
                &&& e.kind == CalcErrorType::SyntaxError <==> parse_text(input) is Err
                &&& e.kind == CalcErrorType::AssignmentError ==> parse_text(input) is Ok
                    && parse_text(input)->Ok_0.target is Some
            },
        },
{
    match parse_text(input) {
        Err(_) => {},
        Ok(statement) => {
            lemma_eval_error_kinds(statement.expr, c, f);
        },
    }
}

/// An evaluation leaves a well-formed context well formed.
pub proof fn lemma_outcome_well_formed(
    input: Seq<char>,
    c: ContextView,
    f: spec_fn(RequestView) -> Number,
)
    requires
        c.well_formed(),
    ensures
        outcome(input, c, f).1.well_formed(),
{
    match parse_text(input) {
        Err(_) => {},
        Ok(statement) => {
            match eval(statement.expr, c, f) {
                Err(_) => {},
                Ok(value) => {
                    match statement.target {
                        None => {},
                        Some(name) => {
                            if c.assign(name, value) is Ok {
                                lemma_assign_well_formed(c, name, value);
                            }
                        },
                    }
                },
            }
        },
    }
}

} // verus!
