//! The state of a session: variables, functions and history.

use vstd::prelude::*;
use vstd::string::*;
use crate::error::{CalcError, CalcErrorType, ErrorView};
use crate::number::Number;
use crate::request::{Builtin, Request};

pub mod builtins;

verus! {

/// A variable as contracts see it.
pub struct VarView {
    pub name: Seq<char>,
    pub value: Number,
    pub constant: bool,
}

/// A named value: a built-in constant or a variable of the user.
#[derive(Debug)]
pub struct VarTableEntry {
    pub name: String,
    pub value: Number,
    pub constant: bool,
}

impl View for VarTableEntry {
    type V = VarView;

    open spec fn view(&self) -> VarView {
        VarView { name: self.name@, value: self.value, constant: self.constant }
    }
}

impl VarTableEntry {
    pub fn new(name: String, value: Number, constant: bool) -> (entry: VarTableEntry)
        ensures
            entry@ == (VarView { name: name@, value, constant }),
    {
        VarTableEntry { name, value, constant }
    }
}

/// A function as contracts see it.
pub struct FunctionView {
    pub name: Seq<char>,
    pub num_args: nat,
    pub operation: Builtin,
}

/// A built-in function: its name, the number of arguments it takes (zero
/// stands for any number), and the numeric operation that it applies.
#[derive(Debug)]
pub struct Function {
    pub name: String,
    pub num_args: usize,
    pub operation: Builtin,
}

impl View for Function {
    type V = FunctionView;

    open spec fn view(&self) -> FunctionView {
        FunctionView {
            name: self.name@,
            num_args: self.num_args as nat,
            operation: self.operation,
        }
    }
}

/// An entry of the history as contracts see it.
pub struct HistView {
    pub input: Seq<char>,
    pub result: Option<Number>,
}

/// One evaluated line: its text, and its result unless it failed.
#[derive(Debug)]
pub struct HistEntry {
    pub input: String,
    pub result: Option<Number>,
}

impl View for HistEntry {
    type V = HistView;

    open spec fn view(&self) -> HistView {
        HistView { input: self.input@, result: self.result }
    }
}

impl HistEntry {
    pub fn new(input: String, result: Option<Number>) -> (entry: HistEntry)
        ensures
            entry@ == (HistView { input: input@, result }),
    {
        HistEntry { input, result }
    }
}

/// The views of a table of variables.
pub open spec fn var_views(table: Seq<VarTableEntry>) -> Seq<VarView> {
    table.map_values(|entry: VarTableEntry| entry@)
}

/// The views of a table of functions.
pub open spec fn function_views(table: Seq<Function>) -> Seq<FunctionView> {
    table.map_values(|f: Function| f@)
}

/// The views of a history.
pub open spec fn hist_views(history: Seq<HistEntry>) -> Seq<HistView> {
    history.map_values(|entry: HistEntry| entry@)
}

/// A context as contracts see it.
pub struct ContextView {
    pub vars: Seq<VarView>,
    pub history: Seq<HistView>,
    pub functions: Seq<FunctionView>,
}

/// The state of a calculator over a session: the variables that are
/// defined, the functions that can be called, and the lines evaluated so
/// far.
#[derive(Debug)]
pub struct Context {
    var_table: Vec<VarTableEntry>,
    history: Vec<HistEntry>,
    function_table: Vec<Function>,
}

impl View for Context {
    type V = ContextView;

    closed spec fn view(&self) -> ContextView {
        ContextView {
            vars: var_views(self.var_table@),
            history: hist_views(self.history@),
            functions: function_views(self.function_table@),
        }
    }
}

/// The context that a session starts with: the built-in constants and
/// functions, and an empty history.
pub open spec fn fresh() -> ContextView {
    ContextView {
        vars: builtins::constants(),
        history: Seq::empty(),
        functions: builtins::function_table(),
    }
}

/// The place of the first variable from `i` on that is called `name`.
pub open spec fn var_index(vars: Seq<VarView>, name: Seq<char>, i: int) -> Option<int>
    decreases vars.len() - i,
{
    if !(0 <= i < vars.len()) {
        None
    } else if vars[i].name == name {
        Some(i)
    } else {
        var_index(vars, name, i + 1)
    }
}

/// The place of the first function from `i` on that is called `name`.
pub open spec fn function_index(functions: Seq<FunctionView>, name: Seq<char>, i: int) -> Option<
    int,
>
    decreases functions.len() - i,
{
    if !(0 <= i < functions.len()) {
        None
    } else if functions[i].name == name {
        Some(i)
    } else {
        function_index(functions, name, i + 1)
    }
}

/// The most recent result in a history: that of the last entry that has
/// one.
pub open spec fn last_answer(history: Seq<HistView>) -> Option<Number>
    decreases history.len(),
{
    if history.len() == 0 {
        None
    } else {
        match history.last().result {
            Some(value) => Some(value),
            None => last_answer(history.drop_last()),
        }
    }
}

/// The error for `ans` where the history holds no result.
pub open spec fn no_answer(history: Seq<HistView>) -> ErrorView {
    ErrorView {
        kind: CalcErrorType::CalculationError,
        msg: if history.len() == 0 {
            "Cannot use 'ans' without a previous equation"@
        } else {
            "Cannot use 'ans' without a previous valid solution"@
        },
    }
}

/// The error for a call with the wrong number of arguments.
pub open spec fn wrong_arity() -> ErrorView {
    ErrorView { kind: CalcErrorType::ArgumentError, msg: "Invalid number of arguments"@ }
}

/// The error for an assignment to the constant `name`.
pub open spec fn protected_constant(name: Seq<char>) -> ErrorView {
    ErrorView {
        kind: CalcErrorType::AssignmentError,
        msg: "Can't assign value to constant '"@ + name + "'"@,
    }
}

impl ContextView {
    /// What the name stands for: `None` if it is unknown, an error if it
    /// is `ans` and no line has given a result yet, else its value.
    pub open spec fn lookup(self, name: Seq<char>) -> Option<Result<Number, ErrorView>> {
        if name == "ans"@ {
            match last_answer(self.history) {
                Some(value) => Some(Ok(value)),
                None => Some(Err(no_answer(self.history))),
            }
        } else {
            match var_index(self.vars, name, 0) {
                Some(i) => Some(Ok(self.vars[i].value)),
                None => None,
            }
        }
    }

    /// The operation behind the function `name` for `count` arguments:
    /// `None` if no function has that name, an error if the function takes
    /// a fixed number of arguments other than `count`.
    pub open spec fn dispatch(self, name: Seq<char>, count: nat) -> Option<
        Result<Builtin, ErrorView>,
    > {
        match function_index(self.functions, name, 0) {
            None => None,
            Some(i) => {
                let f = self.functions[i];
                if f.num_args != 0 && f.num_args != count {
                    Some(Err(wrong_arity()))
                } else {
                    Some(Ok(f.operation))
                }
            },
        }
    }

    /// The context after `name` is given `value`: a variable of that name
    /// takes the value, a new name is added at the end, and a constant
    /// refuses.
    pub open spec fn assign(self, name: Seq<char>, value: Number) -> Result<
        ContextView,
        ErrorView,
    > {
        match var_index(self.vars, name, 0) {
            Some(i) => if self.vars[i].constant {
                Err(protected_constant(name))
            } else {
                Ok(
                    ContextView {
                        vars: self.vars.update(i, VarView { name, value, constant: false }),
                        ..self
                    },
                )
            },
            None => Ok(
                ContextView {
                    vars: self.vars.push(VarView { name, value, constant: false }),
                    ..self
                },
            ),
        }
    }

    /// The context after one more line is written to its history.
    pub open spec fn record(self, input: Seq<char>, result: Option<Number>) -> ContextView {
        ContextView { history: self.history.push(HistView { input, result }), ..self }
    }

    /// Whether no two variables share a name and the functions are the
    /// built-in ones.
    pub open spec fn well_formed(self) -> bool {
        &&& forall|i: int, j: int|
            0 <= i < j < self.vars.len() ==> self.vars[i].name != self.vars[j].name
        &&& self.functions == builtins::function_table()
    }
}

impl Context {
    /// A context with the built-in constants and functions and an empty
    /// history.
    pub fn new() -> (ctx: Context)
        ensures
            ctx@ == fresh(),
            ctx@.well_formed(),
    {
        proof {
            lemma_fresh_well_formed();
        }
        let ctx = Context {
            var_table: builtins::get_consts(),
            function_table: builtins::get_functions(),
            history: Vec::new(),
        };
        assert(hist_views(ctx.history@) =~= Seq::empty());
        ctx
    }

    /// Looks a name up.
    ///
    /// `None`: nothing is called so. `ans` stands for the most recent
    /// result in the history, and is an error while there is none. Any
    /// other name stands for the variable of that name.
    pub fn lookup_var(&self, query: &String) -> (r: Option<Result<Number, CalcError>>)
        ensures
            match self@.lookup(query@) {
                None => r is None,
                Some(Ok(value)) => r is Some && r->Some_0 is Ok && r->Some_0->Ok_0 == value,
                Some(Err(e)) => r is Some && r->Some_0 is Err && r->Some_0->Err_0@ == e,
            },
    {
        let ans = String::from_str("ans");
        if *query == ans {
            let mut i: usize = self.history.len();
            assert(hist_views(self.history@).take(i as int) =~= hist_views(self.history@));
            while i > 0
                invariant
                    i <= self.history.len(),
                    query@ == "ans"@,
                    last_answer(hist_views(self.history@).take(i as int)) == last_answer(
                        hist_views(self.history@),
                    ),
                decreases i,
            {
                i -= 1;
                proof {
                    let upto = hist_views(self.history@).take(i + 1);
                    assert(upto.drop_last() =~= hist_views(self.history@).take(i as int));
                }
                if let Some(answer) = self.history[i].result {
                    return Some(Ok(answer));
                }
            }
            let msg = if self.history.len() == 0 {
                String::from_str("Cannot use 'ans' without a previous equation")
            } else {
                String::from_str("Cannot use 'ans' without a previous valid solution")
            };
            return Some(Err(CalcError::new(CalcErrorType::CalculationError, msg)));
        }
        let mut i: usize = 0;
        while i < self.var_table.len()
            invariant
                i <= self.var_table.len(),
                query@ != "ans"@,
                var_index(self@.vars, query@, i as int) == var_index(self@.vars, query@, 0),
            decreases self.var_table.len() - i,
        {
            if self.var_table[i].name == *query {
                return Some(Ok(self.var_table[i].value));
            }
            i += 1;
        }
        None
    }

    /// Looks a function up for a call with the given arguments.
    ///
    /// `None`: no function is called so. An error: the function takes a
    /// fixed number of arguments, and not this many. Otherwise the request
    /// to apply the function's operation to the arguments.
    pub fn try_function(&self, name: &String, args: Vec<Number>) -> (r: Option<
        Result<Request, CalcError>,
    >)
        ensures
            match self@.dispatch(name@, args@.len()) {
                None => r is None,
                Some(Ok(operation)) => r is Some && r->Some_0 is Ok && r->Some_0->Ok_0@
                    == crate::request::RequestView::Call(operation, args@),
                Some(Err(e)) => r is Some && r->Some_0 is Err && r->Some_0->Err_0@ == e,
            },
    {
        let mut i: usize = 0;
        while i < self.function_table.len()
            invariant
                i <= self.function_table.len(),
                function_index(self@.functions, name@, i as int) == function_index(
                    self@.functions,
                    name@,
                    0,
                ),
            decreases self.function_table.len() - i,
        {
            let f = &self.function_table[i];
            if f.name == *name {
                if f.num_args != 0 && f.num_args != args.len() {
                    return Some(
                        Err(
                            CalcError::new(
                                CalcErrorType::ArgumentError,
                                String::from_str("Invalid number of arguments"),
                            ),
                        ),
                    );
                }
                return Some(Ok(Request::Call(f.operation, args)));
            }
            i += 1;
        }
        None
    }

    /// Gives a variable a value.
    ///
    /// A variable of that name takes the value; a new name is added; a
    /// constant refuses, and then nothing changes.
    pub fn assign_var(&mut self, query: &String, val: Number) -> (r: Result<(), CalcError>)
        ensures
            match old(self)@.assign(query@, val) {
                Ok(after) => r is Ok && final(self)@ == after,
                Err(e) => r is Err && r->Err_0@ == e && final(self)@ == old(self)@,
            },
            old(self)@.well_formed() ==> final(self)@.well_formed(),
    {
        proof {
            if old(self)@.well_formed() && old(self)@.assign(query@, val) is Ok {
                lemma_assign_well_formed(old(self)@, query@, val);
            }
        }
        let mut i: usize = 0;
        while i < self.var_table.len()
            invariant
                i <= self.var_table.len(),
                *self == *old(self),
                var_index(self@.vars, query@, i as int) == var_index(self@.vars, query@, 0),
            decreases self.var_table.len() - i,
        {
            if self.var_table[i].name == *query {
                if self.var_table[i].constant {
                    let mut msg = String::from_str("Can't assign value to constant '");
                    msg.append(query.as_str());
                    msg.append("'");
                    return Err(CalcError::new(CalcErrorType::AssignmentError, msg));
                }
                self.var_table.set(i, VarTableEntry::new(query.clone(), val, false));
                assert(self@.vars =~= old(self)@.vars.update(
                    i as int,
                    VarView { name: query@, value: val, constant: false },
                ));
                return Ok(());
            }
            i += 1;
        }
        self.var_table.push(VarTableEntry::new(query.clone(), val, false));
        assert(self@.vars =~= old(self)@.vars.push(
            VarView { name: query@, value: val, constant: false },
        ));
        Ok(())
    }

    /// Writes a line and its result to the history.
    pub fn record(&mut self, input: &str, result: Option<Number>)
        ensures
            final(self)@ == old(self)@.record(input@, result),
            old(self)@.well_formed() ==> final(self)@.well_formed(),
    {
        self.history.push(HistEntry::new(String::from_str(input), result));
        assert(self@.history =~= old(self)@.history.push(HistView { input: input@, result }));
    }
}

/// Whether no entry of a history has a result.
pub open spec fn without_results(history: Seq<HistView>) -> bool {
    forall|i: int| 0 <= i < history.len() ==> (#[trigger] history[i]).result is None
}

/// A history has no most recent result exactly when none of its entries
/// has a result.
pub proof fn lemma_no_answer(history: Seq<HistView>)
    ensures
        last_answer(history) is None <==> without_results(history),
    decreases history.len(),
{
    if history.len() > 0 {
        let front = history.drop_last();
        lemma_no_answer(front);
        if without_results(history) {
            assert forall|i: int| 0 <= i < front.len() implies (#[trigger] front[i]).result
                is None by {}
        }
        if last_answer(history) is None {
            assert forall|i: int| 0 <= i < history.len() implies (#[trigger] history[i]).result
                is None by {
                if i < history.len() - 1 {
                    assert(front[i] == history[i]);
                }
            }
        }
    }
}

/// The most recent result of a history is that of the entry at `i`, if
/// that entry has a result and none after it has one.
pub proof fn lemma_answer_is_most_recent(history: Seq<HistView>, i: int)
    requires
        0 <= i < history.len(),
        history[i].result is Some,
        forall|j: int| i < j < history.len() ==> (#[trigger] history[j]).result is None,
    ensures
        last_answer(history) == history[i].result,
    decreases history.len(),
{
    if i < history.len() - 1 {
        let front = history.drop_last();
        assert forall|j: int| i < j < front.len() implies (#[trigger] front[j]).result is None by {}
        lemma_answer_is_most_recent(front, i);
    }
}

/// Looking up `ans` fails as long as no line has given a result.
pub proof fn lemma_ans_fails_without_results(c: ContextView)
    requires
        without_results(c.history),
    ensures
        c.lookup("ans"@) == Some(Err::<Number, ErrorView>(no_answer(c.history))),
{
    lemma_no_answer(c.history);
}

/// `ans` stands for the result of the most recent line that has one: the
/// lines after it, which failed, are passed over.
pub proof fn lemma_ans_is_most_recent_result(c: ContextView, i: int)
    requires
        0 <= i < c.history.len(),
        c.history[i].result is Some,
        forall|j: int| i < j < c.history.len() ==> (#[trigger] c.history[j]).result is None,
    ensures
        c.lookup("ans"@) == Some(Ok::<Number, ErrorView>(c.history[i].result->Some_0)),
{
    lemma_answer_is_most_recent(c.history, i);
}

/// A line with a result becomes the answer; a line without one leaves the
/// answer as it was.
pub proof fn lemma_answer_after_record(c: ContextView, input: Seq<char>, result: Option<Number>)
    ensures
        last_answer(c.record(input, result).history) == match result {
            Some(value) => Some(value),
            None => last_answer(c.history),
        },
{
    let after = c.record(input, result).history;
    assert(after.drop_last() =~= c.history);
}

/// The place that `var_index` finds holds the name, and no place from
/// `from` up to it does.
pub proof fn lemma_var_index(vars: Seq<VarView>, name: Seq<char>, from: int)
    requires
        0 <= from,
    ensures
        match var_index(vars, name, from) {
            Some(i) => {
                &&& from <= i < vars.len()
                &&& vars[i].name == name
                &&& forall|j: int| from <= j < i ==> (#[trigger] vars[j]).name != name
            },
            None => forall|j: int| from <= j < vars.len() ==> (#[trigger] vars[j]).name != name,
        },
    decreases vars.len() - from,
{
    if from < vars.len() && vars[from].name != name {
        lemma_var_index(vars, name, from + 1);
    }
}

/// Where the variables have distinct names, `var_index` finds the one
/// place that holds the name.
pub proof fn lemma_var_index_unique(vars: Seq<VarView>, name: Seq<char>, i: int)
    requires
        0 <= i < vars.len(),
        vars[i].name == name,
        forall|a: int, b: int| 0 <= a < b < vars.len() ==> vars[a].name != vars[b].name,
    ensures
        var_index(vars, name, 0) == Some(i),
{
    lemma_var_index(vars, name, 0);
}

/// A fresh context is well formed, and its history holds no result.
pub proof fn lemma_fresh_well_formed()
    ensures
        fresh().well_formed(),
        without_results(fresh().history),
{
    reveal_strlit("pi");
    reveal_strlit("e");
    reveal_strlit("inf");
    reveal_strlit("nan");
    let vars = builtins::constants();
    assert(vars[0].name.len() == 2);
    assert(vars[2].name[0] != vars[3].name[0]);
}

/// An assignment keeps a context well formed.
pub proof fn lemma_assign_well_formed(c: ContextView, name: Seq<char>, value: Number)
    requires
        c.well_formed(),
        c.assign(name, value) is Ok,
    ensures
        c.assign(name, value)->Ok_0.well_formed(),
{
    lemma_var_index(c.vars, name, 0);
}

/// Two tables with the same names in the same places find a name at the
/// same place.
proof fn lemma_var_index_by_names(
    before: Seq<VarView>,
    after: Seq<VarView>,
    name: Seq<char>,
    from: int,
)
    requires
        0 <= from,
        before.len() == after.len(),
        forall|j: int| 0 <= j < before.len() ==> before[j].name == after[j].name,
    ensures
        var_index(before, name, from) == var_index(after, name, from),
    decreases before.len() - from,
{
    if from < before.len() && before[from].name != name {
        lemma_var_index_by_names(before, after, name, from + 1);
    }
}

/// In a table with one more entry at its end, a name is found where it
/// was found before, or else at the end if the new entry has it.
proof fn lemma_var_index_push(vars: Seq<VarView>, entry: VarView, name: Seq<char>, from: int)
    requires
        0 <= from <= vars.len(),
    ensures
        var_index(vars.push(entry), name, from) == match var_index(vars, name, from) {
            Some(i) => Some(i),
            None => if entry.name == name {
                Some(vars.len() as int)
            } else {
                None
            },
        },
    decreases vars.len() - from,
{
    if from < vars.len() {
        if vars[from].name != name {
            lemma_var_index_push(vars, entry, name, from + 1);
        }
    } else {
        assert(var_index(vars.push(entry), name, from + 1) is None);
    }
}

/// After an assignment the name stands for the value, and every other
/// name for what it stood for before.
pub proof fn lemma_lookup_after_assign(
    c: ContextView,
    name: Seq<char>,
    value: Number,
    other: Seq<char>,
)
    requires
        c.assign(name, value) is Ok,
    ensures
        name != "ans"@ ==> c.assign(name, value)->Ok_0.lookup(name) == Some(
            Ok::<Number, ErrorView>(value),
        ),
        other != name ==> c.assign(name, value)->Ok_0.lookup(other) == c.lookup(other),
{
    let after = c.assign(name, value)->Ok_0;
    let entry = VarView { name, value, constant: false };
    lemma_var_index(c.vars, name, 0);
    lemma_var_index(c.vars, other, 0);
    match var_index(c.vars, name, 0) {
        Some(i) => {
            lemma_var_index_by_names(c.vars, after.vars, name, 0);
            lemma_var_index_by_names(c.vars, after.vars, other, 0);
        },
        None => {
            lemma_var_index_push(c.vars, entry, name, 0);
            lemma_var_index_push(c.vars, entry, other, 0);
        },
    }
}

} // verus!
