//! Expression trees.

use vstd::prelude::*;
use vstd::string::*;

verus! {

/// The binary operators.
#[derive(Debug, Clone, Copy, PartialEq, Eq, Structural)]
pub enum Operation {
    Add,
    Sub,
    Mul,
    Div,
    FloorDiv,
    Mod,
    Exp,
}

impl Operation {
    /// The operator as it is written in an expression.
    pub open spec fn symbol(self) -> Seq<char> {
        match self {
            Operation::Add => "+"@,
            Operation::Sub => "-"@,
            Operation::Mul => "*"@,
            Operation::Div => "/"@,
            Operation::FloorDiv => "//"@,
            Operation::Mod => "%"@,
            Operation::Exp => "^"@,
        }
    }

    /// The operator as text.
    pub fn to_string(&self) -> (s: String)
        ensures
            s@ == self.symbol(),
    {
        match self {
            Operation::Add => String::from_str("+"),
            Operation::Sub => String::from_str("-"),
            Operation::Mul => String::from_str("*"),
            Operation::Div => String::from_str("/"),
            Operation::FloorDiv => String::from_str("//"),
            Operation::Mod => String::from_str("%"),
            Operation::Exp => String::from_str("^"),
        }
    }
}

/// An expression tree as contracts see it.
pub enum ExprView {
    /// A numeric literal, by its text.
    Num(Seq<char>),
    /// A binary operation on two subtrees.
    Op(Box<ExprView>, Operation, Box<ExprView>),
    /// A call of a named function on its arguments, in order.
    Func(Seq<char>, Seq<ExprView>),
    /// A reference to a named value.
    Var(Seq<char>),
    /// The factorial of a subtree.
    Fac(Box<ExprView>),
}

/// An expression tree.
///
/// A literal keeps the text it was written with; it becomes a number when
/// the expression is evaluated.
#[derive(Debug)]
pub enum Expr {
    Num(String),
    Op(Box<Expr>, Operation, Box<Expr>),
    Func(String, Vec<Box<Expr>>),
    Var(String),
    Fac(Box<Expr>),
}

impl Expr {
    /// The views of a list of trees.
    pub open spec fn views(args: Seq<Box<Expr>>) -> Seq<ExprView>
        decreases args, 0nat,
    {
        Seq::new(
            args.len(),
            |i: int|
                if 0 <= i < args.len() {
                    args[i].view()
                } else {
                    ExprView::Num(Seq::empty())
                },
        )
    }

    /// The tree as contracts see it.
    pub open spec fn view(&self) -> ExprView
        decreases self, 1nat,
    {
        match self {
            Expr::Num(text) => ExprView::Num(text@),
            Expr::Op(lhs, op, rhs) => ExprView::Op(Box::new(lhs.view()), *op, Box::new(rhs.view())),
            Expr::Func(name, args) => ExprView::Func(name@, Self::views(args@)),
            Expr::Var(name) => ExprView::Var(name@),
            Expr::Fac(operand) => ExprView::Fac(Box::new(operand.view())),
        }
    }
}

/// The texts of a sequence of expressions, with a comma between neighbours.
pub open spec fn render_list(args: Seq<ExprView>) -> Seq<char>
    decreases args, 0nat,
{
    if args.len() == 0 {
        Seq::empty()
    } else if args.len() == 1 {
        render(args[0])
    } else {
        render_list(args.drop_last()) + ","@ + render(args.last())
    }
}

/// The text of an expression, with every binary operation in parentheses.
pub open spec fn render(e: ExprView) -> Seq<char>
    decreases e, 1nat,
{
    match e {
        ExprView::Num(text) => text,
        ExprView::Op(lhs, op, rhs) => "("@ + render(*lhs) + op.symbol() + render(*rhs) + ")"@,
        ExprView::Func(name, args) => name + "("@ + render_list(args) + ")"@,
        ExprView::Var(name) => name,
        ExprView::Fac(operand) => render(*operand) + "!"@,
    }
}

impl Expr {
    /// The expression as text, with every binary operation in parentheses.
    pub fn to_string(&self) -> (s: String)
        ensures
            s@ == render(self.view()),
        decreases self,
    {
        match self {
            Expr::Num(text) => text.clone(),
            Expr::Op(lhs, op, rhs) => {
                let mut s = String::from_str("(");
                let left = lhs.to_string();
                s.append(left.as_str());
                let symbol = op.to_string();
                s.append(symbol.as_str());
                let right = rhs.to_string();
                s.append(right.as_str());
                s.append(")");
                s
            },
            Expr::Func(name, args) => {
                let mut s = name.clone();
                s.append("(");
                let mut i: usize = 0;
                while i < args.len()
                    invariant
                        i <= args.len(),
                        self == Expr::Func(*name, *args),
                        s@ == name@ + "("@ + render_list(Self::views(args@).take(i as int)),
                    decreases args.len() - i,
                {
                    if i > 0 {
                        s.append(",");
                    }
                    proof {
                        assert(decreases_to!(self => self->Func_1));
                    }
                    let item = args[i].to_string();
                    s.append(item.as_str());
                    proof {
                        let before = Self::views(args@).take(i as int);
                        let after = Self::views(args@).take(i + 1);
                        assert(after.drop_last() =~= before);
                    }
                    i += 1;
                }
                proof {
                    assert(Self::views(args@).take(i as int) =~= Self::views(args@));
                }
                s.append(")");
                s
            },
            Expr::Var(name) => name.clone(),
            Expr::Fac(operand) => {
                let mut s = operand.to_string();
                s.append("!");
                s
            },
        }
    }
}

} // verus!
