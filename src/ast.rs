//! The expression tree and its mathematical model.
use vstd::prelude::*;
use vstd::string::StringExecFns;
use crate::token::{kind_text, TokenKind};

verus! {

/// A literal value. A floating-point literal keeps the text it was written
/// with, which is valid decimal notation with an optional exponent.
#[derive(Debug, PartialEq)]
pub enum Lit {
    Int(usize),
    Float(String),
    Str(String),
}

/// An expression. Every node owns its children.
#[derive(Debug, PartialEq)]
pub enum Expr {
    Literal(Lit),
    Ident(String),
    FnCall { fn_name: String, args: Vec<Expr> },
    PrefixOp { op: TokenKind, expr: Box<Expr> },
    InfixOp { op: TokenKind, lhs: Box<Expr>, rhs: Box<Expr> },
    PostfixOp { op: TokenKind, expr: Box<Expr> },
}

/// The model of a literal.
pub enum LitModel {
    Int(nat),
    Float(Seq<char>),
    Str(Seq<char>),
}

/// The model of an expression tree.
pub enum ExprModel {
    Literal(LitModel),
    Ident(Seq<char>),
    FnCall(Seq<char>, Seq<ExprModel>),
    PrefixOp(TokenKind, Box<ExprModel>),
    InfixOp(TokenKind, Box<ExprModel>, Box<ExprModel>),
    PostfixOp(TokenKind, Box<ExprModel>),
}

impl View for Lit {
    type V = LitModel;

    open spec fn view(&self) -> LitModel {
        match self {
            Lit::Int(i) => LitModel::Int(*i as nat),
            Lit::Float(t) => LitModel::Float(t@),
            Lit::Str(t) => LitModel::Str(t@),
        }
    }
}

/// The model of `e`.
pub open spec fn expr_model(e: Expr) -> ExprModel
    decreases e, 0int,
{
    match e {
        Expr::Literal(l) => ExprModel::Literal(l@),
        Expr::Ident(n) => ExprModel::Ident(n@),
        Expr::FnCall { fn_name, args } => ExprModel::FnCall(fn_name@, args_model(args@, 0)),
        Expr::PrefixOp { op, expr } => ExprModel::PrefixOp(op, Box::new(expr_model(*expr))),
        Expr::InfixOp { op, lhs, rhs } => ExprModel::InfixOp(
            op,
            Box::new(expr_model(*lhs)),
            Box::new(expr_model(*rhs)),
        ),
        Expr::PostfixOp { op, expr } => ExprModel::PostfixOp(op, Box::new(expr_model(*expr))),
    }
}

/// The models of `args` from index `i` on.
pub open spec fn args_model(args: Seq<Expr>, i: int) -> Seq<ExprModel>
    decreases args, args.len() - i,
{
    if 0 <= i < args.len() {
        seq![expr_model(args[i])] + args_model(args, i + 1)
    } else {
        seq![]
    }
}

impl View for Expr {
    type V = ExprModel;

    open spec fn view(&self) -> ExprModel {
        expr_model(*self)
    }
}


/// The character of a decimal digit.
pub open spec fn digit_char(d: nat) -> char {
    if d == 0 {
        '0'
    } else if d == 1 {
        '1'
    } else if d == 2 {
        '2'
    } else if d == 3 {
        '3'
    } else if d == 4 {
        '4'
    } else if d == 5 {
        '5'
    } else if d == 6 {
        '6'
    } else if d == 7 {
        '7'
    } else if d == 8 {
        '8'
    } else {
        '9'
    }
}

/// The decimal notation of `n`, without leading zeros.
pub open spec fn decimal(n: nat) -> Seq<char>
    decreases n,
{
    if n < 10 {
        seq![digit_char(n)]
    } else {
        decimal(n / 10) + seq![digit_char(n % 10)]
    }
}

/// The rendering of a literal: numbers as written, strings between double quotes.
pub open spec fn render_lit(l: LitModel) -> Seq<char> {
    match l {
        LitModel::Int(n) => decimal(n),
        LitModel::Float(t) => t,
        LitModel::Str(t) => seq!['"'] + t + seq!['"'],
    }
}

/// The fully parenthesized rendering of an expression.
pub open spec fn render(m: ExprModel) -> Seq<char>
    decreases m, 0int,
{
    match m {
        ExprModel::Literal(l) => render_lit(l),
        ExprModel::Ident(n) => n,
        ExprModel::FnCall(name, args) => name + seq!['('] + render_args(args, 0) + seq![')'],
        ExprModel::PrefixOp(op, e) => seq!['('] + kind_text(op) + seq![' '] + render(*e) + seq![
            ')',
        ],
        ExprModel::InfixOp(op, l, r) => seq!['('] + render(*l) + seq![' '] + kind_text(op) + seq![
            ' ',
        ] + render(*r) + seq![')'],
        ExprModel::PostfixOp(op, e) => seq!['('] + render(*e) + seq![' '] + kind_text(op) + seq![
            ')',
        ],
    }
}

/// The renderings of `args` from index `i` on, each followed by a comma.
pub open spec fn render_args(args: Seq<ExprModel>, i: int) -> Seq<char>
    decreases args, args.len() - i,
{
    if 0 <= i < args.len() {
        render(args[i]) + seq![','] + render_args(args, i + 1)
    } else {
        seq![]
    }
}

fn digit_str(d: usize) -> (r: &'static str)
    requires
        d < 10,
    ensures
        r@ == seq![digit_char(d as nat)],
{
    proof {
        reveal_strlit("0");
        reveal_strlit("1");
        reveal_strlit("2");
        reveal_strlit("3");
        reveal_strlit("4");
        reveal_strlit("5");
        reveal_strlit("6");
        reveal_strlit("7");
        reveal_strlit("8");
        reveal_strlit("9");
    }
    match d {
        0 => "0",
        1 => "1",
        2 => "2",
        3 => "3",
        4 => "4",
        5 => "5",
        6 => "6",
        7 => "7",
        8 => "8",
        _ => "9",
    }
}

/// Appends the decimal notation of `n` to `out`.
fn push_decimal(out: &mut String, n: usize)
    ensures
        final(out)@ == old(out)@ + decimal(n as nat),
    decreases n,
{
    if n >= 10 {
        push_decimal(out, n / 10);
    }
    out.append(digit_str(n % 10));
    assert(out@ =~= old(out)@ + decimal(n as nat));
}

fn lit_str(c: char) -> (r: &'static str)
    requires
        c == '(' || c == ')' || c == ' ' || c == ',' || c == '"',
    ensures
        r@ == seq![c],
{
    proof {
        reveal_strlit("(");
        reveal_strlit(")");
        reveal_strlit(" ");
        reveal_strlit(",");
        reveal_strlit("\"");
    }
    if c == '(' {
        "("
    } else if c == ')' {
        ")"
    } else if c == ' ' {
        " "
    } else if c == ',' {
        ","
    } else {
        "\""
    }
}

impl Lit {
    /// Appends the rendering of this literal to `out`.
    pub fn render_into(&self, out: &mut String)
        ensures
            final(out)@ == old(out)@ + render_lit(self@),
    {
        match self {
            Lit::Int(n) => push_decimal(out, *n),
            Lit::Float(t) => out.append(t.as_str()),
            Lit::Str(t) => {
                out.append(lit_str('"'));
                out.append(t.as_str());
                out.append(lit_str('"'));
            },
        }
        assert(out@ =~= old(out)@ + render_lit(self@));
    }

    /// The rendering of this literal.
    pub fn to_string(&self) -> (r: String)
        ensures
            r@ == render_lit(self@),
    {
        let mut out = String::new();
        self.render_into(&mut out);
        assert(out@ =~= render_lit(self@));
        out
    }
}

impl Expr {
    /// A copy of this expression tree, node for node.
    pub fn deep_copy(&self) -> (r: Expr)
        ensures
            r@ == self@,
        decreases self,
    {
        match self {
            Expr::Literal(l) => Expr::Literal(l.clone()),
            Expr::Ident(n) => Expr::Ident(n.clone()),
            Expr::FnCall { fn_name, args } => {
                proof {
                    assert forall|j: int| 0 <= j < args@.len() implies decreases_to!(*self => args@[j]) by {
                        vstd::std_specs::vec::axiom_vec_index_decreases(*args, j);
                    }
                }
                let mut copied: Vec<Expr> = Vec::new();
                let mut i: usize = 0;
                while i < args.len()
                    invariant
                        0 <= i <= args@.len(),
                        copied@.len() == i,
                        forall|j: int| 0 <= j < i ==> (#[trigger] copied@[j])@ == args@[j]@,
                        forall|j: int| 0 <= j < args@.len() ==> decreases_to!(*self => args@[j]),
                    decreases args@.len() - i,
                {
                    let c = args[i].deep_copy();
                    copied.push(c);
                    i = i + 1;
                }
                proof {
                    lemma_args_model_same(copied@, args@, 0);
                }
                Expr::FnCall { fn_name: fn_name.clone(), args: copied }
            },
            Expr::PrefixOp { op, expr } => Expr::PrefixOp { op: *op, expr: Box::new(expr.deep_copy()) },
            Expr::InfixOp { op, lhs, rhs } => Expr::InfixOp {
                op: *op,
                lhs: Box::new(lhs.deep_copy()),
                rhs: Box::new(rhs.deep_copy()),
            },
            Expr::PostfixOp { op, expr } => Expr::PostfixOp {
                op: *op,
                expr: Box::new(expr.deep_copy()),
            },
        }
    }

    /// Appends the fully parenthesized rendering of this expression to `out`.
    pub fn render_into(&self, out: &mut String)
        ensures
            final(out)@ == old(out)@ + render(self@),
        decreases self,
    {
        let ghost start = out@;
        match self {
            Expr::Literal(l) => l.render_into(out),
            Expr::Ident(n) => out.append(n.as_str()),
            Expr::FnCall { fn_name, args } => {
                out.append(fn_name.as_str());
                out.append(lit_str('('));
                let ghost before = out@;
                proof {
                    assert forall|j: int| 0 <= j < args@.len() implies decreases_to!(*self => args@[j]) by {
                        vstd::std_specs::vec::axiom_vec_index_decreases(*args, j);
                    }
                }
                let mut i: usize = 0;
                while i < args.len()
                    invariant
                        0 <= i <= args@.len(),
                        before == start + fn_name@ + seq!['('],
                        forall|j: int| 0 <= j < args@.len() ==> decreases_to!(*self => args@[j]),
                        out@ + render_args(args_model(args@, 0), i as int) == before + render_args(
                            args_model(args@, 0),
                            0,
                        ),
                    decreases args@.len() - i,
                {
                    proof {
                        lemma_args_model_index(args@, 0, i as int);
                    }
                    args[i].render_into(out);
                    out.append(lit_str(','));
                    i = i + 1;
                }
                proof {
                    lemma_args_model_len(args@, 0);
                }
                out.append(lit_str(')'));
            },
            Expr::PrefixOp { op, expr } => {
                out.append(lit_str('('));
                out.append(op.as_str());
                out.append(lit_str(' '));
                expr.render_into(out);
                out.append(lit_str(')'));
            },
            Expr::InfixOp { op, lhs, rhs } => {
                out.append(lit_str('('));
                lhs.render_into(out);
                out.append(lit_str(' '));
                out.append(op.as_str());
                out.append(lit_str(' '));
                rhs.render_into(out);
                out.append(lit_str(')'));
            },
            Expr::PostfixOp { op, expr } => {
                out.append(lit_str('('));
                expr.render_into(out);
                out.append(lit_str(' '));
                out.append(op.as_str());
                out.append(lit_str(')'));
            },
        }
        assert(out@ =~= start + render(self@));
    }

    /// The fully parenthesized rendering of this expression, such as `(4 + (2 * 3))`.
    pub fn to_string(&self) -> (r: String)
        ensures
            r@ == render(self@),
    {
        let mut out = String::new();
        self.render_into(&mut out);
        assert(out@ =~= render(self@));
        out
    }
}

proof fn lemma_args_model_same(a: Seq<Expr>, b: Seq<Expr>, i: int)
    requires
        0 <= i <= a.len(),
        a.len() == b.len(),
        forall|j: int| 0 <= j < a.len() ==> (#[trigger] a[j])@ == b[j]@,
    ensures
        args_model(a, i) == args_model(b, i),
    decreases a.len() - i,
{
    if i < a.len() {
        lemma_args_model_same(a, b, i + 1);
        assert(expr_model(a[i]) == expr_model(b[i]));
    }
}

impl Clone for Lit {
    fn clone(&self) -> (r: Lit)
        ensures
            r@ == self@,
    {
        match self {
            Lit::Int(i) => Lit::Int(*i),
            Lit::Float(t) => Lit::Float(t.clone()),
            Lit::Str(t) => Lit::Str(t.clone()),
        }
    }
}

impl Clone for Expr {
    fn clone(&self) -> (r: Expr)
        ensures
            r@ == self@,
    {
        self.deep_copy()
    }
}

proof fn lemma_args_model_index(args: Seq<Expr>, i: int, k: int)
    requires
        0 <= i <= k < args.len(),
    ensures
        args_model(args, i).len() == args.len() - i,
        args_model(args, i)[k - i] == expr_model(args[k]),
    decreases args.len() - i,
{
    if i < k {
        lemma_args_model_index(args, i + 1, k);
    }
    lemma_args_model_len(args, i);
}

proof fn lemma_args_model_len(args: Seq<Expr>, i: int)
    requires
        0 <= i <= args.len(),
    ensures
        args_model(args, i).len() == args.len() - i,
    decreases args.len() - i,
{
    if i < args.len() {
        lemma_args_model_len(args, i + 1);
    }
}

} // verus!
