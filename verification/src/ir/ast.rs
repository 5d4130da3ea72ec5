//! The MiniC abstract syntax tree, parameterized by phase.
//!
//! The decoration `Ty` is `()` for parser output (unchecked) and [`Type`] for
//! type-checker output (checked). Each executable node has a mathematical view
//! (`Spec*` types) in which strings are character sequences and vectors are
//! sequences; the contracts of the checker and the code generator speak of it.

use vstd::prelude::*;
use vstd::string::StringExecFns;

verus! {

pub type Name = String;

/// MiniC types.
#[derive(Debug, PartialEq)]
pub enum Type {
    Int,
    Float,
    Bool,
    Str,
    Unit,
    Array(Box<Type>),
}

/// Literal values. A float literal is held as its IEEE-754 bit pattern
/// (`f64::to_bits`), so that it can be carried and compared exactly.
#[derive(Debug, Clone, PartialEq)]
pub enum Literal {
    Int(i64),
    Float(u64),
    Str(String),
    Bool(bool),
}

/// Expressions; every subexpression carries the same decoration `Ty`.
#[derive(Debug, PartialEq)]
pub enum Expr<Ty> {
    Literal(Literal),
    Ident(Name),
    Neg(Box<ExprD<Ty>>),
    Add(Box<ExprD<Ty>>, Box<ExprD<Ty>>),
    Sub(Box<ExprD<Ty>>, Box<ExprD<Ty>>),
    Mul(Box<ExprD<Ty>>, Box<ExprD<Ty>>),
    Div(Box<ExprD<Ty>>, Box<ExprD<Ty>>),
    Eq(Box<ExprD<Ty>>, Box<ExprD<Ty>>),
    Ne(Box<ExprD<Ty>>, Box<ExprD<Ty>>),
    Lt(Box<ExprD<Ty>>, Box<ExprD<Ty>>),
    Le(Box<ExprD<Ty>>, Box<ExprD<Ty>>),
    Gt(Box<ExprD<Ty>>, Box<ExprD<Ty>>),
    Ge(Box<ExprD<Ty>>, Box<ExprD<Ty>>),
    Not(Box<ExprD<Ty>>),
    And(Box<ExprD<Ty>>, Box<ExprD<Ty>>),
    Or(Box<ExprD<Ty>>, Box<ExprD<Ty>>),
    Call { name: Name, args: Vec<ExprD<Ty>> },
    ArrayLit(Vec<ExprD<Ty>>),
    Index { base: Box<ExprD<Ty>>, index: Box<ExprD<Ty>> },
}

/// An expression with its decoration.
#[derive(Debug, PartialEq)]
pub struct ExprD<Ty> {
    pub exp: Expr<Ty>,
    pub ty: Ty,
}

/// Statements.
#[derive(Debug, PartialEq)]
pub enum Statement<Ty> {
    Decl { name: Name, ty: Type, init: Box<ExprD<Ty>> },
    Assign { target: Box<ExprD<Ty>>, value: Box<ExprD<Ty>> },
    Block { seq: Vec<StatementD<Ty>> },
    Call { name: Name, args: Vec<ExprD<Ty>> },
    If {
        cond: Box<ExprD<Ty>>,
        then_branch: Box<StatementD<Ty>>,
        else_branch: Option<Box<StatementD<Ty>>>,
    },
    While { cond: Box<ExprD<Ty>>, body: Box<StatementD<Ty>> },
    For {
        init: Option<Box<StatementD<Ty>>>,
        cond: Option<Box<ExprD<Ty>>>,
        update: Option<Box<StatementD<Ty>>>,
        body: Box<StatementD<Ty>>,
    },
    Return(Option<Box<ExprD<Ty>>>),
}

/// A statement with its decoration.
#[derive(Debug, PartialEq)]
pub struct StatementD<Ty> {
    pub stmt: Statement<Ty>,
    pub ty: Ty,
}

/// A function declaration.
#[derive(Debug, PartialEq)]
pub struct FunDecl<Ty> {
    pub name: Name,
    pub params: Vec<(Name, Type)>,
    pub return_type: Type,
    pub body: Box<StatementD<Ty>>,
}

/// A program: a list of functions; execution starts at `main`.
#[derive(Debug, PartialEq)]
pub struct Program<Ty> {
    pub functions: Vec<FunDecl<Ty>>,
}

/// A copy of a type, equal to it.
pub fn copy_type(t: &Type) -> (r: Type)
    ensures
        r == *t,
    decreases t,
{
    match t {
        Type::Int => Type::Int,
        Type::Float => Type::Float,
        Type::Bool => Type::Bool,
        Type::Str => Type::Str,
        Type::Unit => Type::Unit,
        Type::Array(elem) => Type::Array(Box::new(copy_type(elem))),
    }
}

/// A copy of a literal, equal to it.
pub fn copy_literal(l: &Literal) -> (r: Literal)
    ensures
        r == *l,
{
    match l {
        Literal::Int(n) => Literal::Int(*n),
        Literal::Float(b) => Literal::Float(*b),
        Literal::Str(s) => Literal::Str(s.clone()),
        Literal::Bool(b) => Literal::Bool(*b),
    }
}

/// A copy of a parameter list, with the same view.
pub fn copy_params(p: &Vec<(Name, Type)>) -> (r: Vec<(Name, Type)>)
    ensures
        params_view(r@) == params_view(p@),
{
    let mut r: Vec<(Name, Type)> = Vec::new();
    let mut i: usize = 0;
    while i < p.len()
        invariant
            i <= p.len(),
            r@.len() == i,
            forall|j: int| 0 <= j < i ==> (#[trigger] r@[j]).0@ == p@[j].0@ && r@[j].1 == p@[j].1,
        decreases p.len() - i,
    {
        r.push((p[i].0.clone(), copy_type(&p[i].1)));
        i = i + 1;
    }
    assert(params_view(r@) =~= params_view(p@));
    r
}

impl Clone for Type {
    fn clone(&self) -> (r: Self)
        ensures
            r == *self,
    {
        copy_type(self)
    }
}

pub type UncheckedExpr = ExprD<()>;
pub type CheckedExpr = ExprD<Type>;
pub type UncheckedStmt = StatementD<()>;
pub type CheckedStmt = StatementD<Type>;
pub type UncheckedFunDecl = FunDecl<()>;
pub type CheckedFunDecl = FunDecl<Type>;
pub type UncheckedProgram = Program<()>;
pub type CheckedProgram = Program<Type>;

// ---------------------------------------------------------------------------
// Mathematical views
// ---------------------------------------------------------------------------

pub enum SpecLiteral {
    Int(i64),
    Float(u64),
    Str(Seq<char>),
    Bool(bool),
}

pub enum SpecExpr<Ty> {
    Literal(SpecLiteral),
    Ident(Seq<char>),
    Neg(Box<SpecExprD<Ty>>),
    Add(Box<SpecExprD<Ty>>, Box<SpecExprD<Ty>>),
    Sub(Box<SpecExprD<Ty>>, Box<SpecExprD<Ty>>),
    Mul(Box<SpecExprD<Ty>>, Box<SpecExprD<Ty>>),
    Div(Box<SpecExprD<Ty>>, Box<SpecExprD<Ty>>),
    Eq(Box<SpecExprD<Ty>>, Box<SpecExprD<Ty>>),
    Ne(Box<SpecExprD<Ty>>, Box<SpecExprD<Ty>>),
    Lt(Box<SpecExprD<Ty>>, Box<SpecExprD<Ty>>),
    Le(Box<SpecExprD<Ty>>, Box<SpecExprD<Ty>>),
    Gt(Box<SpecExprD<Ty>>, Box<SpecExprD<Ty>>),
    Ge(Box<SpecExprD<Ty>>, Box<SpecExprD<Ty>>),
    Not(Box<SpecExprD<Ty>>),
    And(Box<SpecExprD<Ty>>, Box<SpecExprD<Ty>>),
    Or(Box<SpecExprD<Ty>>, Box<SpecExprD<Ty>>),
    Call { name: Seq<char>, args: Seq<SpecExprD<Ty>> },
    ArrayLit(Seq<SpecExprD<Ty>>),
    Index { base: Box<SpecExprD<Ty>>, index: Box<SpecExprD<Ty>> },
}

#[verifier::ext_equal]
pub struct SpecExprD<Ty> {
    pub exp: SpecExpr<Ty>,
    pub ty: Ty,
}

pub enum SpecStatement<Ty> {
    Decl { name: Seq<char>, ty: Type, init: Box<SpecExprD<Ty>> },
    Assign { target: Box<SpecExprD<Ty>>, value: Box<SpecExprD<Ty>> },
    Block { seq: Seq<SpecStatementD<Ty>> },
    Call { name: Seq<char>, args: Seq<SpecExprD<Ty>> },
    If {
        cond: Box<SpecExprD<Ty>>,
        then_branch: Box<SpecStatementD<Ty>>,
        else_branch: Option<Box<SpecStatementD<Ty>>>,
    },
    While { cond: Box<SpecExprD<Ty>>, body: Box<SpecStatementD<Ty>> },
    For {
        init: Option<Box<SpecStatementD<Ty>>>,
        cond: Option<Box<SpecExprD<Ty>>>,
        update: Option<Box<SpecStatementD<Ty>>>,
        body: Box<SpecStatementD<Ty>>,
    },
    Return(Option<Box<SpecExprD<Ty>>>),
}

#[verifier::ext_equal]
pub struct SpecStatementD<Ty> {
    pub stmt: SpecStatement<Ty>,
    pub ty: Ty,
}

#[verifier::ext_equal]
pub struct SpecFunDecl<Ty> {
    pub name: Seq<char>,
    pub params: Seq<(Seq<char>, Type)>,
    pub return_type: Type,
    pub body: SpecStatementD<Ty>,
}

#[verifier::ext_equal]
pub struct SpecProgram<Ty> {
    pub functions: Seq<SpecFunDecl<Ty>>,
}

pub open spec fn literal_view(l: Literal) -> SpecLiteral {
    match l {
        Literal::Int(n) => SpecLiteral::Int(n),
        Literal::Float(b) => SpecLiteral::Float(b),
        Literal::Str(s) => SpecLiteral::Str(s@),
        Literal::Bool(b) => SpecLiteral::Bool(b),
    }
}

pub open spec fn exp_view<Ty>(e: Expr<Ty>) -> SpecExpr<Ty>
    decreases e,
{
    match e {
        Expr::Literal(l) => SpecExpr::Literal(literal_view(l)),
        Expr::Ident(n) => SpecExpr::Ident(n@),
        Expr::Neg(a) => SpecExpr::Neg(Box::new(expr_view(*a))),
        Expr::Add(a, b) => SpecExpr::Add(Box::new(expr_view(*a)), Box::new(expr_view(*b))),
        Expr::Sub(a, b) => SpecExpr::Sub(Box::new(expr_view(*a)), Box::new(expr_view(*b))),
        Expr::Mul(a, b) => SpecExpr::Mul(Box::new(expr_view(*a)), Box::new(expr_view(*b))),
        Expr::Div(a, b) => SpecExpr::Div(Box::new(expr_view(*a)), Box::new(expr_view(*b))),
        Expr::Eq(a, b) => SpecExpr::Eq(Box::new(expr_view(*a)), Box::new(expr_view(*b))),
        Expr::Ne(a, b) => SpecExpr::Ne(Box::new(expr_view(*a)), Box::new(expr_view(*b))),
        Expr::Lt(a, b) => SpecExpr::Lt(Box::new(expr_view(*a)), Box::new(expr_view(*b))),
        Expr::Le(a, b) => SpecExpr::Le(Box::new(expr_view(*a)), Box::new(expr_view(*b))),
        Expr::Gt(a, b) => SpecExpr::Gt(Box::new(expr_view(*a)), Box::new(expr_view(*b))),
        Expr::Ge(a, b) => SpecExpr::Ge(Box::new(expr_view(*a)), Box::new(expr_view(*b))),
        Expr::Not(a) => SpecExpr::Not(Box::new(expr_view(*a))),
        Expr::And(a, b) => SpecExpr::And(Box::new(expr_view(*a)), Box::new(expr_view(*b))),
        Expr::Or(a, b) => SpecExpr::Or(Box::new(expr_view(*a)), Box::new(expr_view(*b))),
        Expr::Call { name, args } => SpecExpr::Call { name: name@, args: exprs_view(args@) },
        Expr::ArrayLit(elems) => SpecExpr::ArrayLit(exprs_view(elems@)),
        Expr::Index { base, index } => SpecExpr::Index {
            base: Box::new(expr_view(*base)),
            index: Box::new(expr_view(*index)),
        },
    }
}

pub open spec fn expr_view<Ty>(e: ExprD<Ty>) -> SpecExprD<Ty>
    decreases e,
{
    SpecExprD { exp: exp_view(e.exp), ty: e.ty }
}

pub open spec fn exprs_view<Ty>(s: Seq<ExprD<Ty>>) -> Seq<SpecExprD<Ty>>
    decreases s,
{
    if s.len() == 0 {
        Seq::empty()
    } else {
        exprs_view(s.drop_last()).push(expr_view(s.last()))
    }
}

pub open spec fn opt_expr_view<Ty>(e: Option<Box<ExprD<Ty>>>) -> Option<Box<SpecExprD<Ty>>> {
    match e {
        Some(x) => Some(Box::new(expr_view(*x))),
        None => None,
    }
}

pub open spec fn opt_stmt_view<Ty>(s: Option<Box<StatementD<Ty>>>) -> Option<Box<SpecStatementD<Ty>>> {
    match s {
        Some(x) => Some(Box::new(stmt_view(*x))),
        None => None,
    }
}

pub open spec fn stmt_view<Ty>(s: StatementD<Ty>) -> SpecStatementD<Ty>
    decreases s,
{
    let stmt = match s.stmt {
        Statement::Decl { name, ty, init } => SpecStatement::Decl {
            name: name@,
            ty,
            init: Box::new(expr_view(*init)),
        },
        Statement::Assign { target, value } => SpecStatement::Assign {
            target: Box::new(expr_view(*target)),
            value: Box::new(expr_view(*value)),
        },
        Statement::Block { seq } => SpecStatement::Block { seq: stmts_view(seq@) },
        Statement::Call { name, args } => SpecStatement::Call { name: name@, args: exprs_view(args@) },
        Statement::If { cond, then_branch, else_branch } => SpecStatement::If {
            cond: Box::new(expr_view(*cond)),
            then_branch: Box::new(stmt_view(*then_branch)),
            else_branch: match else_branch {
                Some(e) => Some(Box::new(stmt_view(*e))),
                None => None,
            },
        },
        Statement::While { cond, body } => SpecStatement::While {
            cond: Box::new(expr_view(*cond)),
            body: Box::new(stmt_view(*body)),
        },
        Statement::For { init, cond, update, body } => SpecStatement::For {
            init: match init {
                Some(i) => Some(Box::new(stmt_view(*i))),
                None => None,
            },
            cond: opt_expr_view(cond),
            update: match update {
                Some(u) => Some(Box::new(stmt_view(*u))),
                None => None,
            },
            body: Box::new(stmt_view(*body)),
        },
        Statement::Return(e) => SpecStatement::Return(opt_expr_view(e)),
    };
    SpecStatementD { stmt, ty: s.ty }
}

pub open spec fn stmts_view<Ty>(s: Seq<StatementD<Ty>>) -> Seq<SpecStatementD<Ty>>
    decreases s,
{
    if s.len() == 0 {
        Seq::empty()
    } else {
        stmts_view(s.drop_last()).push(stmt_view(s.last()))
    }
}

pub open spec fn params_view(p: Seq<(Name, Type)>) -> Seq<(Seq<char>, Type)> {
    p.map_values(|x: (Name, Type)| (x.0@, x.1))
}

pub open spec fn fun_view<Ty>(f: FunDecl<Ty>) -> SpecFunDecl<Ty> {
    SpecFunDecl {
        name: f.name@,
        params: params_view(f.params@),
        return_type: f.return_type,
        body: stmt_view(*f.body),
    }
}

pub open spec fn funs_view<Ty>(s: Seq<FunDecl<Ty>>) -> Seq<SpecFunDecl<Ty>> {
    s.map_values(|f: FunDecl<Ty>| fun_view(f))
}

impl View for Literal {
    type V = SpecLiteral;

    open spec fn view(&self) -> SpecLiteral {
        literal_view(*self)
    }
}

impl<Ty> View for Expr<Ty> {
    type V = SpecExpr<Ty>;

    open spec fn view(&self) -> SpecExpr<Ty> {
        exp_view(*self)
    }
}

impl<Ty> View for ExprD<Ty> {
    type V = SpecExprD<Ty>;

    open spec fn view(&self) -> SpecExprD<Ty> {
        expr_view(*self)
    }
}

impl<Ty> View for StatementD<Ty> {
    type V = SpecStatementD<Ty>;

    open spec fn view(&self) -> SpecStatementD<Ty> {
        stmt_view(*self)
    }
}

impl<Ty> View for FunDecl<Ty> {
    type V = SpecFunDecl<Ty>;

    open spec fn view(&self) -> SpecFunDecl<Ty> {
        fun_view(*self)
    }
}

impl<Ty> View for Program<Ty> {
    type V = SpecProgram<Ty>;

    open spec fn view(&self) -> SpecProgram<Ty> {
        SpecProgram { functions: funs_view(self.functions@) }
    }
}

/// The index of the first function named `main`, if any.
pub open spec fn first_main<Ty>(fs: Seq<SpecFunDecl<Ty>>) -> Option<int>
    decreases fs.len(),
{
    if fs.len() == 0 {
        None
    } else {
        match first_main(fs.drop_last()) {
            Some(i) => Some(i),
            None => if fs.last().name == "main"@ {
                Some(fs.len() - 1)
            } else {
                None
            },
        }
    }
}

pub proof fn lemma_first_main<Ty>(fs: Seq<SpecFunDecl<Ty>>)
    ensures
        match first_main(fs) {
            Some(i) => 0 <= i < fs.len() && fs[i].name == "main"@
                && forall|j: int| 0 <= j < i ==> #[trigger] fs[j].name != "main"@,
            None => forall|j: int| 0 <= j < fs.len() ==> #[trigger] fs[j].name != "main"@,
        },
    decreases fs.len(),
{
    if fs.len() > 0 {
        lemma_first_main(fs.drop_last());
        assert forall|j: int| 0 <= j < fs.len() - 1 implies #[trigger] fs[j] == fs.drop_last()[j] by {}
    }
}

impl<Ty> Program<Ty> {
    /// The first function named `main`, if any.
    pub fn main_function(&self) -> (r: Option<&FunDecl<Ty>>)
        ensures
            match first_main(self@.functions) {
                Some(i) => r matches Some(f) && f@ == self@.functions[i],
                None => r is None,
            },
    {
        let ghost fs = self@.functions;
        proof {
            lemma_first_main(fs);
        }
        let main_name = String::from_str("main");
        let mut i: usize = 0;
        while i < self.functions.len()
            invariant
                i <= self.functions.len(),
                fs == funs_view(self.functions@),
                main_name@ == "main"@,
                forall|j: int| 0 <= j < i ==> #[trigger] fs[j].name != "main"@,
            decreases self.functions.len() - i,
        {
            proof {
                lemma_first_main(fs);
                assert(fs[i as int] == fun_view(self.functions@[i as int]));
            }
            if self.functions[i].name == main_name {
                proof {
                    assert(fs[i as int].name == "main"@);
                    match first_main(fs) {
                        Some(k) => {
                            if k < i {
                                assert(fs[k].name != "main"@);
                            }
                            if k > i {
                                assert(fs[i as int].name != "main"@);
                            }
                        },
                        None => {
                            assert(fs[i as int].name != "main"@);
                        },
                    }
                }
                return Some(&self.functions[i]);
            }
            i = i + 1;
        }
        None
    }
}

/// The view of a sequence of expressions has the same length and holds the
/// views of the elements.
pub proof fn lemma_exprs_view<Ty>(s: Seq<ExprD<Ty>>)
    ensures
        exprs_view(s).len() == s.len(),
        forall|i: int| 0 <= i < s.len() ==> #[trigger] exprs_view(s)[i] == expr_view(s[i]),
    decreases s.len(),
{
    if s.len() > 0 {
        lemma_exprs_view(s.drop_last());
    }
}

pub proof fn lemma_exprs_view_push<Ty>(s: Seq<ExprD<Ty>>, x: ExprD<Ty>)
    ensures
        exprs_view(s.push(x)) == exprs_view(s).push(expr_view(x)),
{
    assert(s.push(x).drop_last() =~= s);
}

pub proof fn lemma_stmts_view<Ty>(s: Seq<StatementD<Ty>>)
    ensures
        stmts_view(s).len() == s.len(),
        forall|i: int| 0 <= i < s.len() ==> #[trigger] stmts_view(s)[i] == stmt_view(s[i]),
    decreases s.len(),
{
    if s.len() > 0 {
        lemma_stmts_view(s.drop_last());
    }
}

pub proof fn lemma_stmts_view_push<Ty>(s: Seq<StatementD<Ty>>, x: StatementD<Ty>)
    ensures
        stmts_view(s.push(x)) == stmts_view(s).push(stmt_view(x)),
{
    assert(s.push(x).drop_last() =~= s);
}

} // verus!
