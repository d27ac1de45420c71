use vstd::prelude::*;

verus! {

/// A source file's top-level unit.
#[derive(Debug)]
pub struct Region {
    pub name: String,
    pub body: Vec<RegionItem>,
}

/// An item of a region: a function, or a statement outside any function.
#[derive(Debug)]
pub enum RegionItem {
    Function(Function),
    Statement(Statement),
}

/// A callable unit of a region.
#[derive(Debug)]
pub struct Function {
    pub name: String,
    pub params: Vec<Variable>,
    pub body: Vec<Statement>,
}

/// A function parameter.
#[derive(Debug, Clone)]
pub struct Variable {
    pub name: String,
    pub var_type: Type,
}

/// The types a variable may be declared with.
#[derive(Debug, Clone, Copy, PartialEq, Eq, Structural)]
pub enum Type {
    Int32,
    StringType,
    Bool,
}

/// A statement.
#[derive(Debug)]
pub enum Statement {
    Noop,
    Let(String, Box<Expr>),
    Return(Box<Expr>),
    Expression(Box<Expr>),
    Call(String, Vec<Expr>),
    If(Box<Expr>, Vec<Statement>),
    IfElse(Box<Expr>, Vec<Statement>, Vec<Statement>),
    ForLoop(Box<Statement>, Box<Expr>, Box<Statement>, Vec<Statement>),
    Assignment(String, Box<Expr>),
}

/// An expression.
#[derive(Debug)]
pub enum Expr {
    Uninitialized,
    Number(i32),
    StringLiteral(String),
    Variable(String),
    Call(String, Vec<Expr>),
    Array(Vec<Expr>),
    Binary(Box<Expr>, BinaryOp, Box<Expr>),
    MethodCall(Box<Expr>, String, Vec<Expr>),
}

/// The binary operators.
#[derive(Debug, Clone, Copy, PartialEq, Eq, Structural, Hash)]
pub enum BinaryOp {
    Add,
    Sub,
    Mult,
    Div,
    LessThan,
    GreaterThan,
    LessThanOrEqual,
    GreaterThanOrEqual,
}

/// The mathematical model of an expression: names as character sequences.
pub enum ExprV {
    Uninitialized,
    Number(i32),
    StringLiteral(Seq<char>),
    Variable(Seq<char>),
    Call(Seq<char>, Seq<ExprV>),
    Array(Seq<ExprV>),
    Binary(Box<ExprV>, BinaryOp, Box<ExprV>),
    MethodCall(Box<ExprV>, Seq<char>, Seq<ExprV>),
}

/// The mathematical model of a statement.
pub enum StmtV {
    Noop,
    Let(Seq<char>, ExprV),
    Return(ExprV),
    Expression(ExprV),
    Call(Seq<char>, Seq<ExprV>),
    If(ExprV, Seq<StmtV>),
    IfElse(ExprV, Seq<StmtV>, Seq<StmtV>),
    ForLoop(Box<StmtV>, ExprV, Box<StmtV>, Seq<StmtV>),
    Assignment(Seq<char>, ExprV),
}

/// The mathematical model of a function.
pub struct FunctionV {
    pub name: Seq<char>,
    pub params: Seq<Seq<char>>,
    pub body: Seq<StmtV>,
}

/// The mathematical model of a region item.
pub enum ItemV {
    Function(FunctionV),
    Statement(StmtV),
}

/// The mathematical model of a region.
pub struct RegionV {
    pub name: Seq<char>,
    pub body: Seq<ItemV>,
}

pub open spec fn expr_view(e: Expr) -> ExprV
    decreases e,
{
    match e {
        Expr::Uninitialized => ExprV::Uninitialized,
        Expr::Number(n) => ExprV::Number(n),
        Expr::StringLiteral(s) => ExprV::StringLiteral(s@),
        Expr::Variable(s) => ExprV::Variable(s@),
        Expr::Call(n, args) => ExprV::Call(n@, exprs_view(args@)),
        Expr::Array(items) => ExprV::Array(exprs_view(items@)),
        Expr::Binary(l, op, r) => ExprV::Binary(Box::new(expr_view(*l)), op, Box::new(expr_view(*r))),
        Expr::MethodCall(o, m, args) => ExprV::MethodCall(Box::new(expr_view(*o)), m@, exprs_view(args@)),
    }
}

pub open spec fn exprs_view(s: Seq<Expr>) -> Seq<ExprV>
    decreases s,
{
    if s.len() == 0 {
        Seq::empty()
    } else {
        exprs_view(s.subrange(0, s.len() - 1)).push(expr_view(s[s.len() - 1]))
    }
}

pub open spec fn stmt_view(s: Statement) -> StmtV
    decreases s,
{
    match s {
        Statement::Noop => StmtV::Noop,
        Statement::Let(n, e) => StmtV::Let(n@, expr_view(*e)),
        Statement::Return(e) => StmtV::Return(expr_view(*e)),
        Statement::Expression(e) => StmtV::Expression(expr_view(*e)),
        Statement::Call(n, args) => StmtV::Call(n@, exprs_view(args@)),
        Statement::If(c, b) => StmtV::If(expr_view(*c), stmts_view(b@)),
        Statement::IfElse(c, a, b) => StmtV::IfElse(expr_view(*c), stmts_view(a@), stmts_view(b@)),
        Statement::ForLoop(i, c, u, b) => StmtV::ForLoop(
            Box::new(stmt_view(*i)),
            expr_view(*c),
            Box::new(stmt_view(*u)),
            stmts_view(b@),
        ),
        Statement::Assignment(n, e) => StmtV::Assignment(n@, expr_view(*e)),
    }
}

pub open spec fn stmts_view(s: Seq<Statement>) -> Seq<StmtV>
    decreases s,
{
    if s.len() == 0 {
        Seq::empty()
    } else {
        stmts_view(s.subrange(0, s.len() - 1)).push(stmt_view(s[s.len() - 1]))
    }
}

impl View for Expr {
    type V = ExprV;

    open spec fn view(&self) -> ExprV {
        expr_view(*self)
    }
}

impl View for Statement {
    type V = StmtV;

    open spec fn view(&self) -> StmtV {
        stmt_view(*self)
    }
}

/// The parameter names of a function.
pub open spec fn param_names(s: Seq<Variable>) -> Seq<Seq<char>> {
    s.map_values(|v: Variable| v.name@)
}

impl View for Function {
    type V = FunctionV;

    open spec fn view(&self) -> FunctionV {
        FunctionV { name: self.name@, params: param_names(self.params@), body: stmts_view(self.body@) }
    }
}

impl View for RegionItem {
    type V = ItemV;

    open spec fn view(&self) -> ItemV {
        match self {
            RegionItem::Function(f) => ItemV::Function(f@),
            RegionItem::Statement(s) => ItemV::Statement(s@),
        }
    }
}

pub open spec fn items_view(s: Seq<RegionItem>) -> Seq<ItemV> {
    s.map_values(|i: RegionItem| i@)
}

impl View for Region {
    type V = RegionV;

    open spec fn view(&self) -> RegionV {
        RegionV { name: self.name@, body: items_view(self.body@) }
    }
}

pub broadcast proof fn lemma_exprs_view(s: Seq<Expr>)
    ensures
        #[trigger] exprs_view(s).len() == s.len(),
        forall|i: int| 0 <= i < s.len() ==> #[trigger] exprs_view(s)[i] == expr_view(s[i]),
    decreases s.len(),
{
    if s.len() > 0 {
        lemma_exprs_view(s.subrange(0, s.len() - 1));
    }
}

pub broadcast proof fn lemma_stmts_view(s: Seq<Statement>)
    ensures
        #[trigger] stmts_view(s).len() == s.len(),
        forall|i: int| 0 <= i < s.len() ==> #[trigger] stmts_view(s)[i] == stmt_view(s[i]),
    decreases s.len(),
{
    if s.len() > 0 {
        lemma_stmts_view(s.subrange(0, s.len() - 1));
    }
}

/// A sequence's model is fixed by its elements' models.
pub proof fn lemma_exprs_view_ext(a: Seq<Expr>, b: Seq<Expr>)
    requires
        a.len() == b.len(),
        forall|i: int| 0 <= i < a.len() ==> expr_view(a[i]) == expr_view(b[i]),
    ensures
        exprs_view(a) == exprs_view(b),
{
    lemma_exprs_view(a);
    lemma_exprs_view(b);
    assert(exprs_view(a) =~= exprs_view(b));
}

pub proof fn lemma_stmts_view_ext(a: Seq<Statement>, b: Seq<Statement>)
    requires
        a.len() == b.len(),
        forall|i: int| 0 <= i < a.len() ==> stmt_view(a[i]) == stmt_view(b[i]),
    ensures
        stmts_view(a) == stmts_view(b),
{
    lemma_stmts_view(a);
    lemma_stmts_view(b);
    assert(stmts_view(a) =~= stmts_view(b));
}

pub proof fn lemma_exprs_view_push(s: Seq<Expr>, x: Expr)
    ensures
        exprs_view(s.push(x)) == exprs_view(s).push(expr_view(x)),
{
    assert(s.push(x).subrange(0, s.len() as int) =~= s);
}

pub proof fn lemma_stmts_view_push(s: Seq<Statement>, x: Statement)
    ensures
        stmts_view(s.push(x)) == stmts_view(s).push(stmt_view(x)),
{
    assert(s.push(x).subrange(0, s.len() as int) =~= s);
}

fn copy_exprs(v: &Vec<Expr>) -> (r: Vec<Expr>)
    ensures
        exprs_view(r@) == exprs_view(v@),
    decreases v@,
{
    let mut r: Vec<Expr> = Vec::new();
    let mut i: usize = 0;
    while i < v.len()
        invariant
            i <= v@.len(),
            r@.len() == i,
            forall|j: int| 0 <= j < i ==> expr_view(#[trigger] r@[j]) == expr_view(v@[j]),
        decreases v@.len() - i,
    {
        assert(decreases_to!(v@ => v@[i as int]));
        r.push(v[i].clone());
        i = i + 1;
    }
    proof { lemma_exprs_view_ext(r@, v@); }
    r
}

pub(crate) fn copy_stmts(v: &Vec<Statement>) -> (r: Vec<Statement>)
    ensures
        stmts_view(r@) == stmts_view(v@),
    decreases v@,
{
    let mut r: Vec<Statement> = Vec::new();
    let mut i: usize = 0;
    while i < v.len()
        invariant
            i <= v@.len(),
            r@.len() == i,
            forall|j: int| 0 <= j < i ==> stmt_view(#[trigger] r@[j]) == stmt_view(v@[j]),
        decreases v@.len() - i,
    {
        assert(decreases_to!(v@ => v@[i as int]));
        r.push(v[i].clone());
        i = i + 1;
    }
    proof { lemma_stmts_view_ext(r@, v@); }
    r
}

impl Clone for Expr {
    fn clone(&self) -> (r: Expr)
        ensures
            r@ == self@,
        decreases self,
    {
        match self {
            Expr::Uninitialized => Expr::Uninitialized,
            Expr::Number(n) => Expr::Number(*n),
            Expr::StringLiteral(s) => Expr::StringLiteral(s.clone()),
            Expr::Variable(s) => Expr::Variable(s.clone()),
            Expr::Call(n, args) => Expr::Call(n.clone(), copy_exprs(args)),
            Expr::Array(items) => Expr::Array(copy_exprs(items)),
            Expr::Binary(l, op, r) => Expr::Binary(Box::new((**l).clone()), *op, Box::new((**r).clone())),
            Expr::MethodCall(o, m, args) => Expr::MethodCall(Box::new((**o).clone()), m.clone(), copy_exprs(args)),
        }
    }
}

impl Clone for Statement {
    fn clone(&self) -> (r: Statement)
        ensures
            r@ == self@,
        decreases self,
    {
        match self {
            Statement::Noop => Statement::Noop,
            Statement::Let(n, e) => Statement::Let(n.clone(), Box::new((**e).clone())),
            Statement::Return(e) => Statement::Return(Box::new((**e).clone())),
            Statement::Expression(e) => Statement::Expression(Box::new((**e).clone())),
            Statement::Call(n, args) => Statement::Call(n.clone(), copy_exprs(args)),
            Statement::If(c, b) => Statement::If(Box::new((**c).clone()), copy_stmts(b)),
            Statement::IfElse(c, a, b) => Statement::IfElse(Box::new((**c).clone()), copy_stmts(a), copy_stmts(b)),
            Statement::ForLoop(i, c, u, b) => Statement::ForLoop(
                Box::new((**i).clone()),
                Box::new((**c).clone()),
                Box::new((**u).clone()),
                copy_stmts(b),
            ),
            Statement::Assignment(n, e) => Statement::Assignment(n.clone(), Box::new((**e).clone())),
        }
    }
}

impl Variable {
    /// A copy of the parameter.
    pub fn copy(&self) -> (r: Variable)
        ensures
            r.name@ == self.name@,
            r.var_type == self.var_type,
    {
        Variable { name: self.name.clone(), var_type: self.var_type }
    }
}

pub(crate) fn copy_params(v: &Vec<Variable>) -> (r: Vec<Variable>)
    ensures
        param_names(r@) == param_names(v@),
{
    let mut r: Vec<Variable> = Vec::new();
    let mut i: usize = 0;
    while i < v.len()
        invariant
            i <= v@.len(),
            r@.len() == i,
            forall|j: int| 0 <= j < i ==> (#[trigger] r@[j]).name@ == v@[j].name@,
        decreases v@.len() - i,
    {
        r.push(v[i].copy());
        i = i + 1;
    }
    assert(param_names(r@) =~= param_names(v@));
    r
}

impl Function {
    /// A copy of the function.
    pub fn copy(&self) -> (r: Function)
        ensures
            r@ == self@,
    {
        Function { name: self.name.clone(), params: copy_params(&self.params), body: copy_stmts(&self.body) }
    }
}

impl RegionItem {
    /// A copy of the item.
    pub fn copy(&self) -> (r: RegionItem)
        ensures
            r@ == self@,
    {
        match self {
            RegionItem::Function(f) => RegionItem::Function(f.copy()),
            RegionItem::Statement(s) => RegionItem::Statement(s.clone()),
        }
    }
}

} // verus!
