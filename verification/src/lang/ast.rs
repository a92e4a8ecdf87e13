//! The abstract syntax of a Conclave module.
//!
//! After normalization `imports`, `types`, `capabilities` and `intrinsics` are
//! sorted by name/alias and all signatures are free of whitespace.
use vstd::prelude::*;

verus! {

/// A complete parsed module (one `.conclave` file).
#[derive(Debug, PartialEq, Eq)]
pub struct Module {
    pub version: String,
    pub imports: Vec<ImportDecl>,
    pub types: Vec<TypeDecl>,
    pub capabilities: Vec<CapDecl>,
    pub intrinsics: Vec<IntrinsicDecl>,
    pub goals: Vec<GoalDecl>,
}

/// `import NAME: "sha256:<hex>";` — a goal of another module, by its Plan IR hash.
#[derive(Debug, Clone, PartialEq, Eq)]
pub struct ImportDecl {
    pub name: String,
    pub hash: String,
}

#[derive(Debug, Clone, PartialEq, Eq)]
pub struct TypeDecl {
    pub name: String,
    pub base: String,
    pub constraint: Option<TypeConstraint>,
}

#[derive(Debug, Clone, PartialEq, Eq)]
pub struct TypeConstraint {
    /// e.g. `re2`
    pub validator: String,
    pub pattern: String,
}

/// A declared capability (external side-effectful call).
#[derive(Debug, Clone, PartialEq, Eq)]
pub struct CapDecl {
    pub alias: String,
    /// Normalized: `fetch(Url)->Html`, no whitespace.
    pub signature: String,
}

/// A declared intrinsic (pure built-in function).
#[derive(Debug, Clone, PartialEq, Eq)]
pub struct IntrinsicDecl {
    pub alias: String,
    /// Normalized: `assemble_json(List<String>)->Json`, no whitespace.
    pub signature: String,
}

#[derive(Debug, Clone, PartialEq, Eq)]
pub struct Param {
    pub name: String,
    pub ty_name: String,
}

#[derive(Debug, PartialEq, Eq)]
pub struct GoalDecl {
    pub name: String,
    pub params: Vec<Param>,
    pub returns: String,
    pub want: WantBlock,
    pub constraints: Vec<ConstraintExpr>,
}

#[derive(Debug, PartialEq, Eq)]
pub struct WantBlock {
    pub stmts: Vec<Stmt>,
}

#[derive(Debug, PartialEq, Eq)]
pub enum Stmt {
    /// `let name = call;`
    Let { name: String, expr: Expr },
    /// `map list as binder { body }`
    MapOver { list: String, binder: String, body: Vec<Stmt> },
    /// `if condition { true_body } else { false_body }`
    If { condition: Expr, true_body: Vec<Stmt>, false_body: Vec<Stmt> },
    /// `reduce list as binder into accum { body }`
    Reduce { list: String, binder: String, accum: String, body: Vec<Stmt> },
    /// `name = expr;`
    Assign { name: String, expr: Expr },
    /// `emit expr;`
    Emit { expr: Expr },
    /// `return expr;`
    Return { expr: Expr },
}

#[derive(Debug, PartialEq, Eq)]
pub enum Expr {
    Ident { name: String },
    StringLit { value: String },
    Call { name: String, args: Vec<Expr> },
    /// `pure { call }`
    Pure { body: Box<Expr> },
}

#[derive(Debug, Clone, PartialEq, Eq)]
pub struct ConstraintExpr {
    pub op: CmpOp,
    pub left: ConstraintLeft,
    pub right: ConstraintValue,
}

/// Left-hand side of a constraint expression.
#[derive(Debug, Clone, PartialEq, Eq)]
pub enum ConstraintLeft {
    /// A dotted path like `determinism.mode`.
    Path { segments: Vec<String> },
    /// A function call like `rate_limit(fetch)`.
    FnCall { name: String, args: Vec<String> },
}

#[derive(Debug, Clone, PartialEq, Eq)]
pub enum ConstraintValue {
    Number { value: u64 },
    /// e.g. `2 req/s`
    Rate { value: u64, unit: String },
    StringLit { value: String },
}

#[derive(Debug, Clone, Copy, PartialEq, Eq)]
pub enum CmpOp {
    Eq,
    LtEq,
}

// ---------------------------------------------------------------------------
// Models
// ---------------------------------------------------------------------------

pub struct ModuleV {
    pub version: Seq<char>,
    pub imports: Seq<ImportDeclV>,
    pub types: Seq<TypeDeclV>,
    pub capabilities: Seq<CapDeclV>,
    pub intrinsics: Seq<IntrinsicDeclV>,
    pub goals: Seq<GoalDeclV>,
}

pub struct ImportDeclV {
    pub name: Seq<char>,
    pub hash: Seq<char>,
}

pub struct TypeDeclV {
    pub name: Seq<char>,
    pub base: Seq<char>,
    pub constraint: Option<(Seq<char>, Seq<char>)>,
}

pub struct CapDeclV {
    pub alias: Seq<char>,
    pub signature: Seq<char>,
}

pub struct IntrinsicDeclV {
    pub alias: Seq<char>,
    pub signature: Seq<char>,
}

pub struct ParamV {
    pub name: Seq<char>,
    pub ty_name: Seq<char>,
}

pub struct GoalDeclV {
    pub name: Seq<char>,
    pub params: Seq<ParamV>,
    pub returns: Seq<char>,
    pub stmts: Seq<StmtV>,
    pub constraints: Seq<ConstraintExprV>,
}

pub enum StmtV {
    Let { name: Seq<char>, expr: ExprV },
    MapOver { list: Seq<char>, binder: Seq<char>, body: Seq<StmtV> },
    If { condition: ExprV, true_body: Seq<StmtV>, false_body: Seq<StmtV> },
    Reduce { list: Seq<char>, binder: Seq<char>, accum: Seq<char>, body: Seq<StmtV> },
    Assign { name: Seq<char>, expr: ExprV },
    Emit { expr: ExprV },
    Return { expr: ExprV },
}

pub enum ExprV {
    Ident { name: Seq<char> },
    StringLit { value: Seq<char> },
    Call { name: Seq<char>, args: Seq<ExprV> },
    Pure { body: Box<ExprV> },
}

pub struct ConstraintExprV {
    pub op: CmpOp,
    pub left: ConstraintLeftV,
    pub right: ConstraintValueV,
}

pub enum ConstraintLeftV {
    Path { segments: Seq<Seq<char>> },
    FnCall { name: Seq<char>, args: Seq<Seq<char>> },
}

pub enum ConstraintValueV {
    Number { value: nat },
    Rate { value: nat, unit: Seq<char> },
    StringLit { value: Seq<char> },
}

pub open spec fn strings_view(s: Seq<String>) -> Seq<Seq<char>> {
    s.map_values(|x: String| x@)
}

pub open spec fn expr_view(e: Expr) -> ExprV
    decreases e,
{
    match e {
        Expr::Ident { name } => ExprV::Ident { name: name@ },
        Expr::StringLit { value } => ExprV::StringLit { value: value@ },
        Expr::Call { name, args } => ExprV::Call { name: name@, args: exprs_view(args@) },
        Expr::Pure { body } => ExprV::Pure { body: Box::new(expr_view(*body)) },
    }
}

pub open spec fn exprs_view(s: Seq<Expr>) -> Seq<ExprV>
    decreases s,
{
    if s.len() == 0 {
        Seq::empty()
    } else {
        exprs_view(s.drop_last()).push(expr_view(s.last()))
    }
}

pub open spec fn stmt_view(st: Stmt) -> StmtV
    decreases st,
{
    match st {
        Stmt::Let { name, expr } => StmtV::Let { name: name@, expr: expr_view(expr) },
        Stmt::MapOver { list, binder, body } =>
            StmtV::MapOver { list: list@, binder: binder@, body: stmts_view(body@) },
        Stmt::If { condition, true_body, false_body } => StmtV::If {
            condition: expr_view(condition),
            true_body: stmts_view(true_body@),
            false_body: stmts_view(false_body@),
        },
        Stmt::Reduce { list, binder, accum, body } => StmtV::Reduce {
            list: list@,
            binder: binder@,
            accum: accum@,
            body: stmts_view(body@),
        },
        Stmt::Assign { name, expr } => StmtV::Assign { name: name@, expr: expr_view(expr) },
        Stmt::Emit { expr } => StmtV::Emit { expr: expr_view(expr) },
        Stmt::Return { expr } => StmtV::Return { expr: expr_view(expr) },
    }
}

pub open spec fn stmts_view(s: Seq<Stmt>) -> Seq<StmtV>
    decreases s,
{
    if s.len() == 0 {
        Seq::empty()
    } else {
        stmts_view(s.drop_last()).push(stmt_view(s.last()))
    }
}

impl View for Expr {
    type V = ExprV;

    open spec fn view(&self) -> ExprV {
        expr_view(*self)
    }
}

impl View for Stmt {
    type V = StmtV;

    open spec fn view(&self) -> StmtV {
        stmt_view(*self)
    }
}

impl View for ConstraintExpr {
    type V = ConstraintExprV;

    open spec fn view(&self) -> ConstraintExprV {
        ConstraintExprV {
            op: self.op,
            left: match self.left {
                ConstraintLeft::Path { segments } => ConstraintLeftV::Path { segments: strings_view(segments@) },
                ConstraintLeft::FnCall { name, args } =>
                    ConstraintLeftV::FnCall { name: name@, args: strings_view(args@) },
            },
            right: match self.right {
                ConstraintValue::Number { value } => ConstraintValueV::Number { value: value as nat },
                ConstraintValue::Rate { value, unit } => ConstraintValueV::Rate { value: value as nat, unit: unit@ },
                ConstraintValue::StringLit { value } => ConstraintValueV::StringLit { value: value@ },
            },
        }
    }
}

impl View for ImportDecl {
    type V = ImportDeclV;

    open spec fn view(&self) -> ImportDeclV {
        ImportDeclV { name: self.name@, hash: self.hash@ }
    }
}

impl View for TypeDecl {
    type V = TypeDeclV;

    open spec fn view(&self) -> TypeDeclV {
        TypeDeclV {
            name: self.name@,
            base: self.base@,
            constraint: match self.constraint {
                Some(c) => Some((c.validator@, c.pattern@)),
                None => None,
            },
        }
    }
}

impl View for CapDecl {
    type V = CapDeclV;

    open spec fn view(&self) -> CapDeclV {
        CapDeclV { alias: self.alias@, signature: self.signature@ }
    }
}

impl View for IntrinsicDecl {
    type V = IntrinsicDeclV;

    open spec fn view(&self) -> IntrinsicDeclV {
        IntrinsicDeclV { alias: self.alias@, signature: self.signature@ }
    }
}

impl View for Param {
    type V = ParamV;

    open spec fn view(&self) -> ParamV {
        ParamV { name: self.name@, ty_name: self.ty_name@ }
    }
}

impl View for GoalDecl {
    type V = GoalDeclV;

    open spec fn view(&self) -> GoalDeclV {
        GoalDeclV {
            name: self.name@,
            params: self.params@.map_values(|p: Param| p@),
            returns: self.returns@,
            stmts: stmts_view(self.want.stmts@),
            constraints: self.constraints@.map_values(|c: ConstraintExpr| c@),
        }
    }
}

impl View for Module {
    type V = ModuleV;

    open spec fn view(&self) -> ModuleV {
        ModuleV {
            version: self.version@,
            imports: self.imports@.map_values(|d: ImportDecl| d@),
            types: self.types@.map_values(|d: TypeDecl| d@),
            capabilities: self.capabilities@.map_values(|d: CapDecl| d@),
            intrinsics: self.intrinsics@.map_values(|d: IntrinsicDecl| d@),
            goals: self.goals@.map_values(|d: GoalDecl| d@),
        }
    }
}

pub proof fn lemma_exprs_view(s: Seq<Expr>)
    ensures
        exprs_view(s).len() == s.len(),
        forall|i: int| 0 <= i < s.len() ==> #[trigger] exprs_view(s)[i] == expr_view(s[i]),
    decreases s.len(),
{
    if s.len() > 0 {
        lemma_exprs_view(s.drop_last());
    }
}

pub proof fn lemma_stmts_view(s: Seq<Stmt>)
    ensures
        stmts_view(s).len() == s.len(),
        forall|i: int| 0 <= i < s.len() ==> #[trigger] stmts_view(s)[i] == stmt_view(s[i]),
    decreases s.len(),
{
    if s.len() > 0 {
        lemma_stmts_view(s.drop_last());
    }
}

} // verus!
