//! The abstract syntax of a module, and its mathematical model.

use vstd::prelude::*;

use crate::text::{text_eq, text_less, text_lt};

verus! {

/// An AST expression representing a folded WebAssembly instruction.
#[derive(Debug, PartialEq, Eq)]
pub enum Expr {
    /// Push a 32-bit signed integer constant: `(i32.const n)`
    Const(i32),
    /// Retrieve value of a local variable: `(local.get $name)`
    LocalGet(String),
    /// Pop two operands and push their sum: `(i32.add lhs rhs)`
    Add(Box<Expr>, Box<Expr>),
    /// Pop two operands and push (lhs - rhs): `(i32.sub lhs rhs)`
    Sub(Box<Expr>, Box<Expr>),
    /// Pop two operands and push their product: `(i32.mul lhs rhs)`
    Mul(Box<Expr>, Box<Expr>),
    /// Pop two operands and push signed remainder: `(i32.rem_s lhs rhs)`
    RemS(Box<Expr>, Box<Expr>),
    /// Pop two operands and push 1 if lhs < rhs else 0: `(i32.lt_s lhs rhs)`
    LtS(Box<Expr>, Box<Expr>),
    /// Conditional execution: `(if (result i32) cond (then ...) (else ...))`
    If { condition: Box<Expr>, then_branch: Vec<Expr>, else_branch: Vec<Expr> },
    /// Function invocation: `(call $func arg1 arg2 ...)`
    Call { func_name: String, args: Vec<Expr> },
}

/// The mathematical model of an [`Expr`]: names are character sequences
/// and instruction lists are sequences.
pub enum ExprV {
    Const(i32),
    LocalGet(Seq<char>),
    Add(Box<ExprV>, Box<ExprV>),
    Sub(Box<ExprV>, Box<ExprV>),
    Mul(Box<ExprV>, Box<ExprV>),
    RemS(Box<ExprV>, Box<ExprV>),
    LtS(Box<ExprV>, Box<ExprV>),
    If { condition: Box<ExprV>, then_branch: Seq<ExprV>, else_branch: Seq<ExprV> },
    Call { func_name: Seq<char>, args: Seq<ExprV> },
}

/// The model of each expression of a sequence, in order.
pub open spec fn exprs_view(s: Seq<Expr>) -> Seq<ExprV>
    decreases s,
{
    if s.len() == 0 {
        Seq::empty()
    } else {
        exprs_view(s.drop_last()).push(expr_view(s.last()))
    }
}

/// The model of an expression.
pub open spec fn expr_view(e: Expr) -> ExprV
    decreases e,
{
    match e {
        Expr::Const(v) => ExprV::Const(v),
        Expr::LocalGet(name) => ExprV::LocalGet(name@),
        Expr::Add(l, r) => ExprV::Add(Box::new(expr_view(*l)), Box::new(expr_view(*r))),
        Expr::Sub(l, r) => ExprV::Sub(Box::new(expr_view(*l)), Box::new(expr_view(*r))),
        Expr::Mul(l, r) => ExprV::Mul(Box::new(expr_view(*l)), Box::new(expr_view(*r))),
        Expr::RemS(l, r) => ExprV::RemS(Box::new(expr_view(*l)), Box::new(expr_view(*r))),
        Expr::LtS(l, r) => ExprV::LtS(Box::new(expr_view(*l)), Box::new(expr_view(*r))),
        Expr::If { condition, then_branch, else_branch } => ExprV::If {
            condition: Box::new(expr_view(*condition)),
            then_branch: exprs_view(then_branch@),
            else_branch: exprs_view(else_branch@),
        },
        Expr::Call { func_name, args } => ExprV::Call {
            func_name: func_name@,
            args: exprs_view(args@),
        },
    }
}

impl View for Expr {
    type V = ExprV;

    open spec fn view(&self) -> ExprV {
        expr_view(*self)
    }
}

pub proof fn lemma_exprs_view(s: Seq<Expr>)
    ensures
        exprs_view(s).len() == s.len(),
        forall|i: int| 0 <= i < s.len() ==> #[trigger] exprs_view(s)[i] == s[i]@,
    decreases s.len(),
{
    if s.len() > 0 {
        lemma_exprs_view(s.drop_last());
    }
}


/// The model of a sequence of expressions is taken element by element, so it
/// distributes over concatenation.
pub proof fn lemma_exprs_view_concat(a: Seq<Expr>, b: Seq<Expr>)
    ensures
        exprs_view(a + b) == exprs_view(a) + exprs_view(b),
{
    lemma_exprs_view(a);
    lemma_exprs_view(b);
    lemma_exprs_view(a + b);
    assert(exprs_view(a + b) =~= exprs_view(a) + exprs_view(b));
}

/// Copies the expressions of `v`, in order.
fn clone_exprs(v: &Vec<Expr>) -> (r: Vec<Expr>)
    ensures
        exprs_view(r@) == exprs_view(v@),
    decreases v,
{
    let mut r: Vec<Expr> = Vec::new();
    let n = v.len();
    for i in 0..n
        invariant
            n == v@.len(),
            exprs_view(r@) == exprs_view(v@.subrange(0, i as int)),
    {
        let e = clone_expr(&v[i]);
        let ghost before = r@;
        r.push(e);
        assert(r@.drop_last() =~= before);
        assert(v@.subrange(0, i + 1).drop_last() =~= v@.subrange(0, i as int));
    }
    assert(v@.subrange(0, n as int) =~= v@);
    r
}

/// Copies an expression.
fn clone_expr(e: &Expr) -> (r: Expr)
    ensures
        r@ == e@,
    decreases e,
{
    match e {
        Expr::Const(v) => Expr::Const(*v),
        Expr::LocalGet(name) => Expr::LocalGet(name.clone()),
        Expr::Add(l, r) => Expr::Add(Box::new(clone_expr(l)), Box::new(clone_expr(r))),
        Expr::Sub(l, r) => Expr::Sub(Box::new(clone_expr(l)), Box::new(clone_expr(r))),
        Expr::Mul(l, r) => Expr::Mul(Box::new(clone_expr(l)), Box::new(clone_expr(r))),
        Expr::RemS(l, r) => Expr::RemS(Box::new(clone_expr(l)), Box::new(clone_expr(r))),
        Expr::LtS(l, r) => Expr::LtS(Box::new(clone_expr(l)), Box::new(clone_expr(r))),
        Expr::If { condition, then_branch, else_branch } => Expr::If {
            condition: Box::new(clone_expr(condition)),
            then_branch: clone_exprs(then_branch),
            else_branch: clone_exprs(else_branch),
        },
        Expr::Call { func_name, args } => Expr::Call {
            func_name: func_name.clone(),
            args: clone_exprs(args),
        },
    }
}

impl Clone for Expr {
    fn clone(&self) -> (r: Self)
        ensures
            r@ == self@,
    {
        clone_expr(self)
    }
}

/// A parsed WebAssembly function declaration.
#[derive(Debug, Clone, PartialEq, Eq)]
pub struct Function {
    pub name: String,
    pub export_name: Option<String>,
    pub params: Vec<String>,
    pub result: Option<String>,
    pub body: Vec<Expr>,
}

/// The mathematical model of a [`Function`].
pub struct FunctionV {
    pub name: Seq<char>,
    pub export_name: Option<Seq<char>>,
    pub params: Seq<Seq<char>>,
    pub result: Option<Seq<char>>,
    pub body: Seq<ExprV>,
}

pub open spec fn opt_text(o: Option<String>) -> Option<Seq<char>> {
    match o {
        Some(s) => Some(s@),
        None => None,
    }
}

pub open spec fn texts(s: Seq<String>) -> Seq<Seq<char>> {
    s.map_values(|t: String| t@)
}

impl View for Function {
    type V = FunctionV;

    open spec fn view(&self) -> FunctionV {
        FunctionV {
            name: self.name@,
            export_name: opt_text(self.export_name),
            params: texts(self.params@),
            result: opt_text(self.result),
            body: exprs_view(self.body@),
        }
    }
}

/// A parsed WebAssembly module: its functions, each found under its own
/// name, and its exports, each an export name with the name of the
/// function it designates.
///
/// A name is looked up at its first entry. The parser keeps each table in
/// order of names with no name twice, entering a new name at its place and
/// replacing the entry of a name it already holds, so that two modules with
/// the same functions and exports have equal tables.
#[derive(Debug, Default, Clone, PartialEq, Eq)]
pub struct Module {
    pub funcs: Vec<Function>,
    pub exports: Vec<(String, String)>,
}

/// The mathematical model of a [`Module`].
pub struct ModuleV {
    pub funcs: Seq<FunctionV>,
    pub exports: Seq<(Seq<char>, Seq<char>)>,
}

impl View for Module {
    type V = ModuleV;

    open spec fn view(&self) -> ModuleV {
        ModuleV {
            funcs: self.funcs@.map_values(|f: Function| f@),
            exports: self.exports@.map_values(|p: (String, String)| (p.0@, p.1@)),
        }
    }
}

/// The index of the first function named `name`.
pub open spec fn func_index(fs: Seq<FunctionV>, name: Seq<char>) -> Option<int>
    decreases fs.len(),
{
    if fs.len() == 0 {
        None
    } else if fs[0].name == name {
        Some(0)
    } else {
        match func_index(fs.drop_first(), name) {
            Some(i) => Some(i + 1),
            None => None,
        }
    }
}

/// The first function named `name`.
pub open spec fn lookup_func(fs: Seq<FunctionV>, name: Seq<char>) -> Option<FunctionV> {
    match func_index(fs, name) {
        Some(i) => Some(fs[i]),
        None => None,
    }
}

/// The index of the first export named `name`.
pub open spec fn export_index(es: Seq<(Seq<char>, Seq<char>)>, name: Seq<char>) -> Option<int>
    decreases es.len(),
{
    if es.len() == 0 {
        None
    } else if es[0].0 == name {
        Some(0)
    } else {
        match export_index(es.drop_first(), name) {
            Some(i) => Some(i + 1),
            None => None,
        }
    }
}

/// The function name that the first export named `name` designates.
pub open spec fn lookup_export(es: Seq<(Seq<char>, Seq<char>)>, name: Seq<char>) -> Option<Seq<char>> {
    match export_index(es, name) {
        Some(i) => Some(es[i].1),
        None => None,
    }
}

/// Where an entry named `name` goes in a table kept in [`text_lt`] order of
/// names: before the first entry whose name does not come before it.
pub open spec fn func_position(fs: Seq<FunctionV>, name: Seq<char>) -> int
    decreases fs.len(),
{
    if fs.len() == 0 || !text_lt(fs[0].name, name) {
        0
    } else {
        1 + func_position(fs.drop_first(), name)
    }
}

/// Where an export named `name` goes in a table kept in name order.
pub open spec fn export_position(es: Seq<(Seq<char>, Seq<char>)>, name: Seq<char>) -> int
    decreases es.len(),
{
    if es.len() == 0 || !text_lt(es[0].0, name) {
        0
    } else {
        1 + export_position(es.drop_first(), name)
    }
}

/// The table after `f` is entered under its name: it replaces the entry of
/// that name, or goes in at its place in name order.
pub open spec fn insert_func(fs: Seq<FunctionV>, f: FunctionV) -> Seq<FunctionV> {
    match func_index(fs, f.name) {
        Some(i) => fs.update(i, f),
        None => fs.insert(func_position(fs, f.name), f),
    }
}

/// The export table after `name` is made to designate `target`: the entry
/// of that name is replaced, or one goes in at its place in name order.
pub open spec fn insert_export(
    es: Seq<(Seq<char>, Seq<char>)>,
    name: Seq<char>,
    target: Seq<char>,
) -> Seq<(Seq<char>, Seq<char>)> {
    match export_index(es, name) {
        Some(i) => es.update(i, (name, target)),
        None => es.insert(export_position(es, name), (name, target)),
    }
}

/// The place of an entry lies within the table, after every entry whose
/// name comes before it.
pub proof fn lemma_func_position(fs: Seq<FunctionV>, name: Seq<char>)
    ensures
        0 <= func_position(fs, name) <= fs.len(),
        forall|j: int| 0 <= j < func_position(fs, name) ==> text_lt(#[trigger] fs[j].name, name),
        func_position(fs, name) < fs.len() ==> !text_lt(fs[func_position(fs, name)].name, name),
    decreases fs.len(),
{
    if fs.len() > 0 && text_lt(fs[0].name, name) {
        lemma_func_position(fs.drop_first(), name);
        assert forall|j: int| 1 <= j < fs.len() implies #[trigger] fs[j].name == fs.drop_first()[j - 1].name by {}
    }
}

/// The place of an export lies within the table, after every export whose
/// name comes before it.
pub proof fn lemma_export_position(es: Seq<(Seq<char>, Seq<char>)>, name: Seq<char>)
    ensures
        0 <= export_position(es, name) <= es.len(),
        forall|j: int| 0 <= j < export_position(es, name) ==> text_lt(#[trigger] es[j].0, name),
        export_position(es, name) < es.len() ==> !text_lt(es[export_position(es, name)].0, name),
    decreases es.len(),
{
    if es.len() > 0 && text_lt(es[0].0, name) {
        lemma_export_position(es.drop_first(), name);
        assert forall|j: int| 1 <= j < es.len() implies #[trigger] es[j].0 == es.drop_first()[j - 1].0 by {}
    }
}

/// `func_index` finds the first entry of that name.
pub proof fn lemma_func_index(fs: Seq<FunctionV>, name: Seq<char>)
    ensures
        match func_index(fs, name) {
            Some(i) => 0 <= i < fs.len() && fs[i].name == name && forall|j: int|
                0 <= j < i ==> #[trigger] fs[j].name != name,
            None => forall|j: int| 0 <= j < fs.len() ==> #[trigger] fs[j].name != name,
        },
    decreases fs.len(),
{
    if fs.len() > 0 {
        lemma_func_index(fs.drop_first(), name);
        if fs[0].name != name {
            assert forall|j: int| 1 <= j < fs.len() implies #[trigger] fs[j].name == fs.drop_first()[j - 1].name by {}
        }
    }
}

/// `export_index` finds the first entry of that name.
pub proof fn lemma_export_index(es: Seq<(Seq<char>, Seq<char>)>, name: Seq<char>)
    ensures
        match export_index(es, name) {
            Some(i) => 0 <= i < es.len() && es[i].0 == name && forall|j: int|
                0 <= j < i ==> #[trigger] es[j].0 != name,
            None => forall|j: int| 0 <= j < es.len() ==> #[trigger] es[j].0 != name,
        },
    decreases es.len(),
{
    if es.len() > 0 {
        lemma_export_index(es.drop_first(), name);
        if es[0].0 != name {
            assert forall|j: int| 1 <= j < es.len() implies #[trigger] es[j].0 == es.drop_first()[j - 1].0 by {}
        }
    }
}

impl Module {
    /// The index of the first function named `name`.
    pub fn find_func(&self, name: &str) -> (r: Option<usize>)
        ensures
            match r {
                Some(i) => i < self.funcs@.len() && func_index(self@.funcs, name@) == Some(i as int),
                None => func_index(self@.funcs, name@) is None,
            },
    {
        proof {
            lemma_func_index(self@.funcs, name@);
        }
        let n = self.funcs.len();
        for i in 0..n
            invariant
                n == self.funcs@.len(),
                n == self@.funcs.len(),
                forall|j: int| 0 <= j < i ==> #[trigger] self@.funcs[j].name != name@,
                match func_index(self@.funcs, name@) {
                    Some(k) => 0 <= k < self@.funcs.len() && self@.funcs[k].name == name@
                        && forall|j: int| 0 <= j < k ==> #[trigger] self@.funcs[j].name != name@,
                    None => forall|j: int| 0 <= j < self@.funcs.len() ==> #[trigger] self@.funcs[j].name != name@,
                },
        {
            assert(self@.funcs[i as int] == self.funcs@[i as int]@);
            if text_eq(self.funcs[i].name.as_str(), name) {
                assert(self@.funcs[i as int].name == name@);
                return Some(i);
            }
        }
        None
    }

    /// The index of the first export named `name`.
    pub fn find_export(&self, name: &str) -> (r: Option<usize>)
        ensures
            match r {
                Some(i) => i < self.exports@.len() && export_index(self@.exports, name@) == Some(
                    i as int,
                ),
                None => export_index(self@.exports, name@) is None,
            },
    {
        proof {
            lemma_export_index(self@.exports, name@);
        }
        let n = self.exports.len();
        for i in 0..n
            invariant
                n == self.exports@.len(),
                n == self@.exports.len(),
                forall|j: int| 0 <= j < i ==> #[trigger] self@.exports[j].0 != name@,
                match export_index(self@.exports, name@) {
                    Some(k) => 0 <= k < self@.exports.len() && self@.exports[k].0 == name@
                        && forall|j: int| 0 <= j < k ==> #[trigger] self@.exports[j].0 != name@,
                    None => forall|j: int| 0 <= j < self@.exports.len() ==> #[trigger] self@.exports[j].0 != name@,
                },
        {
            assert(self@.exports[i as int] == (self.exports@[i as int].0@, self.exports@[i as int].1@));
            if text_eq(self.exports[i].0.as_str(), name) {
                assert(self@.exports[i as int].0 == name@);
                return Some(i);
            }
        }
        None
    }

    /// Where a function named `name` goes in name order.
    fn func_position(&self, name: &str) -> (r: usize)
        ensures
            r == func_position(self@.funcs, name@),
    {
        let n = self.funcs.len();
        let mut i: usize = 0;
        assert(self@.funcs.skip(0) =~= self@.funcs);
        while i < n && text_less(self.funcs[i].name.as_str(), name)
            invariant
                n == self.funcs@.len(),
                n == self@.funcs.len(),
                i <= n,
                func_position(self@.funcs, name@) == i + func_position(self@.funcs.skip(i as int), name@),
            decreases n - i,
        {
            assert(self@.funcs[i as int] == self.funcs@[i as int]@);
            assert(self@.funcs.skip(i as int).drop_first() =~= self@.funcs.skip(i + 1));
            i = i + 1;
        }
        if i < n {
            assert(self@.funcs[i as int] == self.funcs@[i as int]@);
        }
        i
    }

    /// Where an export named `name` goes in name order.
    fn export_position(&self, name: &str) -> (r: usize)
        ensures
            r == export_position(self@.exports, name@),
    {
        let n = self.exports.len();
        let mut i: usize = 0;
        assert(self@.exports.skip(0) =~= self@.exports);
        while i < n && text_less(self.exports[i].0.as_str(), name)
            invariant
                n == self.exports@.len(),
                n == self@.exports.len(),
                i <= n,
                export_position(self@.exports, name@) == i + export_position(
                    self@.exports.skip(i as int),
                    name@,
                ),
            decreases n - i,
        {
            assert(self@.exports[i as int] == (
                self.exports@[i as int].0@,
                self.exports@[i as int].1@,
            ));
            assert(self@.exports.skip(i as int).drop_first() =~= self@.exports.skip(i + 1));
            i = i + 1;
        }
        if i < n {
            assert(self@.exports[i as int] == (
                self.exports@[i as int].0@,
                self.exports@[i as int].1@,
            ));
        }
        i
    }

    /// Enters `f` under its name, replacing a function of that name.
    pub fn insert_function(&mut self, f: Function)
        ensures
            final(self)@.funcs == insert_func(old(self)@.funcs, f@),
            final(self)@.exports == old(self)@.exports,
    {
        let ghost fv = f@;
        match self.find_func(f.name.as_str()) {
            Some(i) => {
                self.funcs.set(i, f);
                assert(self@.funcs =~= old(self)@.funcs.update(i as int, fv));
            },
            None => {
                let p = self.func_position(f.name.as_str());
                proof {
                    lemma_func_position(old(self)@.funcs, fv.name);
                }
                self.funcs.insert(p, f);
                assert(self@.funcs =~= old(self)@.funcs.insert(p as int, fv));
            },
        }
    }

    /// Makes the export `name` designate the function named `target`.
    pub fn insert_export_entry(&mut self, name: String, target: String)
        ensures
            final(self)@.exports == insert_export(old(self)@.exports, name@, target@),
            final(self)@.funcs == old(self)@.funcs,
    {
        let ghost entry = (name@, target@);
        match self.find_export(name.as_str()) {
            Some(i) => {
                self.exports.set(i, (name, target));
                assert(self@.exports =~= old(self)@.exports.update(i as int, entry));
            },
            None => {
                let p = self.export_position(name.as_str());
                proof {
                    lemma_export_position(old(self)@.exports, entry.0);
                }
                self.exports.insert(p, (name, target));
                assert(self@.exports =~= old(self)@.exports.insert(p as int, entry));
            },
        }
    }
}

} // verus!
