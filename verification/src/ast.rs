//! The syntax tree that the lowering consumes.

use vstd::prelude::*;

verus! {

/// The mathematical value of a literal.
pub enum Atom {
    Integer(int),
    Symbol(Seq<char>),
    Text(Seq<char>),
    Boolean(bool),
    List(Seq<Atom>),
}

/// A literal as it is written in the source.
#[derive(Debug, PartialEq, Eq)]
pub enum AtomTypes {
    Integer(i32),
    Symbol(String),
    String(String),
    Boolean(bool),
    List(Vec<AtomTypes>),
}

impl View for AtomTypes {
    type V = Atom;

    open spec fn view(&self) -> Atom
        decreases self,
    {
        match self {
            AtomTypes::Integer(i) => Atom::Integer(*i as int),
            AtomTypes::Symbol(s) => Atom::Symbol(s@),
            AtomTypes::String(s) => Atom::Text(s@),
            AtomTypes::Boolean(b) => Atom::Boolean(*b),
            AtomTypes::List(items) => Atom::List(
                Seq::new(
                    items.len() as nat,
                    |i: int|
                        if 0 <= i < items.len() {
                            items[i]@
                        } else {
                            Atom::Boolean(false)
                        },
                ),
            ),
        }
    }
}

/// The mathematical value of a test and its consequent.
pub struct CaseModel {
    pub test: Expr,
    pub consequent: Expr,
}

/// The mathematical value of a binding.
pub struct BindingModel {
    pub name: Seq<char>,
    pub value: Expr,
}

/// The mathematical value of an expression.
pub enum Expr {
    Quote(Atom),
    Lambda(Seq<Seq<char>>, Seq<Expr>),
    Cond(Seq<CaseModel>),
    Define(Seq<char>, Box<Expr>),
    Let(Seq<BindingModel>, Seq<Expr>),
    Call(Box<Expr>, Seq<Expr>),
    Atom(Atom),
    Identifier(Seq<char>),
}

/// An expression of the source language.
#[derive(Debug, PartialEq, Eq)]
pub enum Expression {
    /// A quoted literal.
    Quote(AtomTypes),
    /// Formal parameter names and body expressions.
    Lambda(Vec<String>, Vec<Expression>),
    /// Pairs of a test and its consequent.
    Cond(Vec<CondCase>),
    /// A name and the expression whose value it receives.
    Define(String, Box<Expression>),
    /// Bindings of a name to an initializer, and body expressions.
    Let(Vec<Binding>, Vec<Expression>),
    /// A callee and its argument expressions.
    Call(Box<Expression>, Vec<Expression>),
    /// A bare literal.
    Atom(AtomTypes),
    /// A bare name, used as a value.
    Identifier(String),
}

/// A test and the expression that is evaluated where the test holds.
#[derive(Debug, PartialEq, Eq)]
pub struct CondCase {
    pub test: Expression,
    pub consequent: Expression,
}

/// A name and the expression that initializes it.
#[derive(Debug, PartialEq, Eq)]
pub struct Binding {
    pub name: String,
    pub value: Expression,
}

/// The mathematical value of a list of names.
pub open spec fn names_view(names: Seq<String>) -> Seq<Seq<char>> {
    Seq::new(names.len(), |i: int| names[i]@)
}

/// The mathematical value of a list of expressions.
pub open spec fn exprs_view(exprs: Seq<Expression>) -> Seq<Expr> {
    Seq::new(exprs.len(), |i: int| exprs[i]@)
}

/// The mathematical value of a list of test and consequent pairs.
pub open spec fn cases_view(cases: Seq<CondCase>) -> Seq<CaseModel> {
    Seq::new(cases.len(), |i: int| CaseModel { test: cases[i].test@, consequent: cases[i].consequent@ })
}

/// The mathematical value of a list of bindings.
pub open spec fn bindings_view(bindings: Seq<Binding>) -> Seq<BindingModel> {
    Seq::new(bindings.len(), |i: int| BindingModel { name: bindings[i].name@, value: bindings[i].value@ })
}

impl View for Expression {
    type V = Expr;

    open spec fn view(&self) -> Expr
        decreases self,
    {
        match self {
            Expression::Quote(atom) => Expr::Quote(atom@),
            Expression::Lambda(formals, body) => Expr::Lambda(
                names_view(formals@),
                Seq::new(
                    body.len() as nat,
                    |i: int|
                        if 0 <= i < body.len() {
                            body[i]@
                        } else {
                            Expr::Cond(Seq::empty())
                        },
                ),
            ),
            Expression::Cond(cases) => Expr::Cond(
                Seq::new(
                    cases.len() as nat,
                    |i: int|
                        if 0 <= i < cases.len() {
                            CaseModel { test: cases[i].test@, consequent: cases[i].consequent@ }
                        } else {
                            CaseModel { test: Expr::Cond(Seq::empty()), consequent: Expr::Cond(Seq::empty()) }
                        },
                ),
            ),
            Expression::Define(name, body) => Expr::Define(name@, Box::new((**body)@)),
            Expression::Let(bindings, body) => Expr::Let(
                Seq::new(
                    bindings.len() as nat,
                    |i: int|
                        if 0 <= i < bindings.len() {
                            BindingModel { name: bindings[i].name@, value: bindings[i].value@ }
                        } else {
                            BindingModel { name: Seq::empty(), value: Expr::Cond(Seq::empty()) }
                        },
                ),
                Seq::new(
                    body.len() as nat,
                    |i: int|
                        if 0 <= i < body.len() {
                            body[i]@
                        } else {
                            Expr::Cond(Seq::empty())
                        },
                ),
            ),
            Expression::Call(callee, arguments) => Expr::Call(
                Box::new((**callee)@),
                Seq::new(
                    arguments.len() as nat,
                    |i: int|
                        if 0 <= i < arguments.len() {
                            arguments[i]@
                        } else {
                            Expr::Cond(Seq::empty())
                        },
                ),
            ),
            Expression::Atom(atom) => Expr::Atom(atom@),
            Expression::Identifier(name) => Expr::Identifier(name@),
        }
    }
}

/// A program: its top-level expressions in source order.
#[derive(Debug, PartialEq, Eq)]
pub enum Programm {
    Expression(Vec<Expression>),
}

impl View for Programm {
    type V = Seq<Expr>;

    open spec fn view(&self) -> Seq<Expr> {
        match self {
            Programm::Expression(exprs) => exprs_view(exprs@),
        }
    }
}

/// What the view of each expression kind is, in terms of the views of its parts.
pub proof fn lemma_expression_view(expr: &Expression)
    ensures
        match expr {
            Expression::Quote(atom) => expr@ == Expr::Quote(atom@),
            Expression::Lambda(formals, body) => expr@ == Expr::Lambda(
                names_view(formals@),
                exprs_view(body@),
            ),
            Expression::Cond(cases) => expr@ == Expr::Cond(cases_view(cases@)),
            Expression::Define(name, body) => expr@ == Expr::Define(name@, Box::new((**body)@)),
            Expression::Let(bindings, body) => expr@ == Expr::Let(
                bindings_view(bindings@),
                exprs_view(body@),
            ),
            Expression::Call(callee, arguments) => expr@ == Expr::Call(
                Box::new((**callee)@),
                exprs_view(arguments@),
            ),
            Expression::Atom(atom) => expr@ == Expr::Atom(atom@),
            Expression::Identifier(name) => expr@ == Expr::Identifier(name@),
        },
{
    match expr {
        Expression::Lambda(formals, body) => {
            assert(expr@->Lambda_1 =~= exprs_view(body@));
        },
        Expression::Cond(cases) => {
            assert(expr@->Cond_0 =~= cases_view(cases@));
        },
        Expression::Let(bindings, body) => {
            assert(expr@->Let_0 =~= bindings_view(bindings@));
            assert(expr@->Let_1 =~= exprs_view(body@));
        },
        Expression::Call(callee, arguments) => {
            assert(expr@->Call_1 =~= exprs_view(arguments@));
        },
        _ => {},
    }
}

impl Clone for AtomTypes {
    fn clone(&self) -> (copy: Self)
        ensures
            copy@ == self@,
        decreases self,
    {
        match self {
            AtomTypes::Integer(i) => AtomTypes::Integer(*i),
            AtomTypes::Symbol(s) => AtomTypes::Symbol(s.clone()),
            AtomTypes::String(s) => AtomTypes::String(s.clone()),
            AtomTypes::Boolean(b) => AtomTypes::Boolean(*b),
            AtomTypes::List(items) => {
                let mut copies: Vec<AtomTypes> = Vec::new();
                let mut i: usize = 0;
                while i < items.len()
                    invariant
                        *self == AtomTypes::List(*items),
                        i <= items.len(),
                        copies.len() == i,
                        forall|j: int| 0 <= j < i ==> copies[j]@ == items[j]@,
                    decreases items.len() - i,
                {
                    assert(decreases_to!(*self => self->List_0));
                    copies.push(items[i].clone());
                    i += 1;
                }
                let copy = AtomTypes::List(copies);
                assert(copy@->List_0 =~= self@->List_0);
                copy
            },
        }
    }
}

/// Copies a list of names.
pub fn clone_names(names: &Vec<String>) -> (copy: Vec<String>)
    ensures
        names_view(copy@) == names_view(names@),
{
    let mut copy: Vec<String> = Vec::new();
    let mut i: usize = 0;
    while i < names.len()
        invariant
            i <= names.len(),
            copy.len() == i,
            forall|j: int| 0 <= j < i ==> copy[j]@ == names[j]@,
        decreases names.len() - i,
    {
        copy.push(names[i].clone());
        i += 1;
    }
    assert(names_view(copy@) =~= names_view(names@));
    copy
}

/// Copies a list of expressions.
pub fn clone_exprs(exprs: &Vec<Expression>) -> (copy: Vec<Expression>)
    ensures
        exprs_view(copy@) == exprs_view(exprs@),
    decreases exprs, 0nat,
{
    let mut copy: Vec<Expression> = Vec::new();
    let mut i: usize = 0;
    while i < exprs.len()
        invariant
            i <= exprs.len(),
            copy.len() == i,
            forall|j: int| 0 <= j < i ==> copy[j]@ == exprs[j]@,
        decreases exprs.len() - i,
    {
        copy.push(exprs[i].clone());
        i += 1;
    }
    assert(exprs_view(copy@) =~= exprs_view(exprs@));
    copy
}

impl Clone for CondCase {
    fn clone(&self) -> (copy: Self)
        ensures
            copy.test@ == self.test@,
            copy.consequent@ == self.consequent@,
        decreases self, 2nat,
    {
        CondCase { test: self.test.clone(), consequent: self.consequent.clone() }
    }
}

impl Clone for Binding {
    fn clone(&self) -> (copy: Self)
        ensures
            copy.name@ == self.name@,
            copy.value@ == self.value@,
        decreases self, 2nat,
    {
        Binding { name: self.name.clone(), value: self.value.clone() }
    }
}

impl Clone for Expression {
    fn clone(&self) -> (copy: Self)
        ensures
            copy@ == self@,
        decreases self, 1nat,
    {
        proof {
            lemma_expression_view(self);
        }
        let copy = match self {
            Expression::Quote(atom) => Expression::Quote(atom.clone()),
            Expression::Lambda(formals, body) => Expression::Lambda(
                clone_names(formals),
                clone_exprs(body),
            ),
            Expression::Cond(cases) => {
                let mut copies: Vec<CondCase> = Vec::new();
                let mut i: usize = 0;
                while i < cases.len()
                    invariant
                        self is Cond,
                        self->Cond_0 == *cases,
                        i <= cases.len(),
                        copies.len() == i,
                        forall|j: int|
                            0 <= j < i ==> copies[j].test@ == cases[j].test@
                                && copies[j].consequent@ == cases[j].consequent@,
                    decreases cases.len() - i,
                {
                    assert(decreases_to!(*self => self->Cond_0));
                    assert(decreases_to!(*cases => cases[i as int]));
                    copies.push(cases[i].clone());
                    i += 1;
                }
                assert(cases_view(copies@) =~= cases_view(cases@));
                Expression::Cond(copies)
            },
            Expression::Define(name, body) => {
                let inner: Expression = (**body).clone();
                Expression::Define(name.clone(), Box::new(inner))
            },
            Expression::Let(bindings, body) => {
                let mut copies: Vec<Binding> = Vec::new();
                let mut i: usize = 0;
                while i < bindings.len()
                    invariant
                        self is Let,
                        self->Let_0 == *bindings,
                        i <= bindings.len(),
                        copies.len() == i,
                        forall|j: int|
                            0 <= j < i ==> copies[j].name@ == bindings[j].name@ && copies[j].value@
                                == bindings[j].value@,
                    decreases bindings.len() - i,
                {
                    assert(decreases_to!(*self => self->Let_0));
                    assert(decreases_to!(*bindings => bindings[i as int]));
                    copies.push(bindings[i].clone());
                    i += 1;
                }
                assert(bindings_view(copies@) =~= bindings_view(bindings@));
                Expression::Let(copies, clone_exprs(body))
            },
            Expression::Call(callee, arguments) => {
                let inner: Expression = (**callee).clone();
                Expression::Call(Box::new(inner), clone_exprs(arguments))
            },
            Expression::Atom(atom) => Expression::Atom(atom.clone()),
            Expression::Identifier(name) => Expression::Identifier(name.clone()),
        };
        proof {
            lemma_expression_view(&copy);
        }
        copy
    }
}

impl Clone for Programm {
    fn clone(&self) -> (copy: Self)
        ensures
            copy@ == self@,
    {
        match self {
            Programm::Expression(exprs) => Programm::Expression(clone_exprs(exprs)),
        }
    }
}

} // verus!
