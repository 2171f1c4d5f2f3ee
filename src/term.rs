use vstd::prelude::*;

verus! {

/// A lambda term with named variables, as written in source text.
pub enum Term {
    Lam { name: String, body: Box<Term> },
    App { func: Box<Term>, argm: Box<Term> },
    Var { name: String },
}

/// The mathematical shape of a `Term`: names are character sequences.
pub enum Tree {
    Lam { name: Seq<char>, body: Box<Tree> },
    App { func: Box<Tree>, argm: Box<Tree> },
    Var { name: Seq<char> },
}

impl Term {
    pub open spec fn tree(&self) -> Tree
        decreases self,
    {
        match self {
            Term::Lam { name, body } => Tree::Lam { name: name@, body: Box::new(body.tree()) },
            Term::App { func, argm } => Tree::App {
                func: Box::new(func.tree()),
                argm: Box::new(argm.tree()),
            },
            Term::Var { name } => Tree::Var { name: name@ },
        }
    }
}

impl View for Term {
    type V = Tree;

    open spec fn view(&self) -> Tree {
        self.tree()
    }
}

/// A lambda term in nameless form: a variable is the number of binders
/// between it and the abstraction that binds it.
pub enum DeBruijnTerm {
    Lam(Box<DeBruijnTerm>),
    App(Box<DeBruijnTerm>, Box<DeBruijnTerm>),
    Var(usize),
}

impl Clone for DeBruijnTerm {
    fn clone(&self) -> (r: Self)
        ensures
            r == *self,
        decreases self,
    {
        match self {
            DeBruijnTerm::Lam(body) => DeBruijnTerm::Lam(Box::new((**body).clone())),
            DeBruijnTerm::App(func, argm) => DeBruijnTerm::App(
                Box::new((**func).clone()),
                Box::new((**argm).clone()),
            ),
            DeBruijnTerm::Var(i) => DeBruijnTerm::Var(*i),
        }
    }
}

} // verus!
