use vstd::prelude::*;
use crate::term::{DeBruijnTerm, Term, Tree};

verus! {

/// Position of the first entry of `ctx` equal to `name`, or `ctx.len()` where
/// there is none: the innermost binder of that name wins.
pub open spec fn position_of(ctx: Seq<Seq<char>>, name: Seq<char>) -> nat
    decreases ctx.len(),
{
    if ctx.len() == 0 {
        0
    } else if ctx[0] == name {
        0
    } else {
        1 + position_of(ctx.drop_first(), name)
    }
}

/// The nameless form of `t` under the binding context `ctx`, innermost name first.
pub open spec fn nameless(t: Tree, ctx: Seq<Seq<char>>) -> DeBruijnTerm
    decreases t,
{
    match t {
        Tree::Lam { name, body } => DeBruijnTerm::Lam(
            Box::new(nameless(*body, seq![name] + ctx)),
        ),
        Tree::App { func, argm } => DeBruijnTerm::App(
            Box::new(nameless(*func, ctx)),
            Box::new(nameless(*argm, ctx)),
        ),
        Tree::Var { name } => DeBruijnTerm::Var(position_of(ctx, name) as usize),
    }
}

/// The names of a context of strings.
pub open spec fn names(context: Seq<String>) -> Seq<Seq<char>> {
    context.map_values(|s: String| s@)
}

/// Every variable of `t` is bound by an abstraction of `t` or named in `ctx`.
pub open spec fn closed_under(t: Tree, ctx: Seq<Seq<char>>) -> bool
    decreases t,
{
    match t {
        Tree::Lam { name, body } => closed_under(*body, seq![name] + ctx),
        Tree::App { func, argm } => closed_under(*func, ctx) && closed_under(*argm, ctx),
        Tree::Var { name } => ctx.contains(name),
    }
}

/// Every index of `t` is below the number of abstractions around it plus `depth`.
pub open spec fn indices_below(t: DeBruijnTerm, depth: int) -> bool
    decreases t,
{
    match t {
        DeBruijnTerm::Var(i) => i < depth,
        DeBruijnTerm::Lam(body) => indices_below(*body, depth + 1),
        DeBruijnTerm::App(func, argm) => indices_below(*func, depth) && indices_below(
            *argm,
            depth,
        ),
    }
}

proof fn lemma_position_bound(ctx: Seq<Seq<char>>, name: Seq<char>)
    ensures
        position_of(ctx, name) <= ctx.len(),
        ctx.contains(name) ==> position_of(ctx, name) < ctx.len(),
        position_of(ctx, name) < ctx.len() ==> ctx[position_of(ctx, name) as int] == name,
    decreases ctx.len(),
{
    if ctx.len() > 0 && ctx[0] != name {
        let rest = ctx.drop_first();
        lemma_position_bound(rest, name);
        if ctx.contains(name) {
            let j = choose|j: int| 0 <= j < ctx.len() && ctx[j] == name;
            assert(rest[j - 1] == name);
        }
    }
}

/// Converting a term whose variables are all bound in it, or named in the
/// context, gives indices that each point at an enclosing abstraction or at
/// an entry of the context.
pub proof fn lemma_closed_indices_bound(t: Tree, ctx: Seq<Seq<char>>)
    requires
        closed_under(t, ctx),
    ensures
        indices_below(nameless(t, ctx), ctx.len() as int),
    decreases t,
{
    match t {
        Tree::Lam { name, body } => lemma_closed_indices_bound(*body, seq![name] + ctx),
        Tree::App { func, argm } => {
            lemma_closed_indices_bound(*func, ctx);
            lemma_closed_indices_bound(*argm, ctx);
        },
        Tree::Var { name } => lemma_position_bound(ctx, name),
    }
}

/// A closed term converts to indices that each stay below the number of
/// abstractions enclosing them.
pub proof fn lemma_closed_term_indices(t: Tree)
    requires
        closed_under(t, Seq::empty()),
    ensures
        indices_below(nameless(t, Seq::empty()), 0),
{
    lemma_closed_indices_bound(t, Seq::empty());
}

/// Converts `term` to nameless form under `context`, the names bound around
/// it with the innermost first. A name found nowhere becomes the context's length.
pub fn to_de_bruijn(term: &Term, context: &[String]) -> (r: DeBruijnTerm)
    ensures
        r == nameless(term@, names(context@)),
    decreases term,
{
    match term {
        Term::Lam { name, body } => {
            let mut new_context: Vec<String> = Vec::new();
            new_context.push(name.clone());
            let mut i: usize = 0;
            while i < context.len()
                invariant
                    i <= context@.len(),
                    new_context@.len() == i + 1,
                    new_context@[0]@ == name@,
                    forall|j: int| 0 <= j < i ==> (#[trigger] new_context@[j + 1])@ == context@[j]@,
                decreases context@.len() - i,
            {
                new_context.push(context[i].clone());
                i = i + 1;
            }
            proof {
                let lhs = names(new_context@);
                let rhs = seq![name@] + names(context@);
                assert(lhs.len() == rhs.len());
                assert forall|j: int| 0 <= j < lhs.len() implies lhs[j] == rhs[j] by {
                    if j > 0 {
                        assert(new_context@[(j - 1) + 1]@ == context@[j - 1]@);
                    }
                }
                assert(lhs =~= rhs);
            }
            DeBruijnTerm::Lam(Box::new(to_de_bruijn(body, new_context.as_slice())))
        },
        Term::App { func, argm } => DeBruijnTerm::App(
            Box::new(to_de_bruijn(func, context)),
            Box::new(to_de_bruijn(argm, context)),
        ),
        Term::Var { name } => {
            let mut i: usize = 0;
            while i < context.len()
                invariant
                    i <= context@.len(),
                    term@ == (Tree::Var { name: name@ }),
                    forall|j: int| 0 <= j < i ==> (#[trigger] context@[j])@ != name@,
                decreases context@.len() - i,
            {
                if context[i] == *name {
                    proof {
                        lemma_position_prefix(names(context@), name@, i as int);
                    }
                    return DeBruijnTerm::Var(i);
                }
                i = i + 1;
            }
            proof {
                lemma_position_prefix(names(context@), name@, i as int);
            }
            DeBruijnTerm::Var(i)
        },
    }
}

/// Where the first `k` entries differ from `name`, the search goes past them.
proof fn lemma_position_prefix(ctx: Seq<Seq<char>>, name: Seq<char>, k: int)
    requires
        0 <= k <= ctx.len(),
        forall|j: int| 0 <= j < k ==> ctx[j] != name,
        k < ctx.len() ==> ctx[k] == name,
    ensures
        position_of(ctx, name) == k,
    decreases k,
{
    if k > 0 {
        lemma_position_prefix(ctx.drop_first(), name, k - 1);
    }
}

} // verus!
