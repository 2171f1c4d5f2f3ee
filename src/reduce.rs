use vstd::prelude::*;
use crate::term::DeBruijnTerm;

verus! {

/// `t` with `amount` added to every index at or above `cutoff`, where the
/// cutoff grows by one under each abstraction.
pub open spec fn shifted(t: DeBruijnTerm, amount: int, cutoff: int) -> DeBruijnTerm
    decreases t,
{
    match t {
        DeBruijnTerm::Var(i) => if i >= cutoff {
            DeBruijnTerm::Var((i + amount) as usize)
        } else {
            DeBruijnTerm::Var(i)
        },
        DeBruijnTerm::Lam(body) => DeBruijnTerm::Lam(Box::new(shifted(*body, amount, cutoff + 1))),
        DeBruijnTerm::App(func, argm) => DeBruijnTerm::App(
            Box::new(shifted(*func, amount, cutoff)),
            Box::new(shifted(*argm, amount, cutoff)),
        ),
    }
}

/// Every index that `shifted(t, amount, cutoff)` moves stays a machine index.
pub open spec fn shift_fits(t: DeBruijnTerm, amount: int, cutoff: int) -> bool
    decreases t,
{
    match t {
        DeBruijnTerm::Var(i) => i >= cutoff ==> 0 <= i + amount <= usize::MAX,
        DeBruijnTerm::Lam(body) => shift_fits(*body, amount, cutoff + 1),
        DeBruijnTerm::App(func, argm) => shift_fits(*func, amount, cutoff) && shift_fits(
            *argm,
            amount,
            cutoff,
        ),
    }
}

/// A cutoff beyond every machine index leaves the term as it is.
proof fn lemma_shift_above_all(t: DeBruijnTerm, amount: int, cutoff: int)
    requires
        cutoff > usize::MAX,
    ensures
        shifted(t, amount, cutoff) == t,
    decreases t,
{
    match t {
        DeBruijnTerm::Var(i) => {},
        DeBruijnTerm::Lam(body) => lemma_shift_above_all(*body, amount, cutoff + 1),
        DeBruijnTerm::App(func, argm) => {
            lemma_shift_above_all(*func, amount, cutoff);
            lemma_shift_above_all(*argm, amount, cutoff);
        },
    }
}

/// Shifting by zero changes nothing, whatever the cutoff.
pub proof fn lemma_shift_zero(t: DeBruijnTerm, cutoff: int)
    ensures
        shifted(t, 0, cutoff) == t,
        shift_fits(t, 0, cutoff),
    decreases t,
{
    match t {
        DeBruijnTerm::Var(i) => {},
        DeBruijnTerm::Lam(body) => lemma_shift_zero(*body, cutoff + 1),
        DeBruijnTerm::App(func, argm) => {
            lemma_shift_zero(*func, cutoff);
            lemma_shift_zero(*argm, cutoff);
        },
    }
}

/// `t` with `r` put in place of index `k`: higher indices drop by one, and `r`
/// is shifted up by one for each abstraction it is carried under.
pub open spec fn substituted(t: DeBruijnTerm, k: int, r: DeBruijnTerm) -> DeBruijnTerm
    decreases t,
{
    match t {
        DeBruijnTerm::Var(i) => if i == k {
            r
        } else if i > k {
            DeBruijnTerm::Var((i - 1) as usize)
        } else {
            DeBruijnTerm::Var(i)
        },
        DeBruijnTerm::Lam(body) => DeBruijnTerm::Lam(
            Box::new(substituted(*body, k + 1, shifted(r, 1, 0))),
        ),
        DeBruijnTerm::App(func, argm) => DeBruijnTerm::App(
            Box::new(substituted(*func, k, r)),
            Box::new(substituted(*argm, k, r)),
        ),
    }
}

/// Each copy of `r` that `substituted(t, _, r)` carries under an abstraction
/// keeps machine indices once shifted.
pub open spec fn subst_fits(t: DeBruijnTerm, r: DeBruijnTerm) -> bool
    decreases t,
{
    match t {
        DeBruijnTerm::Var(_) => true,
        DeBruijnTerm::Lam(body) => shift_fits(r, 1, 0) && subst_fits(*body, shifted(r, 1, 0)),
        DeBruijnTerm::App(func, argm) => subst_fits(*func, r) && subst_fits(*argm, r),
    }
}

/// An index beyond every machine index is found nowhere in the term.
proof fn lemma_substitute_above_all(t: DeBruijnTerm, k: int, r: DeBruijnTerm)
    requires
        k > usize::MAX,
    ensures
        substituted(t, k, r) == t,
    decreases t,
{
    match t {
        DeBruijnTerm::Var(i) => {},
        DeBruijnTerm::Lam(body) => lemma_substitute_above_all(*body, k + 1, shifted(r, 1, 0)),
        DeBruijnTerm::App(func, argm) => {
            lemma_substitute_above_all(*func, k, r);
            lemma_substitute_above_all(*argm, k, r);
        },
    }
}

/// Substituting into a lone variable: index 0 becomes the replacement, and any
/// higher index drops by one.
pub proof fn lemma_substitute_variable(k: usize, r: DeBruijnTerm)
    ensures
        subst_fits(DeBruijnTerm::Var(k), r),
        substituted(DeBruijnTerm::Var(k), 0, r) == if k == 0 {
            r
        } else {
            DeBruijnTerm::Var((k - 1) as usize)
        },
{
}

/// Reduction of `t` with at most `fuel` nested steps: `None` where the fuel runs
/// out, or where a substitution would leave the machine's index range.
pub open spec fn reduce_fuel(t: DeBruijnTerm, fuel: nat) -> Option<DeBruijnTerm>
    decreases fuel,
{
    if fuel == 0 {
        None
    } else {
        match t {
            DeBruijnTerm::Var(i) => Some(DeBruijnTerm::Var(i)),
            DeBruijnTerm::Lam(body) => match reduce_fuel(*body, (fuel - 1) as nat) {
                Some(b) => Some(DeBruijnTerm::Lam(Box::new(b))),
                None => None,
            },
            DeBruijnTerm::App(func, argm) => match (
                reduce_fuel(*func, (fuel - 1) as nat),
                reduce_fuel(*argm, (fuel - 1) as nat),
            ) {
                (Some(f), Some(a)) => match f {
                    DeBruijnTerm::Lam(body) => if subst_fits(*body, a) {
                        reduce_fuel(substituted(*body, 0, a), (fuel - 1) as nat)
                    } else {
                        None
                    },
                    _ => Some(DeBruijnTerm::App(Box::new(f), Box::new(a))),
                },
                _ => None,
            },
        }
    }
}

/// The reduction of `t` terminates.
pub open spec fn reduces(t: DeBruijnTerm) -> bool {
    exists|fuel: nat| (#[trigger] reduce_fuel(t, fuel)) is Some
}

/// The normal form that the reduction of `t` reaches.
pub open spec fn reduct(t: DeBruijnTerm) -> DeBruijnTerm
    recommends
        reduces(t),
{
    reduce_fuel(t, choose|fuel: nat| (#[trigger] reduce_fuel(t, fuel)) is Some)->0
}

/// No redex anywhere: no application has an abstraction in function position.
pub open spec fn is_normal(t: DeBruijnTerm) -> bool
    decreases t,
{
    match t {
        DeBruijnTerm::Var(_) => true,
        DeBruijnTerm::Lam(body) => is_normal(*body),
        DeBruijnTerm::App(func, argm) => !(*func is Lam) && is_normal(*func) && is_normal(*argm),
    }
}

/// Nesting depth of the tree.
pub open spec fn height(t: DeBruijnTerm) -> nat
    decreases t,
{
    match t {
        DeBruijnTerm::Var(_) => 1,
        DeBruijnTerm::Lam(body) => height(*body) + 1,
        DeBruijnTerm::App(func, argm) => {
            let f = height(*func);
            let a = height(*argm);
            (if f > a { f } else { a }) + 1
        },
    }
}

/// More fuel does not change a reduction that already finished.
proof fn lemma_fuel_mono(t: DeBruijnTerm, fuel: nat, more: nat)
    requires
        reduce_fuel(t, fuel) is Some,
        fuel <= more,
    ensures
        reduce_fuel(t, more) == reduce_fuel(t, fuel),
    decreases fuel,
{
    match t {
        DeBruijnTerm::Var(_) => {},
        DeBruijnTerm::Lam(body) => {
            lemma_fuel_mono(*body, (fuel - 1) as nat, (more - 1) as nat);
        },
        DeBruijnTerm::App(func, argm) => {
            lemma_fuel_mono(*func, (fuel - 1) as nat, (more - 1) as nat);
            lemma_fuel_mono(*argm, (fuel - 1) as nat, (more - 1) as nat);
            let f = reduce_fuel(*func, (fuel - 1) as nat)->0;
            let a = reduce_fuel(*argm, (fuel - 1) as nat)->0;
            if let DeBruijnTerm::Lam(body) = f {
                lemma_fuel_mono(substituted(*body, 0, a), (fuel - 1) as nat, (more - 1) as nat);
            }
        },
    }
}

/// Two runs that both finish agree, whatever fuel each was given.
proof fn lemma_fuel_agree(t: DeBruijnTerm, f1: nat, f2: nat)
    requires
        reduce_fuel(t, f1) is Some,
        reduce_fuel(t, f2) is Some,
    ensures
        reduce_fuel(t, f1) == reduce_fuel(t, f2),
{
    if f1 <= f2 {
        lemma_fuel_mono(t, f1, f2);
    } else {
        lemma_fuel_mono(t, f2, f1);
    }
}

/// What a finished reduction returns is in normal form.
proof fn lemma_result_normal(t: DeBruijnTerm, fuel: nat)
    requires
        reduce_fuel(t, fuel) is Some,
    ensures
        is_normal(reduce_fuel(t, fuel)->0),
    decreases fuel,
{
    match t {
        DeBruijnTerm::Var(_) => {},
        DeBruijnTerm::Lam(body) => lemma_result_normal(*body, (fuel - 1) as nat),
        DeBruijnTerm::App(func, argm) => {
            lemma_result_normal(*func, (fuel - 1) as nat);
            lemma_result_normal(*argm, (fuel - 1) as nat);
            let f = reduce_fuel(*func, (fuel - 1) as nat)->0;
            let a = reduce_fuel(*argm, (fuel - 1) as nat)->0;
            if let DeBruijnTerm::Lam(body) = f {
                lemma_result_normal(substituted(*body, 0, a), (fuel - 1) as nat);
            }
        },
    }
}

/// A term in normal form reduces to itself, given fuel for its height.
proof fn lemma_normal_fixed(t: DeBruijnTerm)
    requires
        is_normal(t),
    ensures
        reduce_fuel(t, height(t)) == Some(t),
    decreases t,
{
    match t {
        DeBruijnTerm::Var(_) => {},
        DeBruijnTerm::Lam(body) => lemma_normal_fixed(*body),
        DeBruijnTerm::App(func, argm) => {
            lemma_normal_fixed(*func);
            lemma_normal_fixed(*argm);
            let h = (height(t) - 1) as nat;
            lemma_fuel_mono(*func, height(*func), h);
            lemma_fuel_mono(*argm, height(*argm), h);
        },
    }
}

/// Any run with fuel that finishes shows that the reduction terminates, and
/// gives its normal form.
pub proof fn lemma_reduct_is(t: DeBruijnTerm, fuel: nat)
    requires
        reduce_fuel(t, fuel) is Some,
    ensures
        reduces(t),
        reduct(t) == reduce_fuel(t, fuel)->0,
{
    let c = choose|f: nat| (#[trigger] reduce_fuel(t, f)) is Some;
    lemma_fuel_agree(t, fuel, c);
}

/// Full reduction is idempotent: the normal form of a terminating term
/// reduces again, to itself.
pub proof fn lemma_reduce_idempotent(t: DeBruijnTerm)
    requires
        reduces(t),
    ensures
        reduces(reduct(t)),
        reduct(reduct(t)) == reduct(t),
{
    let fuel = choose|f: nat| (#[trigger] reduce_fuel(t, f)) is Some;
    let n = reduct(t);
    lemma_result_normal(t, fuel);
    lemma_normal_fixed(n);
    lemma_reduct_is(n, height(n));
}

impl DeBruijnTerm {
    /// Reduces the term to normal form: both sides of an application first,
    /// then any redex that this exposes.
    pub fn beta_reduce(&self) -> (r: DeBruijnTerm)
        requires
            reduces(*self),
        ensures
            r == reduct(*self),
    {
        let ghost fuel = choose|f: nat| (#[trigger] reduce_fuel(*self, f)) is Some;
        self.reduce_with(Ghost(fuel))
    }

    /// The reduction of the term, whose run with `fuel` finishes.
    fn reduce_with(&self, Ghost(fuel): Ghost<nat>) -> (r: DeBruijnTerm)
        requires
            reduce_fuel(*self, fuel) is Some,
        ensures
            r == reduce_fuel(*self, fuel)->0,
        decreases fuel,
    {
        match self {
            DeBruijnTerm::Lam(body) => DeBruijnTerm::Lam(
                Box::new(body.reduce_with(Ghost((fuel - 1) as nat))),
            ),
            DeBruijnTerm::App(func, argm) => {
                let reduced_func = func.reduce_with(Ghost((fuel - 1) as nat));
                let reduced_argm = argm.reduce_with(Ghost((fuel - 1) as nat));
                if let DeBruijnTerm::Lam(body) = reduced_func {
                    body.substitute(0, &reduced_argm).reduce_with(Ghost((fuel - 1) as nat))
                } else {
                    DeBruijnTerm::App(Box::new(reduced_func), Box::new(reduced_argm))
                }
            },
            DeBruijnTerm::Var(index) => DeBruijnTerm::Var(*index),
        }
    }

    /// Puts `replacement` in place of the variable `index`, lowering the
    /// indices above it by one.
    pub fn substitute(&self, index: usize, replacement: &DeBruijnTerm) -> (r: DeBruijnTerm)
        requires
            subst_fits(*self, *replacement),
        ensures
            r == substituted(*self, index as int, *replacement),
        decreases self,
    {
        match self {
            DeBruijnTerm::Var(i) => {
                if *i == index {
                    replacement.clone()
                } else if *i > index {
                    DeBruijnTerm::Var(*i - 1)
                } else {
                    DeBruijnTerm::Var(*i)
                }
            },
            DeBruijnTerm::Lam(body) => {
                let lifted = replacement.shift(1);
                if index == usize::MAX {
                    proof {
                        lemma_substitute_above_all(**body, index + 1, lifted);
                    }
                    self.clone()
                } else {
                    DeBruijnTerm::Lam(Box::new(body.substitute(index + 1, &lifted)))
                }
            },
            DeBruijnTerm::App(func, argm) => DeBruijnTerm::App(
                Box::new(func.substitute(index, replacement)),
                Box::new(argm.substitute(index, replacement)),
            ),
        }
    }

    /// Adds `amount` to every free index of the term.
    pub fn shift(&self, amount: isize) -> (r: DeBruijnTerm)
        requires
            shift_fits(*self, amount as int, 0),
        ensures
            r == shifted(*self, amount as int, 0),
    {
        self.shift_above(amount, 0)
    }

    /// Adds `amount` to every index at or above `cutoff`, counting the cutoff
    /// up by one under each abstraction.
    pub fn shift_above(&self, amount: isize, cutoff: usize) -> (r: DeBruijnTerm)
        requires
            shift_fits(*self, amount as int, cutoff as int),
        ensures
            r == shifted(*self, amount as int, cutoff as int),
        decreases self,
    {
        match self {
            DeBruijnTerm::Var(i) => {
                if *i >= cutoff {
                    if amount >= 0 {
                        DeBruijnTerm::Var(*i + amount as usize)
                    } else {
                        let down: usize = (-(amount + 1)) as usize + 1;
                        DeBruijnTerm::Var(*i - down)
                    }
                } else {
                    DeBruijnTerm::Var(*i)
                }
            },
            DeBruijnTerm::Lam(body) => {
                if cutoff == usize::MAX {
                    proof {
                        lemma_shift_above_all(**body, amount as int, cutoff + 1);
                    }
                    self.clone()
                } else {
                    DeBruijnTerm::Lam(Box::new(body.shift_above(amount, cutoff + 1)))
                }
            },
            DeBruijnTerm::App(func, argm) => DeBruijnTerm::App(
                Box::new(func.shift_above(amount, cutoff)),
                Box::new(argm.shift_above(amount, cutoff)),
            ),
        }
    }
}

} // verus!
