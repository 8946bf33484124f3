use crate::kernel::KernelError;
use crate::term::Term;
use vstd::prelude::*;
use vstd::string::*;

verus! {

/// The decimal digit `d` as text.
pub open spec fn spec_digit(d: nat) -> Seq<char> {
    if d == 0 {
        "0"@
    } else if d == 1 {
        "1"@
    } else if d == 2 {
        "2"@
    } else if d == 3 {
        "3"@
    } else if d == 4 {
        "4"@
    } else if d == 5 {
        "5"@
    } else if d == 6 {
        "6"@
    } else if d == 7 {
        "7"@
    } else if d == 8 {
        "8"@
    } else {
        "9"@
    }
}

/// The decimal notation of `n`.
pub open spec fn spec_decimal(n: nat) -> Seq<char>
    decreases n,
{
    if n < 10 {
        spec_digit(n)
    } else {
        spec_decimal(n / 10) + spec_digit(n % 10)
    }
}

fn push_digit(s: &mut String, d: u64)
    requires
        d < 10,
    ensures
        final(s)@ == old(s)@ + spec_digit(d as nat),
{
    if d == 0 {
        s.append("0");
    } else if d == 1 {
        s.append("1");
    } else if d == 2 {
        s.append("2");
    } else if d == 3 {
        s.append("3");
    } else if d == 4 {
        s.append("4");
    } else if d == 5 {
        s.append("5");
    } else if d == 6 {
        s.append("6");
    } else if d == 7 {
        s.append("7");
    } else if d == 8 {
        s.append("8");
    } else {
        s.append("9");
    }
}

fn push_decimal(s: &mut String, n: u64)
    ensures
        final(s)@ == old(s)@ + spec_decimal(n as nat),
    decreases n,
{
    if n >= 10 {
        push_decimal(s, n / 10);
    }
    push_digit(s, n % 10);
    proof {
        if n >= 10 {
            assert(old(s)@ + spec_decimal((n / 10) as nat) + spec_digit((n % 10) as nat) =~= old(
                s,
            )@ + spec_decimal(n as nat));
        } else {
            assert(n % 10 == n);
        }
    }
}

/// The text that `{:?}` gives for a term.
pub open spec fn spec_term_text(t: Term) -> Seq<char>
    decreases t,
{
    match t {
        Term::Var(i) => "Var("@ + spec_decimal(i as nat) + ")"@,
        Term::Universe(n) => "Universe("@ + spec_decimal(n as nat) + ")"@,
        Term::Prop => "Prop"@,
        Term::Pi(a, b) => "Pi("@ + spec_term_text(*a) + ", "@ + spec_term_text(*b) + ")"@,
        Term::Lam(a, b) => "Lam("@ + spec_term_text(*a) + ", "@ + spec_term_text(*b) + ")"@,
        Term::App(a, b) => "App("@ + spec_term_text(*a) + ", "@ + spec_term_text(*b) + ")"@,
        Term::Sigma(a, b) => "Sigma("@ + spec_term_text(*a) + ", "@ + spec_term_text(*b) + ")"@,
        Term::Pair(x, a, b) => "Pair("@ + spec_term_text(*x) + ", "@ + spec_term_text(*a) + ", "@
            + spec_term_text(*b) + ")"@,
        Term::Fst(p) => "Fst("@ + spec_term_text(*p) + ")"@,
        Term::Snd(p) => "Snd("@ + spec_term_text(*p) + ")"@,
        Term::Ind(i) => "Ind("@ + spec_decimal(i as nat) + ")"@,
        Term::Constr(i, j) => "Constr("@ + spec_decimal(i as nat) + ", "@ + spec_decimal(j as nat)
            + ")"@,
        Term::Rec(i, s) => "Rec("@ + spec_decimal(i as nat) + ", "@ + spec_decimal(s as nat) + ")"@,
        Term::Axiom(i) => "Axiom("@ + spec_decimal(i as nat) + ")"@,
    }
}

fn push_term_text(s: &mut String, t: &Term)
    ensures
        final(s)@ == old(s)@ + spec_term_text(*t),
    decreases t,
{
    let ghost s0 = s@;
    match t {
        Term::Var(i) => {
            s.append("Var(");
            push_decimal(s, *i as u64);
            s.append(")");
        },
        Term::Universe(n) => {
            s.append("Universe(");
            push_decimal(s, *n as u64);
            s.append(")");
        },
        Term::Prop => {
            s.append("Prop");
        },
        Term::Pi(a, b) => {
            s.append("Pi(");
            push_term_text(s, a);
            s.append(", ");
            push_term_text(s, b);
            s.append(")");
        },
        Term::Lam(a, b) => {
            s.append("Lam(");
            push_term_text(s, a);
            s.append(", ");
            push_term_text(s, b);
            s.append(")");
        },
        Term::App(a, b) => {
            s.append("App(");
            push_term_text(s, a);
            s.append(", ");
            push_term_text(s, b);
            s.append(")");
        },
        Term::Sigma(a, b) => {
            s.append("Sigma(");
            push_term_text(s, a);
            s.append(", ");
            push_term_text(s, b);
            s.append(")");
        },
        Term::Pair(x, a, b) => {
            s.append("Pair(");
            push_term_text(s, x);
            s.append(", ");
            push_term_text(s, a);
            s.append(", ");
            push_term_text(s, b);
            s.append(")");
        },
        Term::Fst(p) => {
            s.append("Fst(");
            push_term_text(s, p);
            s.append(")");
        },
        Term::Snd(p) => {
            s.append("Snd(");
            push_term_text(s, p);
            s.append(")");
        },
        Term::Ind(i) => {
            s.append("Ind(");
            push_decimal(s, *i as u64);
            s.append(")");
        },
        Term::Constr(i, j) => {
            s.append("Constr(");
            push_decimal(s, *i as u64);
            s.append(", ");
            push_decimal(s, *j as u64);
            s.append(")");
        },
        Term::Rec(i, n) => {
            s.append("Rec(");
            push_decimal(s, *i as u64);
            s.append(", ");
            push_decimal(s, *n as u64);
            s.append(")");
        },
        Term::Axiom(i) => {
            s.append("Axiom(");
            push_decimal(s, *i as u64);
            s.append(")");
        },
    }
    assert(s@ =~= s0 + spec_term_text(*t));
}

/// `"constructor i.j"`.
pub open spec fn spec_ctor_text(i: usize, j: usize) -> Seq<char> {
    "constructor "@ + spec_decimal(i as nat) + "."@ + spec_decimal(j as nat)
}

/// The text that reports an error.
pub open spec fn spec_message(e: KernelError) -> Seq<char> {
    match e {
        KernelError::UnboundVariable(i) => "unbound variable "@ + spec_decimal(i as nat),
        KernelError::NotAFunction => "application of a non-function"@,
        KernelError::PairNotSigma => "pair annotated with a non-Σ type"@,
        KernelError::FstOfNonPair => "fst of a non-pair"@,
        KernelError::SndOfNonPair => "snd of a non-pair"@,
        KernelError::UnknownInductive(i) => "unknown inductive "@ + spec_decimal(i as nat),
        KernelError::UnknownConstructor(i, j) => "unknown constructor "@ + spec_decimal(i as nat)
            + "."@ + spec_decimal(j as nat),
        KernelError::LargeElimination => "large elimination from a non-subsingleton Prop"@,
        KernelError::UnknownAxiom(i) => "unknown axiom "@ + spec_decimal(i as nat),
        KernelError::ExpectedType => "expected a type"@,
        KernelError::TypeMismatch(a, b) => "type mismatch: inferred "@ + spec_term_text(a)
            + ", expected "@ + spec_term_text(b),
        KernelError::IndexArityMismatch(i, j) => spec_ctor_text(i, j) + " index arity mismatch"@,
        KernelError::ArgumentSortTooLarge(i, j, s, t) => spec_ctor_text(i, j) + " argument sort "@
            + spec_decimal(s as nat) + " exceeds inductive sort "@ + spec_decimal(t as nat),
        KernelError::NotStrictlyPositive(i, j, k) => spec_ctor_text(i, j)
            + " is not strictly positive in mutually-recursive inductive "@ + spec_decimal(
            k as nat,
        ),
        KernelError::NestedRecursion(i, j, k) => spec_ctor_text(i, j)
            + " uses unsupported higher-order or nested recursion of inductive "@ + spec_decimal(
            k as nat,
        ),
        KernelError::ParamsNotApplied(i, j) => spec_ctor_text(i, j)
            + " recursive occurrence is not fully applied to the parameters"@,
        KernelError::NonUniformParam(i, j, p) => spec_ctor_text(i, j)
            + " recursive occurrence does not reuse parameter "@ + spec_decimal(p as nat)
            + " uniformly"@,
        KernelError::AxiomNotProp(i) => "axiom "@ + spec_decimal(i as nat)
            + " type is not a proposition"@,
        KernelError::Malformed => "malformed term: evaluation failed or ran out of budget"@,
    }
}

fn push_ctor_text(s: &mut String, i: usize, j: usize)
    ensures
        final(s)@ == old(s)@ + spec_ctor_text(i, j),
{
    let ghost s0 = s@;
    s.append("constructor ");
    push_decimal(s, i as u64);
    s.append(".");
    push_decimal(s, j as u64);
    assert(s@ =~= s0 + spec_ctor_text(i, j));
}

impl KernelError {
    /// The text that reports the error.
    pub fn message(&self) -> (r: String)
        ensures
            r@ == spec_message(*self),
    {
        let mut s = String::new();
        match self {
            KernelError::UnboundVariable(i) => {
                s.append("unbound variable ");
                push_decimal(&mut s, *i as u64);
            },
            KernelError::NotAFunction => s.append("application of a non-function"),
            KernelError::PairNotSigma => s.append("pair annotated with a non-Σ type"),
            KernelError::FstOfNonPair => s.append("fst of a non-pair"),
            KernelError::SndOfNonPair => s.append("snd of a non-pair"),
            KernelError::UnknownInductive(i) => {
                s.append("unknown inductive ");
                push_decimal(&mut s, *i as u64);
            },
            KernelError::UnknownConstructor(i, j) => {
                s.append("unknown constructor ");
                push_decimal(&mut s, *i as u64);
                s.append(".");
                push_decimal(&mut s, *j as u64);
            },
            KernelError::LargeElimination => s.append(
                "large elimination from a non-subsingleton Prop",
            ),
            KernelError::UnknownAxiom(i) => {
                s.append("unknown axiom ");
                push_decimal(&mut s, *i as u64);
            },
            KernelError::ExpectedType => s.append("expected a type"),
            KernelError::TypeMismatch(a, b) => {
                s.append("type mismatch: inferred ");
                push_term_text(&mut s, a);
                s.append(", expected ");
                push_term_text(&mut s, b);
            },
            KernelError::IndexArityMismatch(i, j) => {
                push_ctor_text(&mut s, *i, *j);
                s.append(" index arity mismatch");
            },
            KernelError::ArgumentSortTooLarge(i, j, so, t) => {
                push_ctor_text(&mut s, *i, *j);
                s.append(" argument sort ");
                push_decimal(&mut s, *so as u64);
                s.append(" exceeds inductive sort ");
                push_decimal(&mut s, *t as u64);
            },
            KernelError::NotStrictlyPositive(i, j, k) => {
                push_ctor_text(&mut s, *i, *j);
                s.append(" is not strictly positive in mutually-recursive inductive ");
                push_decimal(&mut s, *k as u64);
            },
            KernelError::NestedRecursion(i, j, k) => {
                push_ctor_text(&mut s, *i, *j);
                s.append(" uses unsupported higher-order or nested recursion of inductive ");
                push_decimal(&mut s, *k as u64);
            },
            KernelError::ParamsNotApplied(i, j) => {
                push_ctor_text(&mut s, *i, *j);
                s.append(" recursive occurrence is not fully applied to the parameters");
            },
            KernelError::NonUniformParam(i, j, p) => {
                push_ctor_text(&mut s, *i, *j);
                s.append(" recursive occurrence does not reuse parameter ");
                push_decimal(&mut s, *p as u64);
                s.append(" uniformly");
            },
            KernelError::AxiomNotProp(i) => {
                s.append("axiom ");
                push_decimal(&mut s, *i as u64);
                s.append(" type is not a proposition");
            },
            KernelError::Malformed => s.append(
                "malformed term: evaluation failed or ran out of budget",
            ),
        }
        assert(s@ =~= spec_message(*self));
        s
    }
}

} // verus!
