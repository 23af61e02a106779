//! The host-visible value of a slot in the engine's term store.
//!
//! A slot holds an unbound variable, an integer, an atom, or a compound
//! term whose arguments are again such values.  A list cell is the compound
//! term with the list functor and two arguments; the empty list is the
//! reserved atom for it.  Floating-point terms are left to the engine and do
//! not appear in the model.

use vstd::prelude::*;

verus! {

/// The value stored in one slot of the term store, as the host observes it.
#[derive(Debug)]
pub enum TermValue {
    /// An unbound variable; the number records creation order.
    Var(u64),
    /// An integer term.
    Int(i64),
    /// An atom, identified by its atom-table identifier.
    Atom(u64),
    /// A compound term: the functor's atom identifier and the arguments.
    Compound(u64, Args),
}

/// The argument list of a compound term.
#[derive(Debug)]
pub enum Args {
    Nil,
    Cons(Box<TermValue>, Box<Args>),
}

/// The largest arity the engine accepts for a compound term.
pub const MAX_ARITY: usize = 255;

impl Args {
    /// The arguments as a mathematical sequence.
    pub open spec fn seq(self) -> Seq<TermValue>
        decreases self,
    {
        match self {
            Args::Nil => Seq::empty(),
            Args::Cons(head, tail) => seq![*head] + tail.seq(),
        }
    }

    /// Every argument satisfies the structural invariant.
    pub open spec fn all_wf(self) -> bool
        decreases self,
    {
        match self {
            Args::Nil => true,
            Args::Cons(head, tail) => head.wf() && tail.all_wf(),
        }
    }

    /// Every atom identifier in any argument is one of `1..=n`.
    pub open spec fn all_ids_below(self, n: int) -> bool
        decreases self,
    {
        match self {
            Args::Nil => true,
            Args::Cons(head, tail) => head.ids_below(n) && tail.all_ids_below(n),
        }
    }
}

impl TermValue {
    /// Structural invariant: every compound term has between one and
    /// [`MAX_ARITY`] arguments.  A would-be compound of arity zero is an
    /// atom instead.
    pub open spec fn wf(self) -> bool
        decreases self,
    {
        match self {
            TermValue::Var(_) => true,
            TermValue::Int(_) => true,
            TermValue::Atom(_) => true,
            TermValue::Compound(_, args) => {
                &&& 1 <= args.seq().len() <= MAX_ARITY
                &&& args.all_wf()
            },
        }
    }

    /// Every atom identifier in the value is one of `1..=n`; used to tie
    /// stored values to the atom table.
    pub open spec fn ids_below(self, n: int) -> bool
        decreases self,
    {
        match self {
            TermValue::Var(_) => true,
            TermValue::Int(_) => true,
            TermValue::Atom(a) => 1 <= a <= n,
            TermValue::Compound(f, args) => 1 <= f <= n && args.all_ids_below(n),
        }
    }
}

/// The sequence `c0, c0 + 1, ...` of `n` fresh unbound variables.
pub open spec fn fresh_vars(c0: u64, n: nat) -> Seq<TermValue> {
    Seq::new(n, |i: int| TermValue::Var((c0 + i) as u64))
}

/// A list cell with the given head and tail, as a term value; the functor
/// identifier is supplied by the caller.
pub open spec fn cell_value(f: u64, h: TermValue, tl: TermValue) -> TermValue {
    TermValue::Compound(
        f,
        Args::Cons(Box::new(h), Box::new(Args::Cons(Box::new(tl), Box::new(Args::Nil)))),
    )
}

/// What a cell built by [`cell_value`] looks like.
pub proof fn lemma_cell_value(f: u64, h: TermValue, tl: TermValue)
    ensures
        cell_value(f, h, tl) matches TermValue::Compound(g, args) && g == f && args.seq()
            == seq![h, tl],
        h.wf() && tl.wf() ==> cell_value(f, h, tl).wf(),
        forall|n: int|
            1 <= f <= n && h.ids_below(n) && tl.ids_below(n) ==> #[trigger] cell_value(
                f,
                h,
                tl,
            ).ids_below(n),
{
    reveal_with_fuel(Args::seq, 4);
    let c = cell_value(f, h, tl);
    let a2 = Args::Cons(Box::new(tl), Box::new(Args::Nil));
    let a1 = Args::Cons(Box::new(h), Box::new(a2));
    assert(c->1 == a1);
    assert(a1.seq() =~= seq![h, tl]);
    assert(Args::Nil.all_wf());
    assert(a2.all_wf() == (tl.wf() && Args::Nil.all_wf()));
    assert(a1.all_wf() == (h.wf() && a2.all_wf()));
    assert forall|n: int|
        1 <= f <= n && h.ids_below(n) && tl.ids_below(n) implies #[trigger] cell_value(
        f,
        h,
        tl,
    ).ids_below(n) by {
        assert(Args::Nil.all_ids_below(n));
        assert(a2.all_ids_below(n) == (tl.ids_below(n) && Args::Nil.all_ids_below(n)));
        assert(a1.all_ids_below(n) == (h.ids_below(n) && a2.all_ids_below(n)));
    }
}

/// Identifier bounds widen: a value that speaks only of atoms below `n1`
/// also speaks only of atoms below any larger bound.
pub proof fn lemma_ids_below_widen(v: TermValue, n1: int, n2: int)
    requires
        v.ids_below(n1),
        n1 <= n2,
    ensures
        v.ids_below(n2),
    decreases v,
{
    match v {
        TermValue::Compound(_, args) => {
            lemma_args_ids_below_widen(args, n1, n2);
        },
        _ => {},
    }
}

/// Identifier bounds widen, for argument lists.
pub proof fn lemma_args_ids_below_widen(a: Args, n1: int, n2: int)
    requires
        a.all_ids_below(n1),
        n1 <= n2,
    ensures
        a.all_ids_below(n2),
    decreases a,
{
    match a {
        Args::Cons(head, tail) => {
            lemma_ids_below_widen(*head, n1, n2);
            lemma_args_ids_below_widen(*tail, n1, n2);
        },
        Args::Nil => {},
    }
}

/// Identifier bounds widen, pointwise over a store of values.
pub proof fn lemma_ids_below_widen_all(ts: Seq<TermValue>, n1: int, n2: int)
    requires
        forall|i: int| 0 <= i < ts.len() ==> (#[trigger] ts[i]).ids_below(n1),
        n1 <= n2,
    ensures
        forall|i: int| 0 <= i < ts.len() ==> (#[trigger] ts[i]).ids_below(n2),
{
    assert forall|i: int| 0 <= i < ts.len() implies (#[trigger] ts[i]).ids_below(n2) by {
        lemma_ids_below_widen(ts[i], n1, n2);
    }
}

/// Structural equality of two term values.
pub fn term_value_eq(a: &TermValue, b: &TermValue) -> (r: bool)
    ensures
        r <==> a == b,
    decreases a,
{
    match (a, b) {
        (TermValue::Var(x), TermValue::Var(y)) => *x == *y,
        (TermValue::Int(x), TermValue::Int(y)) => *x == *y,
        (TermValue::Atom(x), TermValue::Atom(y)) => *x == *y,
        (TermValue::Compound(f, xs), TermValue::Compound(g, ys)) => *f == *g && args_eq(xs, ys),
        _ => false,
    }
}

/// Structural equality of two argument lists.
pub fn args_eq(a: &Args, b: &Args) -> (r: bool)
    ensures
        r <==> a == b,
    decreases a,
{
    match (a, b) {
        (Args::Nil, Args::Nil) => true,
        (Args::Cons(x, xs), Args::Cons(y, ys)) => term_value_eq(&**x, &**y) && args_eq(
            &**xs,
            &**ys,
        ),
        _ => false,
    }
}

/// A deep copy of a term value.
pub fn clone_value(a: &TermValue) -> (r: TermValue)
    ensures
        r == a,
    decreases a,
{
    match a {
        TermValue::Var(x) => TermValue::Var(*x),
        TermValue::Int(x) => TermValue::Int(*x),
        TermValue::Atom(x) => TermValue::Atom(*x),
        TermValue::Compound(f, args) => TermValue::Compound(*f, clone_args(args)),
    }
}

/// A deep copy of an argument list.
pub fn clone_args(a: &Args) -> (r: Args)
    ensures
        r == a,
    decreases a,
{
    match a {
        Args::Nil => Args::Nil,
        Args::Cons(head, tail) => Args::Cons(
            Box::new(clone_value(&**head)),
            Box::new(clone_args(&**tail)),
        ),
    }
}

/// The number of arguments in the list.
pub fn args_len(a: &Args) -> (n: usize)
    requires
        a.seq().len() <= usize::MAX,
    ensures
        n == a.seq().len(),
    decreases a,
{
    match a {
        Args::Nil => 0,
        Args::Cons(_, tail) => 1 + args_len(&**tail),
    }
}

/// Builds an argument list from a vector, consuming it.
pub fn args_from_vec(v: Vec<TermValue>) -> (r: Args)
    ensures
        r.seq() == v@,
{
    let mut v = v;
    let ghost full: Seq<TermValue> = v@;
    let mut out = Args::Nil;
    proof {
        assert(out.seq() =~= full.subrange(v@.len() as int, full.len() as int));
    }
    while v.len() > 0
        invariant
            v@.len() <= full.len(),
            v@ == full.subrange(0, v@.len() as int),
            out.seq() == full.subrange(v@.len() as int, full.len() as int),
        decreases v@.len(),
    {
        let x = match v.pop() {
            Some(x) => x,
            None => {
                proof {
                    assert(false);
                }
                TermValue::Var(0)
            },
        };
        out = Args::Cons(Box::new(x), Box::new(out));
        proof {
            assert(v@ =~= full.subrange(0, v@.len() as int));
            assert(out.seq() =~= full.subrange(v@.len() as int, full.len() as int));
        }
    }
    proof {
        assert(out.seq() =~= full);
    }
    out
}

/// The `i`-th argument of the list, as a reference.
pub fn args_index(a: &Args, i: usize) -> (r: &TermValue)
    requires
        i < a.seq().len(),
    ensures
        r == a.seq()[i as int],
    decreases a,
{
    match a {
        Args::Nil => {
            proof {
                assert(false);
            }
            args_index(a, i)
        },
        Args::Cons(head, tail) => {
            if i == 0 {
                &**head
            } else {
                let r = args_index(&**tail, i - 1);
                proof {
                    assert(a.seq()[i as int] == tail.seq()[i - 1 as int]);
                }
                r
            }
        },
    }
}

} // verus!
