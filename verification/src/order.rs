//! The engine's standard order of terms.
//!
//! Terms are ordered by category first (variables, then integers, then
//! atoms, then compound terms), atoms by their text, and compound terms by
//! arity, then functor text, then arguments left to right.  The order is a
//! strict total order on well-formed values; the lemmas at the end of this
//! module state reflexivity, antisymmetry and transitivity.

use core::cmp::Ordering;
use vstd::prelude::*;

use crate::value::Args;
use crate::value::TermValue;

verus! {

/// The bytes of an ASCII character sequence.
pub open spec fn ascii_bytes(s: Seq<char>) -> Seq<u8> {
    Seq::new(s.len(), |i: int| s[i] as u8)
}

/// Lexicographic order on byte sequences; a proper prefix comes first.
pub open spec fn lex_cmp_bytes(a: Seq<u8>, b: Seq<u8>) -> Ordering
    decreases a.len(),
{
    if a.len() == 0 && b.len() == 0 {
        Ordering::Equal
    } else if a.len() == 0 {
        Ordering::Less
    } else if b.len() == 0 {
        Ordering::Greater
    } else if a[0] < b[0] {
        Ordering::Less
    } else if a[0] > b[0] {
        Ordering::Greater
    } else {
        lex_cmp_bytes(a.drop_first(), b.drop_first())
    }
}

/// The opposite of an ordering outcome.
pub open spec fn flip(o: Ordering) -> Ordering {
    match o {
        Ordering::Less => Ordering::Greater,
        Ordering::Equal => Ordering::Equal,
        Ordering::Greater => Ordering::Less,
    }
}

/// Two byte sequences compare equal exactly when they are equal.
pub proof fn lemma_lex_eq(a: Seq<u8>, b: Seq<u8>)
    ensures
        lex_cmp_bytes(a, b) == Ordering::Equal <==> a == b,
    decreases a.len(),
{
    if a.len() == 0 && b.len() == 0 {
        assert(a =~= b);
    } else if a.len() == 0 || b.len() == 0 {
    } else if a[0] == b[0] {
        lemma_lex_eq(a.drop_first(), b.drop_first());
        if lex_cmp_bytes(a, b) == Ordering::Equal {
            assert(a =~= seq![a[0]] + a.drop_first());
            assert(b =~= seq![b[0]] + b.drop_first());
        } else {
            if a == b {
                assert(a.drop_first() =~= b.drop_first());
            }
        }
    } else {
        if a == b {
            assert(a[0] == b[0]);
        }
    }
}

/// Swapping the operands flips the outcome.
pub proof fn lemma_lex_flip(a: Seq<u8>, b: Seq<u8>)
    ensures
        lex_cmp_bytes(b, a) == flip(lex_cmp_bytes(a, b)),
    decreases a.len(),
{
    if a.len() == 0 || b.len() == 0 {
    } else if a[0] == b[0] {
        lemma_lex_flip(a.drop_first(), b.drop_first());
    }
}

/// The order is transitive in its strict part.
pub proof fn lemma_lex_trans(a: Seq<u8>, b: Seq<u8>, c: Seq<u8>)
    requires
        lex_cmp_bytes(a, b) == Ordering::Less,
        lex_cmp_bytes(b, c) == Ordering::Less,
    ensures
        lex_cmp_bytes(a, c) == Ordering::Less,
    decreases a.len(),
{
    if a.len() == 0 {
    } else if a[0] == b[0] && b[0] == c[0] {
        lemma_lex_trans(a.drop_first(), b.drop_first(), c.drop_first());
    }
}

/// Comparing two sequences with an equal prefix reduces to comparing what
/// follows the prefix.
pub proof fn lemma_lex_prefix(a: Seq<u8>, b: Seq<u8>, i: int)
    requires
        0 <= i <= a.len(),
        i <= b.len(),
        forall|j: int| 0 <= j < i ==> a[j] == b[j],
    ensures
        lex_cmp_bytes(a, b) == lex_cmp_bytes(a.skip(i), b.skip(i)),
    decreases i,
{
    if i > 0 {
        lemma_lex_prefix(a.drop_first(), b.drop_first(), i - 1);
        assert(a.drop_first().skip(i - 1) =~= a.skip(i));
        assert(b.drop_first().skip(i - 1) =~= b.skip(i));
    } else {
        assert(a.skip(0) =~= a);
        assert(b.skip(0) =~= b);
    }
}

/// Lexicographic comparison of two ASCII strings.
pub fn lex_cmp_str(a: &str, b: &str) -> (o: Ordering)
    requires
        vstd::utf8::is_ascii_chars(a@),
        vstd::utf8::is_ascii_chars(b@),
    ensures
        o == lex_cmp_bytes(ascii_bytes(a@), ascii_bytes(b@)),
{
    broadcast use vstd::string::is_ascii_spec_bytes;

    let alen = a.unicode_len();
    let blen = b.unicode_len();
    let ghost abytes = ascii_bytes(a@);
    let ghost bbytes = ascii_bytes(b@);
    let mut i: usize = 0;
    while i < alen && i < blen
        invariant
            vstd::utf8::is_ascii_chars(a@),
            vstd::utf8::is_ascii_chars(b@),
            alen == a@.len(),
            blen == b@.len(),
            abytes == ascii_bytes(a@),
            bbytes == ascii_bytes(b@),
            i <= alen,
            i <= blen,
            forall|j: int| 0 <= j < i ==> abytes[j] == bbytes[j],
        decreases alen - i,
    {
        let ca = a.get_ascii(i);
        let cb = b.get_ascii(i);
        if ca < cb {
            proof {
                lemma_lex_prefix(abytes, bbytes, i as int);
                assert(abytes.skip(i as int)[0] == ca);
                assert(bbytes.skip(i as int)[0] == cb);
            }
            return Ordering::Less;
        }
        if ca > cb {
            proof {
                lemma_lex_prefix(abytes, bbytes, i as int);
                assert(abytes.skip(i as int)[0] == ca);
                assert(bbytes.skip(i as int)[0] == cb);
            }
            return Ordering::Greater;
        }
        proof {
            assert(abytes[i as int] == ca && bbytes[i as int] == cb);
        }
        i = i + 1;
    }
    proof {
        lemma_lex_prefix(abytes, bbytes, i as int);
        assert(abytes.skip(i as int).len() == alen - i);
        assert(bbytes.skip(i as int).len() == blen - i);
    }
    if alen == blen {
        Ordering::Equal
    } else if alen < blen {
        Ordering::Less
    } else {
        Ordering::Greater
    }
}

/// The category of a term in the standard order: variables first, then
/// integers, then atoms, then compound terms.
pub open spec fn rank(v: TermValue) -> int {
    match v {
        TermValue::Var(_) => 0,
        TermValue::Int(_) => 1,
        TermValue::Atom(_) => 2,
        TermValue::Compound(_, _) => 3,
    }
}

/// The text of an atom in a table of names; identifiers count from one.
pub open spec fn atom_text(names: Seq<Seq<u8>>, id: u64) -> Seq<u8> {
    if 1 <= id <= names.len() {
        names[id as int - 1]
    } else {
        Seq::empty()
    }
}

/// No two table entries carry the same text: interning keeps names unique.
pub open spec fn names_distinct(names: Seq<Seq<u8>>) -> bool {
    forall|i: int, j: int| 0 <= i < j < names.len() ==> names[i] != names[j]
}

/// Three-way comparison of two mathematical integers.
pub open spec fn cmp_int(x: int, y: int) -> Ordering {
    if x < y {
        Ordering::Less
    } else if x > y {
        Ordering::Greater
    } else {
        Ordering::Equal
    }
}

/// The standard order of two term values, given the atom table's names.
pub open spec fn cmp_value(names: Seq<Seq<u8>>, a: TermValue, b: TermValue) -> Ordering
    decreases a,
{
    if rank(a) != rank(b) {
        cmp_int(rank(a), rank(b))
    } else {
        match (a, b) {
            (TermValue::Var(x), TermValue::Var(y)) => cmp_int(x as int, y as int),
            (TermValue::Int(x), TermValue::Int(y)) => cmp_int(x as int, y as int),
            (TermValue::Atom(x), TermValue::Atom(y)) => lex_cmp_bytes(
                atom_text(names, x),
                atom_text(names, y),
            ),
            (TermValue::Compound(f, xs), TermValue::Compound(g, ys)) => {
                if xs.seq().len() != ys.seq().len() {
                    cmp_int(xs.seq().len() as int, ys.seq().len() as int)
                } else if lex_cmp_bytes(atom_text(names, f), atom_text(names, g))
                    != Ordering::Equal {
                    lex_cmp_bytes(atom_text(names, f), atom_text(names, g))
                } else {
                    cmp_args(names, xs, ys)
                }
            },
            _ => Ordering::Equal,
        }
    }
}

/// The standard order of two argument lists, left to right.
pub open spec fn cmp_args(names: Seq<Seq<u8>>, xs: Args, ys: Args) -> Ordering
    decreases xs,
{
    match (xs, ys) {
        (Args::Nil, Args::Nil) => Ordering::Equal,
        (Args::Nil, Args::Cons(_, _)) => Ordering::Less,
        (Args::Cons(_, _), Args::Nil) => Ordering::Greater,
        (Args::Cons(x, xs2), Args::Cons(y, ys2)) => {
            if cmp_value(names, *x, *y) != Ordering::Equal {
                cmp_value(names, *x, *y)
            } else {
                cmp_args(names, *xs2, *ys2)
            }
        },
    }
}

/// Every value compares equal to itself.
pub proof fn lemma_cmp_value_refl(names: Seq<Seq<u8>>, a: TermValue)
    ensures
        cmp_value(names, a, a) == Ordering::Equal,
    decreases a,
{
    match a {
        TermValue::Atom(x) => {
            lemma_lex_eq(atom_text(names, x), atom_text(names, x));
        },
        TermValue::Compound(f, xs) => {
            lemma_lex_eq(atom_text(names, f), atom_text(names, f));
            lemma_cmp_args_refl(names, xs);
        },
        _ => {},
    }
}

/// Every argument list compares equal to itself.
pub proof fn lemma_cmp_args_refl(names: Seq<Seq<u8>>, xs: Args)
    ensures
        cmp_args(names, xs, xs) == Ordering::Equal,
    decreases xs,
{
    match xs {
        Args::Nil => {},
        Args::Cons(x, xs2) => {
            lemma_cmp_value_refl(names, *x);
            lemma_cmp_args_refl(names, *xs2);
        },
    }
}

/// Swapping the operands flips the outcome.
pub proof fn lemma_cmp_value_flip(names: Seq<Seq<u8>>, a: TermValue, b: TermValue)
    ensures
        cmp_value(names, b, a) == flip(cmp_value(names, a, b)),
    decreases a,
{
    if rank(a) != rank(b) {
    } else {
        match (a, b) {
            (TermValue::Atom(x), TermValue::Atom(y)) => {
                lemma_lex_flip(atom_text(names, x), atom_text(names, y));
            },
            (TermValue::Compound(f, xs), TermValue::Compound(g, ys)) => {
                lemma_lex_flip(atom_text(names, f), atom_text(names, g));
                if xs.seq().len() == ys.seq().len() && lex_cmp_bytes(
                    atom_text(names, f),
                    atom_text(names, g),
                ) == Ordering::Equal {
                    lemma_cmp_args_flip(names, xs, ys);
                }
            },
            _ => {},
        }
    }
}

/// Swapping the operands flips the outcome, for argument lists.
pub proof fn lemma_cmp_args_flip(names: Seq<Seq<u8>>, xs: Args, ys: Args)
    ensures
        cmp_args(names, ys, xs) == flip(cmp_args(names, xs, ys)),
    decreases xs,
{
    match (xs, ys) {
        (Args::Cons(x, xs2), Args::Cons(y, ys2)) => {
            lemma_cmp_value_flip(names, *x, *y);
            lemma_cmp_args_flip(names, *xs2, *ys2);
        },
        _ => {},
    }
}

/// Two values compare equal exactly when they are equal, provided their
/// atom identifiers point into the table and the table's names are unique.
pub proof fn lemma_cmp_value_eq(names: Seq<Seq<u8>>, a: TermValue, b: TermValue)
    requires
        a.ids_below(names.len() as int),
        b.ids_below(names.len() as int),
        names_distinct(names),
    ensures
        cmp_value(names, a, b) == Ordering::Equal <==> a == b,
    decreases a,
{
    if a == b {
        lemma_cmp_value_refl(names, a);
    } else if rank(a) == rank(b) {
        match (a, b) {
            (TermValue::Atom(x), TermValue::Atom(y)) => {
                lemma_lex_eq(atom_text(names, x), atom_text(names, y));
                if atom_text(names, x) == atom_text(names, y) {
                    assert(names[x as int - 1] == names[y as int - 1]);
                    assert(x == y);
                }
            },
            (TermValue::Compound(f, xs), TermValue::Compound(g, ys)) => {
                lemma_lex_eq(atom_text(names, f), atom_text(names, g));
                if xs.seq().len() == ys.seq().len() && atom_text(names, f) == atom_text(
                    names,
                    g,
                ) {
                    assert(f == g);
                    lemma_cmp_args_eq(names, xs, ys);
                }
            },
            _ => {},
        }
    }
}

/// Two argument lists compare equal exactly when they are equal, under the
/// same side conditions.
pub proof fn lemma_cmp_args_eq(names: Seq<Seq<u8>>, xs: Args, ys: Args)
    requires
        xs.all_ids_below(names.len() as int),
        ys.all_ids_below(names.len() as int),
        names_distinct(names),
    ensures
        cmp_args(names, xs, ys) == Ordering::Equal <==> xs == ys,
    decreases xs,
{
    match (xs, ys) {
        (Args::Cons(x, xs2), Args::Cons(y, ys2)) => {
            lemma_cmp_value_eq(names, *x, *y);
            lemma_cmp_args_eq(names, *xs2, *ys2);
        },
        _ => {},
    }
}

/// The order on values is transitive in its strict part, under the same
/// side conditions.
pub proof fn lemma_cmp_value_trans(names: Seq<Seq<u8>>, a: TermValue, b: TermValue, c: TermValue)
    requires
        cmp_value(names, a, b) == Ordering::Less,
        cmp_value(names, b, c) == Ordering::Less,
        a.ids_below(names.len() as int),
        b.ids_below(names.len() as int),
        c.ids_below(names.len() as int),
        names_distinct(names),
    ensures
        cmp_value(names, a, c) == Ordering::Less,
    decreases a,
{
    if rank(a) == rank(b) && rank(b) == rank(c) {
        match (a, b) {
            (TermValue::Atom(x), TermValue::Atom(y)) => {
                if let TermValue::Atom(z) = c {
                    lemma_lex_trans(atom_text(names, x), atom_text(names, y), atom_text(names, z));
                }
            },
            (TermValue::Compound(f, xs), TermValue::Compound(g, ys)) => {
                if let TermValue::Compound(h, zs) = c {
                    let ft = atom_text(names, f);
                    let gt = atom_text(names, g);
                    let ht = atom_text(names, h);
                    lemma_lex_eq(ft, gt);
                    lemma_lex_eq(gt, ht);
                    lemma_lex_eq(ft, ht);
                    if xs.seq().len() == ys.seq().len() && ys.seq().len() == zs.seq().len() {
                        if lex_cmp_bytes(ft, gt) == Ordering::Less && lex_cmp_bytes(gt, ht)
                            == Ordering::Less {
                            lemma_lex_trans(ft, gt, ht);
                        } else if lex_cmp_bytes(ft, gt) == Ordering::Equal && lex_cmp_bytes(gt, ht)
                            == Ordering::Equal {
                            lemma_cmp_args_trans(names, xs, ys, zs);
                        }
                    }
                }
            },
            _ => {},
        }
    }
}

/// The order on argument lists is transitive in its strict part, under the
/// same side conditions.
pub proof fn lemma_cmp_args_trans(names: Seq<Seq<u8>>, xs: Args, ys: Args, zs: Args)
    requires
        cmp_args(names, xs, ys) == Ordering::Less,
        cmp_args(names, ys, zs) == Ordering::Less,
        xs.all_ids_below(names.len() as int),
        ys.all_ids_below(names.len() as int),
        zs.all_ids_below(names.len() as int),
        names_distinct(names),
    ensures
        cmp_args(names, xs, zs) == Ordering::Less,
    decreases xs,
{
    match (xs, ys) {
        (Args::Cons(x, xs2), Args::Cons(y, ys2)) => {
            if let Args::Cons(z, zs2) = zs {
                lemma_cmp_value_eq(names, *x, *y);
                lemma_cmp_value_eq(names, *y, *z);
                lemma_cmp_value_eq(names, *x, *z);
                if cmp_value(names, *x, *y) == Ordering::Less && cmp_value(names, *y, *z)
                    == Ordering::Less {
                    lemma_cmp_value_trans(names, *x, *y, *z);
                } else if cmp_value(names, *x, *y) == Ordering::Equal && cmp_value(names, *y, *z)
                    == Ordering::Equal {
                    lemma_cmp_args_trans(names, *xs2, *ys2, *zs2);
                }
            }
        },
        _ => {},
    }
}

} // verus!
