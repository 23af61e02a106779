//! The crate-level laws: statements that relate several operations,
//! proved once and for all over the same state views that the
//! operations' contracts use.

use vstd::prelude::*;

use crate::engine::codes_list_value;
use crate::engine::codes_of;
use crate::engine::find_atom;
use crate::engine::DOT_ATOM;
use crate::engine::NIL_ATOM;
use crate::value::cell_value;
use crate::value::lemma_cell_value;
use crate::engine::lemma_find_atom;
use crate::engine::valid_atom_text;
use crate::engine::AtomModel;
use crate::engine::Engine;
use crate::engine::QueryRec;
use crate::engine::QueryState;
use crate::value::TermValue;

verus! {

/// Assigning an integer to a live slot and reading that slot back
/// answers exactly that integer: in the state `put_integer` leaves
/// behind, `get_integer` is bound by its contract to answer `Ok(i)`,
/// for every representable `i`.
pub proof fn lemma_integer_round_trip(before: Engine, after: Engine, t: usize, i: i64)
    requires
        before.live(t),
        after.terms@ == before.terms@.update(t as int, TermValue::Int(i)),
    ensures
        after.spec_get_integer(t) == Some(i),
{
}

/// The round trip holds for a freshly allocated slot as well: in the
/// state that allocating and assigning an integer leaves behind, reading
/// the new slot answers exactly that integer.
pub proof fn lemma_fresh_integer_round_trip(before: Engine, after: Engine, t: usize, i: i64)
    requires
        t == before.terms@.len(),
        after.terms@ == before.terms@.push(TermValue::Int(i)),
    ensures
        after.spec_get_integer(t) == Some(i),
{
}

/// A handle of the wrong kind never yields a stray value: in the state
/// `put_atom` leaves behind, reading the same slot as an integer answers
/// nothing, so `get_integer` is bound by its contract to report a
/// conversion error.
pub proof fn lemma_kind_mismatch_is_error(before: Engine, after: Engine, t: usize, a: u64)
    requires
        before.live(t),
        after.terms@ == before.terms@.update(t as int, TermValue::Atom(a)),
    ensures
        after.spec_get_integer(t) is None,
{
}

/// Interning acceptable text always answers a nonzero identifier whose
/// entry carries exactly that text: in the state `atom_from_string`
/// leaves behind, `string_from_atom` answers the text that went in and
/// `atom_length` answers its length.
pub proof fn lemma_atom_name_round_trip(before: Engine, after: Engine, text: Seq<char>, id: u64)
    requires
        valid_atom_text(text),
        ({
            let f = find_atom(before.table(), text);
            if f >= 0 {
                id == f + 1 && after.table() == before.table()
            } else {
                id == before.table().len() + 1 && after.table() == before.table().push(
                    AtomModel { text, count: 0 },
                )
            }
        }),
    ensures
        id >= 1,
        id <= after.table().len(),
        after.table()[id - 1].text == text,
        after.table()[id - 1].text.len() == text.len(),
{
    lemma_find_atom(before.table(), text);
}

/// The state of the atom table after `n` registrations of one atom.
pub open spec fn registered(t: Seq<AtomModel>, id: u64, n: nat) -> Seq<AtomModel>
    decreases n,
{
    if n == 0 {
        t
    } else {
        let prev = registered(t, id, (n - 1) as nat);
        prev.update(
            id as int - 1,
            AtomModel { text: prev[id as int - 1].text, count: prev[id as int - 1].count + 1 },
        )
    }
}

/// The state of the atom table after `n` releases of one atom.
pub open spec fn released(t: Seq<AtomModel>, id: u64, n: nat) -> Seq<AtomModel>
    decreases n,
{
    if n == 0 {
        t
    } else {
        let prev = released(t, id, (n - 1) as nat);
        prev.update(
            id as int - 1,
            AtomModel {
                text: prev[id as int - 1].text,
                count: (prev[id as int - 1].count - 1) as nat,
            },
        )
    }
}

/// What `n` registrations do: the one count grows by `n`, nothing else
/// moves.
pub proof fn lemma_registered_count(t: Seq<AtomModel>, id: u64, n: nat)
    requires
        1 <= id <= t.len(),
    ensures
        registered(t, id, n).len() == t.len(),
        registered(t, id, n)[id - 1].text == t[id - 1].text,
        registered(t, id, n)[id - 1].count == t[id - 1].count + n,
        forall|j: int|
            0 <= j < t.len() && j != id - 1 ==> registered(t, id, n)[j] == t[j],
    decreases n,
{
    if n > 0 {
        lemma_registered_count(t, id, (n - 1) as nat);
    }
}

/// Reference counting is symmetric: registering an atom `n` times and
/// then releasing it `n` times returns the whole table — every count and
/// every text — to its baseline.
pub proof fn lemma_refcount_symmetry(t: Seq<AtomModel>, id: u64, n: nat)
    requires
        1 <= id <= t.len(),
    ensures
        released(registered(t, id, n), id, n) == t,
    decreases n,
{
    if n > 0 {
        let up = registered(t, id, n);
        let up1 = registered(t, id, (n - 1) as nat);
        lemma_registered_count(t, id, n);
        lemma_registered_count(t, id, (n - 1) as nat);
        assert(released(up, id, 1) =~= up1) by {
            assert(released(up, id, 0) == up);
        }
        lemma_released_chain(up, id, n);
        lemma_refcount_symmetry(t, id, (n - 1) as nat);
        assert(released(up, id, n) =~= released(up1, id, (n - 1) as nat)) by {
            lemma_released_shift(up, up1, id, (n - 1) as nat);
        }
    }
}

/// Releasing `k + 1` times is releasing once, then `k` times.
proof fn lemma_released_chain(t: Seq<AtomModel>, id: u64, n: nat)
    ensures
        n > 0 ==> released(t, id, n) == released(t, id, (n - 1) as nat).update(
            id as int - 1,
            AtomModel {
                text: released(t, id, (n - 1) as nat)[id as int - 1].text,
                count: (released(t, id, (n - 1) as nat)[id as int - 1].count - 1) as nat,
            },
        ),
{
}

/// Releasing from two tables that differ only by one extra reference on
/// the counted atom stays in step.
proof fn lemma_released_shift(up: Seq<AtomModel>, up1: Seq<AtomModel>, id: u64, k: nat)
    requires
        released(up, id, 1) == up1,
    ensures
        released(up, id, (k + 1) as nat) == released(up1, id, k),
    decreases k,
{
    if k == 0 {
        assert(released(up, id, 1) == up1);
        assert(released(up1, id, 0) == up1);
    } else {
        lemma_released_shift(up, up1, id, (k - 1) as nat);
    }
}

/// Terminating a query also terminates every query opened after it: in
/// the state `close_query` (or `cut_query`) of `outer` leaves behind, no
/// query from `outer` on is open, so `next_solution` on any of them —
/// the inner ones included — is bound by its contract to be rejected.
pub proof fn lemma_terminate_closes_inner(
    before: Engine,
    after: Engine,
    outer: u64,
    inner: u64,
    target: QueryState,
)
    requires
        1 <= outer <= before.queries@.len(),
        !(target is Open),
        after.queries@ == Seq::new(
            before.queries@.len(),
            |j: int|
                if j >= outer - 1 && before.queries@[j].state is Open {
                    QueryRec { state: target, remaining: before.queries@[j].remaining }
                } else {
                    before.queries@[j]
                },
        ),
        outer <= inner <= before.queries@.len(),
    ensures
        !(after.queries@[inner - 1].state is Open),
        !after.innermost_open(inner),
{
    assert(after.queries@[inner - 1] == (if inner - 1 >= outer - 1 && before.queries@[inner
        - 1].state is Open {
        QueryRec { state: target, remaining: before.queries@[inner - 1].remaining }
    } else {
        before.queries@[inner - 1]
    }));
}

/// Spelling text as a code list and reading the list back yields the
/// same codes: the value `put_list_codes` builds around the empty list
/// is exactly what `get_list_codes` decodes.
pub proof fn lemma_code_list_round_trip(bytes: Seq<u8>)
    requires
        forall|i: int| 0 <= i < bytes.len() ==> 1 <= #[trigger] bytes[i] <= 127,
    ensures
        codes_of(codes_list_value(bytes, TermValue::Atom(NIL_ATOM))) == Some(bytes),
    decreases bytes.len(),
{
    if bytes.len() == 0 {
        assert(codes_of(codes_list_value(bytes, TermValue::Atom(NIL_ATOM))) == Some(
            Seq::<u8>::empty(),
        ));
        assert(Seq::<u8>::empty() =~= bytes);
    } else {
        assert forall|i: int|
            0 <= i < bytes.drop_first().len() implies 1 <= #[trigger] bytes.drop_first()[i]
            <= 127 by {
            assert(bytes.drop_first()[i] == bytes[i + 1]);
        }
        lemma_code_list_round_trip(bytes.drop_first());
        let tailv = codes_list_value(bytes.drop_first(), TermValue::Atom(NIL_ATOM));
        let c = cell_value(DOT_ATOM, TermValue::Int(bytes[0] as i64), tailv);
        lemma_cell_value(DOT_ATOM, TermValue::Int(bytes[0] as i64), tailv);
        assert(codes_of(c) == Some(seq![bytes[0]] + bytes.drop_first()));
        assert(seq![bytes[0]] + bytes.drop_first() =~= bytes);
    }
}

} // verus!
