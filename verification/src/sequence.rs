//! What holds of move sequences on every puzzle state: how applying them
//! composes, how they are undone, and why turning one face twice in a row
//! is never needed.

use vstd::prelude::*;
use crate::moves::{apply_seq, reversed_seq, Amt, CanMove, Dir, Move};

verus! {

/// Applying no moves changes nothing, and applying a sequence is applying
/// all but its last move, then the last.
pub proof fn lemma_apply_unfold<T: CanMove>(t: T, s: Seq<Move>)
    ensures
        s.len() == 0 ==> apply_seq(t, s) == t,
        s.len() > 0 ==> apply_seq(t, s) == apply_seq(t, s.drop_last()).spec_apply(s.last()),
{
}

/// Applying a sequence with one more move at its end.
pub proof fn lemma_apply_push<T: CanMove>(t: T, s: Seq<Move>, m: Move)
    ensures
        apply_seq(t, s.push(m)) == apply_seq(t, s).spec_apply(m),
{
    assert(s.push(m).drop_last() =~= s);
}

/// Applying one sequence after another is applying them joined.
pub proof fn lemma_apply_concat<T: CanMove>(t: T, a: Seq<Move>, b: Seq<Move>)
    ensures
        apply_seq(t, a + b) == apply_seq(apply_seq(t, a), b),
    decreases b.len(),
{
    if b.len() == 0 {
        assert(a + b =~= a);
    } else {
        lemma_apply_concat(t, a, b.drop_last());
        assert((a + b).drop_last() =~= a + b.drop_last());
    }
}

/// Applying a sequence is applying its first move, then the rest.
pub proof fn lemma_apply_front<T: CanMove>(t: T, s: Seq<Move>)
    requires
        s.len() > 0,
    ensures
        apply_seq(t, s) == apply_seq(t.spec_apply(s[0]), s.skip(1)),
{
    let head = seq![s[0]];
    assert(s =~= head + s.skip(1));
    lemma_apply_concat(t, head, s.skip(1));
    assert(head =~= Seq::<Move>::empty().push(s[0]));
    lemma_apply_push(t, Seq::<Move>::empty(), s[0]);
    lemma_apply_unfold(t, Seq::<Move>::empty());
}

/// A move followed by its reverse changes nothing.
pub proof fn lemma_undo<T: CanMove>(t: T, m: Move)
    ensures
        t.spec_apply(m).spec_apply(m.reversed()) == t,
        t.spec_apply(m.reversed()).spec_apply(m) == t,
{
    let q = Move { dir: m.dir, amt: Amt::One };
    t.lemma_turns(m.dir);
    t.spec_apply(q).lemma_turns(m.dir);
    t.spec_apply(q).spec_apply(q).lemma_turns(m.dir);
    t.spec_apply(q).spec_apply(q).spec_apply(q).lemma_turns(m.dir);
}

/// A sequence followed by its reverse changes nothing: the reverse
/// sequence leads back to the state the sequence started from.
pub proof fn lemma_reverse<T: CanMove>(t: T, s: Seq<Move>)
    ensures
        apply_seq(apply_seq(t, s), reversed_seq(s)) == t,
    decreases s.len(),
{
    if s.len() == 0 {
        assert(reversed_seq(s) =~= Seq::<Move>::empty());
    } else {
        let init = s.drop_last();
        let m = s.last();
        let back = reversed_seq(s);
        assert(back[0] == m.reversed());
        assert(back.skip(1) =~= reversed_seq(init));
        lemma_apply_front(apply_seq(t, s), back);
        lemma_undo(apply_seq(t, init), m);
        lemma_reverse(t, init);
    }
}

/// Reversing a sequence twice gives the sequence back.
pub proof fn lemma_reverse_twice(s: Seq<Move>)
    ensures
        reversed_seq(reversed_seq(s)) == s,
        reversed_seq(s).len() == s.len(),
{
    assert(reversed_seq(reversed_seq(s)) =~= s);
}

/// What two turns of one face amount to: nothing, or one turn.
pub open spec fn merged(a: Amt, b: Amt) -> Option<Amt> {
    let quarters = (a.quarters() + b.quarters()) % 4;
    if quarters == 0 {
        None
    } else if quarters == 1 {
        Some(Amt::One)
    } else if quarters == 2 {
        Some(Amt::Two)
    } else {
        Some(Amt::Rev)
    }
}

/// Two turns of one face in a row can be replaced by one turn, or by none.
pub proof fn lemma_merge<T: CanMove>(t: T, dir: Dir, a: Amt, b: Amt)
    ensures
        match merged(a, b) {
            None => t.spec_apply(Move { dir, amt: a }).spec_apply(Move { dir, amt: b }) == t,
            Some(c) => t.spec_apply(Move { dir, amt: a }).spec_apply(Move { dir, amt: b })
                == t.spec_apply(Move { dir, amt: c }),
        },
{
    let q = Move { dir, amt: Amt::One };
    t.lemma_turns(dir);
    t.spec_apply(q).lemma_turns(dir);
    t.spec_apply(q).spec_apply(q).lemma_turns(dir);
    t.spec_apply(q).spec_apply(q).spec_apply(q).lemma_turns(dir);
}

/// Whether the move at index `i` turns the same face as the move before.
pub open spec fn repeats_face(s: Seq<Move>, i: int) -> bool {
    s[i].dir == s[i - 1].dir
}

/// Whether no two neighbouring moves turn the same face.
pub open spec fn reduced(s: Seq<Move>) -> bool {
    forall|i: int| 0 < i < s.len() ==> !#[trigger] repeats_face(s, i)
}

/// The sequence with every run of turns of one face replaced by what it
/// amounts to.
pub open spec fn normalized(s: Seq<Move>) -> Seq<Move>
    decreases s.len(),
{
    if s.len() == 0 {
        s
    } else {
        let p = normalized(s.drop_last());
        let m = s.last();
        if p.len() > 0 && p.last().dir == m.dir {
            match merged(p.last().amt, m.amt) {
                None => p.drop_last(),
                Some(c) => p.drop_last().push(Move { dir: m.dir, amt: c }),
            }
        } else {
            p.push(m)
        }
    }
}

/// A reduced sequence stays reduced without its last move, and with its
/// last move replaced or followed by a turn of another face than the one
/// before.
pub proof fn lemma_reduced_steps(p: Seq<Move>, m: Move)
    requires
        reduced(p),
    ensures
        p.len() > 0 ==> reduced(p.drop_last()),
        p.len() > 0 && m.dir == p.last().dir ==> reduced(p.drop_last().push(m)),
        p.len() == 0 || m.dir != p.last().dir ==> reduced(p.push(m)),
{
    if p.len() > 0 {
        let d = p.drop_last();
        assert forall|i: int| 0 < i < d.len() implies !#[trigger] repeats_face(d, i) by {
            assert(!repeats_face(p, i));
        }
        if m.dir == p.last().dir {
            let r = d.push(m);
            assert forall|i: int| 0 < i < r.len() implies !#[trigger] repeats_face(r, i) by {
                assert(!repeats_face(p, i));
            }
        }
    }
    if p.len() == 0 || m.dir != p.last().dir {
        let r = p.push(m);
        assert forall|i: int| 0 < i < r.len() implies !#[trigger] repeats_face(r, i) by {
            if i < p.len() {
                assert(!repeats_face(p, i));
            }
        }
    }
}

/// A normalized sequence is reduced and no longer than the sequence.
pub proof fn lemma_normalized_reduced(s: Seq<Move>)
    ensures
        reduced(normalized(s)),
        normalized(s).len() <= s.len(),
    decreases s.len(),
{
    if s.len() > 0 {
        lemma_normalized_reduced(s.drop_last());
        let p = normalized(s.drop_last());
        let m = s.last();
        if p.len() > 0 && p.last().dir == m.dir {
            match merged(p.last().amt, m.amt) {
                None => {
                    lemma_reduced_steps(p, m);
                },
                Some(c) => {
                    lemma_reduced_steps(p, Move { dir: m.dir, amt: c });
                },
            }
        } else {
            lemma_reduced_steps(p, m);
        }
    }
}

/// A normalized sequence leads to the same state as the sequence.
pub proof fn lemma_normalized_same<T: CanMove>(t: T, s: Seq<Move>)
    ensures
        apply_seq(t, normalized(s)) == apply_seq(t, s),
    decreases s.len(),
{
    if s.len() > 0 {
        lemma_normalized_same(t, s.drop_last());
        let p = normalized(s.drop_last());
        let m = s.last();
        if p.len() > 0 && p.last().dir == m.dir {
            let before = apply_seq(t, p.drop_last());
            lemma_merge(before, m.dir, p.last().amt, m.amt);
            assert(p.last() == Move { dir: m.dir, amt: p.last().amt });
            assert(m == Move { dir: m.dir, amt: m.amt });
            match merged(p.last().amt, m.amt) {
                None => {},
                Some(c) => {
                    lemma_apply_push(t, p.drop_last(), Move { dir: m.dir, amt: c });
                },
            }
        } else {
            lemma_apply_push(t, p, m);
        }
    }
}

} // verus!
