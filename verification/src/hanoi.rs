//! The Tower of Hanoi test program: the moves that carry a tower of
//! `level` disks from one peg to another.
use vstd::prelude::*;

verus! {

/// The moves (from peg, to peg) that carry `level` disks from `from` to
/// `to` using `by` as the spare peg.
pub open spec fn hanoi_moves(level: nat, from: char, by: char, to: char) -> Seq<(char, char)>
    decreases level,
{
    if level <= 1 {
        seq![(from, to)]
    } else {
        hanoi_moves((level - 1) as nat, from, to, by) + seq![(from, to)] + hanoi_moves(
            (level - 1) as nat,
            by,
            from,
            to,
        )
    }
}

/// `2` raised to the power `n`.
pub open spec fn pow2(n: nat) -> nat
    decreases n,
{
    if n == 0 { 1 } else { 2 * pow2((n - 1) as nat) }
}

/// A tower of `level` disks takes `2^level - 1` moves.
pub proof fn lemma_hanoi_count(level: nat, from: char, by: char, to: char)
    requires
        level >= 1,
    ensures
        hanoi_moves(level, from, by, to).len() + 1 == pow2(level),
    decreases level,
{
    reveal_with_fuel(pow2, 2);
    if level > 1 {
        lemma_hanoi_count((level - 1) as nat, from, to, by);
        lemma_hanoi_count((level - 1) as nat, by, from, to);
    }
}

/// Appends to `moves` the moves that carry `level` disks (at least one)
/// from `from` to `to` using `by`.
pub fn hanoi(level: u32, from: char, by: char, to: char, moves: &mut Vec<(char, char)>)
    requires
        level >= 1,
        old(moves)@.len() + pow2(level as nat) <= usize::MAX,
    ensures
        final(moves)@ == old(moves)@ + hanoi_moves(level as nat, from, by, to),
    decreases level,
{
    proof {
        lemma_hanoi_count(level as nat, from, by, to);
    }
    if level == 1 {
        moves.push((from, to));
        proof {
            assert(final(moves)@ =~= old(moves)@ + hanoi_moves(level as nat, from, by, to));
        }
    } else {
        proof {
            lemma_hanoi_count((level - 1) as nat, from, to, by);
            lemma_hanoi_count((level - 1) as nat, by, from, to);
            reveal_with_fuel(pow2, 2);
            assert(pow2(level as nat) == 2 * pow2((level - 1) as nat));
        }
        hanoi(level - 1, from, to, by, moves);
        hanoi(1, from, by, to, moves);
        hanoi(level - 1, by, from, to, moves);
        proof {
            assert(final(moves)@ =~= old(moves)@ + hanoi_moves(level as nat, from, by, to));
        }
    }
}

/// The disks on three pegs `f`, `b`, `t`, each peg listed bottom first.
pub open spec fn pegs(f: char, fv: Seq<int>, b: char, bv: Seq<int>, t: char, tv: Seq<int>) -> Map<char, Seq<int>> {
    Map::empty().insert(f, fv).insert(b, bv).insert(t, tv)
}

/// The pegs after moving the top disk of peg `m.0` onto peg `m.1`, or
/// `None` when that move breaks the rules: a peg that does not exist, the
/// same peg twice, an empty source peg, or a disk put on a smaller one.
pub open spec fn apply_move(s: Map<char, Seq<int>>, m: (char, char)) -> Option<Map<char, Seq<int>>> {
    let f = m.0;
    let t = m.1;
    if !s.contains_key(f) || !s.contains_key(t) || f == t || s[f].len() == 0 {
        None
    } else if s[t].len() > 0 && s[t].last() < s[f].last() {
        None
    } else {
        Some(s.insert(f, s[f].drop_last()).insert(t, s[t].push(s[f].last())))
    }
}

/// The pegs after playing `moves` in order from `s`, or `None` when one of
/// them breaks the rules.
pub open spec fn replay(s: Map<char, Seq<int>>, moves: Seq<(char, char)>) -> Option<Map<char, Seq<int>>>
    decreases moves.len(),
{
    if moves.len() == 0 {
        Some(s)
    } else {
        match apply_move(s, moves[0]) {
            Some(s1) => replay(s1, moves.subrange(1, moves.len() as int)),
            None => None,
        }
    }
}

/// A tower of `n` disks, bottom first: sizes `n`, `n - 1`, ..., 1.
pub open spec fn tower(n: nat) -> Seq<int> {
    Seq::new(n, |i: int| n - i)
}

proof fn lemma_replay_concat(s: Map<char, Seq<int>>, m1: Seq<(char, char)>, m2: Seq<(char, char)>)
    ensures
        replay(s, m1 + m2) == match replay(s, m1) {
            Some(s1) => replay(s1, m2),
            None => None,
        },
    decreases m1.len(),
{
    if m1.len() > 0 {
        assert((m1 + m2)[0] == m1[0]);
        assert((m1 + m2).subrange(1, (m1 + m2).len() as int) =~= m1.subrange(1, m1.len() as int) + m2);
        if let Some(s1) = apply_move(s, m1[0]) {
            lemma_replay_concat(s1, m1.subrange(1, m1.len() as int), m2);
        }
    } else {
        assert(m1 + m2 =~= m2);
    }
}

proof fn lemma_hanoi_legal(n: nat, f: char, b: char, t: char, fv: Seq<int>, bv: Seq<int>, tv: Seq<int>)
    requires
        n >= 1,
        f != b && b != t && f != t,
        forall|k: int| 0 <= k < fv.len() ==> fv[k] > n,
        forall|k: int| 0 <= k < bv.len() ==> bv[k] > n,
        forall|k: int| 0 <= k < tv.len() ==> tv[k] > n,
    ensures
        replay(pegs(f, fv + tower(n), b, bv, t, tv), hanoi_moves(n, f, b, t)) == Some(
            pegs(f, fv, b, bv, t, tv + tower(n)),
        ),
    decreases n,
{
    let s0 = pegs(f, fv + tower(n), b, bv, t, tv);
    if n == 1 {
        let src = fv + tower(n);
        assert(src.last() == 1);
        assert(src.drop_last() =~= fv);
        assert(tv.push(1) =~= tv + tower(n));
        if tv.len() > 0 {
            assert(tv.last() > 1);
        }
        let s1 = s0.insert(f, src.drop_last()).insert(t, tv.push(src.last()));
        assert(apply_move(s0, (f, t)) == Some(s1));
        assert(s1 =~= pegs(f, fv, b, bv, t, tv + tower(n)));
        let m = hanoi_moves(n, f, b, t);
        assert(m == seq![(f, t)]);
        assert(m.subrange(1, 1) =~= Seq::<(char, char)>::empty());
        assert(replay(s0, m) == Some(s1)) by {
            reveal_with_fuel(replay, 2);
        }
    } else {
        let n1 = (n - 1) as nat;
        let fv1 = fv.push(n as int);
        assert(fv + tower(n) =~= fv1 + tower(n1));
        // Carry the upper n - 1 disks onto the spare peg.
        assert forall|k: int| 0 <= k < fv1.len() implies fv1[k] > n1 by {}
        lemma_hanoi_legal(n1, f, t, b, fv1, tv, bv);
        assert(pegs(f, fv1 + tower(n1), t, tv, b, bv) =~= s0);
        let s1 = pegs(f, fv1, t, tv, b, bv + tower(n1));
        // Move the largest disk.
        assert(fv1.last() == n);
        assert(fv1.drop_last() =~= fv);
        if tv.len() > 0 {
            assert(tv.last() > n);
        }
        let s2 = s1.insert(f, fv1.drop_last()).insert(t, tv.push(n as int));
        assert(apply_move(s1, (f, t)) == Some(s2));
        assert(seq![(f, t)].subrange(1, 1) =~= Seq::<(char, char)>::empty());
        assert(replay(s1, seq![(f, t)]) == Some(s2)) by {
            reveal_with_fuel(replay, 2);
        }
        // Carry the n - 1 disks from the spare peg onto the largest.
        let tv2 = tv.push(n as int);
        assert forall|k: int| 0 <= k < tv2.len() implies tv2[k] > n1 by {}
        lemma_hanoi_legal(n1, b, f, t, bv, fv, tv2);
        assert(s2 =~= pegs(b, bv + tower(n1), f, fv, t, tv2));
        assert(tv2 + tower(n1) =~= tv + tower(n));
        assert(pegs(b, bv, f, fv, t, tv2 + tower(n1)) =~= pegs(f, fv, b, bv, t, tv + tower(n)));
        let m1 = hanoi_moves(n1, f, t, b);
        let m2 = seq![(f, t)];
        let m3 = hanoi_moves(n1, b, f, t);
        assert(hanoi_moves(n, f, b, t) == m1 + m2 + m3);
        lemma_replay_concat(s0, m1 + m2, m3);
        lemma_replay_concat(s0, m1, m2);
    }
}

/// The moves are those of a correct game: played from a tower of `n`
/// disks on peg `from` (the other pegs empty), no move takes a disk from
/// an empty peg or puts one on a smaller disk, and at the end the whole
/// tower stands on peg `to`.
pub proof fn lemma_hanoi_moves_legal(n: nat, from: char, by: char, to: char)
    requires
        n >= 1,
        from != by && by != to && from != to,
    ensures
        replay(pegs(from, tower(n), by, Seq::empty(), to, Seq::empty()), hanoi_moves(n, from, by, to)) == Some(
            pegs(from, Seq::empty(), by, Seq::empty(), to, tower(n)),
        ),
{
    let e = Seq::<int>::empty();
    lemma_hanoi_legal(n, from, by, to, e, e, e);
    assert(e + tower(n) =~= tower(n));
}

} // verus!
