use vstd::prelude::*;
use crate::board::QuestPosition;

verus! {

/// The magnitude of a seed: dividing toward zero by 100 keeps the decimal
/// digits of this value, whatever the sign.
pub open spec fn seed_magnitude(seed: i64) -> nat {
    if seed < 0 {
        (-seed) as nat
    } else {
        seed as nat
    }
}

/// The position read from the two lowest decimal digits of `w`, if it is not
/// the origin.
pub open spec fn digit_pair(w: nat) -> Seq<QuestPosition> {
    let x = (w % 10) as u8;
    let y = ((w / 10) % 10) as u8;
    if x != 0 || y != 0 {
        seq![QuestPosition { x, y }]
    } else {
        seq![]
    }
}

/// `count` rounds of digit decomposition of `w`, two digits per round.
pub open spec fn positions_from(w: nat, count: nat) -> Seq<QuestPosition>
    decreases count,
{
    if count == 0 {
        seq![]
    } else {
        digit_pair(w) + positions_from(w / 100, (count - 1) as nat)
    }
}

/// The quest positions generated from `seed`.
pub open spec fn generate_spec(seed: i64, count: nat) -> Seq<QuestPosition> {
    positions_from(seed_magnitude(seed), count)
}

proof fn lemma_positions_from_facts(w: nat, count: nat)
    ensures
        positions_from(w, count).len() <= count,
        forall|i: int| 0 <= i < positions_from(w, count).len()
            ==> (#[trigger] positions_from(w, count)[i]).on_board(),
    decreases count,
{
    if count > 0 {
        lemma_positions_from_facts(w / 100, (count - 1) as nat);
        let h = digit_pair(w);
        let t = positions_from(w / 100, (count - 1) as nat);
        assert forall|i: int| 0 <= i < (h + t).len() implies (#[trigger] (h + t)[i]).on_board() by {
            if i >= h.len() {
                assert((h + t)[i] == t[i - h.len()]);
            }
        }
    }
}

/// The generator emits at most `count` positions, each on the board.
pub proof fn lemma_generate_on_board(seed: i64, count: nat)
    ensures
        generate_spec(seed, count).len() <= count,
        forall|i: int| 0 <= i < generate_spec(seed, count).len()
            ==> (#[trigger] generate_spec(seed, count)[i]).on_board(),
{
    lemma_positions_from_facts(seed_magnitude(seed), count);
}

/// Generation depends on the seed alone: two generations from one seed give
/// the same list.
pub proof fn lemma_generate_deterministic(seed: i64, count: nat, first: Seq<QuestPosition>, second: Seq<QuestPosition>)
    requires
        first == generate_spec(seed, count),
        second == generate_spec(seed, count),
    ensures
        first == second,
{
}

/// Reads quest positions off the decimal digits of `seed`, two digits
/// (x, then y) per round for `count` rounds, skipping the origin. Repeats are
/// kept.
pub fn generate_random_positions(seed: i64, count: usize) -> (r: Vec<QuestPosition>)
    ensures
        r@ == generate_spec(seed, count as nat),
        r@.len() <= count,
{
    let mut w: u64 = if seed < 0 {
        ((-(seed + 1)) as u64) + 1
    } else {
        seed as u64
    };
    let mut positions: Vec<QuestPosition> = Vec::new();
    let mut i: usize = 0;
    while i < count
        invariant
            i <= count,
            positions@ + positions_from(w as nat, (count - i) as nat)
                == generate_spec(seed, count as nat),
        decreases count - i,
    {
        let x: u8 = (w % 10) as u8;
        let y: u8 = ((w / 10) % 10) as u8;
        let ghost before = positions@;
        if x != 0 || y != 0 {
            positions.push(QuestPosition { x, y });
        }
        assert(positions@ == before + digit_pair(w as nat));
        assert(positions_from(w as nat, (count - i) as nat)
            == digit_pair(w as nat) + positions_from((w / 100) as nat, (count - i - 1) as nat));
        assert(before + (digit_pair(w as nat) + positions_from((w / 100) as nat, (count - i - 1) as nat))
            == (before + digit_pair(w as nat)) + positions_from((w / 100) as nat, (count - i - 1) as nat));
        w = w / 100;
        i = i + 1;
    }
    assert(positions_from(w as nat, 0) =~= seq![]);
    assert(positions@ + seq![] =~= positions@);
    proof {
        lemma_generate_on_board(seed, count as nat);
    }
    positions
}

} // verus!
