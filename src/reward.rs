use vstd::prelude::*;

verus! {

/// The most a single goal can pay.
pub const REWARD_MAX: u64 = 1_000_000_000;

/// The most quests a route can be computed for: with the start and the goal
/// that is 128 waypoints, 127 legs of at most 510 steps each, which fits `u16`.
pub const ROUTE_QUEST_LIMIT: usize = 126;

/// Lexicographic order on waypoints: by x, then by y.
pub open spec fn wp_le(a: (u8, u8), b: (u8, u8)) -> bool {
    a.0 < b.0 || (a.0 == b.0 && a.1 <= b.1)
}

/// `s` with `p` placed before the first element it does not exceed.
pub open spec fn insert_sorted(p: (u8, u8), s: Seq<(u8, u8)>) -> Seq<(u8, u8)>
    decreases s.len(),
{
    if s.len() == 0 {
        seq![p]
    } else if wp_le(p, s[0]) {
        seq![p] + s
    } else {
        seq![s[0]] + insert_sorted(p, s.drop_first())
    }
}

/// `s` in ascending lexicographic order.
pub open spec fn sort_spec(s: Seq<(u8, u8)>) -> Seq<(u8, u8)>
    decreases s.len(),
{
    if s.len() == 0 {
        s
    } else {
        insert_sorted(s.last(), sort_spec(s.drop_last()))
    }
}

pub open spec fn abs_diff(a: u8, b: u8) -> int {
    if a >= b {
        a - b
    } else {
        b - a
    }
}

pub open spec fn manhattan(a: (u8, u8), b: (u8, u8)) -> int {
    abs_diff(a.0, b.0) + abs_diff(a.1, b.1)
}

/// Sum of the Manhattan distances between consecutive waypoints.
pub open spec fn path_len(s: Seq<(u8, u8)>) -> int
    decreases s.len(),
{
    if s.len() < 2 {
        0
    } else {
        path_len(s.drop_last()) + manhattan(s[s.len() - 2], s[s.len() - 1])
    }
}

/// Start, the quests in their order, then the goal.
pub open spec fn waypoints_spec(quests: Seq<(u8, u8)>) -> Seq<(u8, u8)> {
    seq![(0u8, 0u8)] + quests + seq![(9u8, 9u8)]
}

/// The heuristic route length: visit start, quests and goal in sorted order.
pub open spec fn optimal_spec(quests: Seq<(u8, u8)>) -> int {
    path_len(sort_spec(waypoints_spec(quests)))
}

/// `floor(10^9 * min(1, 0.7 * q + 0.3 * e))` where `q` is the share of quests
/// reached (0 when there were none) and `e` is `optimal_moves / user_moves`
/// (0 when no move was made).
pub open spec fn reward_spec(user_moves: nat, optimal_moves: nat, quests_reached: nat, total_quests: nat) -> int {
    let m: nat = if user_moves == 0 { 1 } else { user_moves };
    let t: nat = if total_quests == 0 { 1 } else { total_quests };
    let e: nat = if user_moves == 0 { 0 } else { optimal_moves };
    let q: nat = if total_quests == 0 { 0 } else { quests_reached };
    let scaled: int = ((100_000_000 * (7 * q * m + 3 * e * t)) as int) / ((t * m) as int);
    if scaled > REWARD_MAX { REWARD_MAX as int } else { scaled }
}

/// Every waypoint is at most each one after it.
pub open spec fn ascending(s: Seq<(u8, u8)>) -> bool {
    forall|i: int, j: int| 0 <= i < j < s.len() ==> wp_le(#[trigger] s[i], #[trigger] s[j])
}

proof fn lemma_insert_sorted_facts(p: (u8, u8), s: Seq<(u8, u8)>)
    requires
        ascending(s),
    ensures
        ascending(insert_sorted(p, s)),
        insert_sorted(p, s).to_multiset() =~= s.to_multiset().insert(p),
    decreases s.len(),
{
    broadcast use vstd::seq_lib::group_to_multiset_ensures;

    let r = insert_sorted(p, s);
    if s.len() == 0 || wp_le(p, s[0]) {
        assert(r =~= s.insert(0, p));
        assert forall|i: int, j: int| 0 <= i < j < r.len() implies wp_le(#[trigger] r[i], #[trigger] r[j]) by {
            if i == 0 {
                assert(r[j] == s[j - 1]);
                if j - 1 > 0 {
                    assert(wp_le(s[0], s[j - 1]));
                }
            } else {
                assert(r[i] == s[i - 1] && r[j] == s[j - 1]);
            }
        }
    } else {
        let t = s.drop_first();
        assert forall|i: int, j: int| 0 <= i < j < t.len() implies wp_le(#[trigger] t[i], #[trigger] t[j]) by {
            assert(t[i] == s[i + 1] && t[j] == s[j + 1]);
        }
        lemma_insert_sorted_facts(p, t);
        let it = insert_sorted(p, t);
        assert(r =~= it.insert(0, s[0]));
        assert(s =~= t.insert(0, s[0]));
        assert forall|i: int, j: int| 0 <= i < j < r.len() implies wp_le(#[trigger] r[i], #[trigger] r[j]) by {
            if i == 0 {
                let x = r[j];
                assert(x == it[j - 1]);
                assert(it.contains(x));
                assert(it.to_multiset().count(x) > 0);
                if x != p {
                    assert(t.to_multiset().count(x) > 0);
                    assert(t.contains(x));
                    let k = choose|k: int| 0 <= k < t.len() && t[k] == x;
                    assert(s[k + 1] == x);
                    assert(wp_le(s[0], s[k + 1]));
                }
            } else {
                assert(r[i] == it[i - 1] && r[j] == it[j - 1]);
            }
        }
    }
}

/// The sorted waypoints are ascending and hold exactly the given ones.
pub proof fn lemma_sort_spec_sorts(s: Seq<(u8, u8)>)
    ensures
        ascending(sort_spec(s)),
        sort_spec(s).to_multiset() =~= s.to_multiset(),
    decreases s.len(),
{
    broadcast use vstd::seq_lib::group_to_multiset_ensures;

    if s.len() > 0 {
        lemma_sort_spec_sorts(s.drop_last());
        lemma_insert_sorted_facts(s.last(), sort_spec(s.drop_last()));
        assert(s =~= s.drop_last().push(s.last()));
    }
}

proof fn lemma_insert_sorted_len(p: (u8, u8), s: Seq<(u8, u8)>)
    ensures
        insert_sorted(p, s).len() == s.len() + 1,
    decreases s.len(),
{
    if s.len() > 0 && !wp_le(p, s[0]) {
        lemma_insert_sorted_len(p, s.drop_first());
    }
}

proof fn lemma_sort_len(s: Seq<(u8, u8)>)
    ensures
        sort_spec(s).len() == s.len(),
    decreases s.len(),
{
    if s.len() > 0 {
        lemma_sort_len(s.drop_last());
        lemma_insert_sorted_len(s.last(), sort_spec(s.drop_last()));
    }
}

proof fn lemma_insert_at(p: (u8, u8), s: Seq<(u8, u8)>, j: int)
    requires
        0 <= j <= s.len(),
        forall|k: int| 0 <= k < j ==> !wp_le(p, #[trigger] s[k]),
        j < s.len() ==> wp_le(p, s[j]),
    ensures
        insert_sorted(p, s) == s.insert(j, p),
    decreases s.len(),
{
    if j == 0 {
        if s.len() == 0 {
            assert(s.insert(0, p) =~= seq![p]);
        } else {
            assert(s.insert(0, p) =~= seq![p] + s);
        }
    } else {
        assert(!wp_le(p, s[0]));
        let t = s.drop_first();
        assert forall|k: int| 0 <= k < j - 1 implies !wp_le(p, #[trigger] t[k]) by {
            assert(t[k] == s[k + 1]);
        }
        lemma_insert_at(p, t, j - 1);
        assert(s.insert(j, p) =~= seq![s[0]] + t.insert(j - 1, p));
    }
}

proof fn lemma_path_len_bound(s: Seq<(u8, u8)>)
    ensures
        0 <= path_len(s) <= 510 * s.len(),
    decreases s.len(),
{
    if s.len() >= 2 {
        lemma_path_len_bound(s.drop_last());
    }
}

/// Inserts `p` into the ascending `v`, keeping it ascending.
fn insert_waypoint(v: &mut Vec<(u8, u8)>, p: (u8, u8))
    ensures
        final(v)@ == insert_sorted(p, old(v)@),
{
    let mut j: usize = 0;
    while j < v.len() && !(p.0 < v[j].0 || (p.0 == v[j].0 && p.1 <= v[j].1))
        invariant
            j <= v.len(),
            forall|k: int| 0 <= k < j ==> !wp_le(p, #[trigger] v@[k]),
        decreases v.len() - j,
    {
        j = j + 1;
    }
    proof {
        lemma_insert_at(p, v@, j as int);
    }
    v.insert(j, p);
}

/// Length of the route that visits start, quests and goal in ascending
/// lexicographic order, one Manhattan leg between each pair.
pub fn compute_optimal_moves(quests: &Vec<(u8, u8)>) -> (r: u16)
    requires
        quests.len() <= ROUTE_QUEST_LIMIT,
    ensures
        r as int == optimal_spec(quests@),
{
    let mut waypoints: Vec<(u8, u8)> = Vec::new();
    waypoints.push((0, 0));
    let mut i: usize = 0;
    while i < quests.len()
        invariant
            i <= quests.len(),
            waypoints@ == seq![(0u8, 0u8)] + quests@.subrange(0, i as int),
        decreases quests.len() - i,
    {
        waypoints.push(quests[i]);
        assert(quests@.subrange(0, i + 1) =~= quests@.subrange(0, i as int).push(quests@[i as int]));
        i = i + 1;
    }
    waypoints.push((9, 9));
    assert(waypoints@ =~= waypoints_spec(quests@));

    let mut sorted: Vec<(u8, u8)> = Vec::new();
    let mut k: usize = 0;
    while k < waypoints.len()
        invariant
            k <= waypoints.len(),
            sorted@ == sort_spec(waypoints@.subrange(0, k as int)),
        decreases waypoints.len() - k,
    {
        insert_waypoint(&mut sorted, waypoints[k]);
        let ghost pre = waypoints@.subrange(0, k + 1);
        assert(pre.drop_last() =~= waypoints@.subrange(0, k as int));
        k = k + 1;
    }
    assert(waypoints@.subrange(0, waypoints@.len() as int) =~= waypoints@);
    proof {
        lemma_sort_len(waypoints@);
    }
    let n = sorted.len();
    let mut total: u32 = 0;
    let mut i: usize = 0;
    while i + 1 < n
        invariant
            n == sorted.len(),
            n == quests.len() + 2,
            quests.len() <= ROUTE_QUEST_LIMIT,
            i + 1 <= n,
            total as int == path_len(sorted@.subrange(0, i + 1)),
        decreases n - i,
    {
        let a = sorted[i];
        let b = sorted[i + 1];
        let dx: u32 = if a.0 >= b.0 { (a.0 - b.0) as u32 } else { (b.0 - a.0) as u32 };
        let dy: u32 = if a.1 >= b.1 { (a.1 - b.1) as u32 } else { (b.1 - a.1) as u32 };
        proof {
            lemma_path_len_bound(sorted@.subrange(0, i + 1));
            assert(sorted@.subrange(0, i + 2).drop_last() =~= sorted@.subrange(0, i + 1));
        }
        total = total + dx + dy;
        i = i + 1;
    }
    assert(sorted@.subrange(0, n as int) =~= sorted@);
    proof {
        lemma_path_len_bound(sorted@);
    }
    total as u16
}

/// The payout for reaching the goal after `user_moves` moves with
/// `quests_reached` of `total_quests` quests collected, as `reward_spec`
/// states it.
pub fn calculate_reward(user_moves: u16, optimal_moves: u16, quests_reached: u8, total_quests: usize) -> (r: u64)
    ensures
        r as int == reward_spec(user_moves as nat, optimal_moves as nat, quests_reached as nat, total_quests as nat),
        r <= REWARD_MAX,
{
    let m: u128 = if user_moves == 0 { 1 } else { user_moves as u128 };
    let t: u128 = if total_quests == 0 { 1 } else { total_quests as u128 };
    let e: u128 = if user_moves == 0 { 0 } else { optimal_moves as u128 };
    let q: u128 = if total_quests == 0 { 0 } else { quests_reached as u128 };
    proof {
        assert(q * m <= 255 * 65535) by (nonlinear_arith)
            requires q <= 255, m <= 65535;
        assert(e * t <= 65535 * 0xFFFF_FFFF_FFFF_FFFF) by (nonlinear_arith)
            requires e <= 65535, t <= 0xFFFF_FFFF_FFFF_FFFF;
        assert(t * m <= 0xFFFF_FFFF_FFFF_FFFF * 65535) by (nonlinear_arith)
            requires t <= 0xFFFF_FFFF_FFFF_FFFF, m <= 65535;
        assert(t * m >= 1) by (nonlinear_arith)
            requires t >= 1, m >= 1;
    }
    let sum: u128 = 7 * (q * m) + 3 * (e * t);
    let scaled: u128 = (100_000_000 * sum) / (t * m);
    proof {
        assert(7 * (q * m) + 3 * (e * t) == 7 * q * m + 3 * e * t) by (nonlinear_arith);
    }
    if scaled > REWARD_MAX as u128 {
        REWARD_MAX
    } else {
        scaled as u64
    }
}

/// The payout never exceeds the maximum; with no quest reached and a move
/// count far above the route length it is nothing.
pub proof fn lemma_reward_bounds(user_moves: nat, optimal_moves: nat, quests_reached: nat, total_quests: nat)
    ensures
        0 <= reward_spec(user_moves, optimal_moves, quests_reached, total_quests) <= REWARD_MAX,
        quests_reached == 0 && user_moves > 300_000_000 * optimal_moves
            ==> reward_spec(user_moves, optimal_moves, quests_reached, total_quests) == 0,
{
    let m: nat = if user_moves == 0 { 1 } else { user_moves };
    let t: nat = if total_quests == 0 { 1 } else { total_quests };
    let e: nat = if user_moves == 0 { 0 } else { optimal_moves };
    let q: nat = if total_quests == 0 { 0 } else { quests_reached };
    assert(t * m >= 1) by (nonlinear_arith)
        requires t >= 1, m >= 1;
    assert(100_000_000 * (7 * q * m + 3 * e * t) >= 0) by (nonlinear_arith);
    vstd::arithmetic::div_mod::lemma_div_pos_is_pos((100_000_000 * (7 * q * m + 3 * e * t)) as int, (t * m) as int);
    if quests_reached == 0 && user_moves > 300_000_000 * optimal_moves {
        assert(100_000_000 * (7 * q * m + 3 * e * t) < t * m) by (nonlinear_arith)
            requires q == 0, 300_000_000 * e < m, t >= 1;
        vstd::arithmetic::div_mod::lemma_basic_div((100_000_000 * (7 * q * m + 3 * e * t)) as int, (t * m) as int);
    }
}

} // verus!
