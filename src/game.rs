use vstd::prelude::*;
use crate::board::{step, step_spec, Game, MyError, QuestPosition, BOARD_MAX};
use crate::quest_gen::{generate_random_positions, generate_spec, lemma_generate_on_board};
use crate::reward::{
    calculate_reward, compute_optimal_moves, optimal_spec, reward_spec, ROUTE_QUEST_LIMIT,
};
use crate::treasury::Treasure;

verus! {

/// Quests generated for every new game.
pub const QUEST_COUNT: usize = 3;

/// The quests of one game: those still to collect, and the full list as it
/// was generated, which the reward is computed from.
#[derive(Clone, Debug, PartialEq, Eq)]
pub struct Quest {
    pub positions: Vec<QuestPosition>,
    pub original_positions: Vec<QuestPosition>,
}

/// Accounts touched when a player starts; each is created only if absent.
#[derive(Clone, Debug, PartialEq, Eq)]
pub struct Initialize {
    pub game_account: Option<Game>,
    pub quest_account: Option<Quest>,
    pub treasure_account: Option<Treasure>,
    pub signer: [u8; 32],
}

/// Accounts touched by one move.
#[derive(Clone, Debug, PartialEq, Eq)]
pub struct Move {
    pub game_account: Game,
    pub quest_account: Quest,
    pub treasure_account: Treasure,
    pub signer: [u8; 32],
}

/// Accounts touched by a manual reset.
#[derive(Clone, Debug, PartialEq, Eq)]
pub struct Reset {
    pub game_account: Game,
    pub quest_account: Quest,
    pub signer: [u8; 32],
}

/// `s` with every occurrence of `p` removed, order kept.
pub open spec fn without(s: Seq<QuestPosition>, p: QuestPosition) -> Seq<QuestPosition>
    decreases s.len(),
{
    if s.len() == 0 {
        s
    } else if s.last() == p {
        without(s.drop_last(), p)
    } else {
        without(s.drop_last(), p).push(s.last())
    }
}

/// Positions as plain coordinate pairs.
pub open spec fn as_pairs(s: Seq<QuestPosition>) -> Seq<(u8, u8)> {
    s.map_values(|p: QuestPosition| (p.x, p.y))
}

/// The quests a game gets from `seed`: both lists hold the generated positions.
pub open spec fn fresh_quest(q: Quest, seed: i64) -> bool {
    &&& q.positions@ == generate_spec(seed, QUEST_COUNT as nat)
    &&& q.original_positions@ == generate_spec(seed, QUEST_COUNT as nat)
}

/// The consistent states of one player's game: the token is on the board, at
/// most the fixed number of quests was generated, every quest still open was
/// generated, and each quest counted as reached took at least one from the
/// open list.
pub open spec fn game_wf(g: Game, q: Quest) -> bool {
    &&& g.on_board()
    &&& q.original_positions@.len() <= QUEST_COUNT
    &&& g.quests_reached + q.positions@.len() <= q.original_positions@.len()
    &&& forall|i: int| 0 <= i < q.positions@.len()
        ==> q.original_positions@.contains(#[trigger] q.positions@[i])
    &&& forall|i: int| 0 <= i < q.original_positions@.len()
        ==> (#[trigger] q.original_positions@[i]).on_board()
}

/// The reward owed for reaching the goal in state `g` of a game whose quests
/// were generated as `original`.
pub open spec fn reward_owed(g: Game, original: Seq<QuestPosition>) -> int {
    reward_spec(
        g.moves_taken as nat,
        optimal_spec(as_pairs(original)) as nat,
        g.quests_reached as nat,
        original.len(),
    )
}

proof fn lemma_without_facts(s: Seq<QuestPosition>, p: QuestPosition)
    ensures
        without(s, p).len() <= s.len(),
        s.contains(p) ==> without(s, p).len() < s.len(),
        forall|i: int| 0 <= i < without(s, p).len() ==> #[trigger] without(s, p)[i] != p
            && s.contains(without(s, p)[i]),
    decreases s.len(),
{
    if s.len() > 0 {
        let t = s.drop_last();
        lemma_without_facts(t, p);
        if s.contains(p) && s.last() != p {
            let k = choose|k: int| 0 <= k < s.len() && s[k] == p;
            assert(t[k] == p);
        }
        let w = without(s, p);
        assert forall|i: int| 0 <= i < w.len() implies #[trigger] w[i] != p && s.contains(w[i]) by {
            if s.last() == p || i < w.len() - 1 {
                let wt = without(t, p);
                assert(w[i] == wt[i]);
                let k = choose|k: int| 0 <= k < t.len() && t[k] == wt[i];
                assert(s[k] == t[k]);
            } else {
                assert(s[s.len() - 1] == w[i]);
            }
        }
    }
}

/// Whether `p` is among `positions`.
fn contains_position(positions: &Vec<QuestPosition>, p: QuestPosition) -> (r: bool)
    ensures
        r == positions@.contains(p),
{
    let mut i: usize = 0;
    while i < positions.len()
        invariant
            i <= positions.len(),
            forall|k: int| 0 <= k < i ==> positions@[k] != p,
        decreases positions.len() - i,
    {
        if positions[i] == p {
            assert(positions@[i as int] == p);
            return true;
        }
        i = i + 1;
    }
    false
}

/// `positions` without any occurrence of `p`.
fn remove_position(positions: &Vec<QuestPosition>, p: QuestPosition) -> (r: Vec<QuestPosition>)
    ensures
        r@ == without(positions@, p),
{
    let mut kept: Vec<QuestPosition> = Vec::new();
    let mut i: usize = 0;
    while i < positions.len()
        invariant
            i <= positions.len(),
            kept@ == without(positions@.subrange(0, i as int), p),
        decreases positions.len() - i,
    {
        let ghost pre = positions@.subrange(0, i + 1);
        assert(pre.drop_last() =~= positions@.subrange(0, i as int));
        if positions[i] != p {
            kept.push(positions[i]);
        }
        i = i + 1;
    }
    assert(positions@.subrange(0, positions@.len() as int) =~= positions@);
    kept
}

/// The positions as coordinate pairs.
fn position_pairs(positions: &Vec<QuestPosition>) -> (r: Vec<(u8, u8)>)
    ensures
        r@ == as_pairs(positions@),
{
    let mut pairs: Vec<(u8, u8)> = Vec::new();
    let mut i: usize = 0;
    while i < positions.len()
        invariant
            i <= positions.len(),
            pairs@ =~= as_pairs(positions@.subrange(0, i as int)),
        decreases positions.len() - i,
    {
        pairs.push((positions[i].x, positions[i].y));
        i = i + 1;
    }
    assert(positions@.subrange(0, positions@.len() as int) =~= positions@);
    pairs
}

/// Whether a stored game and its quests are in a consistent state, as
/// `game_wf` describes it.
pub fn game_is_consistent(game: &Game, quest: &Quest) -> (r: bool)
    ensures
        r == game_wf(*game, *quest),
{
    if game.x > BOARD_MAX || game.y > BOARD_MAX {
        return false;
    }
    let n = quest.original_positions.len();
    if n > QUEST_COUNT || quest.positions.len() > n
        || game.quests_reached as usize > n - quest.positions.len() {
        return false;
    }
    let mut i: usize = 0;
    while i < n
        invariant
            i <= n,
            n == quest.original_positions@.len(),
            forall|k: int| 0 <= k < i ==> (#[trigger] quest.original_positions@[k]).on_board(),
        decreases n - i,
    {
        let p = quest.original_positions[i];
        if p.x > BOARD_MAX || p.y > BOARD_MAX {
            return false;
        }
        i = i + 1;
    }
    let mut j: usize = 0;
    while j < quest.positions.len()
        invariant
            j <= quest.positions@.len(),
            forall|k: int| 0 <= k < j
                ==> quest.original_positions@.contains(#[trigger] quest.positions@[k]),
        decreases quest.positions.len() - j,
    {
        if !contains_position(&quest.original_positions, quest.positions[j]) {
            return false;
        }
        j = j + 1;
    }
    true
}

/// Puts the game back at the start with quests freshly generated from `seed`.
pub fn reset_game(game: &mut Game, quest: &mut Quest, seed: i64)
    ensures
        *final(game) == Game::start_spec(),
        fresh_quest(*final(quest), seed),
        game_wf(*final(game), *final(quest)),
{
    *game = Game::start();
    let positions = generate_random_positions(seed, QUEST_COUNT);
    quest.positions = positions.clone();
    quest.original_positions = positions;
    proof {
        lemma_generate_on_board(seed, QUEST_COUNT as nat);
        assert forall|i: int| 0 <= i < quest.positions@.len()
            implies quest.original_positions@.contains(#[trigger] quest.positions@[i]) by {
            assert(quest.original_positions@[i] == quest.positions@[i]);
        }
    }
}

/// Pays the goal reward for `game` out of the pool, if the pool covers it;
/// otherwise the pool is left as it was. Returns the amount paid.
pub fn distribute_reward(treasure: &mut Treasure, game: &Game, quest: &Quest) -> (r: Result<u64, MyError>)
    requires
        quest.original_positions@.len() <= ROUTE_QUEST_LIMIT,
    ensures
        old(treasure).balance < reward_owed(*game, quest.original_positions@) ==> {
            &&& r == Err::<u64, MyError>(MyError::InsufficientBalance)
            &&& *final(treasure) == *old(treasure)
        },
        old(treasure).balance >= reward_owed(*game, quest.original_positions@) ==> {
            &&& r == Ok::<u64, MyError>(reward_owed(*game, quest.original_positions@) as u64)
            &&& final(treasure).balance == old(treasure).balance - reward_owed(*game, quest.original_positions@)
            &&& final(treasure).owner == old(treasure).owner
        },
{
    let pairs = position_pairs(&quest.original_positions);
    let optimal_moves = compute_optimal_moves(&pairs);
    let reward = calculate_reward(
        game.moves_taken,
        optimal_moves,
        game.quests_reached,
        quest.original_positions.len(),
    );
    if treasure.balance < reward {
        return Err(MyError::InsufficientBalance);
    }
    treasure.balance = treasure.balance - reward;
    Ok(reward)
}

/// Starts a player: a missing game starts at the origin, missing quests are
/// generated from `seed`, and a missing pool is created empty, owned by the
/// signer. Whatever exists already is left as it is.
pub fn initialize(ctx: &mut Initialize, seed: i64)
    ensures
        final(ctx).signer == old(ctx).signer,
        old(ctx).game_account is Some ==> final(ctx).game_account == old(ctx).game_account,
        old(ctx).game_account is None ==> final(ctx).game_account == Some(Game::start_spec()),
        old(ctx).quest_account is Some ==> final(ctx).quest_account == old(ctx).quest_account,
        old(ctx).quest_account is None ==> (final(ctx).quest_account matches Some(q)
            && fresh_quest(q, seed) && game_wf(Game::start_spec(), q)),
        old(ctx).treasure_account is Some ==> final(ctx).treasure_account == old(ctx).treasure_account,
        old(ctx).treasure_account is None ==> (final(ctx).treasure_account matches Some(t)
            && t.owner == old(ctx).signer && t.balance == 0),
{
    if ctx.game_account.is_none() {
        ctx.game_account = Some(Game::start());
    }
    if ctx.quest_account.is_none() {
        let mut game = Game::start();
        let mut quest = Quest { positions: Vec::new(), original_positions: Vec::new() };
        reset_game(&mut game, &mut quest, seed);
        ctx.quest_account = Some(quest);
    }
    if ctx.treasure_account.is_none() {
        ctx.treasure_account = Some(Treasure { owner: ctx.signer, balance: 0 });
    }
}

/// Restarts the game: origin, counters zero, quests generated from `seed`.
pub fn reset(ctx: &mut Reset, seed: i64)
    ensures
        final(ctx).game_account == Game::start_spec(),
        fresh_quest(final(ctx).quest_account, seed),
        final(ctx).quest_account.positions@ == final(ctx).quest_account.original_positions@,
        final(ctx).signer == old(ctx).signer,
        game_wf(final(ctx).game_account, final(ctx).quest_account),
{
    reset_game(&mut ctx.game_account, &mut ctx.quest_account, seed);
}

/// Moves the token one cell in `direction` (0 up, 1 down, 2 left, 3 right).
/// Landing on open quests collects them (all copies there, counted once).
/// Landing on the goal pays the reward owed from the pool and restarts the
/// game with quests from `seed`; `Ok(Some(amount))` reports that payment to
/// the signer. On any error nothing changes.
pub fn move_player(ctx: &mut Move, direction: u8, seed: i64) -> (r: Result<Option<u64>, MyError>)
    requires
        game_wf(old(ctx).game_account, old(ctx).quest_account),
        old(ctx).game_account.moves_taken < u16::MAX,
    ensures
        game_wf(final(ctx).game_account, final(ctx).quest_account),
        final(ctx).signer == old(ctx).signer,
        final(ctx).treasure_account.owner == old(ctx).treasure_account.owner,
        step_spec(old(ctx).game_account.x, old(ctx).game_account.y, direction) is None ==> {
            &&& r == Err::<Option<u64>, MyError>(MyError::InvalidMove)
            &&& *final(ctx) == *old(ctx)
        },
        step_spec(old(ctx).game_account.x, old(ctx).game_account.y, direction) matches Some((nx, ny)) ==> {
            let p = QuestPosition { x: nx, y: ny };
            let g = old(ctx).game_account;
            let q = old(ctx).quest_account;
            let moved = Game {
                x: nx,
                y: ny,
                quests_reached: (if q.positions@.contains(p) { g.quests_reached + 1 } else { g.quests_reached as int }) as u8,
                moves_taken: (g.moves_taken + 1) as u16,
            };
            let owed = reward_owed(moved, q.original_positions@);
            if nx != BOARD_MAX || ny != BOARD_MAX {
                &&& r == Ok::<Option<u64>, MyError>(None)
                &&& final(ctx).game_account == moved
                &&& final(ctx).quest_account.positions@ == without(q.positions@, p)
                &&& final(ctx).quest_account.original_positions@ == q.original_positions@
                &&& final(ctx).treasure_account == old(ctx).treasure_account
            } else if old(ctx).treasure_account.balance < owed {
                &&& r == Err::<Option<u64>, MyError>(MyError::InsufficientBalance)
                &&& *final(ctx) == *old(ctx)
            } else {
                &&& r == Ok::<Option<u64>, MyError>(Some(owed as u64))
                &&& final(ctx).treasure_account.balance == old(ctx).treasure_account.balance - owed
                &&& final(ctx).game_account == Game::start_spec()
                &&& fresh_quest(final(ctx).quest_account, seed)
            }
        },
{
    let g = ctx.game_account;
    let target = step(g.x, g.y, direction);
    let (nx, ny) = match target {
        None => return Err(MyError::InvalidMove),
        Some(cell) => cell,
    };
    let p = QuestPosition { x: nx, y: ny };
    let picked = contains_position(&ctx.quest_account.positions, p);
    proof {
        lemma_without_facts(ctx.quest_account.positions@, p);
        if picked {
            assert(ctx.quest_account.positions@.len() >= 1);
        }
    }
    let quests_reached = if picked { g.quests_reached + 1 } else { g.quests_reached };
    let moved = Game { x: nx, y: ny, quests_reached, moves_taken: g.moves_taken + 1 };
    if nx == BOARD_MAX && ny == BOARD_MAX {
        let paid = distribute_reward(&mut ctx.treasure_account, &moved, &ctx.quest_account);
        match paid {
            Err(e) => Err(e),
            Ok(amount) => {
                reset_game(&mut ctx.game_account, &mut ctx.quest_account, seed);
                Ok(Some(amount))
            },
        }
    } else {
        let remaining = remove_position(&ctx.quest_account.positions, p);
        ctx.game_account = moved;
        ctx.quest_account.positions = remaining;
        proof {
            let q = ctx.quest_account;
            assert forall|i: int| 0 <= i < q.positions@.len()
                implies q.original_positions@.contains(#[trigger] q.positions@[i]) by {
                let w = q.positions@;
                assert(w[i] != p && old(ctx).quest_account.positions@.contains(w[i]));
                let k = choose|k: int| 0 <= k < old(ctx).quest_account.positions@.len()
                    && old(ctx).quest_account.positions@[k] == w[i];
                assert(old(ctx).quest_account.original_positions@.contains(
                    old(ctx).quest_account.positions@[k]));
            }
        }
        Ok(None)
    }
}

} // verus!
