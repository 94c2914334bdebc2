use vstd::prelude::*;
use crate::board::MyError;

verus! {

/// The shared funds pool that pays every player's goal reward.
#[derive(Clone, Copy, Debug, PartialEq, Eq)]
pub struct Treasure {
    /// The identity allowed to deposit; fixed once the pool exists.
    pub owner: [u8; 32],
    pub balance: u64,
}

/// A deposit request against the pool, made by `owner`.
#[derive(Clone, Copy, Debug, PartialEq, Eq)]
pub struct DepositSol {
    pub owner: [u8; 32],
    pub treasure_account: Treasure,
}

/// Whether two identities are the same 32 bytes.
pub fn same_key(a: &[u8; 32], b: &[u8; 32]) -> (r: bool)
    ensures
        r == (a@ == b@),
{
    let mut i: usize = 0;
    while i < 32
        invariant
            i <= 32,
            a@.len() == 32,
            b@.len() == 32,
            forall|k: int| 0 <= k < i ==> a@[k] == b@[k],
        decreases 32 - i,
    {
        if a[i] != b[i] {
            return false;
        }
        i = i + 1;
    }
    assert(a@ =~= b@);
    true
}

/// Credits `amount` to the pool if the request comes from its owner. The
/// transfer of the funds themselves is up to the caller once this succeeds.
pub fn deposit_sol(ctx: &mut DepositSol, amount: u64) -> (r: Result<(), MyError>)
    requires
        old(ctx).owner@ == old(ctx).treasure_account.owner@
            ==> old(ctx).treasure_account.balance + amount <= u64::MAX,
    ensures
        old(ctx).owner@ != old(ctx).treasure_account.owner@ ==> {
            &&& r == Err::<(), MyError>(MyError::Unauthorized)
            &&& *final(ctx) == *old(ctx)
        },
        old(ctx).owner@ == old(ctx).treasure_account.owner@ ==> {
            &&& r == Ok::<(), MyError>(())
            &&& final(ctx).treasure_account.balance == old(ctx).treasure_account.balance + amount
            &&& final(ctx).treasure_account.owner == old(ctx).treasure_account.owner
            &&& final(ctx).owner == old(ctx).owner
        },
{
    if !same_key(&ctx.owner, &ctx.treasure_account.owner) {
        return Err(MyError::Unauthorized);
    }
    ctx.treasure_account.balance = ctx.treasure_account.balance + amount;
    Ok(())
}

} // verus!
