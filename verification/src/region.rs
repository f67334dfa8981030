//! The storage-region manager: keeps one persistent byte region's length
//! and funding exactly sufficient for the encoded tree it backs. A region
//! is created sized to the encoding and funded with the minimum deposit;
//! it is grown by funding the shortfall first, then resizing, and it is
//! never observed larger than its funding covers.

use vstd::prelude::*;

use crate::errors::TreeError;

verus! {

/// The persistent byte region backing one tree, as the execution
/// environment presents it: its stored bytes and its funding balance.
pub struct Region {
    pub data: Vec<u8>,
    pub lamports: u64,
}

impl Region {
    /// A region that was never provisioned, or holds no funding, backs no
    /// tree yet.
    pub open spec fn is_uninitialized(self) -> bool {
        self.data@.len() == 0 || self.lamports == 0
    }

    /// A fresh, never-provisioned region.
    pub fn fresh() -> (r: Region)
        ensures
            r.data@.len() == 0,
            r.lamports == 0,
            r.is_uninitialized(),
    {
        Region { data: Vec::new(), lamports: 0 }
    }
}

/// The endowment oracle: the minimum deposit that keeps a region alive is
/// a base amount plus a per-byte amount, saturating at the largest
/// representable balance. The environment supplies the two amounts.
pub struct RentSchedule {
    pub base: u64,
    pub lamports_per_byte: u64,
}

impl RentSchedule {
    /// The minimum deposit for a region of `space` bytes.
    pub open spec fn spec_minimum_balance(self, space: nat) -> u64 {
        if self.base + self.lamports_per_byte * space > u64::MAX {
            u64::MAX
        } else {
            (self.base + self.lamports_per_byte * space) as u64
        }
    }

    /// Compute the minimum deposit for a region of `space` bytes.
    pub fn minimum_balance(&self, space: usize) -> (r: u64)
        ensures
            r == self.spec_minimum_balance(space as nat),
    {
        match self.lamports_per_byte.checked_mul(space as u64) {
            Option::Some(m) => self.base.saturating_add(m),
            Option::None => u64::MAX,
        }
    }
}

/// A sequence of `n` zero bytes.
pub open spec fn zeros(n: nat) -> Seq<u8> {
    Seq::new(n, |i: int| 0u8)
}

/// The bytes of a region resized in place: truncated, or extended with
/// zeroes.
pub open spec fn resize_bytes(s: Seq<u8>, n: nat) -> Seq<u8> {
    if n <= s.len() {
        s.take(n as int)
    } else {
        s + zeros((n - s.len()) as nat)
    }
}

/// A vector of `n` zero bytes.
fn zero_vec(n: usize) -> (v: Vec<u8>)
    ensures
        v@ == zeros(n as nat),
{
    let mut v: Vec<u8> = Vec::new();
    let mut i: usize = 0;
    while i < n
        invariant
            i <= n,
            v@ == zeros(i as nat),
        decreases n - i,
    {
        v.push(0u8);
        proof {
            assert(v@ =~= zeros((i + 1) as nat));
        }
        i += 1;
    }
    v
}

/// Resize a byte vector in place, zero-filling any new tail.
fn resize_zeros(data: &mut Vec<u8>, n: usize)
    ensures
        final(data)@ == resize_bytes(old(data)@, n as nat),
        final(data)@.len() == n,
{
    if n <= data.len() {
        data.truncate(n);
        proof {
            assert(data@ =~= old(data)@.take(n as int));
        }
    } else {
        let ghost start = data@;
        let mut i: usize = data.len();
        while i < n
            invariant
                start.len() <= i <= n,
                data@ == start + zeros((i - start.len()) as nat),
            decreases n - i,
        {
            data.push(0u8);
            proof {
                assert(data@ =~= start + zeros((i + 1 - start.len()) as nat));
            }
            i += 1;
        }
    }
}

/// Create the region for a first-time provision: exactly `space` bytes,
/// zeroed, funded with the minimum deposit for that size, taken from the
/// funding source. Fails, changing nothing, when the region already holds
/// data or funding, or when the funding source cannot cover the deposit.
pub fn create_pda_space(
    region: &mut Region,
    payer: &mut u64,
    rent: &RentSchedule,
    space: usize,
) -> (r: Result<(), TreeError>)
    ensures
        match r {
            Result::Ok(_) => {
                let deposit = rent.spec_minimum_balance(space as nat);
                &&& old(region).data@.len() == 0
                &&& old(region).lamports == 0
                &&& *old(payer) >= deposit
                &&& *final(payer) == *old(payer) - deposit
                &&& final(region).lamports == deposit
                &&& final(region).data@ == zeros(space as nat)
            },
            Result::Err(e) => {
                &&& *final(region) == *old(region)
                &&& *final(payer) == *old(payer)
                &&& if old(region).data@.len() > 0 || old(region).lamports > 0 {
                    e == TreeError::AlreadyProvisioned
                } else {
                    e == TreeError::InsufficientFunds && *old(payer) < rent.spec_minimum_balance(
                        space as nat,
                    )
                }
            },
        },
{
    if region.data.len() > 0 || region.lamports > 0 {
        return Result::Err(TreeError::AlreadyProvisioned);
    }
    let deposit = rent.minimum_balance(space);
    if *payer < deposit {
        return Result::Err(TreeError::InsufficientFunds);
    }
    *payer = *payer - deposit;
    region.lamports = deposit;
    region.data = zero_vec(space);
    Result::Ok(())
}

/// Resize an existing region for a new encoded length. A shrink or exact
/// fit is an in-place resize with no funding change; a grow first
/// transfers the funding shortfall for the larger size from the funding
/// source, then resizes, zero-filling the new tail. Fails, changing
/// nothing, when the source cannot cover the shortfall.
pub fn update_pda_space(
    region: &mut Region,
    payer: &mut u64,
    rent: &RentSchedule,
    new_space: usize,
) -> (r: Result<(), TreeError>)
    ensures
        match r {
            Result::Ok(_) => {
                let need = rent.spec_minimum_balance(new_space as nat);
                let diff = if need > old(region).lamports {
                    (need - old(region).lamports) as u64
                } else {
                    0u64
                };
                &&& final(region).data@ == resize_bytes(old(region).data@, new_space as nat)
                &&& final(region).data@.len() == new_space
                &&& if old(region).data@.len() >= new_space {
                    *final(payer) == *old(payer) && final(region).lamports == old(
                        region,
                    ).lamports
                } else {
                    &&& *old(payer) >= diff
                    &&& *final(payer) == *old(payer) - diff
                    &&& final(region).lamports == old(region).lamports + diff
                }
            },
            Result::Err(e) => {
                let need = rent.spec_minimum_balance(new_space as nat);
                let diff = if need > old(region).lamports {
                    (need - old(region).lamports) as u64
                } else {
                    0u64
                };
                &&& *final(region) == *old(region)
                &&& *final(payer) == *old(payer)
                &&& e == TreeError::InsufficientFunds
                &&& old(region).data@.len() < new_space
                &&& *old(payer) < diff
            },
        },
{
    if region.data.len() >= new_space {
        region.data.truncate(new_space);
        proof {
            assert(region.data@ =~= resize_bytes(old(region).data@, new_space as nat));
        }
        return Result::Ok(());
    }
    let need = rent.minimum_balance(new_space);
    let diff = need.saturating_sub(region.lamports);
    if *payer < diff {
        return Result::Err(TreeError::InsufficientFunds);
    }
    *payer = *payer - diff;
    region.lamports = region.lamports + diff;
    resize_zeros(&mut region.data, new_space);
    Result::Ok(())
}

} // verus!
