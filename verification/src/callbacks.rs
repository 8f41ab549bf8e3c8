//! Price callbacks: consumers register, per asset, a contract and method to
//! be called when a new aggregate price is published (at most ten per
//! asset, one per consumer). The library keeps the registrations and says
//! which calls are due; making the calls is left to the host.

use vstd::prelude::*;
use std::collections::HashMap;
use crate::oracle::PriceOracleContract;
use crate::types::ErrorCode;

verus! {

broadcast use vstd::std_specs::hash::group_hash_axioms;

/// Most callbacks registered for one asset.
pub const MAX_CALLBACKS_PER_ASSET: usize = 10;

/// A consumer's callback for one asset.
pub struct CallbackRegistration {
    pub consumer: u64,
    pub callback_contract: u64,
    pub method: String,
    pub active: bool,
}

/// A registration by its parts.
pub open spec fn reg_view(r: CallbackRegistration) -> (u64, u64, Seq<char>, bool) {
    (r.consumer, r.callback_contract, r.method@, r.active)
}

/// The registrations by their parts.
pub open spec fn reg_views(s: Seq<CallbackRegistration>) -> Seq<(u64, u64, Seq<char>, bool)>
    decreases s.len(),
{
    if s.len() == 0 { Seq::empty() } else { reg_views(s.drop_last()).push(reg_view(s.last())) }
}

pub proof fn lemma_reg_views(s: Seq<CallbackRegistration>)
    ensures
        reg_views(s).len() == s.len(),
        forall|i: int| 0 <= i < s.len() ==> #[trigger] reg_views(s)[i] == reg_view(s[i]),
    decreases s.len(),
{
    if s.len() > 0 {
        lemma_reg_views(s.drop_last());
    }
}

/// Position of `consumer`'s registration among `s` (-1 when none).
pub open spec fn consumer_pos(s: Seq<(u64, u64, Seq<char>, bool)>, consumer: u64) -> int
    decreases s.len(),
{
    if s.len() == 0 {
        -1
    } else if consumer_pos(s.drop_last(), consumer) >= 0 {
        consumer_pos(s.drop_last(), consumer)
    } else if s.last().0 == consumer {
        s.len() - 1
    } else {
        -1
    }
}

pub proof fn lemma_consumer_pos(s: Seq<(u64, u64, Seq<char>, bool)>, consumer: u64)
    ensures
        consumer_pos(s, consumer) == -1 ==> forall|i: int| 0 <= i < s.len() ==> #[trigger] s[i].0 != consumer,
        consumer_pos(s, consumer) != -1 ==> 0 <= consumer_pos(s, consumer) < s.len() && s[consumer_pos(s, consumer)].0 == consumer
            && forall|i: int| 0 <= i < consumer_pos(s, consumer) ==> #[trigger] s[i].0 != consumer,
    decreases s.len(),
{
    if s.len() > 0 {
        lemma_consumer_pos(s.drop_last(), consumer);
        assert forall|i: int| 0 <= i < s.len() - 1 implies #[trigger] s[i] == s.drop_last()[i] by {}
    }
}

/// The calls due after an aggregate: contract and method of every active
/// registration, in registration order.
pub open spec fn due_calls(s: Seq<(u64, u64, Seq<char>, bool)>) -> Seq<(u64, Seq<char>)>
    decreases s.len(),
{
    if s.len() == 0 {
        Seq::empty()
    } else if s.last().3 {
        due_calls(s.drop_last()).push((s.last().1, s.last().2))
    } else {
        due_calls(s.drop_last())
    }
}

/// Callback registrations per asset.
pub struct Callbacks {
    pub lists: HashMap<u64, Vec<CallbackRegistration>>,
}

impl Callbacks {
    /// The registrations of `asset`, by their parts.
    pub open spec fn regs_of(&self, asset: u64) -> Seq<(u64, u64, Seq<char>, bool)> {
        if self.lists@.contains_key(asset) { reg_views(self.lists@[asset]@) } else { Seq::empty() }
    }

    /// No registration.
    pub fn new() -> (r: Callbacks)
        ensures
            forall|a: u64| #[trigger] r.regs_of(a) == Seq::<(u64, u64, Seq<char>, bool)>::empty(),
    {
        Callbacks { lists: HashMap::new() }
    }

    fn find_consumer(list: &Vec<CallbackRegistration>, consumer: u64) -> (r: Option<usize>)
        ensures
            match r {
                Some(i) => i as int == consumer_pos(reg_views(list@), consumer) && i < list@.len(),
                None => consumer_pos(reg_views(list@), consumer) == -1,
            },
    {
        proof {
            lemma_reg_views(list@);
            lemma_consumer_pos(reg_views(list@), consumer);
        }
        let mut i: usize = 0;
        while i < list.len()
            invariant
                0 <= i <= list@.len(),
                reg_views(list@).len() == list@.len(),
                forall|j: int| 0 <= j < list@.len() ==> #[trigger] reg_views(list@)[j] == reg_view(list@[j]),
                forall|j: int| 0 <= j < i ==> #[trigger] list@[j].consumer != consumer,
            decreases list@.len() - i,
        {
            if list[i].consumer == consumer {
                proof {
                    let s = reg_views(list@);
                    let pos = consumer_pos(s, consumer);
                    lemma_consumer_pos(s, consumer);
                    assert(s[i as int] == reg_view(list@[i as int]));
                    assert(s[i as int].0 == consumer);
                    if pos != -1 && pos < i {
                        assert(s[pos] == reg_view(list@[pos]));
                    }
                }
                return Some(i);
            }
            i = i + 1;
        }
        proof {
            let s = reg_views(list@);
            let pos = consumer_pos(s, consumer);
            lemma_consumer_pos(s, consumer);
            if pos != -1 {
                assert(s[pos] == reg_view(list@[pos]));
            }
        }
        None
    }

    /// Registers (or replaces) `consumer`'s callback for the registered
    /// `asset`; a new consumer is refused once the asset has ten.
    pub fn register_price_callback(&mut self, oracle: &PriceOracleContract, consumer: u64, asset: u64, callback_contract: u64, method: String) -> (r: Result<(), ErrorCode>)
        ensures
            r == (if !oracle.assets@.contains(asset) {
                Err(ErrorCode::AssetNotRegistered)
            } else if consumer_pos(old(self).regs_of(asset), consumer) == -1 && old(self).regs_of(asset).len() >= MAX_CALLBACKS_PER_ASSET {
                Err(ErrorCode::TooManyCallbacks)
            } else {
                Ok(())
            }),
            forall|a: u64| #[trigger] final(self).regs_of(a) == (if r.is_ok() && a == asset {
                if consumer_pos(old(self).regs_of(asset), consumer) >= 0 {
                    old(self).regs_of(asset).update(consumer_pos(old(self).regs_of(asset), consumer), (consumer, callback_contract, method@, true))
                } else {
                    old(self).regs_of(asset).push((consumer, callback_contract, method@, true))
                }
            } else {
                old(self).regs_of(a)
            }),
            forall|a: u64| old(self).regs_of(a).len() <= MAX_CALLBACKS_PER_ASSET ==> #[trigger] final(self).regs_of(a).len() <= MAX_CALLBACKS_PER_ASSET,
    {
        if !oracle.is_asset_registered(asset) {
            return Err(ErrorCode::AssetNotRegistered);
        }
        let ghost old_regs = self.regs_of(asset);
        let mut list: Vec<CallbackRegistration> = match self.lists.remove(&asset) {
            Some(v) => v,
            None => Vec::new(),
        };
        proof {
            lemma_reg_views(list@);
            assert(reg_views(list@) == old_regs);
        }
        let new_reg = CallbackRegistration { consumer, callback_contract, method, active: true };
        let ghost nv = reg_view(new_reg);
        match Self::find_consumer(&list, consumer) {
            Some(idx) => {
                let ghost l0 = list@;
                list.set(idx, new_reg);
                proof {
                    lemma_reg_views(list@);
                    lemma_reg_views(l0);
                    assert(reg_views(list@) =~= reg_views(l0).update(idx as int, nv));
                }
            },
            None => {
                if list.len() >= MAX_CALLBACKS_PER_ASSET {
                    self.lists.insert(asset, list);
                    return Err(ErrorCode::TooManyCallbacks);
                }
                let ghost l0 = list@;
                list.push(new_reg);
                proof {
                    assert(list@.drop_last() == l0);
                }
            },
        }
        self.lists.insert(asset, list);
        Ok(())
    }

    /// Removes `consumer`'s callback for the registered `asset`.
    pub fn unregister_price_callback(&mut self, oracle: &PriceOracleContract, consumer: u64, asset: u64) -> (r: Result<(), ErrorCode>)
        ensures
            r == (if !oracle.assets@.contains(asset) {
                Err(ErrorCode::AssetNotRegistered)
            } else if consumer_pos(old(self).regs_of(asset), consumer) == -1 {
                Err(ErrorCode::CallbackNotFound)
            } else {
                Ok(())
            }),
            forall|a: u64| #[trigger] final(self).regs_of(a) == (if r.is_ok() && a == asset {
                old(self).regs_of(asset).remove(consumer_pos(old(self).regs_of(asset), consumer))
            } else {
                old(self).regs_of(a)
            }),
    {
        if !oracle.is_asset_registered(asset) {
            return Err(ErrorCode::AssetNotRegistered);
        }
        let ghost old_regs = self.regs_of(asset);
        let mut list: Vec<CallbackRegistration> = match self.lists.remove(&asset) {
            Some(v) => v,
            None => Vec::new(),
        };
        proof {
            lemma_reg_views(list@);
            assert(reg_views(list@) == old_regs);
        }
        match Self::find_consumer(&list, consumer) {
            Some(idx) => {
                let ghost l0 = list@;
                list.remove(idx);
                proof {
                    lemma_reg_views(list@);
                    lemma_reg_views(l0);
                    assert(reg_views(list@) =~= reg_views(l0).remove(idx as int));
                }
                self.lists.insert(asset, list);
                Ok(())
            },
            None => {
                self.lists.insert(asset, list);
                Err(ErrorCode::CallbackNotFound)
            },
        }
    }

    /// The registrations of `asset`, in registration order.
    pub fn get_price_callbacks(&self, asset: u64) -> (r: Vec<CallbackRegistration>)
        ensures
            reg_views(r@) == self.regs_of(asset),
    {
        let mut out: Vec<CallbackRegistration> = Vec::new();
        match self.lists.get(&asset) {
            Some(v) => {
                let mut i: usize = 0;
                while i < v.len()
                    invariant
                        0 <= i <= v@.len(),
                        reg_views(out@) == reg_views(v@.subrange(0, i as int)),
                    decreases v@.len() - i,
                {
                    let reg = CallbackRegistration {
                        consumer: v[i].consumer,
                        callback_contract: v[i].callback_contract,
                        method: v[i].method.clone(),
                        active: v[i].active,
                    };
                    let ghost o0 = out@;
                    out.push(reg);
                    proof {
                        assert(out@.drop_last() == o0);
                        assert(v@.subrange(0, i + 1).drop_last() =~= v@.subrange(0, i as int));
                    }
                    i = i + 1;
                }
                proof {
                    assert(v@.subrange(0, v@.len() as int) =~= v@);
                }
            },
            None => {},
        }
        out
    }

    /// The calls due once a new aggregate of `asset` is published: contract
    /// and method of every active registration, in registration order.
    pub fn invoke_price_callbacks(&self, asset: u64) -> (r: Vec<(u64, String)>)
        ensures
            r@.len() == due_calls(self.regs_of(asset)).len(),
            forall|i: int| 0 <= i < r@.len() ==> #[trigger] due_calls(self.regs_of(asset))[i] == (r@[i].0, r@[i].1@),
    {
        let mut out: Vec<(u64, String)> = Vec::new();
        match self.lists.get(&asset) {
            Some(v) => {
                let mut i: usize = 0;
                while i < v.len()
                    invariant
                        0 <= i <= v@.len(),
                        out@.len() == due_calls(reg_views(v@.subrange(0, i as int))).len(),
                        forall|k: int| 0 <= k < out@.len() ==> #[trigger] due_calls(reg_views(v@.subrange(0, i as int)))[k] == (out@[k].0, out@[k].1@),
                    decreases v@.len() - i,
                {
                    proof {
                        assert(v@.subrange(0, i + 1).drop_last() =~= v@.subrange(0, i as int));
                        assert(reg_views(v@.subrange(0, i + 1)).drop_last() == reg_views(v@.subrange(0, i as int)));
                    }
                    if v[i].active {
                        out.push((v[i].callback_contract, v[i].method.clone()));
                    }
                    i = i + 1;
                }
                proof {
                    assert(v@.subrange(0, v@.len() as int) =~= v@);
                }
            },
            None => {},
        }
        out
    }
}

} // verus!
