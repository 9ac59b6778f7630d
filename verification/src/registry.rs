//! The registry in which processors meet: one bundle for each routing key.

use crate::channel_ring::{ChannelRing, ChannelRingView};
use std::collections::hash_map::Entry;
use std::collections::HashMap;
use vstd::arithmetic::power2::is_pow2;
use vstd::prelude::*;

verus! {

/// The cells of each ring of a registry made by `Registry::new`.
pub const RING_CAP_POW2: usize = 65536;

/// The number under which the bundle of a routing key is filed.
pub open spec fn key_code(channel: usize, num_channels: usize) -> u128 {
    (channel as int * 0x1_0000_0000_0000_0000 + num_channels as int) as u128
}

/// The number under which the bundle of a routing key is filed.
fn code_of(channel: usize, num_channels: usize) -> (code: u128)
    ensures
        code == key_code(channel, num_channels),
{
    (channel as u128) * 0x1_0000_0000_0000_0000u128 + (num_channels as u128)
}

/// What a routing key resolves to in a registry that holds `bundles` and
/// makes rings of `capacity` cells: the bundle of that key where there is
/// one, else a new one.
pub open spec fn resolved(
    bundles: Map<(usize, usize), ChannelRingView>,
    capacity: nat,
    channel: usize,
    num_channels: usize,
) -> ChannelRingView {
    if bundles.contains_key((channel, num_channels)) {
        bundles[(channel, num_channels)]
    } else {
        ChannelRingView::fresh(num_channels as nat, capacity)
    }
}

/// Every bundle has a ring of `capacity` cells, a power of two, for each
/// physical channel that its key counts.
pub open spec fn bundles_wf(bundles: Map<(usize, usize), ChannelRingView>, capacity: nat) -> bool {
    &&& is_pow2(capacity as int)
    &&& forall|key: (usize, usize)| #[trigger]
        bundles.contains_key(key) ==> {
            &&& bundles[key].wf()
            &&& bundles[key].capacity == capacity
            &&& bundles[key].rings.len() == key.1
        }
}

/// The bundles of a process, each under its routing key: the selected
/// channel and the number of physical channels. A bundle is made when its
/// key is first resolved, and stays.
pub struct Registry {
    capacity: usize,
    rings: HashMap<u128, ChannelRing>,
}

impl View for Registry {
    type V = Map<(usize, usize), ChannelRingView>;

    /// The bundles by routing key.
    closed spec fn view(&self) -> Map<(usize, usize), ChannelRingView> {
        Map::new(
            |key: (usize, usize)| self.rings@.contains_key(key_code(key.0, key.1)),
            |key: (usize, usize)| self.rings@[key_code(key.0, key.1)]@,
        )
    }
}

impl Registry {
    /// The cells of each ring that this registry makes.
    pub closed spec fn spec_capacity(&self) -> nat {
        self.capacity as nat
    }

    /// Every bundle is filed under the number of a routing key.
    pub closed spec fn filed(&self) -> bool {
        forall|code: u128| #[trigger]
            self.rings@.contains_key(code) ==> exists|channel: usize, num_channels: usize|
                code == key_code(channel, num_channels)
    }

    /// The bundles are well-formed, each under its key.
    pub open spec fn wf(&self) -> bool {
        &&& self.filed()
        &&& bundles_wf(self@, self.spec_capacity())
    }

    /// An empty registry whose rings will have `RING_CAP_POW2` cells.
    pub fn new() -> (registry: Registry)
        ensures
            registry.wf(),
            registry@ == Map::<(usize, usize), ChannelRingView>::empty(),
            registry.spec_capacity() == RING_CAP_POW2,
    {
        proof {
            reveal_with_fuel(is_pow2, 18);
        }
        let registry = Registry { capacity: RING_CAP_POW2, rings: HashMap::new() };
        assert(registry@ =~= Map::<(usize, usize), ChannelRingView>::empty());
        registry
    }

    /// An empty registry whose rings will have `capacity_pow2` cells, if that
    /// is a power of two.
    pub fn with_capacity(capacity_pow2: usize) -> (registry: Option<Registry>)
        ensures
            registry is Some <==> is_pow2(capacity_pow2 as int),
            registry matches Some(r) ==> {
                &&& r.wf()
                &&& r@ == Map::<(usize, usize), ChannelRingView>::empty()
                &&& r.spec_capacity() == capacity_pow2
            },
    {
        if crate::arith::is_power_of_two(capacity_pow2) {
            let registry = Registry { capacity: capacity_pow2, rings: HashMap::new() };
            assert(registry@ =~= Map::<(usize, usize), ChannelRingView>::empty());
            Some(registry)
        } else {
            None
        }
    }

    /// The cells of each ring that this registry makes.
    pub fn capacity(&self) -> (capacity: usize)
        ensures
            capacity == self.spec_capacity(),
    {
        self.capacity
    }

    /// The bundle of the routing key, if the key was resolved before.
    pub fn get(&self, channel: usize, num_channels: usize) -> (bundle: Option<&ChannelRing>)
        ensures
            bundle is Some <==> self@.contains_key((channel, num_channels)),
            bundle matches Some(b) ==> b@ == self@[(channel, num_channels)],
    {
        let code = code_of(channel, num_channels);
        self.rings.get(&code)
    }

    /// The bundle of the routing key: the one that the registry holds under
    /// it, else a new one, silent and with its cursor at 0, which the
    /// registry holds from now on. What the caller does to the bundle is
    /// done to the registry's bundle of that key.
    pub fn resolve(&mut self, channel: usize, num_channels: usize) -> (bundle: &mut ChannelRing)
        requires
            old(self).wf(),
        ensures
            bundle@ == resolved(old(self)@, old(self).spec_capacity(), channel, num_channels),
            bundle.wf(),
            bundle@.capacity == old(self).spec_capacity(),
            bundle@.rings.len() == num_channels,
            final(self)@ =~= old(self)@.insert((channel, num_channels), final(bundle)@),
            final(self).spec_capacity() == old(self).spec_capacity(),
            final(self).filed(),
    {
        let code = code_of(channel, num_channels);
        proof {
            if self.rings@.contains_key(code) {
                assert(self@.contains_key((channel, num_channels)));
                assert(self@[(channel, num_channels)] == self.rings@[code]@);
            }
        }
        match self.rings.entry(code) {
            Entry::Occupied(existing) => existing.into_mut(),
            Entry::Vacant(vacant) => vacant.insert(ChannelRing::new(num_channels, self.capacity)),
        }
    }
}

} // verus!
