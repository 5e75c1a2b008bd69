//! The terrain index and the proximity-driven discovery rule.
//!
//! The index maps a hex cell to the local entity occupying it and is
//! append-only: a cell keeps the first entity recorded for it. Discovery
//! never mutates the index itself; a caller must record a discovered cell
//! before the next evaluation, or the same cell is requested again.

use vstd::prelude::*;
use crate::hex::{Hx, hx_add_spec};
use crate::components::{Pos, Heading, EntityType, DecoratorDescriptor};
use crate::message::{Event, ENT_PLACEHOLDER};
use crate::store::{assoc_map, distinct_keys, lemma_assoc_map_dom, lemma_assoc_map_value};

verus! {

/// Tile index a discovery request asks for.
pub const DISCOVER_TILE_INDEX: usize = 1;

/// Map from a hex cell to the local entity occupying it.
pub struct TerrainIndex {
    cells: Vec<(Hx, u64)>,
}

impl TerrainIndex {
    /// The model: cell to occupying entity.
    pub closed spec fn view(&self) -> Map<Hx, u64> {
        assoc_map(self.cells@)
    }

    pub closed spec fn wf(&self) -> bool {
        distinct_keys(self.cells@)
    }

    /// An empty index.
    pub fn new() -> (r: TerrainIndex)
        ensures
            r@ == Map::<Hx, u64>::empty(),
            r.wf(),
    {
        TerrainIndex { cells: Vec::new() }
    }

    /// Whether the cell is known.
    pub fn contains(&self, h: Hx) -> (r: bool)
        requires
            self.wf(),
        ensures
            r == self@.contains_key(h),
    {
        let n = self.cells.len();
        let mut i: usize = 0;
        while i < n
            invariant
                0 <= i <= n,
                n == self.cells@.len(),
                self.wf(),
                forall|j: int| 0 <= j < i ==> (#[trigger] self.cells@[j]).0 != h,
            decreases n - i,
        {
            if self.cells[i].0 == h {
                proof {
                    lemma_assoc_map_value(self.cells@, i as int);
                }
                return true;
            }
            i += 1;
        }
        proof {
            lemma_assoc_map_dom(self.cells@, h);
        }
        false
    }

    /// The entity recorded for the cell, if any.
    pub fn get(&self, h: Hx) -> (r: Option<u64>)
        requires
            self.wf(),
        ensures
            r == (if self@.contains_key(h) {
                Some(self@[h])
            } else {
                None::<u64>
            }),
    {
        let n = self.cells.len();
        let mut i: usize = 0;
        while i < n
            invariant
                0 <= i <= n,
                n == self.cells@.len(),
                self.wf(),
                forall|j: int| 0 <= j < i ==> (#[trigger] self.cells@[j]).0 != h,
            decreases n - i,
        {
            if self.cells[i].0 == h {
                proof {
                    lemma_assoc_map_value(self.cells@, i as int);
                }
                return Some(self.cells[i].1);
            }
            i += 1;
        }
        proof {
            lemma_assoc_map_dom(self.cells@, h);
        }
        None
    }

    /// Record the entity occupying a cell. A known cell is left as it
    /// is: the index is append-only and keeps the first record.
    pub fn record(&mut self, h: Hx, ent: u64) -> (r: bool)
        requires
            old(self).wf(),
        ensures
            final(self).wf(),
            r == !old(self)@.contains_key(h),
            final(self)@ == (if old(self)@.contains_key(h) {
                old(self)@
            } else {
                old(self)@.insert(h, ent)
            }),
    {
        if self.contains(h) {
            return false;
        }
        let ghost oldseq = self.cells@;
        proof {
            lemma_assoc_map_dom(oldseq, h);
        }
        self.cells.push((h, ent));
        proof {
            assert(self.cells@.drop_last() =~= oldseq);
            assert forall|j: int| 0 <= j < oldseq.len() implies (#[trigger] oldseq[j]).0 != h by {
                lemma_assoc_map_dom(oldseq, h);
            }
        }
        true
    }
}

/// The cell an actor is about to enter: its position advanced by its
/// heading.
pub open spec fn discover_target(pos: Pos, heading: Heading) -> Hx {
    hx_add_spec(pos.hx, heading.0)
}

/// The discovery request for one unknown cell: a decorator spawn with a
/// placeholder id, a fixed tile and solidity.
pub open spec fn discover_request(h: Hx) -> Event {
    Event::Spawn {
        ent: ENT_PLACEHOLDER,
        typ: EntityType::Decorator(
            DecoratorDescriptor { index: DISCOVER_TILE_INDEX as usize, is_solid: true },
        ),
        hx: h,
    }
}

/// The requests produced by one evaluation: one per actor whose target
/// cell the index does not know, in actor order.
pub open spec fn discover_spec(actors: Seq<(Pos, Heading)>, known: Map<Hx, u64>) -> Seq<Event>
    decreases actors.len(),
{
    if actors.len() == 0 {
        Seq::empty()
    } else {
        let t = discover_target(actors.last().0, actors.last().1);
        discover_spec(actors.drop_last(), known) + (if known.contains_key(t) {
            Seq::empty()
        } else {
            seq![discover_request(t)]
        })
    }
}

/// Inspect each actor's facing direction and request generation of every
/// adjacent cell that is not yet known. The index is not changed here;
/// two actors facing the same unknown cell both request it.
pub fn discover_tiles(actors: &Vec<(Pos, Heading)>, map: &TerrainIndex) -> (events: Vec<Event>)
    requires
        map.wf(),
    ensures
        events@ == discover_spec(actors@, map@),
{
    let mut events: Vec<Event> = Vec::new();
    let n = actors.len();
    let mut i: usize = 0;
    while i < n
        invariant
            0 <= i <= n,
            n == actors@.len(),
            map.wf(),
            events@ == discover_spec(actors@.take(i as int), map@),
        decreases n - i,
    {
        let (pos, heading) = actors[i];
        let target = pos.hx.add(heading.0);
        if !map.contains(target) {
            events.push(Event::Spawn {
                ent: ENT_PLACEHOLDER,
                typ: EntityType::Decorator(
                    DecoratorDescriptor { index: DISCOVER_TILE_INDEX, is_solid: true },
                ),
                hx: target,
            });
        }
        proof {
            assert(actors@.take(i + 1).drop_last() =~= actors@.take(i as int));
            assert(actors@.take(i + 1).last() == actors@[i as int]);
        }
        i += 1;
    }
    proof {
        assert(actors@.take(n as int) =~= actors@);
    }
    events
}

} // verus!
