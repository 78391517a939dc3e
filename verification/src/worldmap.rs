//! The sparse world map: blocks keyed by their signed 16-bit 3D
//! coordinate, with a duplicate-free dirty list that consumers drain.

use crate::block::Block;
use crate::math::Vector3i16;
use vstd::prelude::*;

verus! {

/// One stored block with its coordinate.
#[derive(Debug)]
pub struct MapEntry {
    pub pos: Vector3i16,
    pub block: Block,
}

/// No two entries share a coordinate.
pub open spec fn entries_unique(s: Seq<MapEntry>) -> bool {
    forall|i: int, j: int| 0 <= i < j < s.len() ==> (#[trigger] s[i]).pos != (#[trigger] s[j]).pos
}

/// No coordinate appears twice.
pub open spec fn positions_unique(s: Seq<Vector3i16>) -> bool {
    forall|i: int, j: int| 0 <= i < j < s.len() ==> (#[trigger] s[i]) != (#[trigger] s[j])
}

pub open spec fn has_pos(s: Seq<MapEntry>, pos: Vector3i16) -> bool {
    exists|i: int| 0 <= i < s.len() && (#[trigger] s[i]).pos == pos
}

pub open spec fn dirty_has(s: Seq<Vector3i16>, pos: Vector3i16) -> bool {
    exists|i: int| 0 <= i < s.len() && (#[trigger] s[i]) == pos
}

/// The sparse grid of blocks and the dirty list of coordinates changed
/// since the last drain.
pub struct BlockMap {
    pub blocks: Vec<MapEntry>,
    pub dirty: Vec<Vector3i16>,
}

impl BlockMap {
    /// Unique block coordinates and a duplicate-free dirty list.
    pub open spec fn wf(&self) -> bool {
        &&& entries_unique(self.blocks@)
        &&& positions_unique(self.dirty@)
    }

    pub fn new() -> (r: BlockMap)
        ensures
            r.wf(),
            r.blocks@.len() == 0,
            r.dirty@.len() == 0,
    {
        BlockMap { blocks: Vec::new(), dirty: Vec::new() }
    }

    fn find(&self, pos: Vector3i16) -> (r: Option<usize>)
        ensures
            match r {
                Some(i) => (i as int) < self.blocks@.len() && self.blocks@[i as int].pos == pos,
                None => !has_pos(self.blocks@, pos),
            },
    {
        let n = self.blocks.len();
        let mut k: usize = 0;
        while k < n
            invariant
                n == self.blocks@.len(),
                k <= n,
                forall|t: int| 0 <= t < k ==> (#[trigger] self.blocks@[t]).pos != pos,
            decreases n - k,
        {
            let p = self.blocks[k].pos;
            if p.x == pos.x && p.y == pos.y && p.z == pos.z {
                proof {
                    assert(p == pos);
                }
                return Some(k);
            }
            proof {
                assert(p != pos);
            }
            k = k + 1;
        }
        None
    }

    fn dirty_contains(&self, pos: Vector3i16) -> (r: bool)
        ensures
            r == dirty_has(self.dirty@, pos),
    {
        let n = self.dirty.len();
        let mut k: usize = 0;
        while k < n
            invariant
                n == self.dirty@.len(),
                k <= n,
                forall|t: int| 0 <= t < k ==> (#[trigger] self.dirty@[t]) != pos,
            decreases n - k,
        {
            let p = self.dirty[k];
            if p.x == pos.x && p.y == pos.y && p.z == pos.z {
                proof {
                    assert(p == pos);
                }
                return true;
            }
            proof {
                assert(p != pos);
            }
            k = k + 1;
        }
        false
    }

    /// The stored block at a coordinate.
    pub fn get(&self, pos: Vector3i16) -> (r: Option<&Block>)
        ensures
            r is Some <==> has_pos(self.blocks@, pos),
            match r {
                Some(b) => exists|i: int|
                    0 <= i < self.blocks@.len() && (#[trigger] self.blocks@[i]).pos == pos
                        && self.blocks@[i].block == *b,
                None => true,
            },
    {
        match self.find(pos) {
            Some(i) => {
                proof {
                    assert(self.blocks@[i as int].pos == pos);
                }
                Some(&self.blocks[i].block)
            },
            None => None,
        }
    }

    /// Inserts or replaces the block at `pos` and marks the coordinate
    /// dirty: the stored table changes exactly at `pos` (an update in
    /// place, or one appended entry), and the coordinate is appended to
    /// the dirty list exactly when it is not dirty already, so the list
    /// never holds duplicates.
    pub fn update_or_set(&mut self, pos: Vector3i16, block: Block)
        requires
            old(self).wf(),
        ensures
            final(self).wf(),
            has_pos(final(self).blocks@, pos),
            dirty_has(final(self).dirty@, pos),
            has_pos(old(self).blocks@, pos) ==> exists|i: int|
                0 <= i < old(self).blocks@.len() && (#[trigger] old(self).blocks@[i]).pos == pos
                    && final(self).blocks@ == old(self).blocks@.update(
                    i,
                    MapEntry { pos, block },
                ),
            !has_pos(old(self).blocks@, pos) ==> final(self).blocks@ == old(self).blocks@.push(
                MapEntry { pos, block },
            ),
            dirty_has(old(self).dirty@, pos) ==> final(self).dirty@ == old(self).dirty@,
            !dirty_has(old(self).dirty@, pos) ==> final(self).dirty@ == old(self).dirty@.push(
                pos,
            ),
            exists|i: int|
                0 <= i < final(self).blocks@.len() && (#[trigger] final(self).blocks@[i]).pos
                    == pos && final(self).blocks@[i].block == block,
            forall|p: Vector3i16|
                p != pos ==> (#[trigger] dirty_has(final(self).dirty@, p) == dirty_has(
                    old(self).dirty@,
                    p,
                )),
            forall|p: Vector3i16|
                p != pos ==> (#[trigger] has_pos(final(self).blocks@, p) == has_pos(
                    old(self).blocks@,
                    p,
                )),
    {
        let entry = MapEntry { pos, block };
        let ghost gentry = entry;
        let ghost mut widx: int = 0;
        match self.find(pos) {
            Some(i) => {
                let ghost pre = self.blocks@;
                self.blocks.set(i, entry);
                proof {
                    assert forall|a: int, b: int|
                        0 <= a < b < self.blocks@.len() implies (#[trigger] self.blocks@[a]).pos
                        != (#[trigger] self.blocks@[b]).pos by {
                        assert(self.blocks@[a].pos == pre[a].pos || a == i);
                        assert(self.blocks@[b].pos == pre[b].pos || b == i);
                        if a == i {
                            assert(pre[b].pos != pos);
                        } else if b == i {
                            assert(pre[a].pos != pos);
                        }
                    }
                    widx = i as int;
                    assert(self.blocks@[widx] == gentry);
                    assert forall|p: Vector3i16| p != pos implies has_pos(self.blocks@, p)
                        == has_pos(pre, p) by {
                        if has_pos(pre, p) {
                            let w = choose|t: int| 0 <= t < pre.len() && pre[t].pos == p;
                            assert(self.blocks@[w].pos == p);
                        }
                        if has_pos(self.blocks@, p) {
                            let w = choose|t: int|
                                0 <= t < self.blocks@.len() && self.blocks@[t].pos == p;
                            assert(pre[w].pos == p);
                        }
                    }
                }
            },
            None => {
                let ghost pre = self.blocks@;
                self.blocks.push(entry);
                proof {
                    assert forall|a: int, b: int|
                        0 <= a < b < self.blocks@.len() implies (#[trigger] self.blocks@[a]).pos
                        != (#[trigger] self.blocks@[b]).pos by {
                        if b == self.blocks@.len() - 1 {
                            assert(self.blocks@[a] == pre[a]);
                        } else {
                            assert(self.blocks@[a] == pre[a]);
                            assert(self.blocks@[b] == pre[b]);
                        }
                    }
                    widx = self.blocks@.len() - 1;
                    assert(self.blocks@[widx] == gentry);
                    assert forall|p: Vector3i16| p != pos implies has_pos(self.blocks@, p)
                        == has_pos(pre, p) by {
                        if has_pos(pre, p) {
                            let w = choose|t: int| 0 <= t < pre.len() && pre[t].pos == p;
                            assert(self.blocks@[w].pos == p);
                        }
                        if has_pos(self.blocks@, p) {
                            let w = choose|t: int|
                                0 <= t < self.blocks@.len() && self.blocks@[t].pos == p;
                            if w < pre.len() {
                                assert(pre[w].pos == p);
                            }
                        }
                    }
                }
            },
        }
        if !self.dirty_contains(pos) {
            let ghost pre = self.dirty@;
            self.dirty.push(pos);
            proof {
                assert forall|a: int, b: int|
                    0 <= a < b < self.dirty@.len() implies (#[trigger] self.dirty@[a]) != (
                #[trigger] self.dirty@[b]) by {
                    if b == self.dirty@.len() - 1 {
                        assert(self.dirty@[a] == pre[a]);
                    } else {
                        assert(self.dirty@[a] == pre[a]);
                        assert(self.dirty@[b] == pre[b]);
                    }
                }
                assert(self.dirty@[self.dirty@.len() - 1] == pos);
                assert forall|p: Vector3i16| p != pos implies dirty_has(self.dirty@, p)
                    == dirty_has(pre, p) by {
                    if dirty_has(pre, p) {
                        let w = choose|t: int| 0 <= t < pre.len() && pre[t] == p;
                        assert(self.dirty@[w] == p);
                    }
                    if dirty_has(self.dirty@, p) {
                        let w = choose|t: int| 0 <= t < self.dirty@.len() && self.dirty@[t] == p;
                        if w < pre.len() {
                            assert(pre[w] == p);
                        }
                    }
                }
            }
        }
        proof {
            assert(self.blocks@[widx] == gentry);
            assert(gentry.pos == pos && gentry.block == block);
        }
    }

    /// Drains the dirty list: the returned coordinates hold no duplicates,
    /// and the list left behind is empty.
    pub fn take_dirty(&mut self) -> (r: Vec<Vector3i16>)
        requires
            old(self).wf(),
        ensures
            final(self).wf(),
            r@ == old(self).dirty@,
            positions_unique(r@),
            final(self).dirty@.len() == 0,
            final(self).blocks@ == old(self).blocks@,
    {
        let mut drained: Vec<Vector3i16> = Vec::new();
        std::mem::swap(&mut drained, &mut self.dirty);
        drained
    }
}

} // verus!
