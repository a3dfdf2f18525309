//! The fourth stage of a frame: followers take their place beside their
//! leaders.

use vstd::prelude::*;
use crate::animation::{
    evolved, has_name, lemma_evolved_keeps, lemma_name_index_unique, name_index, names_distinct,
    same_identity, Animation,
};
use crate::entity::{clamped, place, placed, Entity};
use crate::geometry::Position;

verus! {

/// The place of the leader of entity `i`, where it names one and that one is
/// there.
pub open spec fn leader_of(s: Seq<Entity>, i: int) -> Option<int> {
    match s[i].follow_entity {
        Some(name) => if has_name(s, name@) {
            Some(name_index(s, name@))
        } else {
            None
        },
        None => None,
    }
}

/// Where the follower `e` comes to stand when its leader stands at `leader`:
/// on each axis that has an offset, at the leader's coordinate plus the
/// offset, stored as the setter of that axis stores it (wrapped onto the
/// canvas where the follower wraps, see [`placed`]; the layers have no
/// bound); on the other axes where it stood.
pub open spec fn followed(e: Entity, leader: Position, width: int, height: int) -> Position {
    Position {
        x: match e.follow_offset.x {
            Some(d) => placed(leader.x + d, e.wrap, width) as i16,
            None => e.pos.x,
        },
        y: match e.follow_offset.y {
            Some(d) => placed(leader.y + d, e.wrap, height) as i16,
            None => e.pos.y,
        },
        z: match e.follow_offset.z {
            Some(d) => clamped(leader.z + d) as i16,
            None => e.pos.z,
        },
    }
}

/// The chain of leaders that starts at entity `i` ends, after at most `hops`
/// links, at an entity that has no leader in the scheduler.
pub open spec fn anchored(s: Seq<Entity>, i: int, hops: nat) -> bool
    decreases hops,
{
    match leader_of(s, i) {
        None => true,
        Some(j) => hops > 0 && anchored(s, j, (hops - 1) as nat),
    }
}

/// Where entity `i` comes to stand: where it is if it has no leader in the
/// scheduler, else beside the place where its leader comes to stand. `None`
/// where the chain of leaders has more than `hops` links.
pub open spec fn settled(s: Seq<Entity>, i: int, width: int, height: int, hops: nat) -> Option<
    Position,
>
    decreases hops,
{
    match leader_of(s, i) {
        None => Some(s[i].pos),
        Some(j) => if hops == 0 {
            None
        } else {
            match settled(s, j, width, height, (hops - 1) as nat) {
                Some(p) => Some(followed(s[i], p, width, height)),
                None => None,
            }
        },
    }
}

/// The entities after the followers have moved. A chain of leaders among `n`
/// entities that does not end within `n` links runs in a circle; the
/// entities on it, and those that follow them, stay where they are.
pub open spec fn followers_moved(s: Seq<Entity>, width: int, height: int) -> Seq<Entity> {
    Seq::new(
        s.len(),
        |i: int|
            Entity {
                pos: match settled(s, i, width, height, s.len()) {
                    Some(p) => p,
                    None => s[i].pos,
                },
                ..s[i]
            },
    )
}

/// Entity `i` stands beside its leader, if it has one in the scheduler and
/// its chain of leaders ends.
pub open spec fn follows_leader(s: Seq<Entity>, i: int, width: int, height: int) -> bool {
    leader_of(s, i) matches Some(j) ==> anchored(s, i, s.len()) ==> s[i].pos == followed(
        s[i],
        s[j].pos,
        width,
        height,
    )
}

/// Each of the first `count` entities of `nodes` is in the scheduler and has
/// the next one as its leader.
pub open spec fn links(s: Seq<Entity>, nodes: Seq<int>, count: int) -> bool {
    &&& nodes.len() == count + 1
    &&& forall|k: int| 0 <= k < nodes.len() ==> 0 <= #[trigger] nodes[k] < s.len()
    &&& forall|k: int| 0 <= k < count ==> leader_of(s, #[trigger] nodes[k]) == Some(nodes[k + 1])
}

/// A chain of leaders that is longer than the links allowed has no place:
/// where the last of `nodes` still has a leader, no place is found for the
/// entity at `from`, which may follow the chain for as many links as lie
/// behind it.
pub proof fn lemma_chain_unsettled(
    s: Seq<Entity>,
    width: int,
    height: int,
    nodes: Seq<int>,
    from: int,
)
    requires
        links(s, nodes, nodes.len() - 1),
        leader_of(s, nodes.last()) is Some,
        0 <= from < nodes.len(),
    ensures
        settled(s, nodes[from], width, height, (nodes.len() - 1 - from) as nat) is None,
    decreases nodes.len() - from,
{
    if from < nodes.len() - 1 {
        lemma_chain_unsettled(s, width, height, nodes, from + 1);
    }
}

/// A place is found exactly for the chains that end.
pub proof fn lemma_settled_anchored(s: Seq<Entity>, i: int, width: int, height: int, hops: nat)
    ensures
        settled(s, i, width, height, hops) is Some <==> anchored(s, i, hops),
    decreases hops,
{
    if leader_of(s, i) is Some && hops > 0 {
        lemma_settled_anchored(s, leader_of(s, i).unwrap(), width, height, (hops - 1) as nat);
    }
}

/// More links allowed change no place that was found.
pub proof fn lemma_settled_more(
    s: Seq<Entity>,
    i: int,
    width: int,
    height: int,
    hops: nat,
    more: nat,
)
    requires
        settled(s, i, width, height, hops) is Some,
        hops <= more,
    ensures
        settled(s, i, width, height, more) == settled(s, i, width, height, hops),
    decreases hops,
{
    if leader_of(s, i) is Some {
        lemma_settled_more(
            s,
            leader_of(s, i).unwrap(),
            width,
            height,
            (hops - 1) as nat,
            (more - 1) as nat,
        );
    }
}

/// Whether a chain of leaders ends does not depend on where the entities
/// stand.
pub proof fn lemma_anchored_evolved(before: Seq<Entity>, after: Seq<Entity>, i: int, hops: nat)
    requires
        evolved(before, after),
        names_distinct(before),
        0 <= i < before.len(),
    ensures
        leader_of(after, i) == leader_of(before, i),
        anchored(after, i, hops) == anchored(before, i, hops),
    decreases hops,
{
    lemma_evolved_keeps(before, after);
    assert(same_identity(after[i], before[i]));
    if leader_of(before, i) is Some && hops > 0 {
        lemma_anchored_evolved(before, after, leader_of(before, i).unwrap(), (hops - 1) as nat);
    }
}

/// After the followers have moved, every follower whose chain of leaders
/// ends stands beside the place where its leader stands now.
pub proof fn lemma_moved_follows(s: Seq<Entity>, width: int, height: int, i: int)
    requires
        names_distinct(s),
        0 <= i < s.len(),
    ensures
        follows_leader(followers_moved(s, width, height), i, width, height),
{
    let after = followers_moved(s, width, height);
    let n = s.len();
    assert(evolved(s, after));
    lemma_anchored_evolved(s, after, i, n);
    if leader_of(s, i) is Some && anchored(s, i, n) {
        let j = leader_of(s, i).unwrap();
        lemma_settled_anchored(s, i, width, height, n);
        let p = settled(s, j, width, height, (n - 1) as nat).unwrap();
        lemma_settled_more(s, j, width, height, (n - 1) as nat, n);
        assert(after[j].pos == p);
        assert(after[i].pos == followed(s[i], p, width, height));
    }
}

impl Animation {
    /// Computes [`followed`] on the canvas of this scheduler.
    pub fn follow(&self, e: &Entity, leader: Position) -> (r: Position)
        ensures
            r == followed(*e, leader, self.width as int, self.height as int),
    {
        Position {
            x: match e.follow_offset.x {
                Some(d) => place(leader.x as i32 + d as i32, e.wrap, self.width),
                None => e.pos.x,
            },
            y: match e.follow_offset.y {
                Some(d) => place(leader.y as i32 + d as i32, e.wrap, self.height),
                None => e.pos.y,
            },
            z: match e.follow_offset.z {
                Some(d) => place(leader.z as i32 + d as i32, false, 0),
                None => e.pos.z,
            },
        }
    }

    /// Where the leader of the entity at `i` stands in the scheduler, if it
    /// has one there.
    pub fn leader(&self, i: usize) -> (r: Option<usize>)
        requires
            self.wf(),
            i < self.entities@.len(),
        ensures
            r matches Some(j) ==> j < self.entities@.len() && leader_of(self.entities@, i as int)
                == Some(j as int),
            r is None ==> leader_of(self.entities@, i as int) is None,
    {
        let found: Option<usize> = match &self.entities[i].follow_entity {
            Some(name) => self.index_of(name),
            None => None,
        };
        proof {
            if found is Some {
                lemma_name_index_unique(self.entities@, found.unwrap() as int);
            }
        }
        found
    }

    /// Computes [`settled`]: where entity `i` comes to stand, following its
    /// chain of leaders for at most `hops` links. The chain is walked up to
    /// its head, and from the head down each follower is placed beside its
    /// leader.
    pub fn settle(&self, i: usize, hops: usize) -> (r: Option<Position>)
        requires
            self.wf(),
            i < self.entities@.len(),
        ensures
            r == settled(
                self.entities@,
                i as int,
                self.width as int,
                self.height as int,
                hops as nat,
            ),
    {
        let ghost s = self.entities@;
        let ghost w = self.width as int;
        let ghost h = self.height as int;
        let mut chain: Vec<usize> = Vec::new();
        let ghost mut nodes: Seq<int> = seq![i as int];
        let mut at: usize = i;
        let mut left: usize = hops;
        loop
            invariant
                self.wf(),
                s == self.entities@,
                w == self.width as int,
                h == self.height as int,
                at < s.len(),
                left <= hops,
                chain@.len() + left == hops,
                links(s, nodes, chain@.len() as int),
                nodes[0] == i,
                nodes.last() == at,
                forall|k: int| 0 <= k < chain@.len() ==> #[trigger] chain@[k] == nodes[k],
            ensures
                leader_of(s, at as int) is None,
            decreases left,
        {
            match self.leader(at) {
                None => {
                    break;
                },
                Some(j) => {
                    if left == 0 {
                        proof {
                            lemma_chain_unsettled(s, w, h, nodes, 0);
                        }
                        return None;
                    }
                    chain.push(at);
                    proof {
                        nodes = nodes.push(j as int);
                    }
                    at = j;
                    left = left - 1;
                },
            }
        }
        let mut spot: Position = self.entities[at].pos;
        let mut k: usize = chain.len();
        while k > 0
            invariant
                s == self.entities@,
                w == self.width as int,
                h == self.height as int,
                k <= chain@.len(),
                chain@.len() <= hops,
                links(s, nodes, chain@.len() as int),
                forall|m: int| 0 <= m < chain@.len() ==> #[trigger] chain@[m] == nodes[m],
                settled(s, nodes[k as int], w, h, (hops - k) as nat) == Some(spot),
            decreases k,
        {
            k = k - 1;
            let follower: usize = chain[k];
            spot = self.follow(&self.entities[follower], spot);
        }
        Some(spot)
    }

    /// The fourth stage of a frame. Every follower takes its place beside
    /// its leader, as [`followed`] says, where the leader stands after it has
    /// itself followed its own leader: a chain of followers is settled from
    /// its head, whatever the order of the entities. A follower whose leader
    /// is not in the scheduler stays where it is, and so do the entities of a
    /// chain that runs in a circle.
    pub fn move_followers(&mut self)
        requires
            old(self).wf(),
        ensures
            final(self).wf(),
            final(self).same_settings(old(self)),
            final(self).entities@ == followers_moved(
                old(self).entities@,
                old(self).width as int,
                old(self).height as int,
            ),
            forall|i: int|
                0 <= i < final(self).entities@.len() ==> follows_leader(
                    final(self).entities@,
                    i,
                    old(self).width as int,
                    old(self).height as int,
                ),
    {
        let ghost s = self.entities@;
        let ghost w = self.width as int;
        let ghost h = self.height as int;
        let n: usize = self.entities.len();
        let mut places: Vec<Position> = Vec::new();
        let mut i: usize = 0;
        while i < n
            invariant
                self.wf(),
                *self == *old(self),
                s == self.entities@,
                w == self.width as int,
                h == self.height as int,
                n == s.len(),
                i <= n,
                places@.len() == i,
                forall|k: int|
                    0 <= k < i ==> #[trigger] places@[k] == followers_moved(s, w, h)[k].pos,
            decreases n - i,
        {
            let spot: Position = match self.settle(i, n) {
                Some(p) => p,
                None => self.entities[i].pos,
            };
            places.push(spot);
            i += 1;
        }
        let mut i: usize = 0;
        while i < n
            invariant
                s == old(self).entities@,
                w == old(self).width as int,
                h == old(self).height as int,
                n == s.len(),
                i <= n,
                places@.len() == n,
                self.entities@.len() == n,
                self.same_settings(old(self)),
                self.physical_count == old(self).physical_count,
                forall|k: int|
                    0 <= k < n ==> #[trigger] places@[k] == followers_moved(s, w, h)[k].pos,
                forall|k: int|
                    0 <= k < i ==> #[trigger] self.entities@[k] == followers_moved(s, w, h)[k],
                forall|k: int| i <= k < n ==> #[trigger] self.entities@[k] == s[k],
            decreases n - i,
        {
            self.entities[i].pos = places[i];
            i += 1;
        }
        proof {
            assert(self.entities@ =~= followers_moved(s, w, h));
            assert(evolved(s, self.entities@));
            lemma_evolved_keeps(s, self.entities@);
            assert forall|i: int| 0 <= i < self.entities@.len() implies follows_leader(
                self.entities@,
                i,
                w,
                h,
            ) by {
                lemma_moved_follows(s, w, h, i);
            }
        }
    }
}

} // verus!
