//! Whether the containers of a tile tree lie within themselves.
//!
//! A tree that was put together by hand, or read from a file, may hold a
//! container among its own children or those of its children. Moving a
//! tile in such a tree may never end, so the tree is tested before a move.

use std::collections::HashSet;
use vstd::prelude::*;
use crate::layout::{
    acyclic, children, children_of, has_tile, kind_of, moved_into, ranked, tile_ids, tree_tiles,
    without_child, Pane, TileContent,
};

verus! {

broadcast use vstd::std_specs::hash::group_hash_axioms;

/// Whether the tile `id` has a child that is a tile of the tree and is not
/// among `done`.
pub open spec fn has_open_child(tiles: Map<u64, TileContent>, done: Set<u64>, id: u64) -> bool {
    exists|i: int|
        0 <= i < children_of(tiles, id).len() && tiles.contains_key(
            #[trigger] children_of(tiles, id)[i],
        ) && !done.contains(children_of(tiles, id)[i])
}

/// Whether every tile that is not among `done` has a child that is not
/// among them either.
pub open spec fn stuck(tiles: Map<u64, TileContent>, done: Set<u64>) -> bool {
    forall|id: u64| tiles.contains_key(id) && !done.contains(id) ==> has_open_child(tiles, done, id)
}

/// Whether `rank` falls along every edge that starts at a tile among
/// `done`, each such edge ends among them, and each of them is a tile with
/// a rank below `bound`.
pub open spec fn settled(
    tiles: Map<u64, TileContent>,
    done: Set<u64>,
    rank: Map<u64, nat>,
    bound: nat,
) -> bool {
    &&& forall|id: u64| done.contains(id) ==> tiles.contains_key(id) && rank[id] < bound
    &&& forall|id: u64, i: int|
        #![trigger children_of(tiles, id)[i]]
        done.contains(id) && 0 <= i < children_of(tiles, id).len() && tiles.contains_key(
            children_of(tiles, id)[i],
        ) ==> done.contains(children_of(tiles, id)[i]) && rank[children_of(tiles, id)[i]]
            < rank[id]
}

/// Where every tile outside a set has a child outside it, no rank falls
/// along every edge, as long as a tile is outside the set.
proof fn lemma_stuck_has_no_rank(
    tiles: Map<u64, TileContent>,
    done: Set<u64>,
    rank: Map<u64, nat>,
    id: u64,
)
    requires
        stuck(tiles, done),
        tiles.contains_key(id),
        !done.contains(id),
    ensures
        !ranked(tiles, rank),
    decreases rank[id],
{
    if ranked(tiles, rank) {
        let i = choose|i: int|
            0 <= i < children_of(tiles, id).len() && tiles.contains_key(
                #[trigger] children_of(tiles, id)[i],
            ) && !done.contains(children_of(tiles, id)[i]);
        lemma_stuck_has_no_rank(tiles, done, rank, children_of(tiles, id)[i]);
    }
}

/// A sequence without repeats, all of whose values are in another, is no
/// longer than the other.
proof fn lemma_no_longer(part: Seq<u64>, whole: Seq<u64>)
    requires
        part.no_duplicates(),
        forall|x: u64| part.contains(x) ==> whole.contains(x),
    ensures
        part.len() <= whole.len(),
{
    part.unique_seq_to_set();
    whole.lemma_cardinality_of_set();
    assert(part.to_set().subset_of(whole.to_set()));
    vstd::set_lib::lemma_len_subset(part.to_set(), whole.to_set());
}

/// Taking the first mention of a value out of a sequence leaves only
/// values that were in it.
pub proof fn lemma_remove_value_subset(s: Seq<u64>, gone: u64, x: u64)
    requires
        s.remove_value(gone).contains(x),
    ensures
        s.contains(x),
{
    s.index_of_first_ensures(gone);
    match s.index_of_first(gone) {
        Some(at) => {
            let k = choose|k: int| 0 <= k < s.remove(at).len() && s.remove(at)[k] == x;
            if k < at {
                assert(s[k] == x);
            } else {
                assert(s[k + 1] == x);
            }
        },
        None => {},
    }
}

/// After a move, a container has no child that it had not before, but for
/// the moved tile in its destination.
pub proof fn lemma_children_after_move(
    before: Map<u64, TileContent>,
    after: Map<u64, TileContent>,
    moved: u64,
    destination: u64,
    id: u64,
    child: u64,
)
    requires
        moved_into(before, after, moved, destination),
        child != moved || id != destination || kind_of(before, destination) is None,
        children_of(after, id).contains(child),
    ensures
        children_of(before, id).contains(child),
{
    if kind_of(before, destination) is Some {
        if id == destination {
            let base = children_of(before, destination).remove_value(moved);
            let at = choose|at: int|
                0 <= at <= base.len() && children_of(after, destination) == #[trigger] base.insert(
                    at,
                    moved,
                );
            let grown = base.insert(at, moved);
            let k = choose|k: int| 0 <= k < grown.len() && grown[k] == child;
            if k < at {
                assert(base[k] == child);
            } else {
                assert(k != at);
                assert(base[k - 1] == child);
            }
            assert(base.contains(child));
            lemma_remove_value_subset(children_of(before, destination), moved, child);
        } else {
            assert(after.dom().contains(id) == before.dom().contains(id));
            if before.contains_key(id) {
                assert(after[id] == without_child(before[id], moved));
                lemma_remove_value_subset(children_of(before, id), moved, child);
            }
        }
    }
}

/// Whether no tile stands twice among the children of the containers of
/// the tree, be it in one container or in two.
pub open spec fn single_mention(tiles: Map<u64, TileContent>) -> bool {
    forall|a: u64, i: int, b: u64, j: int|
        #![trigger children_of(tiles, a)[i], children_of(tiles, b)[j]]
        tiles.contains_key(a) && tiles.contains_key(b) && 0 <= i < children_of(tiles, a).len() && 0
            <= j < children_of(tiles, b).len() && (a != b || i != j) ==> children_of(tiles, a)[i]
            != children_of(tiles, b)[j]
}

/// The place that a value of a sequence had before the first mention of
/// `gone` was taken out of the sequence.
pub open spec fn place_before(s: Seq<u64>, gone: u64, i: int) -> int {
    match s.index_of_first(gone) {
        Some(at) => if i < at {
            i
        } else {
            i + 1
        },
        None => i,
    }
}

/// What is left when the first mention of a value is taken out of a
/// sequence stood in the sequence, at the place that `place_before` gives, and
/// that place is not the one of the first mention.
pub proof fn lemma_place_before(s: Seq<u64>, gone: u64, i: int)
    requires
        0 <= i < s.remove_value(gone).len(),
    ensures
        0 <= place_before(s, gone, i) < s.len(),
        s[place_before(s, gone, i)] == s.remove_value(gone)[i],
        s.index_of_first(gone) matches Some(at) ==> place_before(s, gone, i) != at && s[at] == gone,
{
    s.index_of_first_ensures(gone);
}

/// A move leaves a tree in which no tile stands twice among the children
/// of the containers as such a tree.
pub proof fn lemma_move_keeps_single_mention(
    before: Map<u64, TileContent>,
    after: Map<u64, TileContent>,
    moved: u64,
    destination: u64,
)
    requires
        single_mention(before),
        moved_into(before, after, moved, destination),
    ensures
        single_mention(after),
{
    if kind_of(before, destination) is Some {
        let base = children_of(before, destination).remove_value(moved);
        let at = choose|at: int|
            0 <= at <= base.len() && children_of(after, destination) == #[trigger] base.insert(
                at,
                moved,
            );
        assert forall|a: u64, i: int, b: u64, j: int|
            #![trigger children_of(after, a)[i], children_of(after, b)[j]]
            after.contains_key(a) && after.contains_key(b) && 0 <= i < children_of(after, a).len()
                && 0 <= j < children_of(after, b).len() && (a != b || i != j) implies children_of(
            after,
            a,
        )[i] != children_of(after, b)[j] by {
            assert(after.dom().contains(a) == before.dom().contains(a));
            assert(after.dom().contains(b) == before.dom().contains(b));
            let first = lemma_origin(before, after, moved, destination, at, a, i);
            let second = lemma_origin(before, after, moved, destination, at, b, j);
            if children_of(after, a)[i] == children_of(after, b)[j] {
                if first is Some && second is Some {
                    assert(children_of(before, a)[first->0] == children_of(before, b)[second->0]);
                }
            }
        }
    }
}

/// Where a child of a container after a move stood before the move: at a
/// place among the children of the same container, or, for the moved tile in
/// its destination, nowhere. Different places after the move come from
/// different places before it, and the moved tile stands nowhere but in its
/// destination.
proof fn lemma_origin(
    before: Map<u64, TileContent>,
    after: Map<u64, TileContent>,
    moved: u64,
    destination: u64,
    at: int,
    id: u64,
    i: int,
) -> (origin: Option<int>)
    requires
        single_mention(before),
        moved_into(before, after, moved, destination),
        kind_of(before, destination) is Some,
        0 <= at <= children_of(before, destination).remove_value(moved).len(),
        children_of(after, destination) == children_of(before, destination).remove_value(
            moved,
        ).insert(at, moved),
        before.contains_key(id),
        0 <= i < children_of(after, id).len(),
    ensures
        origin == origin_of(before, moved, destination, at, id, i),
        origin matches Some(k) ==> 0 <= k < children_of(before, id).len() && children_of(
            before,
            id,
        )[k] == children_of(after, id)[i] && children_of(after, id)[i] != moved,
        origin is None ==> id == destination && i == at && children_of(after, id)[i] == moved,
{
    let list = children_of(before, id);
    let base = list.remove_value(moved);
    list.index_of_first_ensures(moved);
    if id == destination {
        if i == at {
            None
        } else {
            let j = if i < at {
                i
            } else {
                i - 1
            };
            assert(base.insert(at, moved)[i] == base[j]);
            lemma_place_before(list, moved, j);
            lemma_once(before, id, moved, place_before(list, moved, j));
            Some(place_before(list, moved, j))
        }
    } else {
        assert(after[id] == without_child(before[id], moved));
        assert(children_of(after, id) == base);
        lemma_place_before(list, moved, i);
        lemma_once(before, id, moved, place_before(list, moved, i));
        Some(place_before(list, moved, i))
    }
}

/// The place that `lemma_origin` gives.
pub open spec fn origin_of(
    before: Map<u64, TileContent>,
    moved: u64,
    destination: u64,
    at: int,
    id: u64,
    i: int,
) -> Option<int> {
    let list = children_of(before, id);
    if id == destination {
        if i == at {
            None
        } else if i < at {
            Some(place_before(list, moved, i))
        } else {
            Some(place_before(list, moved, i - 1))
        }
    } else {
        Some(place_before(list, moved, i))
    }
}

/// In a tree where no tile stands twice, a value of a list of children
/// that does not stand at the place of the first mention of a tile is not
/// that tile.
proof fn lemma_once(tiles: Map<u64, TileContent>, id: u64, tile: u64, k: int)
    requires
        single_mention(tiles),
        tiles.contains_key(id),
        0 <= k < children_of(tiles, id).len(),
        children_of(tiles, id).index_of_first(tile) matches Some(at) ==> k != at,
    ensures
        children_of(tiles, id)[k] != tile,
{
    let list = children_of(tiles, id);
    list.index_of_first_ensures(tile);
    match list.index_of_first(tile) {
        Some(at) => {
            assert(children_of(tiles, id)[at] == tile);
        },
        None => {
            if list[k] == tile {
                assert(list.contains(tile));
            }
        },
    }
}

/// Moving a tile that is no container leaves a tree in which no container
/// lies within itself as such a tree.
pub proof fn lemma_move_of_pane_keeps_acyclic(
    before: Map<u64, TileContent>,
    after: Map<u64, TileContent>,
    moved: u64,
    destination: u64,
)
    requires
        acyclic(before),
        moved_into(before, after, moved, destination),
        kind_of(before, moved) is None,
    ensures
        acyclic(after),
{
    if kind_of(before, destination) is Some {
        let old_rank = choose|rank: Map<u64, nat>| ranked(before, rank);
        let rank = Map::<u64, nat>::new(
            |id: u64| true,
            |id: u64|
                if kind_of(before, id) is None {
                    0nat
                } else {
                    old_rank[id] + 1
                },
        );
        assert forall|id: u64, i: int|
            #![trigger children_of(after, id)[i]]
            after.contains_key(id) && 0 <= i < children_of(after, id).len() && after.contains_key(
                children_of(after, id)[i],
            ) implies rank[children_of(after, id)[i]] < rank[id] by {
            let child = children_of(after, id)[i];
            assert(after.dom().contains(id) == before.dom().contains(id));
            assert(after.dom().contains(child) == before.dom().contains(child));
            assert(kind_of(after, id) is Some);
            assert(kind_of(before, id) is Some) by {
                if id != destination {
                    assert(after[id] == without_child(before[id], moved));
                }
            }
            if kind_of(before, child) is Some {
                assert(children_of(after, id).contains(child));
                lemma_children_after_move(before, after, moved, destination, id, child);
                let k = choose|k: int|
                    0 <= k < children_of(before, id).len() && children_of(before, id)[k] == child;
                assert(old_rank[children_of(before, id)[k]] < old_rank[id]);
            }
        }
        assert(ranked(after, rank));
    }
}

/// Whether every child of the tile `id` that is a tile of the tree is
/// among `done`.
fn children_done(tree: &egui_tiles::Tree<Pane>, id: u64, done: &HashSet<u64>) -> (r: bool)
    ensures
        r == !has_open_child(tree_tiles(*tree), done@, id),
{
    let kids = children(tree, id);
    let mut i: usize = 0;
    while i < kids.len()
        invariant
            i <= kids@.len(),
            kids@ == children_of(tree_tiles(*tree), id),
            forall|j: int|
                #![trigger kids@[j]]
                0 <= j < i ==> !tree_tiles(*tree).contains_key(kids@[j]) || done@.contains(kids@[j]),
        decreases kids@.len() - i,
    {
        let kid = kids[i];
        if has_tile(tree, kid) && !done.contains(&kid) {
            assert(tree_tiles(*tree).contains_key(children_of(tree_tiles(*tree), id)[i as int]));
            return false;
        }
        i = i + 1;
    }
    true
}

/// Whether no container of the tree lies within itself.
pub fn is_acyclic(tree: &egui_tiles::Tree<Pane>) -> (r: bool)
    ensures
        r == acyclic(tree_tiles(*tree)),
{
    let ghost tiles = tree_tiles(*tree);
    let ids = tile_ids(tree);
    let mut done: HashSet<u64> = HashSet::new();
    let ghost mut rank: Map<u64, nat> = Map::empty();
    let ghost mut order: Seq<u64> = Seq::empty();
    let mut marked: usize = 0;
    let mut progress = true;
    let mut pending = false;
    proof {
        lemma_no_longer(order, ids@);
    }
    while progress
        invariant
            tiles == tree_tiles(*tree),
            forall|id: u64| ids@.contains(id) <==> tiles.contains_key(id),
            marked == order.len(),
            marked <= ids@.len(),
            order.no_duplicates(),
            done@ == order.to_set(),
            settled(tiles, done@, rank, marked as nat),
            !progress ==> stuck(tiles, done@),
            !progress && pending ==> exists|id: u64| tiles.contains_key(id) && !done@.contains(id),
            !progress && !pending ==> forall|id: u64| tiles.contains_key(id) ==> done@.contains(id),
        decreases ids@.len() - marked + (if progress { 1int } else { 0int }),
    {
        let before = marked;
        let ghost start = done@;
        pending = false;
        let mut i: usize = 0;
        while i < ids.len()
            invariant
                i <= ids@.len(),
                tiles == tree_tiles(*tree),
                forall|id: u64| ids@.contains(id) <==> tiles.contains_key(id),
                marked == order.len(),
                before <= marked <= ids@.len(),
                order.no_duplicates(),
                done@ == order.to_set(),
                settled(tiles, done@, rank, marked as nat),
                marked == before ==> done@ == start,
                marked == before ==> forall|j: int|
                    #![trigger ids@[j]]
                    0 <= j < i && !done@.contains(ids@[j]) ==> has_open_child(
                        tiles,
                        done@,
                        ids@[j],
                    ),
                !pending ==> forall|j: int| #![trigger ids@[j]] 0 <= j < i ==> done@.contains(ids@[j]),
                pending && marked == before ==> exists|j: int|
                    #![trigger ids@[j]]
                    0 <= j < i && !done@.contains(ids@[j]),
            decreases ids@.len() - i,
        {
            let id = ids[i];
            assert(ids@.contains(id));
            if !done.contains(&id) {
                if children_done(tree, id, &done) {
                    proof {
                        let longer = order.push(id);
                        assert(longer.no_duplicates()) by {
                            assert(!order.to_set().contains(id));
                        }
                        assert(longer.to_set() =~= done@.insert(id)) by {
                            assert forall|x: u64| longer.to_set().contains(x) <==> done@.insert(
                                id,
                            ).contains(x) by {
                                if longer.contains(x) {
                                    let k = choose|k: int| 0 <= k < longer.len() && longer[k] == x;
                                    if k < order.len() {
                                        assert(order[k] == x);
                                        assert(order.contains(x));
                                    }
                                }
                                if order.contains(x) {
                                    let k = choose|k: int| 0 <= k < order.len() && order[k] == x;
                                    assert(longer[k] == x);
                                }
                                if x == id {
                                    assert(longer[order.len() as int] == x);
                                }
                            }
                        }
                        assert forall|x: u64| longer.contains(x) implies ids@.contains(x) by {
                            assert(longer.to_set().contains(x));
                        }
                        lemma_no_longer(longer, ids@);
                        rank = rank.insert(id, marked as nat);
                        order = longer;
                    }
                    done.insert(id);
                    marked = marked + 1;
                } else {
                    pending = true;
                }
            }
            i = i + 1;
        }
        progress = marked > before;
        proof {
            if !progress {
                assert forall|id: u64| tiles.contains_key(id) && !done@.contains(id) implies has_open_child(
                    tiles,
                    done@,
                    id,
                ) by {
                    let j = choose|j: int| 0 <= j < ids@.len() && ids@[j] == id;
                    assert(!done@.contains(ids@[j]));
                }
                if pending {
                    let j = choose|j: int|
                        #![trigger ids@[j]]
                        0 <= j < ids@.len() && !done@.contains(ids@[j]);
                    assert(ids@.contains(ids@[j]));
                } else {
                    assert forall|id: u64| tiles.contains_key(id) implies done@.contains(id) by {
                        let j = choose|j: int| 0 <= j < ids@.len() && ids@[j] == id;
                        assert(done@.contains(ids@[j]));
                    }
                }
            }
        }
    }
    proof {
        if pending {
            let open = choose|id: u64| tiles.contains_key(id) && !done@.contains(id);
            assert forall|any: Map<u64, nat>| !ranked(tiles, any) by {
                lemma_stuck_has_no_rank(tiles, done@, any, open);
            }
        } else {
            assert(ranked(tiles, rank));
        }
    }
    !pending
}

} // verus!
