//! The tile tree that lays the histograms out on screen.
//!
//! The tree is `egui_tiles::Tree`. Nothing of it is verified here. Each
//! function below makes one call into it and states, without proof, what the
//! call does to the tiles of the tree and to its root. The tiles are spoken
//! of as a map from tile id to content, where the content of a container is
//! its kind and the ids of its children in the order in which the container
//! hands them out.

use vstd::prelude::*;

verus! {

/// What a leaf of the tree shows: a histogram of the collection that the
/// tree belongs to, by its position among the histograms of its dimension.
#[derive(Clone, Copy, Debug, PartialEq, Eq, Structural)]
pub enum Pane {
    Histogram(usize),
    Histogram2D(usize),
}

/// The kinds of container.
#[derive(Clone, Copy, Debug, PartialEq, Eq, Structural)]
pub enum ContainerType {
    Grid,
    Tabs,
    Vertical,
    Horizontal,
}

/// One tile as a value: a pane, or a container of some kind with the ids of
/// its children.
pub enum TileContent {
    Pane(Pane),
    Container { kind: ContainerType, children: Seq<u64> },
}

#[verifier::external_type_specification]
#[verifier::external_body]
#[verifier::reject_recursive_types(T)]
pub struct ExTree<T>(egui_tiles::Tree<T>);

/// The tiles of a tree by their ids.
pub uninterp spec fn tree_tiles(tree: egui_tiles::Tree<Pane>) -> Map<u64, TileContent>;

/// The id of the root tile of a tree, if it has one.
pub uninterp spec fn tree_root(tree: egui_tiles::Tree<Pane>) -> Option<u64>;

/// The kind of the container with the given id, if there is such a tile and
/// it is a container.
pub open spec fn kind_of(tiles: Map<u64, TileContent>, id: u64) -> Option<ContainerType> {
    if tiles.contains_key(id) {
        match tiles[id] {
            TileContent::Pane(_) => None,
            TileContent::Container { kind, .. } => Some(kind),
        }
    } else {
        None
    }
}

/// The children of the container with the given id; no children where there
/// is no such container.
pub open spec fn children_of(tiles: Map<u64, TileContent>, id: u64) -> Seq<u64> {
    if tiles.contains_key(id) {
        match tiles[id] {
            TileContent::Pane(_) => Seq::empty(),
            TileContent::Container { children, .. } => children,
        }
    } else {
        Seq::empty()
    }
}

/// Whether `rank` falls along every edge of the tree: from each container
/// to each of its children that is a tile of the tree.
pub open spec fn ranked(tiles: Map<u64, TileContent>, rank: Map<u64, nat>) -> bool {
    forall|id: u64, i: int|
        #![trigger children_of(tiles, id)[i]]
        tiles.contains_key(id) && 0 <= i < children_of(tiles, id).len() && tiles.contains_key(
            children_of(tiles, id)[i],
        ) ==> rank[children_of(tiles, id)[i]] < rank[id]
}

/// Whether no container of the tree lies within itself, directly or
/// through other containers: there is a rank that falls along every edge.
pub open spec fn acyclic(tiles: Map<u64, TileContent>) -> bool {
    exists|rank: Map<u64, nat>| ranked(tiles, rank)
}

/// A tile that has let go of `moved`: a container loses the first mention
/// of it among its children, a pane is as it was.
pub open spec fn without_child(content: TileContent, moved: u64) -> TileContent {
    match content {
        TileContent::Pane(_) => content,
        TileContent::Container { kind, children } => TileContent::Container {
            kind,
            children: children.remove_value(moved),
        },
    }
}

/// How the tiles stand after `moved` was moved into the container
/// `destination`. Every container lets go of `moved`, and the destination
/// then takes it in at some place among its children. No tile comes or goes.
/// Where `destination` is no container, nothing changes.
pub open spec fn moved_into(
    before: Map<u64, TileContent>,
    after: Map<u64, TileContent>,
    moved: u64,
    destination: u64,
) -> bool {
    if kind_of(before, destination) is Some {
        &&& after.dom() == before.dom()
        &&& forall|id: u64|
            before.contains_key(id) && id != destination ==> #[trigger] after[id] == without_child(
                before[id],
                moved,
            )
        &&& kind_of(after, destination) == kind_of(before, destination)
        &&& exists|at: int|
            0 <= at <= children_of(before, destination).remove_value(moved).len() && children_of(
                after,
                destination,
            ) == #[trigger] children_of(before, destination).remove_value(moved).insert(at, moved)
    } else {
        after == before
    }
}

/// `egui_tiles::Tree::empty`: a tree without tiles and without a root.
#[verifier::external_body]
pub(crate) fn empty_tree() -> (tree: egui_tiles::Tree<Pane>)
    ensures
        tree_tiles(tree) == (Map::<u64, TileContent>::empty()),
        tree_root(tree) is None,
{
    egui_tiles::Tree::empty(egui::Id::unique("Empty tree"))
}

/// `egui_tiles::Tree::root`: the id of the root tile.
#[verifier::external_body]
pub(crate) fn root(tree: &egui_tiles::Tree<Pane>) -> (r: Option<u64>)
    ensures
        r == tree_root(*tree),
{
    tree.root().map(|id| id.0)
}

/// Assignment to the field `root` of `egui_tiles::Tree`: the tree has the
/// given root, and its tiles are as they were.
#[verifier::external_body]
pub(crate) fn set_root(tree: &mut egui_tiles::Tree<Pane>, id: u64)
    ensures
        tree_root(*final(tree)) == Some(id),
        tree_tiles(*final(tree)) == tree_tiles(*old(tree)),
{
    tree.root = Some(egui_tiles::TileId::from_u64(id));
}

/// `egui_tiles::Tiles::insert_pane`: the pane becomes a tile under an id that
/// no tile of the tree had. The other tiles and the root stay.
#[verifier::external_body]
pub(crate) fn insert_pane(tree: &mut egui_tiles::Tree<Pane>, pane: Pane) -> (id: u64)
    ensures
        !tree_tiles(*old(tree)).contains_key(id),
        tree_tiles(*final(tree)) == tree_tiles(*old(tree)).insert(id, TileContent::Pane(pane)),
        tree_root(*final(tree)) == tree_root(*old(tree)),
{
    tree.tiles.insert_pane(pane).0
}

/// `egui_tiles::Tiles::insert_grid_tile`: a grid container with the given
/// children becomes a tile under an id that no tile of the tree had. The
/// other tiles and the root stay.
#[verifier::external_body]
pub(crate) fn insert_grid(tree: &mut egui_tiles::Tree<Pane>, children: Vec<u64>) -> (id: u64)
    ensures
        !tree_tiles(*old(tree)).contains_key(id),
        tree_tiles(*final(tree)) == tree_tiles(*old(tree)).insert(
            id,
            TileContent::Container { kind: ContainerType::Grid, children: children@ },
        ),
        tree_root(*final(tree)) == tree_root(*old(tree)),
{
    let children = children.into_iter().map(egui_tiles::TileId::from_u64).collect();
    tree.tiles.insert_grid_tile(children).0
}

/// `egui_tiles::Tiles::insert_tab_tile`: a tab container with the given
/// children becomes a tile under an id that no tile of the tree had. The
/// other tiles and the root stay.
#[verifier::external_body]
pub(crate) fn insert_tabs(tree: &mut egui_tiles::Tree<Pane>, children: Vec<u64>) -> (id: u64)
    ensures
        !tree_tiles(*old(tree)).contains_key(id),
        tree_tiles(*final(tree)) == tree_tiles(*old(tree)).insert(
            id,
            TileContent::Container { kind: ContainerType::Tabs, children: children@ },
        ),
        tree_root(*final(tree)) == tree_root(*old(tree)),
{
    let children = children.into_iter().map(egui_tiles::TileId::from_u64).collect();
    tree.tiles.insert_tab_tile(children).0
}

/// `egui_tiles::Tiles::get`: whether the tree has a tile of the given id.
#[verifier::external_body]
pub(crate) fn has_tile(tree: &egui_tiles::Tree<Pane>, id: u64) -> (r: bool)
    ensures
        r == tree_tiles(*tree).contains_key(id),
{
    tree.tiles.get(egui_tiles::TileId::from_u64(id)).is_some()
}

/// `egui_tiles::Tiles::get_container` and `egui_tiles::Container::kind`: the
/// kind of the container of the given id; `None` where the tree has no such
/// tile or the tile is a pane.
#[verifier::external_body]
pub(crate) fn container_kind(tree: &egui_tiles::Tree<Pane>, id: u64) -> (r: Option<ContainerType>)
    ensures
        r == kind_of(tree_tiles(*tree), id),
{
    match tree.tiles.get_container(egui_tiles::TileId::from_u64(id)) {
        Some(container) => Some(
            match container.kind() {
                egui_tiles::ContainerKind::Tabs => ContainerType::Tabs,
                egui_tiles::ContainerKind::Horizontal => ContainerType::Horizontal,
                egui_tiles::ContainerKind::Vertical => ContainerType::Vertical,
                egui_tiles::ContainerKind::Grid => ContainerType::Grid,
            },
        ),
        None => None,
    }
}

/// `egui_tiles::Tiles::tile_ids`: the ids of all tiles, each once, in no
/// order that could be relied on.
#[verifier::external_body]
pub(crate) fn tile_ids(tree: &egui_tiles::Tree<Pane>) -> (ids: Vec<u64>)
    ensures
        ids@.no_duplicates(),
        forall|id: u64| ids@.contains(id) <==> tree_tiles(*tree).contains_key(id),
{
    tree.tiles.tile_ids().map(|id| id.0).collect()
}

/// `egui_tiles::Tiles::get_container` and
/// `egui_tiles::Container::children_vec`: the ids of the children of the
/// container of the given id, in their order; none where the tree has no
/// such tile or the tile is a pane.
#[verifier::external_body]
pub(crate) fn children(tree: &egui_tiles::Tree<Pane>, id: u64) -> (r: Vec<u64>)
    ensures
        r@ == children_of(tree_tiles(*tree), id),
{
    match tree.tiles.get_container(egui_tiles::TileId::from_u64(id)) {
        Some(container) => container.children_vec().into_iter().map(|child| child.0).collect(),
        None => Vec::new(),
    }
}

/// `egui_tiles::Container::add_child` on the tile that
/// `egui_tiles::Tiles::get_mut` finds: where the tile is a container, the
/// child becomes the last of its children. Where there is no such tile or it
/// is a pane, nothing changes. No other tile changes, nor the root.
#[verifier::external_body]
pub(crate) fn add_child(tree: &mut egui_tiles::Tree<Pane>, container: u64, child: u64)
    ensures
        tree_root(*final(tree)) == tree_root(*old(tree)),
        kind_of(tree_tiles(*old(tree)), container) matches Some(kind) ==> tree_tiles(*final(tree))
            == tree_tiles(*old(tree)).insert(
            container,
            TileContent::Container {
                kind,
                children: children_of(tree_tiles(*old(tree)), container).push(child),
            },
        ),
        kind_of(tree_tiles(*old(tree)), container) is None ==> tree_tiles(*final(tree))
            == tree_tiles(*old(tree)),
{
    if let Some(egui_tiles::Tile::Container(tile)) = tree.tiles.get_mut(
        egui_tiles::TileId::from_u64(container),
    ) {
        tile.add_child(egui_tiles::TileId::from_u64(child));
    }
}

/// `egui_tiles::Tree::move_tile_to_container`, with the grid reflowed: see
/// `moved_into` for what it leaves. The place that the tile gets among the
/// children of the destination depends on the kind of the container and, in a
/// grid, on its empty cells; it is not stated. The root stays. A tab
/// container that loses the tile looks for another tab to show, and walks
/// down through the children of its children to do so without noting where it
/// has been: in a tree where a container lies within itself the call may not
/// return, so such a tree is not admitted.
#[verifier::external_body]
pub(crate) fn move_tile_to_container(
    tree: &mut egui_tiles::Tree<Pane>,
    moved: u64,
    destination: u64,
    index: usize,
)
    requires
        acyclic(tree_tiles(*old(tree))),
    ensures
        tree_root(*final(tree)) == tree_root(*old(tree)),
        moved_into(tree_tiles(*old(tree)), tree_tiles(*final(tree)), moved, destination),
{
    tree.move_tile_to_container(
        egui_tiles::TileId::from_u64(moved),
        egui_tiles::TileId::from_u64(destination),
        index,
        true,
    );
}

} // verus!
