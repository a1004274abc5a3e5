//! The collection of histograms and their places in the tile tree.

use std::collections::HashMap;
use vstd::prelude::*;
use vstd::std_specs::iter::IteratorSpec;
use crate::axis::{is_axis, refuses, AxisError};
use crate::counts::{record_all, zeros};
use crate::cycles::{
    is_acyclic, lemma_children_after_move, lemma_move_keeps_single_mention,
    lemma_move_of_pane_keeps_acyclic, single_mention,
};
use crate::histogram1d::{cells, with_progress, Histogram};
use crate::histogram2d::{cell_count, grid_refused, pair_cells, GridError, Histogram2D};
use crate::number::Number;
use crate::plot_settings::is_default;
use crate::layout::{
    acyclic, add_child, children_of, container_kind, empty_tree, has_tile, insert_grid, insert_pane,
    insert_tabs, kind_of, move_tile_to_container, moved_into, root, set_root, tile_ids, tree_root,
    tree_tiles, without_child, ContainerType, Pane, TileContent,
};

verus! {

broadcast use vstd::std_specs::hash::group_hash_axioms;

/// The tab names of the grids, by tile id.
pub struct TreeBehavior {
    pub tile_map: HashMap<u64, String>,
}

impl TreeBehavior {
    /// Names the tab of a tile, in place of the name it had.
    pub fn set_tile_tab_mapping(&mut self, tile_id: u64, tab_name: String)
        ensures
            final(self).tile_map@ == old(self).tile_map@.insert(tile_id, tab_name),
    {
        self.tile_map.insert(tile_id, tab_name);
    }

    /// The tab name of a tile, if it was given one.
    pub fn get_tab_name(&self, tile_id: u64) -> (r: Option<&String>)
        ensures
            r is Some <==> self.tile_map@.contains_key(tile_id),
            r matches Some(name) ==> *name == self.tile_map@[tile_id],
    {
        self.tile_map.get(&tile_id)
    }
}

/// A tree as a value: its tiles and its root.
pub struct TreeView {
    pub tiles: Map<u64, TileContent>,
    pub root: Option<u64>,
}

/// The tiles and the root of a tree.
pub open spec fn tree_view(tree: egui_tiles::Tree<Pane>) -> TreeView {
    TreeView { tiles: tree_tiles(tree), root: tree_root(tree) }
}

/// An empty grid.
pub open spec fn empty_grid() -> TileContent {
    TileContent::Container { kind: ContainerType::Grid, children: Seq::empty() }
}

/// A tab container with the given children.
pub open spec fn tabs_of(children: Seq<u64>) -> TileContent {
    TileContent::Container { kind: ContainerType::Tabs, children }
}

/// How a tree stands after a grid was created in it under the id `grid`,
/// inside a new tab container under the id `tab`. Both ids are new. The new
/// tab container becomes the root of a tree that had none; it becomes the
/// last child of a root that is a tab container; and with any other root, a
/// further new tab container, under the id `top`, holds the old root and the
/// new tab container and is the root.
pub open spec fn grid_created(before: TreeView, after: TreeView, grid: u64, tab: u64, top: u64) -> bool {
    let with_grid = before.tiles.insert(grid, empty_grid());
    let with_tab = with_grid.insert(tab, tabs_of(seq![grid]));
    &&& !before.tiles.contains_key(grid)
    &&& !with_grid.contains_key(tab)
    &&& match before.root {
        None => after.tiles == with_tab && after.root == Some(tab),
        Some(r) => if kind_of(with_tab, r) == Some(ContainerType::Tabs) {
            &&& after.tiles == with_tab.insert(r, tabs_of(children_of(with_tab, r).push(tab)))
            &&& after.root == Some(r)
        } else {
            &&& !with_tab.contains_key(top)
            &&& after.tiles == with_tab.insert(top, tabs_of(seq![r, tab]))
            &&& after.root == Some(top)
        },
    }
}

/// Whether the tile `id` is a grid whose tab is named "Other": the grid that
/// takes the histograms for which no grid was given.
pub open spec fn is_other_grid(tiles: Map<u64, TileContent>, names: Map<u64, String>, id: u64) -> bool {
    &&& kind_of(tiles, id) == Some(ContainerType::Grid)
    &&& names.contains_key(id)
    &&& names[id]@ == "Other"@
}

/// Whether `i` is the first position at which `name` stands in `names`.
pub open spec fn is_first_named(names: Seq<Seq<char>>, name: Seq<char>, i: int) -> bool {
    &&& 0 <= i < names.len()
    &&& names[i] == name
    &&& forall|j: int| 0 <= j < i ==> names[j] != name
}

/// Whether `name` stands nowhere in `names`.
pub open spec fn none_named(names: Seq<Seq<char>>, name: Seq<char>) -> bool {
    forall|j: int| 0 <= j < names.len() ==> names[j] != name
}

/// The names of one-dimensional histograms, in their order.
pub open spec fn names_1d(histograms: Seq<Histogram>) -> Seq<Seq<char>> {
    Seq::new(histograms.len(), |i: int| histograms[i]@.name)
}

/// The names of two-dimensional histograms, in their order.
pub open spec fn names_2d(histograms: Seq<Histogram2D>) -> Seq<Seq<char>> {
    Seq::new(histograms.len(), |i: int| histograms[i]@.name)
}

/// The record of placements as a value: for each grid that took a
/// histogram tile, the tiles put into it, in the order in which they were
/// put there.
pub open spec fn placements(map: Map<u64, Vec<u64>>) -> Map<u64, Seq<u64>> {
    Map::new(|grid: u64| map.contains_key(grid), |grid: u64| map[grid]@)
}

/// The record after `tile` was put into `grid`: the tile is the last of
/// those of the grid.
pub open spec fn placed(record: Map<u64, Seq<u64>>, grid: u64, tile: u64) -> Map<u64, Seq<u64>> {
    record.insert(
        grid,
        if record.contains_key(grid) {
            record[grid].push(tile)
        } else {
            seq![tile]
        },
    )
}

/// How the tree and the tab names stand after the grid for a new histogram
/// tile was settled. A grid that was given is taken as it is. Where none was
/// given, a grid whose tab is named "Other" is taken if the tree has one,
/// the one of the smallest id if it has several, and else such a grid is
/// created.
pub open spec fn grid_settled(
    before: TreeView,
    names_before: Map<u64, String>,
    after: TreeView,
    names_after: Map<u64, String>,
    given: Option<u64>,
    grid: u64,
) -> bool {
    match given {
        Some(id) => grid == id && after == before && names_after == names_before,
        None => {
            ||| {
                &&& is_other_grid(before.tiles, names_before, grid)
                &&& forall|id: u64| is_other_grid(before.tiles, names_before, id) ==> grid <= id
                &&& after == before
                &&& names_after == names_before
            }
            ||| {
                &&& forall|id: u64| !is_other_grid(before.tiles, names_before, id)
                &&& exists|tab: u64, top: u64| grid_created(before, after, grid, tab, top)
                &&& names_after.dom() == names_before.dom().insert(grid)
                &&& names_after[grid]@ == "Other"@
                &&& forall|id: u64|
                    names_before.contains_key(id) && id != grid ==> names_after[id]
                        == names_before[id]
            }
        },
    }
}

/// How the tree, the tab names and the record of placements stand after a
/// new histogram was given its tile. The pane becomes a tile under the new id
/// `tile`. Then the grid is settled. If what was settled on is a grid of the
/// tree, the tile becomes its last child and the placement is recorded, and
/// `is_placed` holds. If it is not, the tile stays without a parent and
/// nothing is recorded.
pub open spec fn tile_placed(
    before: TreeView,
    names_before: Map<u64, String>,
    record_before: Map<u64, Seq<u64>>,
    after: TreeView,
    names_after: Map<u64, String>,
    record_after: Map<u64, Seq<u64>>,
    pane: Pane,
    given: Option<u64>,
    tile: u64,
    grid: u64,
    is_placed: bool,
) -> bool {
    let with_pane = TreeView {
        tiles: before.tiles.insert(tile, TileContent::Pane(pane)),
        root: before.root,
    };
    &&& !before.tiles.contains_key(tile)
    &&& exists|settled: TreeView|
        {
            &&& #[trigger] grid_settled(with_pane, names_before, settled, names_after, given, grid)
            &&& is_placed == (kind_of(settled.tiles, grid) == Some(ContainerType::Grid))
            &&& after.root == settled.root
            &&& if is_placed {
                &&& after.tiles == settled.tiles.insert(
                    grid,
                    TileContent::Container {
                        kind: ContainerType::Grid,
                        children: children_of(settled.tiles, grid).push(tile),
                    },
                )
                &&& record_after == placed(record_before, grid, tile)
            } else {
                &&& after.tiles == settled.tiles
                &&& record_after == record_before
            }
        }
}

/// What adding a histogram did.
#[derive(Clone, Copy, Debug, PartialEq, Eq, Structural)]
pub enum Added {
    /// A histogram of that name was there: its counts were set to zero.
    Reset { index: usize },
    /// A new histogram was created, its tile put into the grid `grid`.
    Placed { index: usize, tile: u64, grid: u64 },
    /// A new histogram was created. What was given as its grid is not a grid
    /// of the tree, so its tile has no parent.
    Unplaced { index: usize, tile: u64, grid: u64 },
}

/// The histograms of an analysis, the tile tree that shows them, and the
/// fill tasks in flight.
pub struct Histogrammer {
    pub tree: egui_tiles::Tree<Pane>,
    pub behavior: TreeBehavior,
    /// The ids of the fill tasks that were handed out and not yet joined.
    pub handles: Vec<u64>,
    /// Which histogram tiles were put into which grid.
    pub grid_histogram_map: HashMap<u64, Vec<u64>>,
    pub histograms: Vec<Histogram>,
    pub histograms2d: Vec<Histogram2D>,
    /// The id that the next fill task gets.
    pub next_task: u64,
}

/// What `add_hist1d` leaves, and what it returns.
pub open spec fn added_1d(
    before: Histogrammer,
    after: Histogrammer,
    name: Seq<char>,
    edges: Seq<Number>,
    grid: Option<u64>,
    r: Result<Added, AxisError>,
) -> bool {
    &&& after.handles == before.handles
    &&& after.histograms2d == before.histograms2d
    &&& after.next_task == before.next_task
    &&& match r {
        Ok(Added::Reset { index }) => {
            &&& is_first_named(names_1d(before.histograms@), name, index as int)
            &&& after.histograms@.len() == before.histograms@.len()
            &&& after.histograms@[index as int]@.name == name
            &&& after.histograms@[index as int]@.edges == before.histograms@[index as int]@.edges
            &&& after.histograms@[index as int]@.counts == zeros(
                before.histograms@[index as int]@.counts.len(),
            )
            &&& after.histograms@[index as int]@.plot_settings == with_progress(
                before.histograms@[index as int]@.plot_settings,
                None,
            )
            &&& forall|j: int|
                0 <= j < before.histograms@.len() && j != index ==> after.histograms@[j]
                    == before.histograms@[j]
            &&& after.tree == before.tree
            &&& after.behavior == before.behavior
            &&& after.grid_histogram_map == before.grid_histogram_map
        },
        Ok(Added::Placed { index, tile, grid: grid_id }) => {
            &&& created_1d(before, after, name, edges, index)
            &&& tile_placed(
                tree_view(before.tree),
                before.behavior.tile_map@,
                placements(before.grid_histogram_map@),
                tree_view(after.tree),
                after.behavior.tile_map@,
                placements(after.grid_histogram_map@),
                Pane::Histogram(index),
                grid,
                tile,
                grid_id,
                true,
            )
        },
        Ok(Added::Unplaced { index, tile, grid: grid_id }) => {
            &&& created_1d(before, after, name, edges, index)
            &&& tile_placed(
                tree_view(before.tree),
                before.behavior.tile_map@,
                placements(before.grid_histogram_map@),
                tree_view(after.tree),
                after.behavior.tile_map@,
                placements(after.grid_histogram_map@),
                Pane::Histogram(index),
                grid,
                tile,
                grid_id,
                false,
            )
        },
        Err(e) => {
            &&& none_named(names_1d(before.histograms@), name)
            &&& refuses(edges, e)
            &&& after.histograms == before.histograms
            &&& after.tree == before.tree
            &&& after.behavior == before.behavior
            &&& after.grid_histogram_map == before.grid_histogram_map
        },
    }
}

/// A one-dimensional histogram of that name and those edges, with every
/// count zero, was added as the last one, at position `index`. There was
/// none of that name.
pub open spec fn created_1d(
    before: Histogrammer,
    after: Histogrammer,
    name: Seq<char>,
    edges: Seq<Number>,
    index: usize,
) -> bool {
    &&& none_named(names_1d(before.histograms@), name)
    &&& is_axis(edges)
    &&& index == before.histograms@.len()
    &&& after.histograms@.len() == index + 1
    &&& after.histograms@.take(index as int) =~= before.histograms@
    &&& after.histograms@[index as int]@.name == name
    &&& after.histograms@[index as int]@.edges == edges
    &&& after.histograms@[index as int]@.counts == zeros((edges.len() - 1) as nat)
    &&& is_default(after.histograms@[index as int]@.plot_settings)
}

/// What `add_hist2d` leaves, and what it returns.
pub open spec fn added_2d(
    before: Histogrammer,
    after: Histogrammer,
    name: Seq<char>,
    x_edges: Seq<Number>,
    y_edges: Seq<Number>,
    grid: Option<u64>,
    r: Result<Added, GridError>,
) -> bool {
    &&& after.handles == before.handles
    &&& after.histograms == before.histograms
    &&& after.next_task == before.next_task
    &&& match r {
        Ok(Added::Reset { index }) => {
            &&& is_first_named(names_2d(before.histograms2d@), name, index as int)
            &&& after.histograms2d@.len() == before.histograms2d@.len()
            &&& after.histograms2d@[index as int]@.name == name
            &&& after.histograms2d@[index as int]@.x_edges
                == before.histograms2d@[index as int]@.x_edges
            &&& after.histograms2d@[index as int]@.y_edges
                == before.histograms2d@[index as int]@.y_edges
            &&& after.histograms2d@[index as int]@.counts == zeros(
                before.histograms2d@[index as int]@.counts.len(),
            )
            &&& after.histograms2d@[index as int]@.plot_settings == with_progress(
                before.histograms2d@[index as int]@.plot_settings,
                None,
            )
            &&& forall|j: int|
                0 <= j < before.histograms2d@.len() && j != index ==> after.histograms2d@[j]
                    == before.histograms2d@[j]
            &&& after.tree == before.tree
            &&& after.behavior == before.behavior
            &&& after.grid_histogram_map == before.grid_histogram_map
        },
        Ok(Added::Placed { index, tile, grid: grid_id }) => {
            &&& created_2d(before, after, name, x_edges, y_edges, index)
            &&& tile_placed(
                tree_view(before.tree),
                before.behavior.tile_map@,
                placements(before.grid_histogram_map@),
                tree_view(after.tree),
                after.behavior.tile_map@,
                placements(after.grid_histogram_map@),
                Pane::Histogram2D(index),
                grid,
                tile,
                grid_id,
                true,
            )
        },
        Ok(Added::Unplaced { index, tile, grid: grid_id }) => {
            &&& created_2d(before, after, name, x_edges, y_edges, index)
            &&& tile_placed(
                tree_view(before.tree),
                before.behavior.tile_map@,
                placements(before.grid_histogram_map@),
                tree_view(after.tree),
                after.behavior.tile_map@,
                placements(after.grid_histogram_map@),
                Pane::Histogram2D(index),
                grid,
                tile,
                grid_id,
                false,
            )
        },
        Err(e) => {
            &&& none_named(names_2d(before.histograms2d@), name)
            &&& grid_refused(x_edges, y_edges, e)
            &&& after.histograms2d == before.histograms2d
            &&& after.tree == before.tree
            &&& after.behavior == before.behavior
            &&& after.grid_histogram_map == before.grid_histogram_map
        },
    }
}

/// A two-dimensional histogram of that name and those edges, with every
/// count zero, was added as the last one, at position `index`. There was
/// none of that name.
pub open spec fn created_2d(
    before: Histogrammer,
    after: Histogrammer,
    name: Seq<char>,
    x_edges: Seq<Number>,
    y_edges: Seq<Number>,
    index: usize,
) -> bool {
    &&& none_named(names_2d(before.histograms2d@), name)
    &&& is_axis(x_edges)
    &&& is_axis(y_edges)
    &&& index == before.histograms2d@.len()
    &&& after.histograms2d@.len() == index + 1
    &&& after.histograms2d@.take(index as int) =~= before.histograms2d@
    &&& after.histograms2d@[index as int]@.name == name
    &&& after.histograms2d@[index as int]@.x_edges == x_edges
    &&& after.histograms2d@[index as int]@.y_edges == y_edges
    &&& after.histograms2d@[index as int]@.counts == zeros(cell_count(x_edges, y_edges))
    &&& is_default(after.histograms2d@[index as int]@.plot_settings)
}

/// The rows that a fill takes from one column: those whose value lies
/// between the two bounds. The bounds are the ends of the range that the
/// histogram had on that axis when the fill was asked for.
pub struct ColumnRange {
    pub column: String,
    pub low: Number,
    pub high: Number,
}

/// A fill that was asked for and is to be carried out: which histogram, from
/// which columns, and the id under which the task is kept until it is joined.
pub struct FillTask {
    pub id: u64,
    pub pane: Pane,
    pub x: ColumnRange,
    pub y: Option<ColumnRange>,
}

/// The id of the task after the one with id `id`.
pub open spec fn next_task_id(id: u64) -> u64 {
    if id == u64::MAX {
        0
    } else {
        (id + 1) as u64
    }
}

/// What `fill_hist1d` leaves, and what it returns.
pub open spec fn fill_dispatched_1d(
    before: Histogrammer,
    after: Histogrammer,
    name: Seq<char>,
    column: Seq<char>,
    r: Option<FillTask>,
) -> bool {
    match r {
        Some(task) => {
            &&& task.pane matches Pane::Histogram(index)
            &&& is_first_named(names_1d(before.histograms@), name, index as int)
            &&& task.id == before.next_task
            &&& task.x.column@ == column
            &&& task.x.low == before.histograms@[index as int]@.edges.first()
            &&& task.x.high == before.histograms@[index as int]@.edges.last()
            &&& task.y is None
            &&& after.handles@ == before.handles@.push(task.id)
            &&& after.next_task == next_task_id(before.next_task)
            &&& after.histograms == before.histograms
            &&& after.histograms2d == before.histograms2d
            &&& after.tree == before.tree
            &&& after.behavior == before.behavior
            &&& after.grid_histogram_map == before.grid_histogram_map
        },
        None => none_named(names_1d(before.histograms@), name) && after == before,
    }
}

/// What `fill_hist2d` leaves, and what it returns.
pub open spec fn fill_dispatched_2d(
    before: Histogrammer,
    after: Histogrammer,
    name: Seq<char>,
    x_column: Seq<char>,
    y_column: Seq<char>,
    r: Option<FillTask>,
) -> bool {
    match r {
        Some(task) => {
            &&& task.pane matches Pane::Histogram2D(index)
            &&& is_first_named(names_2d(before.histograms2d@), name, index as int)
            &&& task.id == before.next_task
            &&& task.x.column@ == x_column
            &&& task.x.low == before.histograms2d@[index as int]@.x_edges.first()
            &&& task.x.high == before.histograms2d@[index as int]@.x_edges.last()
            &&& task.y matches Some(y)
            &&& y.column@ == y_column
            &&& y.low == before.histograms2d@[index as int]@.y_edges.first()
            &&& y.high == before.histograms2d@[index as int]@.y_edges.last()
            &&& after.handles@ == before.handles@.push(task.id)
            &&& after.next_task == next_task_id(before.next_task)
            &&& after.histograms == before.histograms
            &&& after.histograms2d@.len() == before.histograms2d@.len()
            &&& forall|j: int|
                0 <= j < before.histograms2d@.len() && j != index ==> after.histograms2d@[j]
                    == before.histograms2d@[j]
            &&& columns_noted(
                before.histograms2d@[index as int]@,
                after.histograms2d@[index as int]@,
                x_column,
                y_column,
            )
            &&& after.tree == before.tree
            &&& after.behavior == before.behavior
            &&& after.grid_histogram_map == before.grid_histogram_map
        },
        None => none_named(names_2d(before.histograms2d@), name) && after == before,
    }
}

/// A two-dimensional histogram after the columns of its fill were noted in
/// its cuts: nothing else of it has changed.
pub open spec fn columns_noted(
    before: crate::histogram2d::Histogram2DView,
    after: crate::histogram2d::Histogram2DView,
    x_column: Seq<char>,
    y_column: Seq<char>,
) -> bool {
    &&& after.name == before.name
    &&& after.x_edges == before.x_edges
    &&& after.y_edges == before.y_edges
    &&& after.counts == before.counts
    &&& after.plot_settings.cuts.x_column@ == x_column
    &&& after.plot_settings.cuts.y_column@ == y_column
    &&& after.plot_settings.cuts.cuts == before.plot_settings.cuts.cuts
    &&& after.plot_settings.progress == before.plot_settings.progress
    &&& after.plot_settings.stats_info == before.plot_settings.stats_info
    &&& after.plot_settings.rebin_x_factor == before.plot_settings.rebin_x_factor
    &&& after.plot_settings.rebin_y_factor == before.plot_settings.rebin_y_factor
    &&& after.plot_settings.recalculate_image == before.plot_settings.recalculate_image
    &&& after.plot_settings.allow_double_click_reset
        == before.plot_settings.allow_double_click_reset
}

/// Whether a fill task can be carried out with the given column: the task is
/// for a one-dimensional histogram of the collection, and the column was
/// delivered.
pub open spec fn can_fill_1d(
    before: Histogrammer,
    pane: Pane,
    values: Option<Seq<Option<Number>>>,
) -> bool {
    &&& pane matches Pane::Histogram(index)
    &&& index < before.histograms@.len()
    &&& values is Some
}

/// What `run_fill_hist1d` leaves, and what it returns. A task that can be
/// carried out counts the column into its histogram and touches nothing else.
/// One that cannot leaves everything as it was.
pub open spec fn filled_1d(
    before: Histogrammer,
    after: Histogrammer,
    pane: Pane,
    values: Option<Seq<Option<Number>>>,
    done: bool,
) -> bool {
    &&& done == can_fill_1d(before, pane, values)
    &&& after.histograms2d == before.histograms2d
    &&& after.handles == before.handles
    &&& after.next_task == before.next_task
    &&& after.tree == before.tree
    &&& after.behavior == before.behavior
    &&& after.grid_histogram_map == before.grid_histogram_map
    &&& if done {
        let index = pane->Histogram_0 as int;
        let hist = before.histograms@[index]@;
        &&& after.histograms@.len() == before.histograms@.len()
        &&& forall|j: int|
            0 <= j < before.histograms@.len() && j != index ==> after.histograms@[j]
                == before.histograms@[j]
        &&& after.histograms@[index]@.name == hist.name
        &&& after.histograms@[index]@.edges == hist.edges
        &&& after.histograms@[index]@.counts == record_all(
            hist.counts,
            cells(hist.edges, values->0),
        )
        &&& after.histograms@[index]@.plot_settings == with_progress(hist.plot_settings, None)
    } else {
        after.histograms == before.histograms
    }
}

/// Whether a fill task can be carried out with the given columns: the task is
/// for a two-dimensional histogram of the collection, and the columns were
/// delivered.
pub open spec fn can_fill_2d(
    before: Histogrammer,
    pane: Pane,
    values: Option<(Seq<Option<Number>>, Seq<Option<Number>>)>,
) -> bool {
    &&& pane matches Pane::Histogram2D(index)
    &&& index < before.histograms2d@.len()
    &&& values is Some
}

/// What `run_fill_hist2d` leaves, and what it returns.
pub open spec fn filled_2d(
    before: Histogrammer,
    after: Histogrammer,
    pane: Pane,
    values: Option<(Seq<Option<Number>>, Seq<Option<Number>>)>,
    done: bool,
) -> bool {
    &&& done == can_fill_2d(before, pane, values)
    &&& after.histograms == before.histograms
    &&& after.handles == before.handles
    &&& after.next_task == before.next_task
    &&& after.tree == before.tree
    &&& after.behavior == before.behavior
    &&& after.grid_histogram_map == before.grid_histogram_map
    &&& if done {
        let index = pane->Histogram2D_0 as int;
        let hist = before.histograms2d@[index]@;
        &&& after.histograms2d@.len() == before.histograms2d@.len()
        &&& forall|j: int|
            0 <= j < before.histograms2d@.len() && j != index ==> after.histograms2d@[j]
                == before.histograms2d@[j]
        &&& after.histograms2d@[index]@.name == hist.name
        &&& after.histograms2d@[index]@.x_edges == hist.x_edges
        &&& after.histograms2d@[index]@.y_edges == hist.y_edges
        &&& after.histograms2d@[index]@.counts == record_all(
            hist.counts,
            pair_cells(hist.x_edges, hist.y_edges, (values->0).0, (values->0).1),
        )
        &&& after.histograms2d@[index]@.plot_settings == with_progress(hist.plot_settings, None)
    } else {
        after.histograms2d == before.histograms2d
    }
}

/// Whether the record holds a tile for the grid `grid` at place `place`.
pub open spec fn recorded(record: Map<u64, Seq<u64>>, grid: u64, place: int) -> bool {
    record.contains_key(grid) && 0 <= place < record[grid].len()
}

/// Whether no tile is recorded for two different grids.
pub open spec fn one_grid_each(record: Map<u64, Seq<u64>>) -> bool {
    forall|g: u64, b: int, h: u64, d: int|
        #![trigger record[g][b], record[h][d]]
        recorded(record, g, b) && recorded(record, h, d) && record[g][b] == record[h][d] ==> g == h
}

/// Whether no recorded tile is a container of the tree.
pub open spec fn panes_recorded(tiles: Map<u64, TileContent>, record: Map<u64, Seq<u64>>) -> bool {
    forall|grid: u64, place: int|
        recorded(record, grid, place) ==> kind_of(tiles, #[trigger] record[grid][place]) is None
}

/// Whether every recorded tile is where the record says: a tile that the
/// tree has is a child of the grid recorded for it, if that is a container
/// of the tree.
pub open spec fn all_in_place(tiles: Map<u64, TileContent>, record: Map<u64, Seq<u64>>) -> bool {
    forall|grid: u64, place: int|
        #![trigger record[grid][place]]
        recorded(record, grid, place) && kind_of(tiles, grid) is Some && tiles.contains_key(
            record[grid][place],
        ) ==> children_of(tiles, grid).contains(record[grid][place])
}

/// Whether the recorded tiles are in place as far as the first `entries` of
/// the grids and the first `places` places of the grid after them go.
pub open spec fn in_place_so_far(
    tiles: Map<u64, TileContent>,
    record: Map<u64, Seq<u64>>,
    grids: Seq<u64>,
    entries: int,
    places: int,
) -> bool {
    forall|a: int, b: int|
        #![trigger record[grids[a]][b]]
        0 <= a < grids.len() && recorded(record, grids[a], b) && (a < entries || (a == entries && b
            < places)) && kind_of(tiles, grids[a]) is Some && tiles.contains_key(
            record[grids[a]][b],
        ) ==> children_of(tiles, grids[a]).contains(record[grids[a]][b])
}

/// Whether the record names the tile for the grid `grid`.
pub open spec fn names_for(record: Map<u64, Seq<u64>>, grid: u64, tile: u64) -> bool {
    record.contains_key(grid) && record[grid].contains(tile)
}

/// Whether the tile is not to be moved: the tree does not have it, or the
/// record names it for nothing that is a container of the tree.
pub open spec fn stays_put(tiles: Map<u64, TileContent>, record: Map<u64, Seq<u64>>, tile: u64) -> bool {
    !tiles.contains_key(tile) || forall|grid: u64|
        names_for(record, grid, tile) ==> kind_of(tiles, grid) is None
}

/// Whether the tiles that are not to be moved are children of the same
/// containers in both trees.
pub open spec fn others_stay(
    before: Map<u64, TileContent>,
    after: Map<u64, TileContent>,
    record: Map<u64, Seq<u64>>,
) -> bool {
    forall|id: u64, tile: u64|
        stays_put(before, record, tile) ==> (#[trigger] children_of(after, id).contains(tile)
            <==> children_of(before, id).contains(tile))
}

/// Whether no container has a child in the second tree that it had not in
/// the first, but for tiles in the grids that the record names them for.
pub open spec fn settles_only(
    before: Map<u64, TileContent>,
    after: Map<u64, TileContent>,
    record: Map<u64, Seq<u64>>,
) -> bool {
    forall|id: u64, tile: u64|
        #[trigger] children_of(after, id).contains(tile) ==> children_of(before, id).contains(tile)
            || names_for(record, id, tile)
}

/// Whether two trees have the same tiles but for the children of their
/// containers: the same ids, the same panes, containers of the same kinds.
pub open spec fn same_tiles(before: Map<u64, TileContent>, after: Map<u64, TileContent>) -> bool {
    &&& after.dom() == before.dom()
    &&& forall|id: u64| #[trigger] kind_of(after, id) == kind_of(before, id)
    &&& forall|id: u64|
        before.contains_key(id) && before[id] is Pane ==> #[trigger] after[id] == before[id]
}

/// How the tiles of a tree stand after `reorganize`, given how they stood
/// before and what the record holds. No tile comes or goes, and panes and the
/// kinds of containers stay. The tiles that are not to be moved are children
/// of the containers that they were children of, and no container gets a
/// child but a tile that the record names for it. Of a tree in which a
/// container lies within itself nothing is moved. Where no container lies
/// within itself and no recorded tile is a container, that stays so; where,
/// besides, no tile is recorded for two grids, each recorded tile that the
/// tree has is afterwards a child of the grid recorded for it, if that is a
/// container of the tree. And where no tile stood twice among the children
/// of the containers, none does afterwards.
pub open spec fn reorganized(
    before: Map<u64, TileContent>,
    after: Map<u64, TileContent>,
    record: Map<u64, Seq<u64>>,
) -> bool {
    &&& same_tiles(before, after)
    &&& others_stay(before, after, record)
    &&& settles_only(before, after, record)
    &&& !acyclic(before) ==> after == before
    &&& single_mention(before) ==> single_mention(after)
    &&& acyclic(before) && panes_recorded(before, record) ==> acyclic(after)
    &&& acyclic(before) && panes_recorded(before, record) && one_grid_each(record)
        ==> all_in_place(after, record)
}

/// A tree that is in place, and in which no tile stands twice among the
/// children of the containers, is left as it is by `reorganize`, as to which
/// tiles are children of which containers.
pub proof fn lemma_tree_in_place_stays(
    before: Map<u64, TileContent>,
    after: Map<u64, TileContent>,
    record: Map<u64, Seq<u64>>,
)
    requires
        same_tiles(before, after),
        others_stay(before, after, record),
        settles_only(before, after, record),
        all_in_place(before, record),
        all_in_place(after, record),
        single_mention(before),
    ensures
        forall|id: u64, tile: u64|
            #[trigger] children_of(after, id).contains(tile) <==> children_of(before, id).contains(
                tile,
            ),
{
    assert forall|id: u64, tile: u64|
        #[trigger] children_of(after, id).contains(tile) <==> children_of(before, id).contains(
            tile,
        ) by {
        assert(kind_of(after, id) == kind_of(before, id));
        assert(after.dom().contains(tile) == before.dom().contains(tile));
        if !stays_put(before, record, tile) {
            let grid = choose|grid: u64|
                names_for(record, grid, tile) && kind_of(before, grid) is Some;
            let place = choose|place: int|
                0 <= place < record[grid].len() && record[grid][place] == tile;
            assert(recorded(record, grid, place));
            assert(kind_of(after, grid) == kind_of(before, grid));
            assert(children_of(before, grid).contains(record[grid][place]));
            assert(children_of(after, grid).contains(record[grid][place]));
            let home = choose|k: int|
                0 <= k < children_of(before, grid).len() && children_of(before, grid)[k] == tile;
            if children_of(before, id).contains(tile) {
                let k = choose|k: int|
                    0 <= k < children_of(before, id).len() && children_of(before, id)[k] == tile;
                assert(before.contains_key(id));
                assert(before.contains_key(grid));
                assert(children_of(before, id)[k] == children_of(before, grid)[home]);
                assert(id == grid);
            }
            if children_of(after, id).contains(tile) && !children_of(before, id).contains(tile) {
                assert(names_for(record, id, tile));
                let at = choose|at: int| 0 <= at < record[id].len() && record[id][at] == tile;
                assert(recorded(record, id, at));
                assert(kind_of(after, id) is Some);
                assert(children_of(before, id).contains(record[id][at]));
            }
        }
    }
}

/// `reorganize` a second time, with nothing changed in between, leaves
/// every tile a child of the containers that the first time left it a child
/// of. This is said of a tree in which no container lies within itself and
/// no tile stands twice among the children of the containers, and of a
/// record that names no container and no tile for two grids.
pub proof fn lemma_reorganize_again(
    start: Map<u64, TileContent>,
    first: Map<u64, TileContent>,
    second: Map<u64, TileContent>,
    record: Map<u64, Seq<u64>>,
)
    requires
        reorganized(start, first, record),
        reorganized(first, second, record),
        acyclic(start),
        single_mention(start),
        panes_recorded(start, record),
        one_grid_each(record),
    ensures
        forall|id: u64, tile: u64|
            #[trigger] children_of(second, id).contains(tile) <==> children_of(first, id).contains(
                tile,
            ),
{
    assert(panes_recorded(first, record)) by {
        assert forall|grid: u64, place: int| recorded(record, grid, place) implies kind_of(
            first,
            #[trigger] record[grid][place],
        ) is None by {
            assert(kind_of(first, record[grid][place]) == kind_of(start, record[grid][place]));
        }
    }
    lemma_tree_in_place_stays(first, second, record);
}

/// What a move leaves, put as what `reorganize` needs: the tiles are the
/// same but for the children of containers, the moved tile is a child of its
/// destination, and every other tile is a child of each container that it
/// was a child of.
pub proof fn lemma_moved_into(
    before: Map<u64, TileContent>,
    after: Map<u64, TileContent>,
    moved: u64,
    destination: u64,
)
    requires
        moved_into(before, after, moved, destination),
        kind_of(before, destination) is Some,
    ensures
        same_tiles(before, after),
        children_of(after, destination).contains(moved),
        forall|id: u64, tile: u64|
            tile != moved && children_of(before, id).contains(tile) ==> #[trigger] children_of(
                after,
                id,
            ).contains(tile),
{
    let base = children_of(before, destination).remove_value(moved);
    let at = choose|at: int|
        0 <= at <= base.len() && children_of(after, destination) == #[trigger] base.insert(
            at,
            moved,
        );
    assert(base.insert(at, moved)[at] == moved);
    assert forall|id: u64| #[trigger] kind_of(after, id) == kind_of(before, id) by {
        if before.contains_key(id) && id != destination {
            assert(after[id] == without_child(before[id], moved));
        }
    }
    assert forall|id: u64| before.contains_key(id) && before[id] is Pane implies #[trigger] after[id]
        == before[id] by {
        assert(id != destination);
        assert(after[id] == without_child(before[id], moved));
    }
    assert forall|id: u64, tile: u64|
        tile != moved && children_of(before, id).contains(tile) implies #[trigger] children_of(
        after,
        id,
    ).contains(tile) by {
        let children = children_of(before, id);
        lemma_remove_value_keeps(children, moved, tile);
        if id == destination {
            let i = choose|i: int| 0 <= i < base.len() && base[i] == tile;
            if i < at {
                assert(base.insert(at, moved)[i] == tile);
            } else {
                assert(base.insert(at, moved)[i + 1] == tile);
            }
        } else {
            assert(before.contains_key(id));
            assert(after[id] == without_child(before[id], moved));
        }
    }
}

/// Taking the first mention of one value out of a sequence leaves every
/// other value in it.
pub proof fn lemma_remove_value_keeps(s: Seq<u64>, gone: u64, kept: u64)
    requires
        kept != gone,
        s.contains(kept),
    ensures
        s.remove_value(gone).contains(kept),
{
    s.index_of_first_ensures(gone);
    let i = choose|i: int| 0 <= i < s.len() && s[i] == kept;
    match s.index_of_first(gone) {
        Some(at) => {
            if i < at {
                assert(s.remove(at)[i] == kept);
            } else {
                assert(s.remove(at)[i - 1] == kept);
            }
        },
        None => {},
    }
}

/// The task ids of `handles` that are among `finished`, in their order.
pub open spec fn finished_of(handles: Seq<u64>, finished: Seq<u64>) -> Seq<u64> {
    handles.filter(|id: u64| finished.contains(id))
}

/// The task ids of `handles` that are not among `finished`, in their order.
pub open spec fn unfinished_of(handles: Seq<u64>, finished: Seq<u64>) -> Seq<u64> {
    handles.filter(|id: u64| !finished.contains(id))
}

/// Whether the collection is as a new one: no histograms, no tiles and no
/// root, no tab names, no placements, no tasks, and 0 the id of the next.
pub open spec fn is_empty(histogrammer: Histogrammer) -> bool {
    &&& tree_view(histogrammer.tree) == (TreeView { tiles: Map::empty(), root: None })
    &&& histogrammer.behavior.tile_map@ == Map::<u64, String>::empty()
    &&& histogrammer.handles@.len() == 0
    &&& forall|grid: u64| !histogrammer.grid_histogram_map@.contains_key(grid)
    &&& histogrammer.histograms@.len() == 0
    &&& histogrammer.histograms2d@.len() == 0
    &&& histogrammer.next_task == 0
}

impl Default for Histogrammer {
    fn default() -> (r: Histogrammer)
        ensures
            is_empty(r),
    {
        Histogrammer {
            tree: empty_tree(),
            behavior: TreeBehavior { tile_map: HashMap::new() },
            handles: Vec::new(),
            grid_histogram_map: HashMap::new(),
            histograms: Vec::new(),
            histograms2d: Vec::new(),
            next_task: 0,
        }
    }
}

impl Histogrammer {
    /// A collection without histograms, with an empty tree.
    pub fn new() -> (r: Histogrammer)
        ensures
            is_empty(r),
    {
        Histogrammer::default()
    }

    /// Creates an empty grid in a tab of its own, names the tab, and hangs it
    /// into the tree. Returns the id of the grid.
    pub fn create_grid(&mut self, tab_name: String) -> (grid_id: u64)
        ensures
            exists|tab: u64, top: u64|
                grid_created(
                    tree_view(old(self).tree),
                    tree_view(final(self).tree),
                    grid_id,
                    tab,
                    top,
                ),
            kind_of(tree_tiles(final(self).tree), grid_id) == Some(ContainerType::Grid),
            final(self).behavior.tile_map@ == old(self).behavior.tile_map@.insert(grid_id, tab_name),
            final(self).handles == old(self).handles,
            final(self).grid_histogram_map == old(self).grid_histogram_map,
            final(self).histograms == old(self).histograms,
            final(self).histograms2d == old(self).histograms2d,
            final(self).next_task == old(self).next_task,
    {
        let ghost before = tree_view(self.tree);
        let grid_id = insert_grid(&mut self.tree, Vec::new());
        let mut tab_children: Vec<u64> = Vec::new();
        tab_children.push(grid_id);
        assert(tab_children@ == seq![grid_id]);
        let tab_id = insert_tabs(&mut self.tree, tab_children);
        let ghost with_tab = tree_tiles(self.tree);
        assert(with_tab == before.tiles.insert(grid_id, empty_grid()).insert(
            tab_id,
            tabs_of(seq![grid_id]),
        ));
        self.behavior.set_tile_tab_mapping(grid_id, tab_name);
        let ghost mut top: u64 = 0;
        match root(&self.tree) {
            None => {
                set_root(&mut self.tree, tab_id);
            },
            Some(root_id) => {
                let root_is_tabs = match container_kind(&self.tree, root_id) {
                    Some(ContainerType::Tabs) => true,
                    _ => false,
                };
                if root_is_tabs {
                    add_child(&mut self.tree, root_id, tab_id);
                } else {
                    let mut top_children: Vec<u64> = Vec::new();
                    top_children.push(root_id);
                    top_children.push(tab_id);
                    assert(top_children@ == seq![root_id, tab_id]);
                    let new_root_id = insert_tabs(&mut self.tree, top_children);
                    set_root(&mut self.tree, new_root_id);
                    proof {
                        top = new_root_id;
                    }
                }
            },
        }
        assert(grid_created(before, tree_view(self.tree), grid_id, tab_id, top));
        grid_id
    }

    /// The position of the first one-dimensional histogram of that name.
    pub fn find_hist1d(&self, name: &str) -> (r: Option<usize>)
        ensures
            match r {
                Some(i) => is_first_named(names_1d(self.histograms@), name@, i as int),
                None => none_named(names_1d(self.histograms@), name@),
            },
    {
        let wanted = name.to_owned();
        let mut i: usize = 0;
        while i < self.histograms.len()
            invariant
                i <= self.histograms@.len(),
                wanted@ == name@,
                forall|j: int| 0 <= j < i ==> names_1d(self.histograms@)[j] != name@,
            decreases self.histograms@.len() - i,
        {
            if *self.histograms[i].name() == wanted {
                return Some(i);
            }
            i = i + 1;
        }
        None
    }

    /// The position of the first two-dimensional histogram of that name.
    pub fn find_hist2d(&self, name: &str) -> (r: Option<usize>)
        ensures
            match r {
                Some(i) => is_first_named(names_2d(self.histograms2d@), name@, i as int),
                None => none_named(names_2d(self.histograms2d@), name@),
            },
    {
        let wanted = name.to_owned();
        let mut i: usize = 0;
        while i < self.histograms2d.len()
            invariant
                i <= self.histograms2d@.len(),
                wanted@ == name@,
                forall|j: int| 0 <= j < i ==> names_2d(self.histograms2d@)[j] != name@,
            decreases self.histograms2d@.len() - i,
        {
            if *self.histograms2d[i].name() == wanted {
                return Some(i);
            }
            i = i + 1;
        }
        None
    }

    /// The grid for histograms that were given none: the grid of the tree
    /// whose tab is named "Other", and among several such the one of the
    /// smallest id. It is created when the tree has no such grid, and found
    /// again from then on.
    fn get_or_create_other_grid(&mut self) -> (grid_id: u64)
        ensures
            grid_settled(
                tree_view(old(self).tree),
                old(self).behavior.tile_map@,
                tree_view(final(self).tree),
                final(self).behavior.tile_map@,
                None,
                grid_id,
            ),
            is_other_grid(tree_tiles(final(self).tree), final(self).behavior.tile_map@, grid_id),
            final(self).handles == old(self).handles,
            final(self).grid_histogram_map == old(self).grid_histogram_map,
            final(self).histograms == old(self).histograms,
            final(self).histograms2d == old(self).histograms2d,
            final(self).next_task == old(self).next_task,
    {
        let other = "Other".to_owned();
        let ids = tile_ids(&self.tree);
        let mut found: Option<u64> = None;
        let mut i: usize = 0;
        while i < ids.len()
            invariant
                i <= ids@.len(),
                other@ == "Other"@,
                *self == *old(self),
                found matches Some(least) ==> is_other_grid(
                    tree_tiles(self.tree),
                    self.behavior.tile_map@,
                    least,
                ),
                forall|j: int|
                    0 <= j < i && is_other_grid(
                        tree_tiles(self.tree),
                        self.behavior.tile_map@,
                        #[trigger] ids@[j],
                    ) ==> (found matches Some(least) && least <= ids@[j]),
            decreases ids@.len() - i,
        {
            let id = ids[i];
            let is_grid = match container_kind(&self.tree, id) {
                Some(ContainerType::Grid) => true,
                _ => false,
            };
            let is_other = is_grid && match self.behavior.get_tab_name(id) {
                Some(tab_name) => *tab_name == other,
                None => false,
            };
            if is_other {
                found = match found {
                    Some(least) => if least <= id {
                        Some(least)
                    } else {
                        Some(id)
                    },
                    None => Some(id),
                };
            }
            i = i + 1;
        }
        proof {
            assert forall|id: u64|
                is_other_grid(
                    tree_tiles(self.tree),
                    self.behavior.tile_map@,
                    id,
                ) implies (found matches Some(least) && least <= id) by {
                assert(ids@.contains(id));
                let j = choose|j: int| 0 <= j < ids@.len() && ids@[j] == id;
                assert(is_other_grid(tree_tiles(self.tree), self.behavior.tile_map@, ids@[j]));
            }
        }
        match found {
            Some(least) => least,
            None => self.create_grid(other),
        }
    }

    /// Notes that `tile` was put into `grid`.
    fn record_placement(&mut self, grid: u64, tile: u64)
        ensures
            placements(final(self).grid_histogram_map@) == placed(
                placements(old(self).grid_histogram_map@),
                grid,
                tile,
            ),
            final(self).tree == old(self).tree,
            final(self).behavior == old(self).behavior,
            final(self).handles == old(self).handles,
            final(self).histograms == old(self).histograms,
            final(self).histograms2d == old(self).histograms2d,
            final(self).next_task == old(self).next_task,
    {
        let mut tiles = match self.grid_histogram_map.remove(&grid) {
            Some(tiles) => tiles,
            None => Vec::new(),
        };
        tiles.push(tile);
        self.grid_histogram_map.insert(grid, tiles);
        assert(placements(self.grid_histogram_map@) =~= placed(
            placements(old(self).grid_histogram_map@),
            grid,
            tile,
        ));
    }

    /// The grids of the record, each once, in no order that could be relied
    /// on.
    fn recorded_grids(&self) -> (grids: Vec<u64>)
        ensures
            grids@.no_duplicates(),
            forall|grid: u64| grids@.contains(grid) <==> self.grid_histogram_map@.contains_key(grid),
    {
        let mut grids: Vec<u64> = Vec::new();
        let ghost all = self.grid_histogram_map.keys().remaining();
        for grid in it: self.grid_histogram_map.keys()
            invariant
                it.seq() == all,
                grids@.len() == it.index(),
                forall|j: int| 0 <= j < grids@.len() ==> grids@[j] == *all[j],
        {
            grids.push(*grid);
        }
        assert(grids@ =~= all.unref());
        assert(all.unref().to_set() == self.grid_histogram_map@.dom());
        assert forall|grid: u64| grids@.contains(grid)
            <==> self.grid_histogram_map@.contains_key(grid) by {
            assert(grids@.to_set().contains(grid) <==> grids@.contains(grid));
        }
        assert(grids@.no_duplicates()) by {
            assert(all.no_duplicates());
            assert forall|i: int, j: int|
                0 <= i < grids@.len() && 0 <= j < grids@.len() && i != j implies grids@[i]
                != grids@[j] by {
                assert(all[i] != all[j]);
            }
        }
        grids
    }

    /// The tile recorded for the grid at the place, if one is.
    fn recorded_tile(&self, grid: u64, place: usize) -> (tile: Option<u64>)
        ensures
            tile == if recorded(placements(self.grid_histogram_map@), grid, place as int) {
                Some(placements(self.grid_histogram_map@)[grid][place as int])
            } else {
                None
            },
            tile is Some ==> place < usize::MAX,
    {
        match self.grid_histogram_map.get(&grid) {
            Some(tiles) => if place < tiles.len() {
                Some(tiles[place])
            } else {
                None
            },
            None => None,
        }
    }

    /// Gives a histogram that was just created its tile: see `tile_placed`.
    fn place_pane(&mut self, pane: Pane, grid: Option<u64>) -> (r: (u64, u64, bool))
        ensures
            tile_placed(
                tree_view(old(self).tree),
                old(self).behavior.tile_map@,
                placements(old(self).grid_histogram_map@),
                tree_view(final(self).tree),
                final(self).behavior.tile_map@,
                placements(final(self).grid_histogram_map@),
                pane,
                grid,
                r.0,
                r.1,
                r.2,
            ),
            final(self).handles == old(self).handles,
            final(self).histograms == old(self).histograms,
            final(self).histograms2d == old(self).histograms2d,
            final(self).next_task == old(self).next_task,
    {
        let pane_id = insert_pane(&mut self.tree, pane);
        let ghost with_pane = tree_view(self.tree);
        let grid_id = match grid {
            Some(grid_id) => grid_id,
            None => self.get_or_create_other_grid(),
        };
        let ghost settled = tree_view(self.tree);
        assert(grid_settled(
            with_pane,
            old(self).behavior.tile_map@,
            settled,
            self.behavior.tile_map@,
            grid,
            grid_id,
        ));
        let is_grid = match container_kind(&self.tree, grid_id) {
            Some(ContainerType::Grid) => true,
            _ => false,
        };
        if is_grid {
            add_child(&mut self.tree, grid_id, pane_id);
            self.record_placement(grid_id, pane_id);
        }
        (pane_id, grid_id, is_grid)
    }

    /// Adds a one-dimensional histogram of the given name and bin edges. If
    /// there is one of that name already, its counts are set to zero instead,
    /// and its edges stay as they are. A new histogram gets a tile in the grid
    /// `grid`, or in the grid named "Other" where none is given. Edges that
    /// are no axis are refused, and nothing changes.
    pub fn add_hist1d(&mut self, name: &str, edges: Vec<Number>, grid: Option<u64>) -> (r: Result<
        Added,
        AxisError,
    >)
        ensures
            added_1d(*old(self), *final(self), name@, edges@, grid, r),
    {
        match self.find_hist1d(name) {
            Some(index) => {
                self.histograms[index].reset();
                Ok(Added::Reset { index })
            },
            None => {
                let hist = match Histogram::new(name, edges) {
                    Ok(hist) => hist,
                    Err(e) => {
                        return Err(e);
                    },
                };
                let index = self.histograms.len();
                self.histograms.push(hist);
                let (tile, grid_id, is_placed) = self.place_pane(Pane::Histogram(index), grid);
                if is_placed {
                    Ok(Added::Placed { index, tile, grid: grid_id })
                } else {
                    Ok(Added::Unplaced { index, tile, grid: grid_id })
                }
            },
        }
    }

    /// Adds a two-dimensional histogram of the given name and bin edges. If
    /// there is one of that name already, its counts are set to zero instead,
    /// and its edges stay as they are. A new histogram gets a tile in the grid
    /// `grid`, or in the grid named "Other" where none is given. Edges that
    /// give no grid of cells are refused, and nothing changes.
    pub fn add_hist2d(
        &mut self,
        name: &str,
        x_edges: Vec<Number>,
        y_edges: Vec<Number>,
        grid: Option<u64>,
    ) -> (r: Result<Added, GridError>)
        ensures
            added_2d(*old(self), *final(self), name@, x_edges@, y_edges@, grid, r),
    {
        match self.find_hist2d(name) {
            Some(index) => {
                self.histograms2d[index].reset();
                Ok(Added::Reset { index })
            },
            None => {
                let hist = match Histogram2D::new(name, x_edges, y_edges) {
                    Ok(hist) => hist,
                    Err(e) => {
                        return Err(e);
                    },
                };
                let index = self.histograms2d.len();
                self.histograms2d.push(hist);
                let (tile, grid_id, is_placed) = self.place_pane(Pane::Histogram2D(index), grid);
                if is_placed {
                    Ok(Added::Placed { index, tile, grid: grid_id })
                } else {
                    Ok(Added::Unplaced { index, tile, grid: grid_id })
                }
            },
        }
    }

    /// Asks for a fill of the one-dimensional histogram of that name from the
    /// given column. Where there is such a histogram, a task is handed out: it
    /// names the histogram, the column, and the range of the histogram as it
    /// is now, and its id is kept among the handles. Where there is none,
    /// nothing is handed out and nothing changes.
    pub fn fill_hist1d(&mut self, name: &str, column_name: &str) -> (r: Option<FillTask>)
        ensures
            fill_dispatched_1d(*old(self), *final(self), name@, column_name@, r),
    {
        match self.find_hist1d(name) {
            Some(index) => {
                let (low, high) = self.histograms[index].range();
                let id = self.take_task_id();
                Some(
                    FillTask {
                        id,
                        pane: Pane::Histogram(index),
                        x: ColumnRange { column: column_name.to_owned(), low, high },
                        y: None,
                    },
                )
            },
            None => None,
        }
    }

    /// Asks for a fill of the two-dimensional histogram of that name from
    /// the given columns. Where there is such a histogram, the columns are
    /// noted in its cuts and a task is handed out: it names the histogram, the
    /// columns, and the ranges of the histogram as they are now, and its id is
    /// kept among the handles. Where there is none, nothing is handed out and
    /// nothing changes.
    pub fn fill_hist2d(&mut self, name: &str, x_column_name: &str, y_column_name: &str) -> (r:
        Option<FillTask>)
        ensures
            fill_dispatched_2d(*old(self), *final(self), name@, x_column_name@, y_column_name@, r),
    {
        match self.find_hist2d(name) {
            Some(index) => {
                let ((x_low, x_high), (y_low, y_high)) = self.histograms2d[index].range();
                self.histograms2d[index].set_columns(x_column_name, y_column_name);
                let id = self.take_task_id();
                Some(
                    FillTask {
                        id,
                        pane: Pane::Histogram2D(index),
                        x: ColumnRange { column: x_column_name.to_owned(), low: x_low, high: x_high },
                        y: Some(
                            ColumnRange { column: y_column_name.to_owned(), low: y_low, high: y_high },
                        ),
                    },
                )
            },
            None => None,
        }
    }

    /// Hands out the id of a new task and keeps it among the handles.
    fn take_task_id(&mut self) -> (id: u64)
        ensures
            id == old(self).next_task,
            final(self).handles@ == old(self).handles@.push(id),
            final(self).next_task == next_task_id(old(self).next_task),
            final(self).histograms == old(self).histograms,
            final(self).histograms2d == old(self).histograms2d,
            final(self).tree == old(self).tree,
            final(self).behavior == old(self).behavior,
            final(self).grid_histogram_map == old(self).grid_histogram_map,
    {
        let id = self.next_task;
        self.next_task = if id == u64::MAX {
            0
        } else {
            id + 1
        };
        self.handles.push(id);
        id
    }

    /// Carries out a fill of a one-dimensional histogram with the column that
    /// the source delivered, or with `None` where it delivered none. The
    /// column is counted row by row and the progress of the histogram is
    /// cleared. Where no column was delivered, or the task names no
    /// one-dimensional histogram of this collection, nothing changes.
    pub fn run_fill_hist1d(&mut self, pane: Pane, values: Option<&Vec<Option<Number>>>) -> (done:
        bool)
        ensures
            filled_1d(
                *old(self),
                *final(self),
                pane,
                match values {
                    Some(column) => Some(column@),
                    None => None,
                },
                done,
            ),
    {
        match (pane, values) {
            (Pane::Histogram(index), Some(column)) => {
                if index < self.histograms.len() {
                    self.histograms[index].fill_column(column);
                    true
                } else {
                    false
                }
            },
            _ => false,
        }
    }

    /// Carries out a fill of a two-dimensional histogram with the columns
    /// that the source delivered, or with `None` where it delivered none. The
    /// columns are counted row by row and the progress of the histogram is
    /// cleared. Where no columns were delivered, or the task names no
    /// two-dimensional histogram of this collection, nothing changes.
    pub fn run_fill_hist2d(
        &mut self,
        pane: Pane,
        values: Option<(&Vec<Option<Number>>, &Vec<Option<Number>>)>,
    ) -> (done: bool)
        ensures
            filled_2d(
                *old(self),
                *final(self),
                pane,
                match values {
                    Some(columns) => Some((columns.0@, columns.1@)),
                    None => None,
                },
                done,
            ),
    {
        match (pane, values) {
            (Pane::Histogram2D(index), Some(columns)) => {
                if index < self.histograms2d.len() {
                    self.histograms2d[index].fill_columns(columns.0, columns.1);
                    true
                } else {
                    false
                }
            },
            _ => false,
        }
    }

    /// Takes the tasks that have finished out of the handles. `finished`
    /// holds the ids of the tasks that were seen to have finished. Returned
    /// are those of them that were among the handles, which are the ones to
    /// join; the handles keep the others. A task that was returned once is not
    /// returned again.
    pub fn check_and_join_finished_threads(&mut self, finished: &Vec<u64>) -> (joined: Vec<u64>)
        ensures
            joined@ == finished_of(old(self).handles@, finished@),
            final(self).handles@ == unfinished_of(old(self).handles@, finished@),
            final(self).histograms == old(self).histograms,
            final(self).histograms2d == old(self).histograms2d,
            final(self).next_task == old(self).next_task,
            final(self).tree == old(self).tree,
            final(self).behavior == old(self).behavior,
            final(self).grid_histogram_map == old(self).grid_histogram_map,
    {
        let mut joined: Vec<u64> = Vec::new();
        if self.handles.is_empty() {
            proof {
                reveal(Seq::filter);
            }
            return joined;
        }
        let mut kept: Vec<u64> = Vec::new();
        let mut i: usize = 0;
        while i < self.handles.len()
            invariant
                i <= self.handles@.len(),
                *self == *old(self),
                joined@ == finished_of(self.handles@.take(i as int), finished@),
                kept@ == unfinished_of(self.handles@.take(i as int), finished@),
            decreases self.handles@.len() - i,
        {
            let id = self.handles[i];
            proof {
                reveal(Seq::filter);
                assert(self.handles@.take(i + 1).drop_last() == self.handles@.take(i as int));
            }
            if holds(finished, id) {
                joined.push(id);
            } else {
                kept.push(id);
            }
            i = i + 1;
        }
        assert(self.handles@.take(i as int) == self.handles@);
        self.handles = kept;
        joined
    }

    /// Moves every tile of the record into the grid recorded for it, grid
    /// by grid and, within a grid, place by place. A tile that the tree no
    /// longer has is passed over. So is every tile while some container of
    /// the tree lies within itself, since a move in such a tree may never
    /// end: of a tree that starts out so, nothing is moved.
    ///
    /// The root stays. What becomes of the tiles is said by `reorganized`.
    pub fn reorganize(&mut self)
        ensures
            tree_root(final(self).tree) == tree_root(old(self).tree),
            reorganized(
                tree_tiles(old(self).tree),
                tree_tiles(final(self).tree),
                placements(old(self).grid_histogram_map@),
            ),
            final(self).behavior == old(self).behavior,
            final(self).handles == old(self).handles,
            final(self).grid_histogram_map == old(self).grid_histogram_map,
            final(self).histograms == old(self).histograms,
            final(self).histograms2d == old(self).histograms2d,
            final(self).next_task == old(self).next_task,
    {
        let ghost record = placements(self.grid_histogram_map@);
        let ghost start = tree_tiles(self.tree);
        let ghost calm = acyclic(start) && panes_recorded(start, record);
        let ghost wanted = calm && one_grid_each(record);
        let grids = self.recorded_grids();
        let mut safe = is_acyclic(&self.tree);
        let mut i: usize = 0;
        while i < grids.len()
            invariant
                i <= grids@.len(),
                record == placements(self.grid_histogram_map@),
                start == tree_tiles(old(self).tree),
                wanted == (calm && one_grid_each(record)),
                forall|grid: u64| grids@.contains(grid) <==> record.contains_key(grid),
                tree_root(self.tree) == tree_root(old(self).tree),
                same_tiles(start, tree_tiles(self.tree)),
                others_stay(start, tree_tiles(self.tree), record),
                settles_only(start, tree_tiles(self.tree), record),
                single_mention(start) ==> single_mention(tree_tiles(self.tree)),
                calm == (acyclic(start) && panes_recorded(start, record)),
                calm ==> safe,
                safe ==> acyclic(tree_tiles(self.tree)),
                !acyclic(start) ==> !safe && tree_tiles(self.tree) == start,
                wanted ==> in_place_so_far(tree_tiles(self.tree), record, grids@, i as int, 0),
                self.behavior == old(self).behavior,
                self.handles == old(self).handles,
                self.grid_histogram_map == old(self).grid_histogram_map,
                self.histograms == old(self).histograms,
                self.histograms2d == old(self).histograms2d,
                self.next_task == old(self).next_task,
            decreases grids@.len() - i,
        {
            let container_id = grids[i];
            assert(grids@.contains(container_id));
            let mut index: usize = 0;
            loop
                invariant
                    i < grids@.len(),
                    container_id == grids@[i as int],
                    record.contains_key(container_id),
                    index <= record[container_id].len(),
                    record == placements(self.grid_histogram_map@),
                    start == tree_tiles(old(self).tree),
                    wanted == (calm && one_grid_each(record)),
                    forall|grid: u64| grids@.contains(grid) <==> record.contains_key(grid),
                    tree_root(self.tree) == tree_root(old(self).tree),
                    same_tiles(start, tree_tiles(self.tree)),
                    others_stay(start, tree_tiles(self.tree), record),
                    settles_only(start, tree_tiles(self.tree), record),
                    single_mention(start) ==> single_mention(tree_tiles(self.tree)),
                    calm == (acyclic(start) && panes_recorded(start, record)),
                    calm ==> safe,
                    safe ==> acyclic(tree_tiles(self.tree)),
                    !acyclic(start) ==> !safe && tree_tiles(self.tree) == start,
                    wanted ==> in_place_so_far(
                        tree_tiles(self.tree),
                        record,
                        grids@,
                        i as int,
                        index as int,
                    ),
                    self.behavior == old(self).behavior,
                    self.handles == old(self).handles,
                    self.grid_histogram_map == old(self).grid_histogram_map,
                    self.histograms == old(self).histograms,
                    self.histograms2d == old(self).histograms2d,
                    self.next_task == old(self).next_task,
                ensures
                    index == record[container_id].len(),
                decreases record[container_id].len() - index,
            {
                let histogram_id = match self.recorded_tile(container_id, index) {
                    Some(histogram_id) => histogram_id,
                    None => {
                        break ;
                    },
                };
                let ghost tiles = tree_tiles(self.tree);
                assert(record[grids@[i as int]][index as int] == histogram_id);
                if has_tile(&self.tree, histogram_id) && safe {
                    let is_container = match container_kind(&self.tree, histogram_id) {
                        Some(_) => true,
                        None => false,
                    };
                    move_tile_to_container(&mut self.tree, histogram_id, container_id, index);
                    let ghost moved = tree_tiles(self.tree);
                    proof {
                        if kind_of(tiles, container_id) is Some {
                            lemma_moved_into(tiles, moved, histogram_id, container_id);
                        }
                        assert(start.dom().contains(histogram_id) == tiles.dom().contains(
                            histogram_id,
                        ));
                        assert forall|id: u64, tile: u64| stays_put(start, record, tile) implies (
                        #[trigger] children_of(moved, id).contains(tile) <==> children_of(
                            start,
                            id,
                        ).contains(tile)) by {
                            assert(children_of(tiles, id).contains(tile) <==> children_of(
                                start,
                                id,
                            ).contains(tile));
                            if tile == histogram_id {
                                assert(record[container_id].contains(record[container_id][index as int]));
                                assert(names_for(record, container_id, tile));
                                assert(kind_of(tiles, container_id) == kind_of(start, container_id));
                                assert(moved == tiles);
                            } else if children_of(moved, id).contains(tile) {
                                lemma_children_after_move(
                                    tiles,
                                    moved,
                                    histogram_id,
                                    container_id,
                                    id,
                                    tile,
                                );
                            }
                        }
                        if single_mention(start) {
                            lemma_move_keeps_single_mention(
                                tiles,
                                moved,
                                histogram_id,
                                container_id,
                            );
                        }
                        if calm {
                            assert(kind_of(start, record[container_id][index as int]) is None);
                            assert(kind_of(tiles, histogram_id) == kind_of(start, histogram_id));
                        }
                        assert forall|id: u64, tile: u64| #[trigger]
                            children_of(moved, id).contains(tile) implies children_of(
                            start,
                            id,
                        ).contains(tile) || names_for(record, id, tile) by {
                            if tile == histogram_id && id == container_id {
                                assert(record[container_id][index as int] == tile);
                                assert(record[container_id].contains(tile));
                            } else {
                                lemma_children_after_move(
                                    tiles,
                                    moved,
                                    histogram_id,
                                    container_id,
                                    id,
                                    tile,
                                );
                                assert(children_of(tiles, id).contains(tile));
                            }
                        }
                        if !is_container {
                            lemma_move_of_pane_keeps_acyclic(
                                tiles,
                                moved,
                                histogram_id,
                                container_id,
                            );
                        }
                        if wanted {
                            assert(kind_of(start, record[container_id][index as int]) is None);
                            assert(kind_of(tiles, histogram_id) == kind_of(start, histogram_id));
                            assert forall|a: int, b: int|
                                #![trigger record[grids@[a]][b]]
                                0 <= a < grids@.len() && recorded(record, grids@[a], b) && (a < i
                                    || (a == i && b < index + 1)) && kind_of(moved, grids@[a])
                                    is Some && moved.contains_key(
                                    record[grids@[a]][b],
                                ) implies children_of(moved, grids@[a]).contains(
                                record[grids@[a]][b],
                            ) by {
                                assert(kind_of(tiles, grids@[a]) == kind_of(moved, grids@[a]));
                                if record[grids@[a]][b] == record[container_id][index as int] {
                                    assert(grids@[a] == container_id);
                                } else {
                                    assert(a < i || (a == i && b < index));
                                    assert(children_of(tiles, grids@[a]).contains(
                                        record[grids@[a]][b],
                                    ));
                                }
                            }
                        }
                    }
                    if is_container {
                        safe = is_acyclic(&self.tree);
                    }
                }
                index = index + 1;
            }
            i = i + 1;
        }
        proof {
            if wanted {
                let last = tree_tiles(self.tree);
                assert forall|grid: u64, place: int|
                    #![trigger record[grid][place]]
                    recorded(record, grid, place) && kind_of(last, grid) is Some
                        && last.contains_key(record[grid][place]) implies children_of(
                    last,
                    grid,
                ).contains(record[grid][place]) by {
                    assert(grids@.contains(grid));
                    let a = choose|a: int| 0 <= a < grids@.len() && grids@[a] == grid;
                    assert(recorded(record, grids@[a], place));
                    assert(children_of(last, grids@[a]).contains(record[grids@[a]][place]));
                }
            }
        }
    }

    /// Adds a one-dimensional histogram and asks for its fill: `add_hist1d`,
    /// then `fill_hist1d`. Where the histogram is refused, no fill is asked
    /// for.
    pub fn add_fill_hist1d(
        &mut self,
        name: &str,
        column_name: &str,
        edges: Vec<Number>,
        grid: Option<u64>,
    ) -> (r: Result<(Added, Option<FillTask>), AxisError>)
        ensures
            match r {
                Ok((added, task)) => exists|between: Histogrammer|
                    {
                        &&& #[trigger] added_1d(
                            *old(self),
                            between,
                            name@,
                            edges@,
                            grid,
                            Ok(added),
                        )
                        &&& fill_dispatched_1d(between, *final(self), name@, column_name@, task)
                    },
                Err(e) => added_1d(*old(self), *final(self), name@, edges@, grid, Err(e)),
            },
            r matches Ok((_, task)) ==> task is Some,
    {
        let added = match self.add_hist1d(name, edges, grid) {
            Ok(added) => added,
            Err(e) => {
                return Err(e);
            },
        };
        let ghost between = *self;
        let task = self.fill_hist1d(name, column_name);
        proof {
            assert(added_1d(*old(self), between, name@, edges@, grid, Ok(added)));
            lemma_added_is_named_1d(*old(self), between, name@, edges@, grid, added);
        }
        Ok((added, task))
    }

    /// Adds a two-dimensional histogram and asks for its fill: `add_hist2d`,
    /// then `fill_hist2d`. Where the histogram is refused, no fill is asked
    /// for.
    pub fn add_fill_hist2d(
        &mut self,
        name: &str,
        x_column_name: &str,
        y_column_name: &str,
        x_edges: Vec<Number>,
        y_edges: Vec<Number>,
        grid: Option<u64>,
    ) -> (r: Result<(Added, Option<FillTask>), GridError>)
        ensures
            match r {
                Ok((added, task)) => exists|between: Histogrammer|
                    {
                        &&& #[trigger] added_2d(
                            *old(self),
                            between,
                            name@,
                            x_edges@,
                            y_edges@,
                            grid,
                            Ok(added),
                        )
                        &&& fill_dispatched_2d(
                            between,
                            *final(self),
                            name@,
                            x_column_name@,
                            y_column_name@,
                            task,
                        )
                    },
                Err(e) => added_2d(*old(self), *final(self), name@, x_edges@, y_edges@, grid, Err(e)),
            },
            r matches Ok((_, task)) ==> task is Some,
    {
        let added = match self.add_hist2d(name, x_edges, y_edges, grid) {
            Ok(added) => added,
            Err(e) => {
                return Err(e);
            },
        };
        let ghost between = *self;
        let task = self.fill_hist2d(name, x_column_name, y_column_name);
        proof {
            assert(added_2d(*old(self), between, name@, x_edges@, y_edges@, grid, Ok(added)));
            lemma_added_is_named_2d(*old(self), between, name@, x_edges@, y_edges@, grid, added);
        }
        Ok((added, task))
    }
}

/// After a histogram was added under a name, the collection has one of that
/// name: reset or new, it is found.
pub proof fn lemma_added_is_named_1d(
    before: Histogrammer,
    after: Histogrammer,
    name: Seq<char>,
    edges: Seq<Number>,
    grid: Option<u64>,
    added: Added,
)
    requires
        added_1d(before, after, name, edges, grid, Ok(added)),
    ensures
        !none_named(names_1d(after.histograms@), name),
{
    let index = match added {
        Added::Reset { index } => index,
        Added::Placed { index, .. } => index,
        Added::Unplaced { index, .. } => index,
    };
    assert(names_1d(after.histograms@)[index as int] == name);
}

/// After a histogram was added under a name, the collection has one of that
/// name: reset or new, it is found.
pub proof fn lemma_added_is_named_2d(
    before: Histogrammer,
    after: Histogrammer,
    name: Seq<char>,
    x_edges: Seq<Number>,
    y_edges: Seq<Number>,
    grid: Option<u64>,
    added: Added,
)
    requires
        added_2d(before, after, name, x_edges, y_edges, grid, Ok(added)),
    ensures
        !none_named(names_2d(after.histograms2d@), name),
{
    let index = match added {
        Added::Reset { index } => index,
        Added::Placed { index, .. } => index,
        Added::Unplaced { index, .. } => index,
    };
    assert(names_2d(after.histograms2d@)[index as int] == name);
}

/// Whether `id` is among `ids`.
pub fn holds(ids: &Vec<u64>, id: u64) -> (r: bool)
    ensures
        r == ids@.contains(id),
{
    let mut i: usize = 0;
    while i < ids.len()
        invariant
            i <= ids@.len(),
            forall|j: int| 0 <= j < i ==> ids@[j] != id,
        decreases ids@.len() - i,
    {
        if ids[i] == id {
            return true;
        }
        i = i + 1;
    }
    false
}

/// Fills of two different one-dimensional histograms do not touch each
/// other: carried out in either order, they leave every histogram of the
/// collection the same.
pub proof fn lemma_fills_commute(
    start: Histogrammer,
    first_a: Histogrammer,
    a_then_b: Histogrammer,
    first_b: Histogrammer,
    b_then_a: Histogrammer,
    i: usize,
    j: usize,
    a: Seq<Option<Number>>,
    b: Seq<Option<Number>>,
)
    requires
        i != j,
        filled_1d(start, first_a, Pane::Histogram(i), Some(a), true),
        filled_1d(first_a, a_then_b, Pane::Histogram(j), Some(b), true),
        filled_1d(start, first_b, Pane::Histogram(j), Some(b), true),
        filled_1d(first_b, b_then_a, Pane::Histogram(i), Some(a), true),
    ensures
        a_then_b.histograms@.len() == b_then_a.histograms@.len(),
        forall|k: int|
            0 <= k < a_then_b.histograms@.len() ==> (#[trigger] a_then_b.histograms@[k])@
                == b_then_a.histograms@[k]@,
        a_then_b.histograms2d == b_then_a.histograms2d,
{
    assert forall|k: int| 0 <= k < a_then_b.histograms@.len() implies (
    #[trigger] a_then_b.histograms@[k])@ == b_then_a.histograms@[k]@ by {
        if k == i {
            assert(a_then_b.histograms@[k] == first_a.histograms@[k]);
            assert(first_b.histograms@[k] == start.histograms@[k]);
        } else if k == j {
            assert(b_then_a.histograms@[k] == first_b.histograms@[k]);
            assert(first_a.histograms@[k] == start.histograms@[k]);
        } else {
            assert(a_then_b.histograms@[k] == first_a.histograms@[k]);
            assert(first_a.histograms@[k] == start.histograms@[k]);
            assert(b_then_a.histograms@[k] == first_b.histograms@[k]);
            assert(first_b.histograms@[k] == start.histograms@[k]);
        }
    }
}

/// A fill of a one-dimensional histogram and a fill of a two-dimensional
/// one do not touch each other: carried out in either order, they leave
/// every histogram of the collection the same.
pub proof fn lemma_fills_of_both_dimensions_commute(
    start: Histogrammer,
    first_a: Histogrammer,
    a_then_b: Histogrammer,
    first_b: Histogrammer,
    b_then_a: Histogrammer,
    i: usize,
    j: usize,
    a: Seq<Option<Number>>,
    b: (Seq<Option<Number>>, Seq<Option<Number>>),
)
    requires
        filled_1d(start, first_a, Pane::Histogram(i), Some(a), true),
        filled_2d(first_a, a_then_b, Pane::Histogram2D(j), Some(b), true),
        filled_2d(start, first_b, Pane::Histogram2D(j), Some(b), true),
        filled_1d(first_b, b_then_a, Pane::Histogram(i), Some(a), true),
    ensures
        a_then_b.histograms@.len() == b_then_a.histograms@.len(),
        forall|k: int|
            0 <= k < a_then_b.histograms@.len() ==> (#[trigger] a_then_b.histograms@[k])@
                == b_then_a.histograms@[k]@,
        a_then_b.histograms2d@.len() == b_then_a.histograms2d@.len(),
        forall|k: int|
            0 <= k < a_then_b.histograms2d@.len() ==> (#[trigger] a_then_b.histograms2d@[k])@
                == b_then_a.histograms2d@[k]@,
{
    assert forall|k: int| 0 <= k < a_then_b.histograms@.len() implies (
    #[trigger] a_then_b.histograms@[k])@ == b_then_a.histograms@[k]@ by {
        if k != i {
            assert(b_then_a.histograms@[k] == first_b.histograms@[k]);
            assert(first_a.histograms@[k] == start.histograms@[k]);
        }
    }
    assert forall|k: int| 0 <= k < a_then_b.histograms2d@.len() implies (
    #[trigger] a_then_b.histograms2d@[k])@ == b_then_a.histograms2d@[k]@ by {
        if k != j {
            assert(a_then_b.histograms2d@[k] == first_a.histograms2d@[k]);
            assert(first_b.histograms2d@[k] == start.histograms2d@[k]);
        }
    }
}

/// Fills of two different two-dimensional histograms do not touch each
/// other: carried out in either order, they leave every histogram of the
/// collection the same.
pub proof fn lemma_fills_of_pairs_commute(
    start: Histogrammer,
    first_a: Histogrammer,
    a_then_b: Histogrammer,
    first_b: Histogrammer,
    b_then_a: Histogrammer,
    i: usize,
    j: usize,
    a: (Seq<Option<Number>>, Seq<Option<Number>>),
    b: (Seq<Option<Number>>, Seq<Option<Number>>),
)
    requires
        i != j,
        filled_2d(start, first_a, Pane::Histogram2D(i), Some(a), true),
        filled_2d(first_a, a_then_b, Pane::Histogram2D(j), Some(b), true),
        filled_2d(start, first_b, Pane::Histogram2D(j), Some(b), true),
        filled_2d(first_b, b_then_a, Pane::Histogram2D(i), Some(a), true),
    ensures
        a_then_b.histograms2d@.len() == b_then_a.histograms2d@.len(),
        forall|k: int|
            0 <= k < a_then_b.histograms2d@.len() ==> (#[trigger] a_then_b.histograms2d@[k])@
                == b_then_a.histograms2d@[k]@,
        a_then_b.histograms == b_then_a.histograms,
{
    assert forall|k: int| 0 <= k < a_then_b.histograms2d@.len() implies (
    #[trigger] a_then_b.histograms2d@[k])@ == b_then_a.histograms2d@[k]@ by {
        if k == i {
            assert(a_then_b.histograms2d@[k] == first_a.histograms2d@[k]);
            assert(first_b.histograms2d@[k] == start.histograms2d@[k]);
        } else if k == j {
            assert(b_then_a.histograms2d@[k] == first_b.histograms2d@[k]);
            assert(first_a.histograms2d@[k] == start.histograms2d@[k]);
        } else {
            assert(a_then_b.histograms2d@[k] == first_a.histograms2d@[k]);
            assert(first_a.histograms2d@[k] == start.histograms2d@[k]);
            assert(b_then_a.histograms2d@[k] == first_b.histograms2d@[k]);
            assert(first_b.histograms2d@[k] == start.histograms2d@[k]);
        }
    }
}

/// Adding a histogram under a name twice makes one histogram, not two: the
/// second time, the one that is there is reset.
pub proof fn lemma_added_again_resets_1d(
    before: Histogrammer,
    between: Histogrammer,
    after: Histogrammer,
    name: Seq<char>,
    first_edges: Seq<Number>,
    first_grid: Option<u64>,
    first: Added,
    second_edges: Seq<Number>,
    second_grid: Option<u64>,
    second: Result<Added, AxisError>,
)
    requires
        added_1d(before, between, name, first_edges, first_grid, Ok(first)),
        added_1d(between, after, name, second_edges, second_grid, second),
    ensures
        second matches Ok(Added::Reset { .. }),
        after.histograms@.len() == between.histograms@.len(),
        after.tree == between.tree,
{
    lemma_added_is_named_1d(before, between, name, first_edges, first_grid, first);
}

/// Adding a two-dimensional histogram under a name twice makes one
/// histogram, not two: the second time, the one that is there is reset.
pub proof fn lemma_added_again_resets_2d(
    before: Histogrammer,
    between: Histogrammer,
    after: Histogrammer,
    name: Seq<char>,
    first_edges: (Seq<Number>, Seq<Number>),
    first_grid: Option<u64>,
    first: Added,
    second_edges: (Seq<Number>, Seq<Number>),
    second_grid: Option<u64>,
    second: Result<Added, GridError>,
)
    requires
        added_2d(before, between, name, first_edges.0, first_edges.1, first_grid, Ok(first)),
        added_2d(between, after, name, second_edges.0, second_edges.1, second_grid, second),
    ensures
        second matches Ok(Added::Reset { .. }),
        after.histograms2d@.len() == between.histograms2d@.len(),
        after.tree == between.tree,
{
    lemma_added_is_named_2d(before, between, name, first_edges.0, first_edges.1, first_grid, first);
}

/// The grid for histograms that were given none is created once and found
/// again from then on: settling on it a second time gives the same grid and
/// changes neither the tree nor the tab names.
pub proof fn lemma_other_grid_is_found_again(
    before: TreeView,
    names_before: Map<u64, String>,
    after: TreeView,
    names_after: Map<u64, String>,
    grid: u64,
    later: TreeView,
    names_later: Map<u64, String>,
    again: u64,
)
    requires
        grid_settled(before, names_before, after, names_after, None, grid),
        grid_settled(after, names_after, later, names_later, None, again),
    ensures
        again == grid,
        later == after,
        names_later == names_after,
        is_other_grid(after.tiles, names_after, grid),
{
    if !is_other_grid(before.tiles, names_before, grid) {
        let (tab, top) = choose|tab: u64, top: u64| grid_created(before, after, grid, tab, top);
        let with_grid = before.tiles.insert(grid, empty_grid());
        let with_tab = with_grid.insert(tab, tabs_of(seq![grid]));
        assert(kind_of(with_tab, grid) == Some(ContainerType::Grid));
        assert(kind_of(after.tiles, grid) == Some(ContainerType::Grid));
        assert(is_other_grid(after.tiles, names_after, grid));
        assert forall|id: u64| is_other_grid(after.tiles, names_after, id) implies id == grid by {
            if id != grid {
                assert(names_before.dom().insert(grid).contains(id));
                assert(names_after[id] == names_before[id]);
                assert(kind_of(with_tab, id) == Some(ContainerType::Grid));
                assert(is_other_grid(before.tiles, names_before, id));
            }
        }
    }
    assert(is_other_grid(after.tiles, names_after, grid));
}

} // verus!
