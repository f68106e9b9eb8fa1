//! The run of the slicer: which tile to write next, and how the run ends.
//!
//! Writing a tile to disk is the caller's work. The slicer hands out one
//! tile at a time and is told how the writing went.

use crate::geometry::{lemma_emission_order, Grid, GridPlan};
use crate::naming::{lemma_tile_names_differ, tile_name, OutputLayout};
use crate::raster::{Picture, Raster};
use crate::report::ChopError;
use vstd::prelude::*;

verus! {

/// What the caller reports to the slicer.
#[derive(Clone, Copy, Debug, PartialEq, Eq, Structural)]
pub enum Event {
    /// The run starts, or the tile last handed out is asked for again.
    Started,
    /// The tile last handed out was written.
    TileSaved,
    /// The tile last handed out could not be encoded or written.
    TileFailed,
}

/// One tile to write: its grid coordinates, counted from zero, the name of
/// its file and its pixels.
#[derive(Debug, PartialEq, Eq)]
pub struct Tile {
    pub column: u32,
    pub row: u32,
    pub file_name: String,
    pub image: Raster,
}

/// What the caller does next.
#[derive(Debug, PartialEq, Eq)]
pub enum Step {
    /// Write this tile, then report how it went.
    Emit(Tile),
    /// Every tile was written: the run ends well.
    Finish,
    /// The run ends with this error.
    Abort(ChopError),
}

/// The mathematical description of a run: the source, the grid, the
/// extension of the tile files, the number of tiles written so far, and
/// whether writing the next one failed.
pub struct Run {
    pub picture: Picture,
    pub grid: Grid,
    pub extension: Seq<char>,
    pub done: nat,
    pub failed: bool,
}

impl Run {
    /// A run is under way while nothing failed and tiles are left.
    pub open spec fn active(self) -> bool {
        !self.failed && self.done < self.grid.tile_count()
    }

    /// The run after `event`. Only a run under way changes: a tile that
    /// was written moves it to the next tile, a failure ends it.
    pub open spec fn after(self, event: Event) -> Run {
        if !self.active() {
            self
        } else {
            match event {
                Event::Started => self,
                Event::TileSaved => Run { done: self.done + 1, ..self },
                Event::TileFailed => Run { failed: true, ..self },
            }
        }
    }

    /// The run after `count` tiles in a row were written.
    pub open spec fn after_saves(self, count: nat) -> Run
        decreases count,
    {
        if count == 0 {
            self
        } else {
            self.after_saves((count - 1) as nat).after(Event::TileSaved)
        }
    }

    /// Grid column of the tile that the run has reached.
    pub open spec fn column(self) -> int {
        self.grid.column_of(self.done as int)
    }

    /// Grid row of the tile that the run has reached.
    pub open spec fn row(self) -> int {
        self.grid.row_of(self.done as int)
    }

    /// Whether `step` is what a run in this state asks of the caller: the
    /// tile that it has reached while it is under way, its error once it
    /// failed, and the end once every tile is written.
    pub open spec fn asks(self, step: Step) -> bool {
        match step {
            Step::Emit(tile) => {
                &&& self.active()
                &&& tile.column == self.column()
                &&& tile.row == self.row()
                &&& tile.file_name@ == tile_name(tile.column as nat, tile.row as nat, self.extension)
                &&& tile.image.wf()
                &&& tile.image@ == self.picture.tile(self.grid, self.column(), self.row())
            },
            Step::Finish => !self.failed && self.done >= self.grid.tile_count(),
            Step::Abort(error) => {
                &&& self.failed
                &&& error == (ChopError::Save {
                    column: self.column() as u32,
                    row: self.row() as u32,
                })
            },
        }
    }
}

/// A run in which every tile is written ends after as many tiles as the
/// grid has, and not before: from a fresh run, `count` written tiles leave
/// the run at position `count` while that is below the tile count, and at
/// its end from then on.
pub proof fn lemma_successful_run(run: Run, count: nat)
    requires
        run.grid.valid(),
        run.done == 0,
        !run.failed,
    ensures
        run.after_saves(count) == (Run {
            done: if count <= run.grid.tile_count() {
                count
            } else {
                run.grid.tile_count()
            },
            ..run
        }),
        count < run.grid.tile_count() ==> run.after_saves(count).active(),
        count >= run.grid.tile_count() <==> run.after_saves(count).asks(Step::Finish),
    decreases count,
{
    if count > 0 {
        lemma_successful_run(run, (count - 1) as nat);
    }
}

/// The name of the file written at position `index` of the order of
/// emission.
pub open spec fn emitted_name(grid: Grid, extension: Seq<char>, index: int) -> Seq<char> {
    tile_name(grid.column_of(index) as nat, grid.row_of(index) as nat, extension)
}

/// Tile count: a run that ends well has written one file for each position
/// below the tile count. These files are those of the tiles of the grid,
/// each under its own name: every tile of the grid has its file among
/// them, and no two positions give the same name.
pub proof fn lemma_emitted_names(grid: Grid, extension: Seq<char>)
    requires
        grid.valid(),
    ensures
        forall|column: int, row: int| #[trigger]
            grid.has_tile(column, row) ==> {
                &&& 0 <= grid.index_of(column, row) < grid.tile_count()
                &&& emitted_name(grid, extension, grid.index_of(column, row)) == tile_name(
                    column as nat,
                    row as nat,
                    extension,
                )
            },
        forall|index: int|
            0 <= index < grid.tile_count() ==> grid.has_tile(
                #[trigger] grid.column_of(index),
                grid.row_of(index),
            ),
        forall|first: int, second: int|
            0 <= first < grid.tile_count() && 0 <= second < grid.tile_count() && #[trigger] emitted_name(
                grid,
                extension,
                first,
            ) == #[trigger] emitted_name(grid, extension, second) ==> first == second,
{
    assert forall|column: int, row: int| #[trigger] grid.has_tile(column, row) implies {
        &&& 0 <= grid.index_of(column, row) < grid.tile_count()
        &&& emitted_name(grid, extension, grid.index_of(column, row)) == tile_name(
            column as nat,
            row as nat,
            extension,
        )
    } by {
        lemma_emission_order(grid, column, row, 0);
    }
    assert forall|index: int| 0 <= index < grid.tile_count() implies grid.has_tile(
        #[trigger] grid.column_of(index),
        grid.row_of(index),
    ) by {
        lemma_emission_order(grid, 0, 0, index);
    }
    assert forall|first: int, second: int|
        0 <= first < grid.tile_count() && 0 <= second < grid.tile_count() && #[trigger] emitted_name(
            grid,
            extension,
            first,
        ) == #[trigger] emitted_name(grid, extension, second) implies first == second by {
        lemma_emission_order(grid, 0, 0, first);
        lemma_emission_order(grid, 0, 0, second);
        lemma_tile_names_differ(
            grid.column_of(first) as nat,
            grid.row_of(first) as nat,
            grid.column_of(second) as nat,
            grid.row_of(second) as nat,
            extension,
        );
    }
}

/// A run of the slicer over one source.
#[derive(Debug)]
pub struct Slicer {
    source: Raster,
    plan: GridPlan,
    layout: OutputLayout,
    done: u32,
    failed: bool,
}

impl View for Slicer {
    type V = Run;

    closed spec fn view(&self) -> Run {
        Run {
            picture: self.source@,
            grid: self.plan@,
            extension: self.layout.extension@,
            done: self.done as nat,
            failed: self.failed,
        }
    }
}

impl Slicer {
    /// The source and the plan belong together, and the run has not gone
    /// past the last tile.
    pub closed spec fn wf(&self) -> bool {
        &&& self.source.wf()
        &&& self.plan.wf()
        &&& self.plan@.width == self.source@.width
        &&& self.plan@.height == self.source@.height
        &&& self.done <= self.plan@.tile_count()
        &&& self.failed ==> self.done < self.plan@.tile_count()
    }

    /// The names under which this run stores its tiles.
    pub closed spec fn names(&self) -> OutputLayout {
        self.layout
    }

    /// Starts a run that cuts `source` into `x_slices` columns and
    /// `y_slices` rows. No tile is written yet.
    pub fn new(source: Raster, x_slices: u8, y_slices: u8, layout: OutputLayout) -> (slicer: Slicer)
        requires
            source.wf(),
            x_slices >= 1,
            y_slices >= 1,
        ensures
            slicer.wf(),
            slicer.names() == layout,
            slicer@ == (Run {
                picture: source@,
                grid: Grid {
                    width: source@.width,
                    height: source@.height,
                    columns: x_slices as nat,
                    rows: y_slices as nat,
                },
                extension: layout.extension@,
                done: 0,
                failed: false,
            }),
    {
        let plan = GridPlan::new(source.width(), source.height(), x_slices, y_slices);
        Slicer { source, plan, layout, done: 0, failed: false }
    }

    /// The plan of the run.
    pub fn plan(&self) -> (plan: GridPlan)
        requires
            self.wf(),
        ensures
            plan.wf(),
            plan@ == self@.grid,
    {
        self.plan
    }

    /// The names under which the run stores its tiles.
    pub fn layout(&self) -> (layout: &OutputLayout)
        ensures
            *layout == self.names(),
    {
        &self.layout
    }

    /// Number of tiles of the run: the capacity of a progress counter.
    pub fn total(&self) -> (count: u32)
        requires
            self.wf(),
        ensures
            count == self@.grid.tile_count(),
    {
        self.plan.tile_count()
    }

    /// Number of tiles written so far: the value of a progress counter.
    pub fn done(&self) -> (count: u32)
        ensures
            count == self@.done,
    {
        self.done
    }

    /// Takes in `event` and says what to do next. The source, the grid and
    /// the names never change; the state of the run moves as
    /// [`Run::after`] says, and the step is the one that the new state
    /// asks for.
    pub fn step(&mut self, event: Event) -> (step: Step)
        requires
            old(self).wf(),
        ensures
            final(self).wf(),
            final(self).names() == old(self).names(),
            final(self)@ == old(self)@.after(event),
            final(self)@.asks(step),
    {
        let total: u32 = self.plan.tile_count();
        if !self.failed && self.done < total {
            match event {
                Event::Started => {},
                Event::TileSaved => {
                    self.done = self.done + 1;
                },
                Event::TileFailed => {
                    self.failed = true;
                },
            }
        }
        if self.failed {
            let place = self.plan.coordinates(self.done);
            Step::Abort(ChopError::Save { column: place.0, row: place.1 })
        } else if self.done < total {
            let plan = self.plan;
            let place = plan.coordinates(self.done);
            let image = self.source.tile(&plan, place.0, place.1);
            let file_name = self.layout.tile_file_name(place.0, place.1);
            Step::Emit(Tile { column: place.0, row: place.1, file_name, image })
        } else {
            Step::Finish
        }
    }
}

} // verus!
