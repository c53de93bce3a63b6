//! The grid walk: pixel by pixel in row-major order, each point value
//! resolved against the palette and appended to the buffer.
use crate::config::{Configuration, Mandelbrot};
use crate::error::Error;
use crate::orbit::{lemma_point_value_in_budget, point_value};
use crate::range::Range;
use vstd::prelude::*;

verus! {

/// The colours of the point values `values`, one for one.
pub open spec fn resolved(palette: Seq<u32>, values: Seq<u32>) -> Seq<u32> {
    Seq::new(values.len(), |k: int| palette[values[k] as int])
}

/// The position, from `from` on, of the first point value without a palette
/// entry; the length of `values` where each has one.
pub open spec fn first_unresolved(palette: Seq<u32>, values: Seq<u32>, from: int) -> int
    decreases values.len() - from,
{
    if from < 0 || from >= values.len() {
        values.len() as int
    } else if values[from] >= palette.len() {
        from
    } else {
        first_unresolved(palette, values, from + 1)
    }
}

/// What evaluating a grid gives, the point values of its pixels being
/// `values` in row-major order: a viewport with a degenerate axis is refused
/// before anything else; then the first point value without a palette entry
/// fails the whole evaluation; else the buffer holds the colour of each
/// pixel's value, in the same order.
pub open spec fn spec_update(
    config: Configuration,
    range_x: Range,
    range_y: Range,
    values: Seq<u32>,
) -> Result<Seq<u32>, Error> {
    let bad = first_unresolved(config.palette, values, 0);
    if range_x.spec_is_degenerate() || range_y.spec_is_degenerate() {
        Err(Error::DegenerateViewport)
    } else if bad < values.len() {
        Err(Error::PaletteIndex(values[bad]))
    } else {
        Ok(resolved(config.palette, values))
    }
}

/// A buffer or a failure, the buffer as a sequence.
pub open spec fn outcome(r: Result<Vec<u32>, Error>) -> Result<Seq<u32>, Error> {
    match r {
        Ok(data) => Ok(data@),
        Err(e) => Err(e),
    }
}

/// A grid in the middle of its evaluation, as mathematical values.
pub struct EvaluationView {
    pub config: Configuration,
    /// Column of the pixel whose point value is awaited.
    pub x: nat,
    /// Row of that pixel.
    pub y: nat,
    /// The colours of the pixels before it.
    pub data: Seq<u32>,
}

/// What the walk has come to after one pixel, as mathematical values.
pub enum ProgressView {
    Pending(EvaluationView),
    Complete(Seq<u32>),
}

impl EvaluationView {
    /// The awaited pixel lies in the grid, the buffer holds exactly the
    /// pixels before it in row-major order, and each colour in it is the
    /// palette's.
    pub open spec fn wf(&self) -> bool {
        &&& self.config.wf()
        &&& self.x < self.config.width
        &&& self.y < self.config.height
        &&& self.data.len() == self.y * self.config.width + self.x
        &&& forall|k: int| 0 <= k < self.data.len() ==> self.config.palette.contains(#[trigger] self.data[k])
    }

    /// Whether the awaited pixel is the last of the grid.
    pub open spec fn at_last_pixel(&self) -> bool {
        self.x + 1 == self.config.width && self.y + 1 == self.config.height
    }

    /// The walk after taking `value` as the awaited pixel's point value.
    pub open spec fn record(&self, value: u32) -> Result<ProgressView, Error> {
        let data = self.data.push(self.config.palette[value as int]);
        if value >= self.config.palette.len() {
            Err(Error::PaletteIndex(value))
        } else if self.at_last_pixel() {
            Ok(ProgressView::Complete(data))
        } else if self.x + 1 == self.config.width {
            Ok(ProgressView::Pending(EvaluationView { x: 0, y: self.y + 1, data, ..*self }))
        } else {
            Ok(ProgressView::Pending(EvaluationView { x: self.x + 1, data, ..*self }))
        }
    }
}

/// A grid in the middle of its evaluation. It is always well formed.
pub struct Evaluation<'a> {
    config: &'a Mandelbrot,
    x: u32,
    y: u32,
    data: Vec<u32>,
}

/// Either a pixel is still awaited, or the buffer is complete.
pub enum Progress<'a> {
    Pending(Evaluation<'a>),
    Complete(Vec<u32>),
}

impl<'a> View for Evaluation<'a> {
    type V = EvaluationView;

    closed spec fn view(&self) -> EvaluationView {
        EvaluationView {
            config: self.config@,
            x: self.x as nat,
            y: self.y as nat,
            data: self.data@,
        }
    }
}

impl<'a> View for Progress<'a> {
    type V = ProgressView;

    open spec fn view(&self) -> ProgressView {
        match self {
            Progress::Pending(e) => ProgressView::Pending(e@),
            Progress::Complete(data) => ProgressView::Complete(data@),
        }
    }
}

/// The result of one step of the walk, as mathematical values.
pub open spec fn step_outcome(r: Result<Progress, Error>) -> Result<ProgressView, Error> {
    match r {
        Ok(p) => Ok(p@),
        Err(e) => Err(e),
    }
}

impl<'a> Evaluation<'a> {
    #[verifier::type_invariant]
    closed spec fn inv(&self) -> bool {
        self@.wf()
    }

    /// Column and row of the pixel whose point value is awaited.
    pub fn pixel(&self) -> (r: (u32, u32))
        ensures
            r.0 == self@.x,
            r.1 == self@.y,
            self@.wf(),
    {
        proof {
            use_type_invariant(self);
        }
        (self.x, self.y)
    }

    /// Takes the awaited pixel's point value: its colour joins the buffer and
    /// the walk moves to the next pixel of the row, to the first of the next
    /// row, or ends with the complete buffer. A value without a palette entry
    /// ends the walk with `Error::PaletteIndex` and no buffer.
    pub fn record(self, value: u32) -> (r: Result<Progress<'a>, Error>)
        ensures
            self@.wf(),
            step_outcome(r) == self@.record(value),
            match r {
                Ok(Progress::Pending(e)) => e@.wf(),
                Ok(Progress::Complete(data)) => {
                    &&& data@.len() == self@.config.width * self@.config.height
                    &&& forall|k: int|
                        0 <= k < data@.len() ==> self@.config.palette.contains(
                            #[trigger] data@[k],
                        )
                },
                Err(_) => true,
            },
    {
        proof {
            use_type_invariant(&self);
            lemma_record_keeps_walk(self@, value);
        }
        let Evaluation { config, x, y, data } = self;
        let mut data = data;
        let colors = config.colors();
        let width: u32 = config.width();
        let height: u32 = config.height();
        if value as usize >= colors.len() {
            return Err(Error::PaletteIndex(value));
        }
        let color: u32 = colors[value as usize];
        data.push(color);
        if x + 1 == width && y + 1 == height {
            Ok(Progress::Complete(data))
        } else if x + 1 == width {
            Ok(Progress::Pending(Evaluation { config, x: 0, y: y + 1, data }))
        } else {
            Ok(Progress::Pending(Evaluation { config, x: x + 1, y, data }))
        }
    }
}

impl Mandelbrot {
    /// Opens the evaluation of the grid over the viewport `range_x` by
    /// `range_y`, at its first pixel and with an empty buffer, or refuses a
    /// viewport with a degenerate axis.
    pub fn begin<'a>(&'a self, range_x: &Range, range_y: &Range) -> (r: Result<
        Evaluation<'a>,
        Error,
    >)
        ensures
            match r {
                Ok(e) => e@ == (EvaluationView {
                    config: self@,
                    x: 0,
                    y: 0,
                    data: Seq::empty(),
                }) && e@.wf(),
                Err(e) => e == Error::DegenerateViewport,
            },
            r.is_err() <==> range_x.spec_is_degenerate() || range_y.spec_is_degenerate(),
    {
        if range_x.is_degenerate() || range_y.is_degenerate() {
            Err(Error::DegenerateViewport)
        } else {
            let width: u32 = self.width();
            assert(0 * width + 0 == 0);
            Ok(Evaluation { config: self, x: 0, y: 0, data: Vec::new() })
        }
    }
}

impl Mandelbrot {
    /// Evaluates the whole grid from the point values of its pixels, given in
    /// row-major order: the buffer of their colours in the same order, or the
    /// failure that `spec_update` names. Nothing is returned of a grid that
    /// fails.
    pub fn update(&self, range_x: &Range, range_y: &Range, values: &Vec<u32>) -> (r: Result<
        Vec<u32>,
        Error,
    >)
        requires
            values@.len() == self@.pixels(),
        ensures
            outcome(r) == spec_update(self@, *range_x, *range_y, values@),
            match r {
                Ok(data) => {
                    &&& data@.len() == self@.width * self@.height
                    &&& forall|k: int|
                        0 <= k < data@.len() ==> {
                            &&& values@[k] < self@.palette.len()
                            &&& #[trigger] data@[k] == self@.palette[values@[k] as int]
                        }
                },
                Err(_) => true,
            },
    {
        let mut state: Evaluation = match self.begin(range_x, range_y) {
            Ok(e) => e,
            Err(e) => {
                return Err(e);
            },
        };
        let mut k: usize = 0;
        loop
            invariant
                values.len() == self@.pixels(),
                !range_x.spec_is_degenerate() && !range_y.spec_is_degenerate(),
                state@.wf(),
                state@.config == self@,
                state@.data.len() == k,
                state@.data =~= resolved(self@.palette, values@.take(k as int)),
                forall|j: int| 0 <= j < k ==> (#[trigger] values@[j]) < self@.palette.len(),
                first_unresolved(self@.palette, values@, 0) == first_unresolved(
                    self@.palette,
                    values@,
                    k as int,
                ),
            decreases values.len() - k,
        {
            proof {
                lemma_walk_is_inside(state@);
            }
            let value: u32 = values[k];
            match state.record(value) {
                Err(e) => {
                    return Err(e);
                },
                Ok(Progress::Complete(data)) => {
                    proof {
                        assert(k + 1 == values@.len());
                        assert(first_unresolved(self@.palette, values@, k + 1) == values@.len());
                        assert(first_unresolved(self@.palette, values@, k as int)
                            == values@.len());
                        assert(values@.take(k + 1) =~= values@);
                        assert(data@ =~= resolved(self@.palette, values@));
                    }
                    return Ok(data);
                },
                Ok(Progress::Pending(next)) => {
                    state = next;
                    k = k + 1;
                },
            }
        }
    }
}

/// A step of the walk that finds a palette entry keeps the walk well formed:
/// it adds that entry to the buffer and nothing else, and either awaits
/// another pixel of the same grid or ends with `width * height` colours, each
/// of them the palette's.
pub proof fn lemma_record_keeps_walk(walk: EvaluationView, value: u32)
    requires
        walk.wf(),
    ensures
        match walk.record(value) {
            Ok(ProgressView::Pending(next)) => {
                &&& next.wf()
                &&& next.config == walk.config
                &&& next.data == walk.data.push(walk.config.palette[value as int])
                &&& !walk.at_last_pixel()
            },
            Ok(ProgressView::Complete(data)) => {
                &&& data == walk.data.push(walk.config.palette[value as int])
                &&& data.len() == walk.config.width * walk.config.height
                &&& forall|k: int|
                    0 <= k < data.len() ==> walk.config.palette.contains(#[trigger] data[k])
                &&& walk.at_last_pixel()
            },
            Err(e) => e == Error::PaletteIndex(value) && value >= walk.config.palette.len(),
        },
        walk.record(value).is_ok() <==> value < walk.config.palette.len(),
{
    if value < walk.config.palette.len() {
        let w = walk.config.width as int;
        let y = walk.y as int;
        let data = walk.data.push(walk.config.palette[value as int]);
        assert((y + 1) * w == y * w + w) by (nonlinear_arith);
        assert(walk.config.palette.contains(walk.config.palette[value as int]));
        assert forall|k: int| 0 <= k < data.len() implies walk.config.palette.contains(
            #[trigger] data[k],
        ) by {
            if k < walk.data.len() {
                assert(data[k] == walk.data[k]);
            }
        }
        lemma_walk_is_inside(walk);
    }
}

/// A grid in the middle of its walk has fewer colours in its buffer than the
/// grid has pixels.
pub proof fn lemma_walk_is_inside(walk: EvaluationView)
    requires
        walk.wf(),
    ensures
        walk.data.len() < walk.config.pixels(),
        walk.at_last_pixel() <==> walk.data.len() + 1 == walk.config.pixels(),
{
    let w = walk.config.width as int;
    let h = walk.config.height as int;
    let x = walk.x as int;
    let y = walk.y as int;
    assert(y * w + w <= h * w) by (nonlinear_arith)
        requires
            0 <= y < h,
            w >= 1,
    ;
    assert(y + 1 < h ==> y * w + w + w <= h * w) by (nonlinear_arith)
        requires
            0 <= y < h,
            w >= 1,
    ;
    assert(y + 1 == h ==> y * w + w == h * w) by (nonlinear_arith);
    assert(w * h == h * w) by (nonlinear_arith);
}

/// Every point value from `from` on has a palette entry exactly where none
/// is found unresolved; one that is found has none.
pub proof fn lemma_first_unresolved(palette: Seq<u32>, values: Seq<u32>, from: int)
    requires
        0 <= from,
    ensures
        first_unresolved(palette, values, from) >= values.len() <==> (forall|k: int|
            from <= k < values.len() ==> (#[trigger] values[k]) < palette.len()),
        first_unresolved(palette, values, from) < values.len() ==> from <= first_unresolved(
            palette,
            values,
            from,
        ) && values[first_unresolved(palette, values, from)] >= palette.len(),
    decreases values.len() - from,
{
    if from < values.len() && values[from] < palette.len() {
        lemma_first_unresolved(palette, values, from + 1);
    }
}

/// Over a viewport that is not degenerate, the first point value in
/// row-major order that has no palette entry fails the evaluation, and the
/// failure carries that value.
pub proof fn lemma_missing_entry_fails(
    config: Configuration,
    range_x: Range,
    range_y: Range,
    values: Seq<u32>,
    k: int,
)
    requires
        !range_x.spec_is_degenerate(),
        !range_y.spec_is_degenerate(),
        0 <= k < values.len(),
        values[k] >= config.palette.len(),
        forall|j: int| 0 <= j < k ==> (#[trigger] values[j]) < config.palette.len(),
    ensures
        spec_update(config, range_x, range_y, values) == Err::<Seq<u32>, Error>(
            Error::PaletteIndex(values[k]),
        ),
{
    lemma_first_unresolved_skips(config.palette, values, 0, k);
}

proof fn lemma_first_unresolved_skips(palette: Seq<u32>, values: Seq<u32>, from: int, k: int)
    requires
        0 <= from <= k < values.len(),
        values[k] >= palette.len(),
        forall|j: int| 0 <= j < k ==> (#[trigger] values[j]) < palette.len(),
    ensures
        first_unresolved(palette, values, from) == k,
    decreases k - from,
{
    if from < k {
        assert(values[from] < palette.len());
        lemma_first_unresolved_skips(palette, values, from + 1, k);
    }
}

/// An evaluation that succeeds returns exactly `width * height` colours, each
/// of them an entry of the palette.
pub proof fn lemma_update_fills_grid(
    config: Configuration,
    range_x: Range,
    range_y: Range,
    values: Seq<u32>,
)
    requires
        config.wf(),
        values.len() == config.pixels(),
        spec_update(config, range_x, range_y, values).is_ok(),
    ensures
        ({
            let data = spec_update(config, range_x, range_y, values).unwrap();
            &&& data.len() == config.width * config.height
            &&& forall|k: int| 0 <= k < data.len() ==> config.palette.contains(#[trigger] data[k])
        }),
{
    lemma_first_unresolved(config.palette, values, 0);
    let data = spec_update(config, range_x, range_y, values).unwrap();
    assert forall|k: int| 0 <= k < data.len() implies config.palette.contains(
        #[trigger] data[k],
    ) by {
        assert(values[k] < config.palette.len());
        assert(data[k] == config.palette[values[k] as int]);
    }
}

/// Point values within the iteration budget always resolve: over a viewport
/// that is not degenerate the evaluation succeeds, and the colour of each
/// pixel is the palette entry at its point value, an index from 0 to
/// `iterations - 1`.
pub proof fn lemma_budgeted_values_resolve(
    config: Configuration,
    range_x: Range,
    range_y: Range,
    values: Seq<u32>,
)
    requires
        config.wf(),
        !range_x.spec_is_degenerate(),
        !range_y.spec_is_degenerate(),
        forall|k: int| 0 <= k < values.len() ==> (#[trigger] values[k]) < config.iterations,
    ensures
        spec_update(config, range_x, range_y, values) == Ok::<Seq<u32>, Error>(
            resolved(config.palette, values),
        ),
        forall|k: int|
            0 <= k < values.len() ==> {
                &&& 0 <= values[k] <= config.iterations - 1
                &&& #[trigger] resolved(config.palette, values)[k]
                    == config.palette[values[k] as int]
            },
{
    lemma_first_unresolved(config.palette, values, 0);
}

/// The point values of the pixels whose iterations have the moduli `traces`,
/// pixel by pixel.
pub open spec fn point_values(config: Configuration, traces: Seq<Seq<u64>>) -> Seq<u32> {
    Seq::new(
        traces.len(),
        |k: int| point_value(config.iterations, config.threshold, traces[k]) as u32,
    )
}

/// Whatever the moduli of the iterates are, a well-formed evaluator succeeds
/// over a viewport that is not degenerate: the buffer has `width * height`
/// entries, and the entry of each pixel is the palette's colour at that
/// pixel's point value, which lies between 0 and `iterations - 1`.
pub proof fn lemma_point_values_fill_grid(
    config: Configuration,
    range_x: Range,
    range_y: Range,
    traces: Seq<Seq<u64>>,
)
    requires
        config.wf(),
        !range_x.spec_is_degenerate(),
        !range_y.spec_is_degenerate(),
        traces.len() == config.pixels(),
    ensures
        spec_update(config, range_x, range_y, point_values(config, traces)) == Ok::<
            Seq<u32>,
            Error,
        >(resolved(config.palette, point_values(config, traces))),
        resolved(config.palette, point_values(config, traces)).len() == config.width
            * config.height,
        forall|k: int|
            0 <= k < traces.len() ==> 0 <= #[trigger] point_value(
                config.iterations,
                config.threshold,
                traces[k],
            ) <= config.iterations - 1,
        forall|k: int|
            0 <= k < traces.len() ==> {
                &&& #[trigger] resolved(config.palette, point_values(config, traces))[k]
                    == config.palette[point_value(
                    config.iterations,
                    config.threshold,
                    traces[k],
                )]
                &&& config.palette.contains(
                    resolved(config.palette, point_values(config, traces))[k],
                )
            },
{
    let values = point_values(config, traces);
    assert forall|k: int| 0 <= k < traces.len() implies 0 <= #[trigger] point_value(
        config.iterations,
        config.threshold,
        traces[k],
    ) <= config.iterations - 1 by {
        lemma_point_value_in_budget(config.iterations, config.threshold, traces[k]);
    }
    assert forall|k: int| 0 <= k < values.len() implies (#[trigger] values[k])
        < config.iterations by {
        assert(values[k] == point_value(config.iterations, config.threshold, traces[k]));
    }
    lemma_budgeted_values_resolve(config, range_x, range_y, values);
    assert forall|k: int| 0 <= k < traces.len() implies {
        &&& #[trigger] resolved(config.palette, values)[k] == config.palette[point_value(
            config.iterations,
            config.threshold,
            traces[k],
        )]
        &&& config.palette.contains(resolved(config.palette, values)[k])
    } by {
        assert(values[k] == point_value(config.iterations, config.threshold, traces[k]));
        assert(resolved(config.palette, values)[k] == config.palette[values[k] as int]);
    }
}

/// Evaluation is a function of its inputs: two evaluations of the same
/// configuration, viewport and point values give the same outcome.
pub proof fn lemma_update_is_deterministic(
    config: Configuration,
    range_x: Range,
    range_y: Range,
    values: Seq<u32>,
    first: Result<Vec<u32>, Error>,
    second: Result<Vec<u32>, Error>,
)
    requires
        outcome(first) == spec_update(config, range_x, range_y, values),
        outcome(second) == spec_update(config, range_x, range_y, values),
    ensures
        outcome(first) == outcome(second),
        first is Ok ==> second is Ok && first->Ok_0@ == second->Ok_0@,
        first is Err ==> second is Err && first->Err_0 == second->Err_0,
{
}

} // verus!
