//! Layout and figures of the benchmark charts, as far as whole numbers go.
use vstd::prelude::*;

verus! {

/// A chart's size and the margins around its plot, in pixels.
#[derive(Clone, Copy, Debug, PartialEq, Eq, Structural)]
pub struct ChartFrame {
    /// Width of the chart.
    pub width: i32,
    /// Height of the chart.
    pub height: i32,
    /// Space to the left of the plot.
    pub margin_left: i32,
    /// Space to the right of the plot.
    pub margin_right: i32,
    /// Space above the plot, for title and legend.
    pub margin_top: i32,
    /// Space below the plot.
    pub margin_bottom: i32,
    /// How far the legend begins to the left of the right margin.
    pub legend_width: i32,
}

/// Number of steps between the gridlines.
pub const GRID_STEPS: i32 = 5;

impl ChartFrame {
    /// The margins leave room for a plot, and nothing is too large to draw.
    pub open spec fn well_formed(self) -> bool {
        &&& 0 <= self.margin_left
        &&& 0 <= self.margin_right
        &&& 0 <= self.margin_top
        &&& 0 <= self.margin_bottom
        &&& 0 <= self.legend_width
        &&& self.margin_left + self.margin_right + self.legend_width <= self.width <= 1_000_000
        &&& self.margin_top + self.margin_bottom <= self.height <= 1_000_000
    }

    /// Frame of the throughput chart.
    pub fn throughput() -> (frame: Self)
        ensures
            frame == (ChartFrame {
                width: 800,
                height: 480,
                margin_left: 80,
                margin_right: 40,
                margin_top: 80,
                margin_bottom: 70,
                legend_width: 190,
            }),
            frame.well_formed(),
    {
        ChartFrame {
            width: 800,
            height: 480,
            margin_left: 80,
            margin_right: 40,
            margin_top: 80,
            margin_bottom: 70,
            legend_width: 190,
        }
    }

    /// Frame of the chart of HTTP round-trips.
    pub fn calls() -> (frame: Self)
        ensures
            frame == (ChartFrame {
                width: 800,
                height: 430,
                margin_left: 80,
                margin_right: 40,
                margin_top: 60,
                margin_bottom: 70,
                legend_width: 200,
            }),
            frame.well_formed(),
    {
        ChartFrame {
            width: 800,
            height: 430,
            margin_left: 80,
            margin_right: 40,
            margin_top: 60,
            margin_bottom: 70,
            legend_width: 200,
        }
    }

    /// Width of the plot.
    pub open spec fn plot_columns(self) -> int {
        self.width - self.margin_left - self.margin_right
    }

    /// Height of the plot.
    pub open spec fn plot_rows(self) -> int {
        self.height - self.margin_top - self.margin_bottom
    }

    /// Width of the plot.
    pub fn plot_width(&self) -> (w: i32)
        requires
            self.well_formed(),
        ensures
            w == self.plot_columns(),
    {
        self.width - self.margin_left - self.margin_right
    }

    /// Height of the plot.
    pub fn plot_height(&self) -> (h: i32)
        requires
            self.well_formed(),
        ensures
            h == self.plot_rows(),
    {
        self.height - self.margin_top - self.margin_bottom
    }

    /// Right edge of the plot.
    pub fn plot_right(&self) -> (x: i32)
        requires
            self.well_formed(),
        ensures
            x == self.margin_left + self.plot_columns(),
    {
        self.width - self.margin_right
    }

    /// Lower edge of the plot.
    pub fn plot_bottom(&self) -> (y: i32)
        requires
            self.well_formed(),
        ensures
            y == self.margin_top + self.plot_rows(),
    {
        self.height - self.margin_bottom
    }

    /// Middle of the chart from left to right, where titles stand.
    pub fn title_x(&self) -> (x: i32)
        requires
            self.well_formed(),
        ensures
            x == self.width / 2,
    {
        self.width / 2
    }

    /// Middle of the plot from left to right, where the title of the lower axis stands.
    pub fn axis_x(&self) -> (x: i32)
        requires
            self.well_formed(),
        ensures
            x == self.margin_left + self.plot_columns() / 2,
    {
        self.margin_left + self.plot_width() / 2
    }

    /// Middle of the plot from top to bottom, where the title of the left axis stands.
    pub fn axis_y(&self) -> (y: i32)
        requires
            self.well_formed(),
        ensures
            y == self.margin_top + self.plot_rows() / 2,
    {
        self.margin_top + self.plot_height() / 2
    }

    /// Left edge of the legend.
    pub fn legend_x(&self) -> (x: i32)
        requires
            self.well_formed(),
        ensures
            x == self.width - self.margin_right - self.legend_width,
    {
        self.width - self.margin_right - self.legend_width
    }

    /// Height of the gridline `step`, counted from the lower edge of the plot upwards: the plot is
    /// divided evenly, to whole pixels.
    pub fn gridline_y(&self, step: i32) -> (y: i32)
        requires
            self.well_formed(),
            0 <= step <= GRID_STEPS,
        ensures
            y == self.margin_top + self.plot_rows() - self.plot_rows() * step / GRID_STEPS as int,
    {
        let rows: i32 = self.plot_height();
        assert(0 <= rows * step <= 5_000_000) by (nonlinear_arith)
            requires
                0 <= rows <= 1_000_000,
                0 <= step <= 5,
        ;
        self.margin_top + rows - rows * step / GRID_STEPS
    }
}

/// The gridlines of a plot run from its lower to its upper edge, none below the one before it.
pub proof fn law_gridlines_span_plot(frame: ChartFrame, step: int)
    requires
        frame.well_formed(),
        0 <= step < GRID_STEPS,
    ensures
        frame.plot_rows() * 0 / GRID_STEPS as int == 0,
        frame.plot_rows() * GRID_STEPS / GRID_STEPS as int == frame.plot_rows(),
        frame.plot_rows() * step / GRID_STEPS as int <= frame.plot_rows() * (step + 1)
            / GRID_STEPS as int,
{
    let rows = frame.plot_rows();
    assert(rows * (step + 1) == rows * step + rows) by (nonlinear_arith);
}

/// Sum of the counts.
pub open spec fn total(counts: Seq<usize>) -> nat
    decreases counts.len(),
{
    if counts.len() == 0 {
        0
    } else {
        total(counts.drop_last()) + counts.last() as nat
    }
}

/// A prefix has no larger sum.
proof fn lemma_total_of_prefix(counts: Seq<usize>, n: int)
    requires
        0 <= n <= counts.len(),
    ensures
        total(counts.take(n)) <= total(counts),
    decreases counts.len(),
{
    if n == counts.len() {
        assert(counts.take(n) =~= counts);
    } else {
        lemma_total_of_prefix(counts.drop_last(), n);
        assert(counts.drop_last().take(n) =~= counts.take(n));
    }
}

/// Average number of calls over the iterations of a benchmark, in whole calls.
pub fn mean_calls(counts: &Vec<usize>) -> (mean: usize)
    requires
        counts@.len() > 0,
        total(counts@) <= usize::MAX,
    ensures
        mean as nat == total(counts@) / counts@.len(),
{
    let mut sum: usize = 0;
    let mut i: usize = 0;
    while i < counts.len()
        invariant
            i <= counts.len(),
            sum == total(counts@.take(i as int)),
            total(counts@) <= usize::MAX,
        decreases counts.len() - i,
    {
        proof {
            lemma_total_of_prefix(counts@, i + 1);
            assert(counts@.take(i + 1).drop_last() =~= counts@.take(i as int));
        }
        sum = sum + counts[i];
        i += 1;
    }
    proof {
        assert(counts@.take(i as int) =~= counts@);
    }
    sum / counts.len()
}

/// The largest of the counts, on which the chart is scaled; 1 when there are none.
pub fn most_calls(counts: &Vec<usize>) -> (most: usize)
    ensures
        counts@.len() == 0 ==> most == 1,
        counts@.len() > 0 ==> counts@.contains(most) && forall|i: int|
            0 <= i < counts@.len() ==> (#[trigger] counts@[i]) <= most,
{
    if counts.len() == 0 {
        return 1;
    }
    let mut most: usize = counts[0];
    let mut i: usize = 1;
    while i < counts.len()
        invariant
            1 <= i <= counts.len(),
            counts@.contains(most),
            forall|k: int| 0 <= k < i ==> (#[trigger] counts@[k]) <= most,
        decreases counts.len() - i,
    {
        if counts[i] > most {
            most = counts[i];
        }
        i += 1;
    }
    most
}

/// Plot and margins fill the chart.
pub proof fn law_plot_and_margins_fill_the_chart(frame: ChartFrame)
    ensures
        frame.margin_left + frame.plot_columns() + frame.margin_right == frame.width,
        frame.margin_top + frame.plot_rows() + frame.margin_bottom == frame.height,
{
}

/// Each count adds itself to the sum; without counts it is zero.
pub proof fn law_counts_add_up(counts: Seq<usize>, count: usize)
    ensures
        total(Seq::empty()) == 0,
        total(counts.push(count)) == total(counts) + count,
{
    assert(counts.push(count).drop_last() =~= counts);
}

} // verus!
