use crate::error::HistogramError;
use uuid::Uuid;
use vstd::prelude::*;

verus! {

/// One binned dimension: a variable, a half-open range and a bin count.
#[derive(Debug, Clone, PartialEq)]
pub struct AxisSpec {
    pub variable: String,
    pub title: String,
    pub bins: usize,
    pub minimum: i32,
    pub maximum: i32,
}

impl AxisSpec {
    /// The range is not empty and there is at least one bin.
    pub open spec fn valid(&self) -> bool {
        self.minimum < self.maximum && self.bins >= 1
    }

    /// `value` lies in `[minimum, maximum)`.
    pub open spec fn in_range(&self, value: i32) -> bool {
        self.minimum <= value < self.maximum
    }

    /// The bin that `value` falls into: the whole part of its offset from the
    /// minimum, measured in bin widths. A bin is `(maximum - minimum) / bins`
    /// wide, a fraction in general, so the offset is multiplied by the number
    /// of bins before it is divided by the range.
    pub open spec fn bin_of(&self, value: i32) -> int {
        ((value - self.minimum) * self.bins) / (self.maximum - self.minimum)
    }

    /// Whether the axis is valid.
    pub fn is_valid(&self) -> (ok: bool)
        ensures
            ok == self.valid(),
    {
        self.minimum < self.maximum && self.bins >= 1
    }

    /// Makes an axis, or says why it cannot be made.
    pub fn new(variable: &str, title: &str, bins: usize, min: i32, max: i32) -> (made: Result<
        Self,
        HistogramError,
    >)
        ensures
            (min >= max || bins < 1) <==> made is Err,
            made matches Err(e) ==> (e matches HistogramError::BadAxis(t, b, lo, hi) && t@
                == title@ && b == bins && lo == min && hi == max),
            made matches Ok(axis) ==> axis.valid() && axis.variable@ == variable@ && axis.title@
                == title@ && axis.bins == bins && axis.minimum == min && axis.maximum == max,
    {
        if min >= max || bins < 1 {
            return Err(HistogramError::BadAxis(title.to_owned(), bins, min, max));
        }
        Ok(
            AxisSpec {
                variable: variable.to_owned(),
                title: title.to_owned(),
                bins,
                minimum: min,
                maximum: max,
            },
        )
    }

    /// The width of one bin, rounded down to a whole unit.
    pub fn get_bin_width(&self) -> (width: u64)
        requires
            self.valid(),
        ensures
            width == (self.maximum - self.minimum) / (self.bins as int),
    {
        let span: u64 = (self.maximum as i64 - self.minimum as i64) as u64;
        span / (self.bins as u64)
    }

    /// The bin of `value`, or `OutOfBounds` where the value is below the
    /// minimum or not below the maximum.
    pub fn get_bin(&self, value: i32) -> (bin: Result<usize, HistogramError>)
        requires
            self.valid(),
        ensures
            !self.in_range(value) ==> bin == Err::<usize, HistogramError>(
                HistogramError::OutOfBounds(self.minimum, self.maximum, value),
            ),
            self.in_range(value) ==> bin == Ok::<usize, HistogramError>(
                self.bin_of(value) as usize,
            ) && 0 <= self.bin_of(value) < self.bins,
    {
        if value < self.minimum || value >= self.maximum {
            return Err(HistogramError::OutOfBounds(self.minimum, self.maximum, value));
        }
        let offset: u128 = (value as i64 - self.minimum as i64) as u128;
        let span: u128 = (self.maximum as i64 - self.minimum as i64) as u128;
        let count: u128 = self.bins as u128;
        proof {
            lemma_scaled_quotient(offset as int, span as int, count as int);
            assert(offset * count <= 0xFFFF_FFFF * 0xFFFF_FFFF_FFFF_FFFF) by (nonlinear_arith)
                requires
                    0 <= offset <= 0xFFFF_FFFF,
                    0 <= count <= 0xFFFF_FFFF_FFFF_FFFF,
            ;
        }
        let bin: u128 = (offset * count) / span;
        Ok(bin as usize)
    }
}

/// What a histogram is: its identifier and labels, one or two axes, the cuts
/// that are drawn on it and the cuts that gate its filling.
///
/// The two lists are kept apart. `cuts_to_check` holds the gating cuts; the
/// caller lists them here before the histogram is registered. `cuts_to_draw`
/// is for display only and gates nothing; the registry adds to it each cut
/// that is made for the histogram.
#[derive(Debug, Clone, PartialEq)]
pub struct HistSpec {
    pub id: Uuid,
    pub name: String,
    pub title: String,
    pub x_axis: AxisSpec,
    pub y_axis: Option<AxisSpec>,
    pub cuts_to_draw: Vec<Uuid>,
    pub cuts_to_check: Vec<Uuid>,
}

impl HistSpec {
    /// Every axis is valid.
    pub open spec fn valid(&self) -> bool {
        self.x_axis.valid() && (self.y_axis matches Some(y_axis) ==> y_axis.valid())
    }

    /// The number of counters: one per bin, or one per pair of bins.
    pub open spec fn size(&self) -> int {
        match self.y_axis {
            None => self.x_axis.bins as int,
            Some(y_axis) => self.x_axis.bins * y_axis.bins,
        }
    }

    /// A histogram can be made: every axis is valid, and the counters can be
    /// numbered.
    pub open spec fn well_formed(&self) -> bool {
        self.valid() && self.size() <= usize::MAX
    }

    /// Whether a histogram can be made.
    pub fn is_well_formed(&self) -> (ok: bool)
        ensures
            ok == self.well_formed(),
    {
        if !self.x_axis.is_valid() {
            return false;
        }
        match &self.y_axis {
            None => true,
            Some(y_axis) => y_axis.is_valid() && self.x_axis.bins.checked_mul(
                y_axis.bins,
            ).is_some(),
        }
    }

    /// What a fill with these values comes to: the counter it raises, or the
    /// reason why it raises none. The first coordinate is judged first, then
    /// the number of coordinates, then the second coordinate. The counter of a
    /// pair of bins is the product of the two bins.
    pub open spec fn fill_outcome(&self, x_value: i32, y_value: Option<i32>) -> Result<
        int,
        HistogramError,
    > {
        if !self.x_axis.in_range(x_value) {
            Err(HistogramError::OutOfBounds(self.x_axis.minimum, self.x_axis.maximum, x_value))
        } else {
            match (y_value, self.y_axis) {
                (Some(y), Some(y_axis)) => if !y_axis.in_range(y) {
                    Err(HistogramError::OutOfBounds(y_axis.minimum, y_axis.maximum, y))
                } else {
                    Ok(self.x_axis.bin_of(x_value) * y_axis.bin_of(y))
                },
                (None, None) => Ok(self.x_axis.bin_of(x_value)),
                _ => Err(HistogramError::WrongDimensions),
            }
        }
    }
}

/// A counter raised by one; a full counter stays full.
pub open spec fn bumped(count: u16) -> u16 {
    if count < u16::MAX {
        (count + 1) as u16
    } else {
        count
    }
}

/// A histogram: its description and one counter per bin.
#[derive(Debug)]
pub struct Histogram {
    pub spec: HistSpec,
    pub data: Vec<u16>,
}

impl Histogram {
    /// The description is valid and there are as many counters as it asks for.
    pub open spec fn wf(&self) -> bool {
        self.spec.valid() && self.data@.len() == self.spec.size()
    }

    /// The counters after a fill with these values.
    pub open spec fn counts_after_fill(&self, x_value: i32, y_value: Option<i32>) -> Seq<u16> {
        match self.spec.fill_outcome(x_value, y_value) {
            Ok(bin) => self.data@.update(bin, bumped(self.data@[bin])),
            Err(_) => self.data@,
        }
    }

    /// An empty histogram for `spec`.
    pub fn new(spec: HistSpec) -> (made: Self)
        requires
            spec.size() <= usize::MAX,
        ensures
            made.spec == spec,
            made.data@ == Seq::new(spec.size() as nat, |i: int| 0u16),
            spec.valid() ==> made.wf(),
    {
        let size: usize = match &spec.y_axis {
            None => spec.x_axis.bins,
            Some(y_axis) => spec.x_axis.bins * y_axis.bins,
        };
        let mut data: Vec<u16> = Vec::new();
        let mut i: usize = 0;
        while i < size
            invariant
                i <= size,
                data@ == Seq::new(i as nat, |k: int| 0u16),
            decreases size - i,
        {
            data.push(0u16);
            i = i + 1;
            proof {
                assert(data@ =~= Seq::new(i as nat, |k: int| 0u16));
            }
        }
        Histogram { spec, data }
    }

    /// Counts one event: raises the counter of the bin that the values fall
    /// into and returns its index. On an error nothing is counted.
    pub fn fill(&mut self, x_value: i32, y_value: Option<i32>) -> (filled: Result<
        usize,
        HistogramError,
    >)
        requires
            old(self).wf(),
        ensures
            final(self).wf(),
            final(self).spec == old(self).spec,
            final(self).data@ == old(self).counts_after_fill(x_value, y_value),
            match old(self).spec.fill_outcome(x_value, y_value) {
                Ok(bin) => filled == Ok::<usize, HistogramError>(bin as usize) && 0 <= bin
                    < old(self).data@.len(),
                Err(e) => filled == Err::<usize, HistogramError>(e),
            },
    {
        let x_bin: usize = match self.spec.x_axis.get_bin(x_value) {
            Ok(bin) => bin,
            Err(e) => {
                return Err(e);
            },
        };
        let bin: usize = match y_value {
            Some(y) => match &self.spec.y_axis {
                None => {
                    return Err(HistogramError::WrongDimensions);
                },
                Some(y_axis) => {
                    let y_bin: usize = match y_axis.get_bin(y) {
                        Ok(bin) => bin,
                        Err(e) => {
                            return Err(e);
                        },
                    };
                    proof {
                        lemma_product_below(
                            x_bin as int,
                            y_bin as int,
                            self.spec.x_axis.bins as int,
                            y_axis.bins as int,
                        );
                        assert(self.spec.y_axis == Some(*y_axis));
                        assert(self.spec.size() == self.spec.x_axis.bins * y_axis.bins);
                        assert(x_bin * y_bin < self.data.len());
                    }
                    x_bin * y_bin
                },
            },
            None => {
                if self.spec.y_axis.is_some() {
                    return Err(HistogramError::WrongDimensions);
                }
                x_bin
            },
        };
        let count: u16 = self.data[bin];
        if count < u16::MAX {
            self.data.set(bin, count + 1);
        }
        proof {
            assert(self.data@ =~= old(self).counts_after_fill(x_value, y_value));
        }
        Ok(bin)
    }
}

/// The product of two indices lies below the product of their bounds.
pub proof fn lemma_product_below(a: int, b: int, m: int, n: int)
    requires
        0 <= a < m,
        0 <= b < n,
    ensures
        0 <= a * b < m * n,
{
    assert(0 <= a * b < m * n) by (nonlinear_arith)
        requires
            0 <= a < m,
            0 <= b < n,
    ;
}

/// The minimum of a valid axis is in range and falls into the first bin.
pub proof fn lemma_minimum_in_first_bin(axis: AxisSpec)
    requires
        axis.valid(),
    ensures
        axis.in_range(axis.minimum),
        axis.bin_of(axis.minimum) == 0,
{
    assert((0 * axis.bins) / (axis.maximum - axis.minimum) == 0) by (nonlinear_arith)
        requires
            axis.maximum - axis.minimum > 0,
    ;
}

/// On a valid axis with no more bins than units in its range, the last unit
/// below the maximum is in range and falls into the last bin.
pub proof fn lemma_last_unit_in_last_bin(axis: AxisSpec)
    requires
        axis.valid(),
        axis.bins <= axis.maximum - axis.minimum,
    ensures
        axis.in_range((axis.maximum - 1) as i32),
        axis.bin_of((axis.maximum - 1) as i32) == axis.bins - 1,
{
    let span: int = axis.maximum - axis.minimum;
    let count: int = axis.bins as int;
    assert((span - 1) * count == (count - 1) * span + (span - count)) by (nonlinear_arith);
    vstd::arithmetic::div_mod::lemma_fundamental_div_mod_converse(
        (span - 1) * count,
        span,
        count - 1,
        span - count,
    );
}

/// The range of an axis is half open: the maximum itself, and every value
/// below the minimum, is out of range, and `get_bin` then fails.
pub proof fn lemma_range_is_half_open(axis: AxisSpec, value: i32)
    requires
        axis.valid(),
    ensures
        !axis.in_range(axis.maximum),
        value < axis.minimum ==> !axis.in_range(value),
{
}

/// A part of a whole, scaled by `count`, is worth fewer than `count` wholes.
pub proof fn lemma_scaled_quotient(offset: int, span: int, count: int)
    requires
        0 <= offset < span,
        0 <= count,
    ensures
        0 <= offset * count <= span * count,
        0 <= (offset * count) / span,
        count >= 1 ==> (offset * count) / span < count,
{
    assert(0 <= offset * count <= span * count) by (nonlinear_arith)
        requires
            0 <= offset < span,
            0 <= count,
    ;
    assert(0 <= (offset * count) / span) by (nonlinear_arith)
        requires
            0 <= offset * count,
            0 < span,
    ;
    if count >= 1 {
        assert(offset * count < span * count) by (nonlinear_arith)
            requires
                0 <= offset < span,
                1 <= count,
        ;
        vstd::arithmetic::div_mod::lemma_multiply_divide_lt(offset * count, span, count);
    }
}

} // verus!
