use crate::data_blob::DataBlob;
use crate::error::CutError;
use uuid::Uuid;
use vstd::prelude::*;

verus! {

/// What a cut is: its identifier and name, and the one or two variables that
/// it looks at.
#[derive(Debug, Clone)]
pub struct CutSpec {
    pub id: Uuid,
    pub name: String,
    pub x_variable: String,
    pub y_variable: Option<String>,
}

/// A value is there and lies strictly between the two bounds.
pub open spec fn in_open_interval(low: i32, high: i32, value: Option<i32>) -> bool {
    match value {
        Some(x) => low < x && x < high,
        None => false,
    }
}

/// The cross product that places the point `(x, y)` against the edge that
/// leaves vertex `i`: zero on the line through the edge, and of one sign on
/// each side of it.
pub open spec fn edge_cross(xs: Seq<i32>, ys: Seq<i32>, i: int, x: i32, y: i32) -> int {
    (x - xs[i]) * (ys[i + 1] - ys[i]) - (xs[i + 1] - xs[i]) * (y - ys[i])
}

/// The even-odd walk over the edges from vertex `from` on, with `inside` the
/// parity so far. A point on a vertex or on the line through an edge ends the
/// walk as inside; any other edge flips the parity where the sign of its cross
/// product differs from the direction in which the edge runs in `y`.
pub open spec fn even_odd(
    xs: Seq<i32>,
    ys: Seq<i32>,
    x: i32,
    y: i32,
    from: int,
    inside: bool,
) -> bool
    decreases xs.len() - from,
{
    if from < 0 || from + 1 >= xs.len() {
        inside
    } else if x == xs[from] && y == ys[from] {
        true
    } else if edge_cross(xs, ys, from, x, y) == 0 {
        true
    } else if (edge_cross(xs, ys, from, x, y) < 0) != (ys[from + 1] < ys[from]) {
        even_odd(xs, ys, x, y, from + 1, !inside)
    } else {
        even_odd(xs, ys, x, y, from + 1, inside)
    }
}

/// Whether the closed polygon with these vertices holds the point `(x, y)`.
pub open spec fn polygon_contains(xs: Seq<i32>, ys: Seq<i32>, x: i32, y: i32) -> bool {
    even_odd(xs, ys, x, y, 0, false)
}

/// The product of two differences of 32-bit values.
fn product(a: i64, b: i64) -> (p: i128)
    requires
        -0x1_0000_0000 < a < 0x1_0000_0000,
        -0x1_0000_0000 < b < 0x1_0000_0000,
    ensures
        p == a * b,
        -0x1_0000_0000_0000_0000 < p < 0x1_0000_0000_0000_0000,
{
    proof {
        assert(-0x1_0000_0000_0000_0000 < a * b < 0x1_0000_0000_0000_0000) by (nonlinear_arith)
            requires
                -0x1_0000_0000 < a < 0x1_0000_0000,
                -0x1_0000_0000 < b < 0x1_0000_0000,
        ;
    }
    (a as i128) * (b as i128)
}

/// A cut on one variable: an open interval.
#[derive(Debug)]
pub struct Cut1D {
    pub spec: CutSpec,
    pub low: i32,
    pub high: i32,
    pub is_valid: bool,
}

impl Cut1D {
    /// The interval is not empty.
    pub open spec fn wf(&self) -> bool {
        self.low < self.high
    }

    /// What the cut says of a record.
    pub open spec fn accepts(&self, blob: &DataBlob) -> bool {
        in_open_interval(self.low, self.high, blob.lookup(self.spec.x_variable@))
    }

    /// The cut after it has judged a record.
    pub open spec fn evaluated(self, blob: &DataBlob) -> Self {
        Cut1D { is_valid: self.accepts(blob), ..self }
    }

    /// Makes the cut, which holds of no record yet, or says why the interval
    /// is refused.
    pub fn new(spec: CutSpec, low: i32, high: i32) -> (made: Result<Self, CutError>)
        ensures
            low >= high <==> made is Err,
            made matches Err(e) ==> e == CutError::Invalid1D(low, high),
            made matches Ok(cut) ==> cut.wf() && cut.spec == spec && cut.low == low && cut.high
                == high && !cut.is_valid,
    {
        if low > high || high == low {
            Err(CutError::Invalid1D(low, high))
        } else {
            Ok(Cut1D { spec, low, high, is_valid: false })
        }
    }

    /// Judges a record and keeps the verdict.
    pub fn is_inside(&mut self, blob: &DataBlob)
        ensures
            *final(self) == old(self).evaluated(blob),
    {
        self.is_valid = match blob.find(self.spec.x_variable.as_str()) {
            Some(x) => x > self.low && x < self.high,
            None => false,
        };
    }

    /// The verdict on the record judged last.
    pub fn is_valid(&self) -> (valid: bool)
        ensures
            valid == self.is_valid,
    {
        self.is_valid
    }

    /// Forgets the verdict.
    pub fn reset(&mut self)
        ensures
            *final(self) == (Cut1D { is_valid: false, ..*old(self) }),
    {
        self.is_valid = false;
    }

    /// The description of the cut.
    pub fn get_spec(&self) -> (spec: &CutSpec)
        ensures
            *spec == self.spec,
    {
        &self.spec
    }
}

/// A cut on two variables: a closed polygon.
#[derive(Debug)]
pub struct Cut2D {
    pub spec: CutSpec,
    pub x_values: Vec<i32>,
    pub y_values: Vec<i32>,
    pub is_valid: bool,
}

/// Why these vertices make no polygon cut, if they do not: `Invalid2D` without
/// a second variable, with lists of different lengths or with fewer than three
/// vertices; else `Unclosed2D` where the last vertex is not the first.
pub open spec fn polygon_fault(spec: CutSpec, xs: Seq<i32>, ys: Seq<i32>) -> Option<CutError> {
    if spec.y_variable is None || xs.len() != ys.len() || xs.len() < 3 {
        Some(CutError::Invalid2D)
    } else if xs[0] != xs.last() || ys[0] != ys.last() {
        Some(CutError::Unclosed2D)
    } else {
        None
    }
}

impl Cut2D {
    /// There is a second variable, and the vertices make a closed polygon.
    pub open spec fn wf(&self) -> bool {
        polygon_fault(self.spec, self.x_values@, self.y_values@) is None
    }

    /// What the cut says of a record: whether both variables are there and
    /// the polygon holds their point.
    pub open spec fn accepts(&self, blob: &DataBlob) -> bool {
        match self.spec.y_variable {
            Some(y_name) => match (blob.lookup(self.spec.x_variable@), blob.lookup(y_name@)) {
                (Some(x), Some(y)) => polygon_contains(self.x_values@, self.y_values@, x, y),
                _ => false,
            },
            None => false,
        }
    }

    /// The cut after it has judged a record.
    pub open spec fn evaluated(self, blob: &DataBlob) -> Self {
        Cut2D { is_valid: self.accepts(blob), ..self }
    }

    /// Makes the cut, which holds of no record yet, or says why the polygon
    /// is refused.
    pub fn new(spec: CutSpec, x_values: Vec<i32>, y_values: Vec<i32>) -> (made: Result<
        Self,
        CutError,
    >)
        ensures
            match polygon_fault(spec, x_values@, y_values@) {
                Some(e) => made == Err::<Self, CutError>(e),
                None => made matches Ok(cut) && cut.wf() && cut.spec == spec && cut.x_values
                    == x_values && cut.y_values == y_values && !cut.is_valid,
            },
    {
        let n: usize = x_values.len();
        if spec.y_variable.is_none() || n != y_values.len() || n < 3 {
            Err(CutError::Invalid2D)
        } else if x_values[0] != x_values[n - 1] || y_values[0] != y_values[n - 1] {
            Err(CutError::Unclosed2D)
        } else {
            Ok(Cut2D { spec, x_values, y_values, is_valid: false })
        }
    }

    /// The cross product of the point against the edge that leaves vertex `i`.
    fn cross(&self, i: usize, x: i32, y: i32) -> (c: i128)
        requires
            self.x_values.len() == self.y_values.len(),
            i + 1 < self.x_values.len(),
        ensures
            c == edge_cross(self.x_values@, self.y_values@, i as int, x, y),
    {
        let xi: i64 = self.x_values[i] as i64;
        let yi: i64 = self.y_values[i] as i64;
        let xj: i64 = self.x_values[i + 1] as i64;
        let yj: i64 = self.y_values[i + 1] as i64;
        product(x as i64 - xi, yj - yi) - product(xj - xi, y as i64 - yi)
    }

    /// Whether the polygon holds the point, by the even-odd rule.
    fn contains(&self, x: i32, y: i32) -> (inside: bool)
        requires
            self.x_values.len() == self.y_values.len(),
        ensures
            inside == polygon_contains(self.x_values@, self.y_values@, x, y),
    {
        let n: usize = self.x_values.len();
        let mut inside: bool = false;
        let mut idx: usize = 0;
        if n == 0 {
            return false;
        }
        while idx < n - 1
            invariant
                n >= 1,
                idx <= n - 1,
                n == self.x_values.len(),
                n == self.y_values.len(),
                polygon_contains(self.x_values@, self.y_values@, x, y) == even_odd(
                    self.x_values@,
                    self.y_values@,
                    x,
                    y,
                    idx as int,
                    inside,
                ),
            decreases n - idx,
        {
            if x == self.x_values[idx] && y == self.y_values[idx] {
                return true;
            }
            let slope: i128 = self.cross(idx, x, y);
            if slope == 0 {
                return true;
            } else if (slope < 0) != (self.y_values[idx + 1] < self.y_values[idx]) {
                inside = !inside;
            }
            idx = idx + 1;
        }
        inside
    }

    /// Judges a record and keeps the verdict.
    pub fn is_inside(&mut self, blob: &DataBlob)
        requires
            old(self).wf(),
        ensures
            *final(self) == old(self).evaluated(blob),
    {
        self.is_valid = false;
        if let Some(y_name) = &self.spec.y_variable {
            let x: i32 = match blob.find(self.spec.x_variable.as_str()) {
                Some(val) => val,
                None => {
                    return ;
                },
            };
            let y: i32 = match blob.find(y_name.as_str()) {
                Some(val) => val,
                None => {
                    return ;
                },
            };
            let inside: bool = self.contains(x, y);
            self.is_valid = inside;
        }
    }

    /// The verdict on the record judged last.
    pub fn is_valid(&self) -> (valid: bool)
        ensures
            valid == self.is_valid,
    {
        self.is_valid
    }

    /// Forgets the verdict.
    pub fn reset(&mut self)
        ensures
            *final(self) == (Cut2D { is_valid: false, ..*old(self) }),
    {
        self.is_valid = false;
    }

    /// The description of the cut.
    pub fn get_spec(&self) -> (spec: &CutSpec)
        ensures
            *spec == self.spec,
    {
        &self.spec
    }
}

/// A cut of either kind.
#[derive(Debug)]
pub enum Cut {
    Range(Cut1D),
    Polygon(Cut2D),
}

impl Cut {
    /// The geometry of the cut is in order.
    pub open spec fn wf(&self) -> bool {
        match self {
            Cut::Range(cut) => cut.wf(),
            Cut::Polygon(cut) => cut.wf(),
        }
    }

    /// The description of the cut.
    pub open spec fn descr(&self) -> CutSpec {
        match self {
            Cut::Range(cut) => cut.spec,
            Cut::Polygon(cut) => cut.spec,
        }
    }

    /// The verdict that the cut keeps.
    pub open spec fn holds(&self) -> bool {
        match self {
            Cut::Range(cut) => cut.is_valid,
            Cut::Polygon(cut) => cut.is_valid,
        }
    }

    /// What the cut says of a record.
    pub open spec fn accepts(&self, blob: &DataBlob) -> bool {
        match self {
            Cut::Range(cut) => cut.accepts(blob),
            Cut::Polygon(cut) => cut.accepts(blob),
        }
    }

    /// The cut after it has judged a record.
    pub open spec fn evaluated(self, blob: &DataBlob) -> Self {
        match self {
            Cut::Range(cut) => Cut::Range(cut.evaluated(blob)),
            Cut::Polygon(cut) => Cut::Polygon(cut.evaluated(blob)),
        }
    }

    /// The cut with its verdict forgotten.
    pub open spec fn cleared(self) -> Self {
        match self {
            Cut::Range(cut) => Cut::Range(Cut1D { is_valid: false, ..cut }),
            Cut::Polygon(cut) => Cut::Polygon(Cut2D { is_valid: false, ..cut }),
        }
    }

    /// Judges a record and keeps the verdict.
    pub fn is_inside(&mut self, blob: &DataBlob)
        requires
            old(self).wf(),
        ensures
            *final(self) == old(self).evaluated(blob),
    {
        match self {
            Cut::Range(cut) => cut.is_inside(blob),
            Cut::Polygon(cut) => cut.is_inside(blob),
        }
    }

    /// The verdict on the record judged last.
    pub fn is_valid(&self) -> (valid: bool)
        ensures
            valid == self.holds(),
    {
        match self {
            Cut::Range(cut) => cut.is_valid(),
            Cut::Polygon(cut) => cut.is_valid(),
        }
    }

    /// Forgets the verdict.
    pub fn reset(&mut self)
        ensures
            *final(self) == old(self).cleared(),
    {
        match self {
            Cut::Range(cut) => cut.reset(),
            Cut::Polygon(cut) => cut.reset(),
        }
    }

    /// The description of the cut.
    pub fn get_spec(&self) -> (spec: &CutSpec)
        ensures
            *spec == self.descr(),
    {
        match self {
            Cut::Range(cut) => cut.get_spec(),
            Cut::Polygon(cut) => cut.get_spec(),
        }
    }
}

/// The walk from `from` on ends as inside for a point that is the vertex `at`,
/// where the walk comes to the edge that leaves that vertex.
pub proof fn lemma_walk_meets_vertex(
    xs: Seq<i32>,
    ys: Seq<i32>,
    at: int,
    from: int,
    inside: bool,
)
    requires
        xs.len() == ys.len(),
        0 <= from <= at,
        at + 1 < xs.len(),
    ensures
        even_odd(xs, ys, xs[at], ys[at], from, inside),
    decreases at - from,
{
    if from < at {
        lemma_walk_meets_vertex(xs, ys, at, from + 1, inside);
        lemma_walk_meets_vertex(xs, ys, at, from + 1, !inside);
    }
}

/// A point on a vertex of a closed polygon is inside it.
pub proof fn lemma_vertex_is_inside(xs: Seq<i32>, ys: Seq<i32>, at: int)
    requires
        xs.len() == ys.len(),
        xs.len() >= 2,
        xs[0] == xs.last(),
        ys[0] == ys.last(),
        0 <= at < xs.len(),
    ensures
        polygon_contains(xs, ys, xs[at], ys[at]),
{
    if at + 1 < xs.len() {
        lemma_walk_meets_vertex(xs, ys, at, 0, false);
    } else {
        lemma_walk_meets_vertex(xs, ys, 0, 0, false);
    }
}

/// Judging is idempotent: a cut that has judged a record is not changed by
/// judging the same record again, and its verdict is what it says of the
/// record, whatever it held before.
pub proof fn lemma_evaluate_idempotent(cut: Cut, blob: &DataBlob)
    ensures
        cut.evaluated(blob).evaluated(blob) == cut.evaluated(blob),
        cut.evaluated(blob).holds() == cut.accepts(blob),
        cut.evaluated(blob).descr() == cut.descr(),
        cut.wf() ==> cut.evaluated(blob).wf(),
{
}

} // verus!
