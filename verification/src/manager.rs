use crate::cut::{polygon_fault, Cut, Cut1D, Cut2D, CutSpec};
use crate::data_blob::DataBlob;
use crate::error::{CutError, HistogramError, ResourceError};
use crate::gating::{counts_after_update, fill_report, passes_cuts};
use crate::histogram::{HistSpec, Histogram};
use crate::index::{
    index_entries, index_get, index_insert, index_new, index_remove, lemma_places_pushed, places,
};
use crate::lookup::{
    cut_ids, cut_of, distinct_cuts, distinct_grams, gram_ids, gram_of, lemma_cut_at,
    lemma_cut_pushed, lemma_cut_replaced, lemma_cuts_in_step, lemma_gram_at, lemma_gram_pushed,
    lemma_gram_removed, lemma_gram_replaced, lemma_grams_in_step,
};
use rustc_hash::FxHashMap;
use uuid::Uuid;
use vstd::prelude::*;

verus! {

/// The histogram `after` is `before` with the cut called `cut_id` added to
/// the cuts that are drawn on it, and nothing else changed.
pub open spec fn drawn_on(before: Histogram, after: Histogram, cut_id: Uuid) -> bool {
    &&& after.data == before.data
    &&& after.spec.id == before.spec.id
    &&& after.spec.name == before.spec.name
    &&& after.spec.title == before.spec.title
    &&& after.spec.x_axis == before.spec.x_axis
    &&& after.spec.y_axis == before.spec.y_axis
    &&& after.spec.cuts_to_check == before.spec.cuts_to_check
    &&& after.spec.cuts_to_draw@ == before.spec.cuts_to_draw@.push(cut_id)
}

/// What registering `spec` makes of a registry: an empty histogram for `spec`
/// under its identifier, and every other identifier as it was.
pub open spec fn histogram_added(before: ResourceManager, after: ResourceManager, spec: HistSpec) -> bool {
    &&& after.histogram(spec.id) matches Some(gram) && gram.spec == spec && gram.data@ == Seq::new(
        spec.size() as nat,
        |i: int| 0u16,
    )
    &&& forall|other: Uuid|
        other != spec.id ==> after.histogram(other) == before.histogram(other)
    &&& after.cut_list() == before.cut_list()
}

/// What taking the histogram called `id` out makes of a registry: nothing
/// under `id`, and every other identifier as it was.
pub open spec fn histogram_removed(before: ResourceManager, after: ResourceManager, id: Uuid) -> bool {
    &&& after.histogram(id) is None
    &&& forall|other: Uuid| other != id ==> after.histogram(other) == before.histogram(other)
    &&& after.cut_list() == before.cut_list()
}

/// Of two histograms registered one after the other, taking the first out
/// leaves the second in reach, with its description as it was registered.
pub proof fn lemma_removal_spares_the_other(
    start: ResourceManager,
    one: ResourceManager,
    two: ResourceManager,
    end: ResourceManager,
    first: HistSpec,
    second: HistSpec,
)
    requires
        first.id != second.id,
        histogram_added(start, one, first),
        histogram_added(one, two, second),
        histogram_removed(two, end, first.id),
    ensures
        two.histogram(first.id) matches Some(gram) && gram.spec == first,
        end.histogram(first.id) is None,
        end.histogram(second.id) matches Some(gram) && gram.spec == second,
{
}

/// The registry: every histogram and every cut, each found under its
/// identifier through an index.
#[derive(Debug)]
pub struct ResourceManager {
    histograms: Vec<Histogram>,
    gram_index: FxHashMap<Uuid, usize>,
    cuts: Vec<Cut>,
    cut_index: FxHashMap<Uuid, usize>,
}

impl ResourceManager {
    /// The histograms, in the order in which they were registered.
    pub closed spec fn grams(&self) -> Seq<Histogram> {
        self.histograms@
    }

    /// The cuts, in the order in which they were registered.
    pub closed spec fn cut_list(&self) -> Seq<Cut> {
        self.cuts@
    }

    /// The two indexes give every histogram and every cut its place.
    pub closed spec fn indexed(&self) -> bool {
        &&& places(index_entries(self.gram_index), gram_ids(self.histograms@))
        &&& places(index_entries(self.cut_index), cut_ids(self.cuts@))
    }

    /// Identifiers are unique, and every histogram and cut is in order.
    pub open spec fn wf(&self) -> bool {
        &&& self.indexed()
        &&& distinct_grams(self.grams())
        &&& distinct_cuts(self.cut_list())
        &&& forall|i: int| 0 <= i < self.grams().len() ==> (#[trigger] self.grams()[i]).wf()
        &&& forall|i: int| 0 <= i < self.cut_list().len() ==> (#[trigger] self.cut_list()[i]).wf()
    }

    /// The histogram registered under `id`, if any.
    pub open spec fn histogram(&self, id: Uuid) -> Option<Histogram> {
        gram_of(self.grams(), id)
    }

    /// The cut registered under `id`, if any.
    pub open spec fn cut(&self, id: Uuid) -> Option<Cut> {
        cut_of(self.cut_list(), id)
    }

    /// An empty registry.
    pub fn new() -> (made: Self)
        ensures
            made.wf(),
            made.grams().len() == 0,
            made.cut_list().len() == 0,
            forall|id: Uuid| made.histogram(id) is None && made.cut(id) is None,
    {
        ResourceManager {
            histograms: Vec::new(),
            gram_index: index_new(),
            cuts: Vec::new(),
            cut_index: index_new(),
        }
    }

    /// How many histograms are registered.
    pub fn histogram_count(&self) -> (count: usize)
        ensures
            count == self.grams().len(),
    {
        self.histograms.len()
    }

    /// Where the histogram called `id` stands.
    fn find_histogram(&self, id: &Uuid) -> (at: Option<usize>)
        requires
            self.indexed(),
        ensures
            match at {
                Some(i) => i < self.grams().len() && self.grams()[i as int].spec.id == *id,
                None => forall|i: int|
                    0 <= i < self.grams().len() ==> (#[trigger] self.grams()[i]).spec.id != *id,
            },
    {
        let at = index_get(&self.gram_index, id);
        proof {
            let ids = gram_ids(self.histograms@);
            if at is None {
                assert forall|i: int| 0 <= i < self.histograms@.len() implies (
                #[trigger] self.histograms@[i]).spec.id != *id by {
                    assert(ids[i] == self.histograms@[i].spec.id);
                }
            }
        }
        at
    }

    /// Where the cut called `id` stands.
    fn find_cut(&self, id: &Uuid) -> (at: Option<usize>)
        requires
            self.indexed(),
        ensures
            match at {
                Some(i) => i < self.cut_list().len() && self.cut_list()[i as int].descr().id
                    == *id,
                None => forall|i: int|
                    0 <= i < self.cut_list().len() ==> (#[trigger] self.cut_list()[i]).descr().id
                        != *id,
            },
    {
        let at = index_get(&self.cut_index, id);
        proof {
            let ids = cut_ids(self.cuts@);
            if at is None {
                assert forall|i: int| 0 <= i < self.cuts@.len() implies (
                #[trigger] self.cuts@[i]).descr().id != *id by {
                    assert(ids[i] == self.cuts@[i].descr().id);
                }
            }
        }
        at
    }

    /// Registers an empty histogram for `spec`, in place of any histogram
    /// that had its identifier. A malformed `spec` is not registered, and the
    /// registry stays as it was. Returns the number of histograms less one,
    /// or zero where there is none.
    pub fn add_histogram(&mut self, spec: HistSpec) -> (last: usize)
        requires
            old(self).wf(),
        ensures
            final(self).wf(),
            final(self).cut_list() == old(self).cut_list(),
            !spec.well_formed() ==> final(self).grams() == old(self).grams(),
            spec.well_formed() ==> histogram_added(*old(self), *final(self), spec),
            spec.well_formed() ==> final(self).grams().len() == old(self).grams().len() + (if old(
                self,
            ).histogram(spec.id) is None {
                1int
            } else {
                0int
            }),
            last == (if final(self).grams().len() == 0 {
                0int
            } else {
                final(self).grams().len() - 1
            }),
    {
        if !spec.is_well_formed() {
            return if self.histograms.len() == 0 {
                0
            } else {
                self.histograms.len() - 1
            };
        }
        let id: Uuid = spec.id;
        let at = self.find_histogram(&id);
        let gram = Histogram::new(spec);
        match at {
            Some(i) => {
                self.histograms.set(i, gram);
                proof {
                    lemma_gram_replaced(old(self).grams(), i as int, gram);
                }
            },
            None => {
                let n: usize = self.histograms.len();
                self.histograms.push(gram);
                index_insert(&mut self.gram_index, id, n);
                proof {
                    lemma_gram_pushed(old(self).grams(), gram);
                    lemma_places_pushed(
                        index_entries(old(self).gram_index),
                        gram_ids(old(self).grams()),
                        id,
                        n,
                    );
                }
            },
        }
        self.histograms.len() - 1
    }

    /// Takes the histogram called `id` out of the registry.
    pub fn remove_histogram(&mut self, id: &Uuid) -> (done: Result<(), ResourceError>)
        requires
            old(self).wf(),
        ensures
            final(self).wf(),
            histogram_removed(*old(self), *final(self), *id),
            match old(self).histogram(*id) {
                Some(_) => done is Ok && final(self).grams().len() == old(self).grams().len() - 1,
                None => done == Err::<(), ResourceError>(ResourceError::InvalidHistogramID(*id))
                    && final(self).grams() == old(self).grams(),
            },
    {
        match self.find_histogram(id) {
            None => Err(ResourceError::InvalidHistogramID(*id)),
            Some(i) => {
                let _ = self.histograms.remove(i);
                index_remove(&mut self.gram_index, id);
                proof {
                    lemma_gram_removed(old(self).grams(), i as int);
                    let before = old(self).histograms@;
                    let after = self.histograms@;
                    let index = index_entries(self.gram_index);
                    let ids = gram_ids(before);
                    assert forall|p: int| 0 <= p < after.len() implies index.contains_key(
                        (#[trigger] after[p]).spec.id,
                    ) && index[after[p].spec.id] == (if p < i {
                        p
                    } else {
                        p + 1
                    }) by {
                        let q = if p < i { p } else { p + 1 };
                        assert(after[p] == before[q]);
                        assert(ids[q] == before[q].spec.id);
                        assert(before[q].spec.id != before[i as int].spec.id);
                    }
                    assert forall|other: Uuid| #[trigger]
                        index.contains_key(other) implies exists|p: int|
                        0 <= p < after.len() && (#[trigger] after[p]).spec.id == other by {
                        let q = index_entries(old(self).gram_index)[other] as int;
                        assert(ids[q] == other);
                        assert(before[q].spec.id == other);
                        let p = if q < i { q } else { q - 1 };
                        assert(after[p] == before[q]);
                    }
                }
                // Every histogram behind the gap has moved one place down, and
                // the index follows.
                let n: usize = self.histograms.len();
                let mut k: usize = i;
                while k < n
                    invariant
                        i <= k <= n,
                        n == self.histograms@.len(),
                        self.histograms@ == old(self).histograms@.remove(i as int),
                        self.cuts@ == old(self).cuts@,
                        self.cut_index == old(self).cut_index,
                        distinct_grams(self.histograms@),
                        forall|p: int|
                            0 <= p < n ==> index_entries(self.gram_index).contains_key(
                                (#[trigger] self.histograms@[p]).spec.id,
                            ) && index_entries(self.gram_index)[self.histograms@[p].spec.id] == (
                            if p < k {
                                p
                            } else {
                                p + 1
                            }),
                        forall|other: Uuid| #[trigger]
                            index_entries(self.gram_index).contains_key(other) ==> exists|p: int|
                                0 <= p < n && (#[trigger] self.histograms@[p]).spec.id == other,
                    decreases n - k,
                {
                    let ghost index_before = index_entries(self.gram_index);
                    index_insert(&mut self.gram_index, self.histograms[k].spec.id, k);
                    proof {
                        let grams = self.histograms@;
                        let index = index_entries(self.gram_index);
                        assert forall|p: int| 0 <= p < n implies index.contains_key(
                            (#[trigger] grams[p]).spec.id,
                        ) && index[grams[p].spec.id] == (if p < k + 1 {
                            p
                        } else {
                            p + 1
                        }) by {
                            if p != k {
                                assert(grams[p].spec.id != grams[k as int].spec.id);
                            }
                        }
                        assert forall|other: Uuid| #[trigger]
                            index.contains_key(other) implies exists|p: int|
                            0 <= p < n && (#[trigger] grams[p]).spec.id == other by {
                            if other != grams[k as int].spec.id {
                                assert(index_before.contains_key(other));
                            }
                        }
                    }
                    k = k + 1;
                }
                proof {
                    let grams = self.histograms@;
                    let index = index_entries(self.gram_index);
                    let ids = gram_ids(grams);
                    assert forall|p: int| 0 <= p < ids.len() implies index.contains_key(
                        #[trigger] ids[p],
                    ) && index[ids[p]] == p by {
                        assert(ids[p] == grams[p].spec.id);
                    }
                    assert forall|other: Uuid| #[trigger] index.contains_key(other) implies index[other]
                        < ids.len() && ids[index[other] as int] == other by {
                        let p = choose|p: int|
                            0 <= p < n && (#[trigger] grams[p]).spec.id == other;
                        assert(ids[p] == other);
                    }
                }
                Ok(())
            },
        }
    }

    /// The counters of the histogram called `id`.
    pub fn get_histogram_data(&self, id: &Uuid) -> (found: Result<&[u16], ResourceError>)
        requires
            self.wf(),
        ensures
            match self.histogram(*id) {
                Some(gram) => found matches Ok(data) && data@ == gram.data@,
                None => found == Err::<&[u16], ResourceError>(
                    ResourceError::InvalidHistogramID(*id),
                ),
            },
    {
        match self.find_histogram(id) {
            Some(i) => {
                proof {
                    lemma_gram_at(self.grams(), i as int);
                }
                Ok(self.histograms[i].data.as_slice())
            },
            None => Err(ResourceError::InvalidHistogramID(*id)),
        }
    }

    /// The description of the histogram called `id`.
    pub fn get_histogram_spec(&self, id: &Uuid) -> (found: Result<&HistSpec, ResourceError>)
        requires
            self.wf(),
        ensures
            match self.histogram(*id) {
                Some(gram) => found matches Ok(spec) && *spec == gram.spec,
                None => found == Err::<&HistSpec, ResourceError>(
                    ResourceError::InvalidHistogramID(*id),
                ),
            },
    {
        match self.find_histogram(id) {
            Some(i) => {
                proof {
                    lemma_gram_at(self.grams(), i as int);
                }
                Ok(&self.histograms[i].spec)
            },
            None => Err(ResourceError::InvalidHistogramID(*id)),
        }
    }

    /// Registers `cut` in place of any cut that had its identifier, and adds
    /// it to the cuts drawn on the histogram that stands at `at`.
    fn attach(&mut self, at: usize, cut: Cut)
        requires
            old(self).wf(),
            at < old(self).grams().len(),
            cut.wf(),
        ensures
            final(self).wf(),
            final(self).cut(cut.descr().id) == Some(cut),
            forall|other: Uuid|
                other != cut.descr().id ==> final(self).cut(other) == old(self).cut(other),
            final(self).histogram(old(self).grams()[at as int].spec.id) matches Some(after)
                && drawn_on(old(self).grams()[at as int], after, cut.descr().id),
            forall|other: Uuid|
                other != old(self).grams()[at as int].spec.id ==> final(self).histogram(other)
                    == old(self).histogram(other),
    {
        let id: Uuid = cut.get_spec().id;
        self.histograms[at].spec.cuts_to_draw.push(id);
        proof {
            lemma_gram_replaced(old(self).grams(), at as int, self.histograms@[at as int]);
            assert(self.histograms@ =~= old(self).grams().update(
                at as int,
                self.histograms@[at as int],
            ));
        }
        match self.find_cut(&id) {
            Some(i) => {
                self.cuts.set(i, cut);
                proof {
                    lemma_cut_replaced(old(self).cut_list(), i as int, cut);
                }
            },
            None => {
                let n: usize = self.cuts.len();
                self.cuts.push(cut);
                index_insert(&mut self.cut_index, id, n);
                proof {
                    lemma_cut_pushed(old(self).cut_list(), cut);
                    lemma_places_pushed(
                        index_entries(old(self).cut_index),
                        cut_ids(old(self).cut_list()),
                        id,
                        n,
                    );
                }
            },
        }
    }

    /// Makes an interval cut, registers it under `spec.id`, and adds it to
    /// the cuts drawn on the histogram called `histogram_id`. Where that
    /// histogram is not registered, or the interval is refused, the registry
    /// is left as it was.
    pub fn add_cut_1d(
        &mut self,
        spec: CutSpec,
        low_value: i32,
        high_value: i32,
        histogram_id: &Uuid,
    ) -> (done: Result<(), ResourceError>)
        requires
            old(self).wf(),
        ensures
            final(self).wf(),
            match old(self).histogram(*histogram_id) {
                None => done == Err::<(), ResourceError>(
                    ResourceError::CutFailed(CutError::NoReferenceHistogram(*histogram_id)),
                ) && final(self).grams() == old(self).grams() && final(self).cut_list() == old(
                    self,
                ).cut_list(),
                Some(gram) => if low_value >= high_value {
                    done == Err::<(), ResourceError>(
                        ResourceError::CutFailed(CutError::Invalid1D(low_value, high_value)),
                    ) && final(self).grams() == old(self).grams() && final(self).cut_list() == old(
                        self,
                    ).cut_list()
                } else {
                    &&& done is Ok
                    &&& final(self).cut(spec.id) == Some(
                        Cut::Range(
                            Cut1D { spec, low: low_value, high: high_value, is_valid: false },
                        ),
                    )
                    &&& forall|other: Uuid|
                        other != spec.id ==> final(self).cut(other) == old(self).cut(other)
                    &&& final(self).histogram(*histogram_id) matches Some(after) && drawn_on(
                        gram,
                        after,
                        spec.id,
                    )
                    &&& forall|other: Uuid|
                        other != *histogram_id ==> final(self).histogram(other) == old(
                            self,
                        ).histogram(other)
                },
            },
    {
        let at: usize = match self.find_histogram(histogram_id) {
            Some(i) => i,
            None => {
                return Err(
                    ResourceError::CutFailed(CutError::NoReferenceHistogram(*histogram_id)),
                );
            },
        };
        proof {
            lemma_gram_at(self.grams(), at as int);
        }
        match Cut1D::new(spec, low_value, high_value) {
            Err(e) => Err(ResourceError::from(e)),
            Ok(cut) => {
                self.attach(at, Cut::Range(cut));
                Ok(())
            },
        }
    }

    /// Makes a polygon cut, registers it under `spec.id`, and adds it to the
    /// cuts drawn on the histogram called `histogram_id`. Where that
    /// histogram is not registered, or the polygon is refused, the registry
    /// is left as it was.
    pub fn add_cut_2d(
        &mut self,
        spec: CutSpec,
        x_values: Vec<i32>,
        y_values: Vec<i32>,
        histogram_id: &Uuid,
    ) -> (done: Result<(), ResourceError>)
        requires
            old(self).wf(),
        ensures
            final(self).wf(),
            match old(self).histogram(*histogram_id) {
                None => done == Err::<(), ResourceError>(
                    ResourceError::CutFailed(CutError::NoReferenceHistogram(*histogram_id)),
                ) && final(self).grams() == old(self).grams() && final(self).cut_list() == old(
                    self,
                ).cut_list(),
                Some(gram) => match polygon_fault(spec, x_values@, y_values@) {
                    Some(e) => done == Err::<(), ResourceError>(ResourceError::CutFailed(e))
                        && final(self).grams() == old(self).grams() && final(self).cut_list()
                        == old(self).cut_list(),
                    None => {
                        &&& done is Ok
                        &&& final(self).cut(spec.id) == Some(
                            Cut::Polygon(Cut2D { spec, x_values, y_values, is_valid: false }),
                        )
                        &&& forall|other: Uuid|
                            other != spec.id ==> final(self).cut(other) == old(self).cut(other)
                        &&& final(self).histogram(*histogram_id) matches Some(after) && drawn_on(
                            gram,
                            after,
                            spec.id,
                        )
                        &&& forall|other: Uuid|
                            other != *histogram_id ==> final(self).histogram(other) == old(
                                self,
                            ).histogram(other)
                    },
                },
            },
    {
        let at: usize = match self.find_histogram(histogram_id) {
            Some(i) => i,
            None => {
                return Err(
                    ResourceError::CutFailed(CutError::NoReferenceHistogram(*histogram_id)),
                );
            },
        };
        proof {
            lemma_gram_at(self.grams(), at as int);
        }
        match Cut2D::new(spec, x_values, y_values) {
            Err(e) => Err(ResourceError::from(e)),
            Ok(cut) => {
                self.attach(at, Cut::Polygon(cut));
                Ok(())
            },
        }
    }

    /// Whether the gating cuts of the histogram at `at` let a fill through.
    fn gate_open(&self, at: usize) -> (open: bool)
        requires
            self.indexed(),
            distinct_cuts(self.cut_list()),
            at < self.grams().len(),
        ensures
            open == passes_cuts(self.grams()[at as int].spec.cuts_to_check@, self.cut_list()),
    {
        let ghost check = self.histograms@[at as int].spec.cuts_to_check@;
        let n: usize = self.histograms[at].spec.cuts_to_check.len();
        let mut k: usize = 0;
        while k < n
            invariant
                k <= n,
                at < self.histograms@.len(),
                check == self.histograms@[at as int].spec.cuts_to_check@,
                n == check.len(),
                self.indexed(),
                distinct_cuts(self.cuts@),
                forall|m: int|
                    0 <= m < k ==> (match cut_of(self.cuts@, #[trigger] check[m]) {
                        Some(cut) => cut.holds(),
                        None => true,
                    }),
            decreases n - k,
        {
            match self.find_cut(&self.histograms[at].spec.cuts_to_check[k]) {
                Some(c) => {
                    proof {
                        lemma_cut_at(self.cuts@, c as int);
                    }
                    if !self.cuts[c].is_valid() {
                        proof {
                            assert(cut_of(self.cuts@, check[k as int]) == Some(self.cuts@[c as int]));
                        }
                        return false;
                    }
                },
                None => {},
            }
            k = k + 1;
        }
        true
    }

    /// Takes one record in: every cut judges it, and then every histogram
    /// whose gating cuts pass, and whose variables the record has, is filled
    /// with their values. A fill that fails leaves its histogram as it was
    /// and stops nothing: the update succeeds, and hands back what each fill
    /// returned, for the caller to log.
    pub fn update(&mut self, data: DataBlob) -> (done: Result<
        Vec<(Uuid, Result<usize, HistogramError>)>,
        ResourceError,
    >)
        requires
            old(self).wf(),
        ensures
            done matches Ok(report) && report@ == fill_report(
                old(self).grams(),
                final(self).cut_list(),
                &data,
                old(self).grams().len() as int,
            ),
            final(self).wf(),
            final(self).cut_list().len() == old(self).cut_list().len(),
            forall|i: int|
                0 <= i < old(self).cut_list().len() ==> #[trigger] final(self).cut_list()[i]
                    == old(self).cut_list()[i].evaluated(&data),
            final(self).grams().len() == old(self).grams().len(),
            forall|j: int|
                0 <= j < old(self).grams().len() ==> (#[trigger] final(self).grams()[j]).spec
                    == old(self).grams()[j].spec && final(self).grams()[j].data@
                    == counts_after_update(old(self).grams()[j], final(self).cut_list(), &data),
            forall|id: Uuid|
                #![trigger final(self).cut(id)]
                match old(self).cut(id) {
                    Some(cut) => final(self).cut(id) == Some(cut.evaluated(&data)),
                    None => final(self).cut(id) is None,
                },
            forall|id: Uuid|
                #![trigger final(self).histogram(id)]
                match old(self).histogram(id) {
                    Some(gram) => final(self).histogram(id) matches Some(after) && after.spec
                        == gram.spec && after.data@ == counts_after_update(
                        gram,
                        final(self).cut_list(),
                        &data,
                    ),
                    None => final(self).histogram(id) is None,
                },
    {
        let n_cuts: usize = self.cuts.len();
        let mut i: usize = 0;
        while i < n_cuts
            invariant
                i <= n_cuts,
                n_cuts == self.cuts@.len(),
                self.cuts@.len() == old(self).cuts@.len(),
                self.histograms@ == old(self).histograms@,
                self.gram_index == old(self).gram_index,
                self.cut_index == old(self).cut_index,
                forall|k: int| 0 <= k < i ==> #[trigger] self.cuts@[k] == old(self).cuts@[k].evaluated(&data),
                forall|k: int| i <= k < n_cuts ==> #[trigger] self.cuts@[k] == old(self).cuts@[k],
                forall|k: int| 0 <= k < n_cuts ==> (#[trigger] old(self).cuts@[k]).wf(),
            decreases n_cuts - i,
        {
            self.cuts[i].is_inside(&data);
            i = i + 1;
        }
        proof {
            let before = old(self).cuts@;
            let after = self.cuts@;
            assert forall|k: int| 0 <= k < after.len() implies (#[trigger] after[k]).wf()
                && after[k].descr().id == before[k].descr().id by {
                assert(after[k] == before[k].evaluated(&data));
                assert(before[k].wf());
            }
            assert forall|a: int, b: int| 0 <= a < b < after.len() implies (
            #[trigger] after[a]).descr().id != (#[trigger] after[b]).descr().id by {
                assert(before[a].descr().id != before[b].descr().id);
            }
            assert(cut_ids(after) =~= cut_ids(before));
        }
        let n_grams: usize = self.histograms.len();
        let ghost judged = self.cuts@;
        let mut report: Vec<(Uuid, Result<usize, HistogramError>)> = Vec::new();
        let mut j: usize = 0;
        while j < n_grams
            invariant
                j <= n_grams,
                report@ == fill_report(old(self).histograms@, judged, &data, j as int),
                n_grams == self.histograms@.len(),
                self.histograms@.len() == old(self).histograms@.len(),
                self.cuts@ == judged,
                self.gram_index == old(self).gram_index,
                self.cut_index == old(self).cut_index,
                places(index_entries(self.cut_index), cut_ids(judged)),
                places(index_entries(self.gram_index), gram_ids(old(self).histograms@)),
                gram_ids(self.histograms@) =~= gram_ids(old(self).histograms@),
                distinct_cuts(judged),
                forall|k: int|
                    0 <= k < j ==> (#[trigger] self.histograms@[k]).spec == old(
                        self,
                    ).histograms@[k].spec && self.histograms@[k].data@ == counts_after_update(
                        old(self).histograms@[k],
                        judged,
                        &data,
                    ) && self.histograms@[k].wf(),
                forall|k: int|
                    j <= k < n_grams ==> #[trigger] self.histograms@[k] == old(
                        self,
                    ).histograms@[k],
                forall|k: int| 0 <= k < n_grams ==> (#[trigger] old(self).histograms@[k]).wf(),
            decreases n_grams - j,
        {
            let ghost gram = self.histograms@[j as int];
            assert(gram == old(self).histograms@[j as int]);
            assert(gram.wf());
            if self.gate_open(j) {
                match data.find(self.histograms[j].spec.x_axis.variable.as_str()) {
                    None => {},
                    Some(x) => {
                        if self.histograms[j].spec.y_axis.is_some() {
                            let y_found = match &self.histograms[j].spec.y_axis {
                                Some(y_axis) => data.find(y_axis.variable.as_str()),
                                None => None,
                            };
                            match y_found {
                                None => {},
                                Some(y) => {
                                    let answer = self.histograms[j].fill(x, Some(y));
                                    report.push((self.histograms[j].spec.id, answer));
                                },
                            }
                        } else {
                            let answer = self.histograms[j].fill(x, None);
                            report.push((self.histograms[j].spec.id, answer));
                        }
                    },
                }
            }
            proof {
                assert(gram_ids(self.histograms@) =~= gram_ids(old(self).histograms@));
            }
            j = j + 1;
        }
        proof {
            let before = old(self).histograms@;
            let after = self.histograms@;
            assert forall|a: int, b: int| 0 <= a < b < after.len() implies (
            #[trigger] after[a]).spec.id != (#[trigger] after[b]).spec.id by {
                assert(before[a].spec.id != before[b].spec.id);
            }
            assert forall|id: Uuid|
                #![trigger self.histogram(id)]
                match old(self).histogram(id) {
                    Some(gram) => self.histogram(id) matches Some(now) && now.spec == gram.spec
                        && now.data@ == counts_after_update(gram, judged, &data),
                    None => self.histogram(id) is None,
                } by {
                lemma_grams_in_step(before, after, id);
            }
            let cuts_before = old(self).cuts@;
            assert forall|id: Uuid|
                #![trigger self.cut(id)]
                match old(self).cut(id) {
                    Some(cut) => self.cut(id) == Some(cut.evaluated(&data)),
                    None => self.cut(id) is None,
                } by {
                lemma_cuts_in_step(cuts_before, judged, id);
            }
        }
        Ok(report)
    }
}

} // verus!
