use crate::cut::Cut;
use crate::data_blob::DataBlob;
use crate::error::HistogramError;
use crate::histogram::Histogram;
use crate::lookup::{cut_of, distinct_cuts, lemma_cuts_in_step};
use uuid::Uuid;
use vstd::prelude::*;

verus! {

/// Every gating cut that is registered holds; one that is not registered
/// stands in nobody's way.
pub open spec fn passes_cuts(check: Seq<Uuid>, cuts: Seq<Cut>) -> bool {
    forall|k: int|
        0 <= k < check.len() ==> (match cut_of(cuts, #[trigger] check[k]) {
            Some(cut) => cut.holds(),
            None => true,
        })
}

/// The outcome of a fill as `fill` returns it.
pub open spec fn fill_answer(outcome: Result<int, HistogramError>) -> Result<
    usize,
    HistogramError,
> {
    match outcome {
        Ok(bin) => Ok(bin as usize),
        Err(e) => Err(e),
    }
}

/// What one record makes of a histogram: nothing where a gating cut that is
/// registered does not hold or the record lacks a variable of the histogram;
/// else the fill with the values of its variables, which gives the counter
/// that it raised or the reason why it raised none.
pub open spec fn fill_attempt(gram: Histogram, cuts: Seq<Cut>, data: &DataBlob) -> Option<
    Result<usize, HistogramError>,
> {
    if !passes_cuts(gram.spec.cuts_to_check@, cuts) {
        None
    } else {
        match data.lookup(gram.spec.x_axis.variable@) {
            None => None,
            Some(x) => match gram.spec.y_axis {
                None => Some(fill_answer(gram.spec.fill_outcome(x, None))),
                Some(y_axis) => match data.lookup(y_axis.variable@) {
                    None => None,
                    Some(y) => Some(fill_answer(gram.spec.fill_outcome(x, Some(y)))),
                },
            },
        }
    }
}

/// The fills that one record leads to among the first `n` histograms, in
/// their order: for each histogram that was filled or refused the fill, its
/// identifier and what the fill returned.
pub open spec fn fill_report(grams: Seq<Histogram>, cuts: Seq<Cut>, data: &DataBlob, n: int) -> Seq<
    (Uuid, Result<usize, HistogramError>),
>
    decreases n,
{
    if n <= 0 {
        Seq::empty()
    } else {
        let earlier = fill_report(grams, cuts, data, n - 1);
        match fill_attempt(grams[n - 1], cuts, data) {
            Some(answer) => earlier.push((grams[n - 1].spec.id, answer)),
            None => earlier,
        }
    }
}

/// The counters of a histogram after one record: those after a fill with the
/// values of its variables, where its gating cuts pass and the record has
/// those variables; its counters as they were, where not.
pub open spec fn counts_after_update(gram: Histogram, cuts: Seq<Cut>, data: &DataBlob) -> Seq<u16> {
    if !passes_cuts(gram.spec.cuts_to_check@, cuts) {
        gram.data@
    } else {
        match data.lookup(gram.spec.x_axis.variable@) {
            None => gram.data@,
            Some(x) => match gram.spec.y_axis {
                None => gram.counts_after_fill(x, None),
                Some(y_axis) => match data.lookup(y_axis.variable@) {
                    None => gram.data@,
                    Some(y) => gram.counts_after_fill(x, Some(y)),
                },
            },
        }
    }
}

/// A gating cut that is registered and does not hold keeps every fill out:
/// the counters stay as they were, whatever the record holds.
pub proof fn lemma_failing_gate_blocks_fill(
    gram: Histogram,
    cuts: Seq<Cut>,
    data: &DataBlob,
    k: int,
)
    requires
        0 <= k < gram.spec.cuts_to_check@.len(),
        cut_of(cuts, gram.spec.cuts_to_check@[k]) matches Some(cut) && !cut.holds(),
    ensures
        !passes_cuts(gram.spec.cuts_to_check@, cuts),
        counts_after_update(gram, cuts, data) == gram.data@,
{
}

/// A record fills no histogram that is gated by a registered cut which says
/// no to the record: once every cut has judged the record, the counters of
/// such a histogram stay as they were, whatever values the record holds.
pub proof fn lemma_rejecting_gate_blocks_fill(
    gram: Histogram,
    before: Seq<Cut>,
    after: Seq<Cut>,
    data: &DataBlob,
    k: int,
)
    requires
        distinct_cuts(before),
        after.len() == before.len(),
        forall|i: int| 0 <= i < before.len() ==> #[trigger] after[i] == before[i].evaluated(data),
        0 <= k < gram.spec.cuts_to_check@.len(),
        cut_of(before, gram.spec.cuts_to_check@[k]) matches Some(cut) && !cut.accepts(data),
    ensures
        counts_after_update(gram, after, data) == gram.data@,
        fill_attempt(gram, after, data) is None,
{
    let id = gram.spec.cuts_to_check@[k];
    assert forall|i: int| 0 <= i < before.len() implies (#[trigger] after[i]).descr().id
        == before[i].descr().id by {
        assert(after[i] == before[i].evaluated(data));
    }
    lemma_cuts_in_step(before, after, id);
    let cut = cut_of(before, id)->Some_0;
    let at = choose|at: int|
        0 <= at < before.len() && #[trigger] before[at] == cut && cut_of(after, id) == Some(
            after[at],
        );
    assert(after[at] == before[at].evaluated(data));
    lemma_failing_gate_blocks_fill(gram, after, data, k);
}

/// Where every gating cut that is registered holds, one record does to the
/// counters what a fill with the values of the histogram's variables does.
pub proof fn lemma_open_gate_fills(gram: Histogram, cuts: Seq<Cut>, data: &DataBlob, x: i32)
    requires
        passes_cuts(gram.spec.cuts_to_check@, cuts),
        data.lookup(gram.spec.x_axis.variable@) == Some(x),
    ensures
        gram.spec.y_axis is None ==> counts_after_update(gram, cuts, data)
            == gram.counts_after_fill(x, None),
        gram.spec.y_axis matches Some(y_axis) ==> (match data.lookup(y_axis.variable@) {
            Some(y) => counts_after_update(gram, cuts, data) == gram.counts_after_fill(
                x,
                Some(y),
            ),
            None => counts_after_update(gram, cuts, data) == gram.data@,
        }),
{
}

} // verus!
