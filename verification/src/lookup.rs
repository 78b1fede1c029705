use crate::cut::Cut;
use crate::histogram::Histogram;
use uuid::Uuid;
use vstd::prelude::*;

verus! {

/// No two of the histograms have the same identifier.
pub open spec fn distinct_grams(grams: Seq<Histogram>) -> bool {
    forall|i: int, j: int|
        0 <= i < j < grams.len() ==> (#[trigger] grams[i]).spec.id != (#[trigger] grams[j]).spec.id
}

/// The histogram with this identifier, if there is one.
pub open spec fn gram_of(grams: Seq<Histogram>, id: Uuid) -> Option<Histogram> {
    if exists|i: int| 0 <= i < grams.len() && (#[trigger] grams[i]).spec.id == id {
        Some(grams[choose|i: int| 0 <= i < grams.len() && (#[trigger] grams[i]).spec.id == id])
    } else {
        None
    }
}

/// No two of the cuts have the same identifier.
pub open spec fn distinct_cuts(cuts: Seq<Cut>) -> bool {
    forall|i: int, j: int|
        0 <= i < j < cuts.len() ==> (#[trigger] cuts[i]).descr().id != (
        #[trigger] cuts[j]).descr().id
}

/// The cut with this identifier, if there is one.
pub open spec fn cut_of(cuts: Seq<Cut>, id: Uuid) -> Option<Cut> {
    if exists|i: int| 0 <= i < cuts.len() && (#[trigger] cuts[i]).descr().id == id {
        Some(cuts[choose|i: int| 0 <= i < cuts.len() && (#[trigger] cuts[i]).descr().id == id])
    } else {
        None
    }
}

/// The identifiers of the histograms, place by place.
pub open spec fn gram_ids(grams: Seq<Histogram>) -> Seq<Uuid> {
    Seq::new(grams.len(), |i: int| grams[i].spec.id)
}

/// The identifiers of the cuts, place by place.
pub open spec fn cut_ids(cuts: Seq<Cut>) -> Seq<Uuid> {
    Seq::new(cuts.len(), |i: int| cuts[i].descr().id)
}

/// Among histograms with distinct identifiers, each is the one found under
/// its own identifier.
pub proof fn lemma_gram_at(grams: Seq<Histogram>, i: int)
    requires
        distinct_grams(grams),
        0 <= i < grams.len(),
    ensures
        gram_of(grams, grams[i].spec.id) == Some(grams[i]),
{
    let id = grams[i].spec.id;
    let j = choose|j: int| 0 <= j < grams.len() && (#[trigger] grams[j]).spec.id == id;
    assert(j == i);
}

/// Among cuts with distinct identifiers, each is the one found under its own
/// identifier.
pub proof fn lemma_cut_at(cuts: Seq<Cut>, i: int)
    requires
        distinct_cuts(cuts),
        0 <= i < cuts.len(),
    ensures
        cut_of(cuts, cuts[i].descr().id) == Some(cuts[i]),
{
    let id = cuts[i].descr().id;
    let j = choose|j: int| 0 <= j < cuts.len() && (#[trigger] cuts[j]).descr().id == id;
    assert(j == i);
}

/// Where two lists of histograms hold the same histograms but for the one
/// called `id`, every other identifier finds the same in both.
pub proof fn lemma_grams_same_elsewhere(before: Seq<Histogram>, after: Seq<Histogram>, id: Uuid)
    requires
        distinct_grams(before),
        distinct_grams(after),
        forall|i: int|
            0 <= i < before.len() && (#[trigger] before[i]).spec.id != id ==> exists|j: int|
                0 <= j < after.len() && #[trigger] after[j] == before[i],
        forall|j: int|
            0 <= j < after.len() && (#[trigger] after[j]).spec.id != id ==> exists|i: int|
                0 <= i < before.len() && #[trigger] before[i] == after[j],
    ensures
        forall|other: Uuid| other != id ==> gram_of(after, other) == gram_of(before, other),
{
    assert forall|other: Uuid| other != id implies gram_of(after, other) == gram_of(
        before,
        other,
    ) by {
        if exists|i: int| 0 <= i < before.len() && (#[trigger] before[i]).spec.id == other {
            let i = choose|i: int| 0 <= i < before.len() && (#[trigger] before[i]).spec.id == other;
            let j = choose|j: int| 0 <= j < after.len() && #[trigger] after[j] == before[i];
            lemma_gram_at(before, i);
            lemma_gram_at(after, j);
        } else if exists|j: int| 0 <= j < after.len() && (#[trigger] after[j]).spec.id == other {
            let j = choose|j: int| 0 <= j < after.len() && (#[trigger] after[j]).spec.id == other;
            let i = choose|i: int| 0 <= i < before.len() && #[trigger] before[i] == after[j];
            assert(before[i].spec.id == other);
        }
    }
}

/// Where two lists of cuts hold the same cuts but for the one called `id`,
/// every other identifier finds the same in both.
pub proof fn lemma_cuts_same_elsewhere(before: Seq<Cut>, after: Seq<Cut>, id: Uuid)
    requires
        distinct_cuts(before),
        distinct_cuts(after),
        forall|i: int|
            0 <= i < before.len() && (#[trigger] before[i]).descr().id != id ==> exists|j: int|
                0 <= j < after.len() && #[trigger] after[j] == before[i],
        forall|j: int|
            0 <= j < after.len() && (#[trigger] after[j]).descr().id != id ==> exists|i: int|
                0 <= i < before.len() && #[trigger] before[i] == after[j],
    ensures
        forall|other: Uuid| other != id ==> cut_of(after, other) == cut_of(before, other),
{
    assert forall|other: Uuid| other != id implies cut_of(after, other) == cut_of(
        before,
        other,
    ) by {
        if exists|i: int| 0 <= i < before.len() && (#[trigger] before[i]).descr().id == other {
            let i = choose|i: int|
                0 <= i < before.len() && (#[trigger] before[i]).descr().id == other;
            let j = choose|j: int| 0 <= j < after.len() && #[trigger] after[j] == before[i];
            lemma_cut_at(before, i);
            lemma_cut_at(after, j);
        } else if exists|j: int| 0 <= j < after.len() && (#[trigger] after[j]).descr().id == other {
            let j = choose|j: int|
                0 <= j < after.len() && (#[trigger] after[j]).descr().id == other;
            let i = choose|i: int| 0 <= i < before.len() && #[trigger] before[i] == after[j];
            assert(before[i].descr().id == other);
        }
    }
}

/// Putting a histogram in the place of one with the same identifier keeps
/// the identifiers where they are: the new one is found under its identifier,
/// and every other identifier finds what it found.
pub proof fn lemma_gram_replaced(before: Seq<Histogram>, at: int, gram: Histogram)
    requires
        distinct_grams(before),
        0 <= at < before.len(),
        gram.spec.id == before[at].spec.id,
    ensures
        distinct_grams(before.update(at, gram)),
        gram_ids(before.update(at, gram)) == gram_ids(before),
        gram_of(before, gram.spec.id) == Some(before[at]),
        gram_of(before.update(at, gram), gram.spec.id) == Some(gram),
        forall|other: Uuid|
            other != gram.spec.id ==> gram_of(before.update(at, gram), other) == gram_of(
                before,
                other,
            ),
{
    let after = before.update(at, gram);
    let id = gram.spec.id;
    assert forall|a: int, b: int| 0 <= a < b < after.len() implies (#[trigger] after[a]).spec.id
        != (#[trigger] after[b]).spec.id by {
        assert(after[a].spec.id == before[a].spec.id);
        assert(after[b].spec.id == before[b].spec.id);
    }
    assert forall|k: int|
        0 <= k < before.len() && (#[trigger] before[k]).spec.id != id implies exists|j: int|
        0 <= j < after.len() && #[trigger] after[j] == before[k] by {
        assert(after[k] == before[k]);
    }
    assert forall|j: int|
        0 <= j < after.len() && (#[trigger] after[j]).spec.id != id implies exists|k: int|
        0 <= k < before.len() && #[trigger] before[k] == after[j] by {
        assert(before[j] == after[j]);
    }
    lemma_grams_same_elsewhere(before, after, id);
    lemma_gram_at(after, at);
    lemma_gram_at(before, at);
    assert(gram_ids(after) =~= gram_ids(before));
}

/// A histogram with a new identifier, put at the end, is found under its
/// identifier, and every other identifier finds what it found.
pub proof fn lemma_gram_pushed(before: Seq<Histogram>, gram: Histogram)
    requires
        distinct_grams(before),
        forall|i: int| 0 <= i < before.len() ==> (#[trigger] before[i]).spec.id != gram.spec.id,
    ensures
        distinct_grams(before.push(gram)),
        gram_ids(before.push(gram)) == gram_ids(before).push(gram.spec.id),
        forall|i: int| 0 <= i < before.len() ==> #[trigger] gram_ids(before)[i] != gram.spec.id,
        gram_of(before, gram.spec.id) is None,
        gram_of(before.push(gram), gram.spec.id) == Some(gram),
        forall|other: Uuid|
            other != gram.spec.id ==> gram_of(before.push(gram), other) == gram_of(before, other),
{
    let after = before.push(gram);
    let id = gram.spec.id;
    assert forall|a: int, b: int| 0 <= a < b < after.len() implies (#[trigger] after[a]).spec.id
        != (#[trigger] after[b]).spec.id by {
        assert(after[a] == before[a]);
        if b < before.len() {
            assert(after[b] == before[b]);
        }
    }
    assert forall|k: int|
        0 <= k < before.len() && (#[trigger] before[k]).spec.id != id implies exists|j: int|
        0 <= j < after.len() && #[trigger] after[j] == before[k] by {
        assert(after[k] == before[k]);
    }
    assert forall|j: int|
        0 <= j < after.len() && (#[trigger] after[j]).spec.id != id implies exists|k: int|
        0 <= k < before.len() && #[trigger] before[k] == after[j] by {
        assert(before[j] == after[j]);
    }
    lemma_grams_same_elsewhere(before, after, id);
    lemma_gram_at(after, before.len() as int);
    assert(gram_ids(after) =~= gram_ids(before).push(id));
    assert forall|i: int| 0 <= i < before.len() implies #[trigger] gram_ids(before)[i] != id by {
        assert(before[i].spec.id != id);
    }
}

/// Putting a cut in the place of one with the same identifier keeps the
/// identifiers where they are: the new one is found under its identifier,
/// and every other identifier finds what it found.
pub proof fn lemma_cut_replaced(before: Seq<Cut>, at: int, cut: Cut)
    requires
        distinct_cuts(before),
        0 <= at < before.len(),
        cut.descr().id == before[at].descr().id,
    ensures
        distinct_cuts(before.update(at, cut)),
        cut_ids(before.update(at, cut)) == cut_ids(before),
        cut_of(before.update(at, cut), cut.descr().id) == Some(cut),
        forall|other: Uuid|
            other != cut.descr().id ==> cut_of(before.update(at, cut), other) == cut_of(
                before,
                other,
            ),
{
    let after = before.update(at, cut);
    let id = cut.descr().id;
    assert forall|a: int, b: int| 0 <= a < b < after.len() implies (#[trigger] after[a]).descr().id
        != (#[trigger] after[b]).descr().id by {
        assert(after[a].descr().id == before[a].descr().id);
        assert(after[b].descr().id == before[b].descr().id);
    }
    assert forall|k: int|
        0 <= k < before.len() && (#[trigger] before[k]).descr().id != id implies exists|j: int|
        0 <= j < after.len() && #[trigger] after[j] == before[k] by {
        assert(after[k] == before[k]);
    }
    assert forall|j: int|
        0 <= j < after.len() && (#[trigger] after[j]).descr().id != id implies exists|k: int|
        0 <= k < before.len() && #[trigger] before[k] == after[j] by {
        assert(before[j] == after[j]);
    }
    lemma_cuts_same_elsewhere(before, after, id);
    lemma_cut_at(after, at);
    assert(cut_ids(after) =~= cut_ids(before));
}

/// A cut with a new identifier, put at the end, is found under its
/// identifier, and every other identifier finds what it found.
pub proof fn lemma_cut_pushed(before: Seq<Cut>, cut: Cut)
    requires
        distinct_cuts(before),
        forall|i: int| 0 <= i < before.len() ==> (#[trigger] before[i]).descr().id != cut.descr().id,
    ensures
        distinct_cuts(before.push(cut)),
        cut_ids(before.push(cut)) == cut_ids(before).push(cut.descr().id),
        forall|i: int| 0 <= i < before.len() ==> #[trigger] cut_ids(before)[i] != cut.descr().id,
        cut_of(before.push(cut), cut.descr().id) == Some(cut),
        forall|other: Uuid|
            other != cut.descr().id ==> cut_of(before.push(cut), other) == cut_of(before, other),
{
    let after = before.push(cut);
    let id = cut.descr().id;
    assert forall|a: int, b: int| 0 <= a < b < after.len() implies (#[trigger] after[a]).descr().id
        != (#[trigger] after[b]).descr().id by {
        assert(after[a] == before[a]);
        if b < before.len() {
            assert(after[b] == before[b]);
        }
    }
    assert forall|k: int|
        0 <= k < before.len() && (#[trigger] before[k]).descr().id != id implies exists|j: int|
        0 <= j < after.len() && #[trigger] after[j] == before[k] by {
        assert(after[k] == before[k]);
    }
    assert forall|j: int|
        0 <= j < after.len() && (#[trigger] after[j]).descr().id != id implies exists|k: int|
        0 <= k < before.len() && #[trigger] before[k] == after[j] by {
        assert(before[j] == after[j]);
    }
    lemma_cuts_same_elsewhere(before, after, id);
    lemma_cut_at(after, before.len() as int);
    assert(cut_ids(after) =~= cut_ids(before).push(id));
    assert forall|i: int| 0 <= i < before.len() implies #[trigger] cut_ids(before)[i] != id by {
        assert(before[i].descr().id != id);
    }
}

/// Taking one histogram out of a list with distinct identifiers leaves the
/// others as they were, and nothing under the identifier of the one taken.
pub proof fn lemma_gram_removed(before: Seq<Histogram>, i: int)
    requires
        distinct_grams(before),
        0 <= i < before.len(),
    ensures
        distinct_grams(before.remove(i)),
        gram_of(before, before[i].spec.id) == Some(before[i]),
        gram_of(before.remove(i), before[i].spec.id) is None,
        forall|other: Uuid|
            other != before[i].spec.id ==> gram_of(before.remove(i), other) == gram_of(
                before,
                other,
            ),
        forall|a: int|
            0 <= a < before.len() - 1 ==> #[trigger] before.remove(i)[a] == before[if a < i {
                a
            } else {
                a + 1
            }],
{
    let after = before.remove(i);
    let id = before[i].spec.id;
    assert forall|a: int, b: int| 0 <= a < b < after.len() implies (#[trigger] after[a]).spec.id
        != (#[trigger] after[b]).spec.id by {
        let a0 = if a < i { a } else { a + 1 };
        let b0 = if b < i { b } else { b + 1 };
        assert(after[a] == before[a0]);
        assert(after[b] == before[b0]);
    }
    assert forall|a: int| 0 <= a < after.len() implies (#[trigger] after[a]).spec.id != id by {
        let a0 = if a < i { a } else { a + 1 };
        assert(after[a] == before[a0]);
    }
    assert forall|k: int|
        0 <= k < before.len() && (#[trigger] before[k]).spec.id != id implies exists|j: int|
        0 <= j < after.len() && #[trigger] after[j] == before[k] by {
        if k < i {
            assert(after[k] == before[k]);
        } else {
            assert(after[k - 1] == before[k]);
        }
    }
    assert forall|j: int|
        0 <= j < after.len() && (#[trigger] after[j]).spec.id != id implies exists|k: int|
        0 <= k < before.len() && #[trigger] before[k] == after[j] by {
        if j < i {
            assert(before[j] == after[j]);
        } else {
            assert(before[j + 1] == after[j]);
        }
    }
    lemma_grams_same_elsewhere(before, after, id);
    lemma_gram_at(before, i);
}

/// Where two lists of histograms agree on the identifiers place by place,
/// an identifier finds in the second list the histogram that stands where the
/// one it finds in the first list stands, or nothing in either.
pub proof fn lemma_grams_in_step(before: Seq<Histogram>, after: Seq<Histogram>, id: Uuid)
    requires
        distinct_grams(before),
        before.len() == after.len(),
        forall|k: int|
            0 <= k < before.len() ==> (#[trigger] after[k]).spec.id == before[k].spec.id,
    ensures
        distinct_grams(after),
        match gram_of(before, id) {
            None => gram_of(after, id) is None,
            Some(gram) => exists|k: int|
                0 <= k < before.len() && #[trigger] before[k] == gram && gram_of(after, id)
                    == Some(after[k]),
        },
{
    assert forall|a: int, b: int| 0 <= a < b < after.len() implies (#[trigger] after[a]).spec.id
        != (#[trigger] after[b]).spec.id by {
        assert(before[a].spec.id != before[b].spec.id);
    }
    if exists|i: int| 0 <= i < before.len() && (#[trigger] before[i]).spec.id == id {
        let i = choose|i: int| 0 <= i < before.len() && (#[trigger] before[i]).spec.id == id;
        assert(after[i].spec.id == id);
        lemma_gram_at(before, i);
        lemma_gram_at(after, i);
    } else if exists|j: int| 0 <= j < after.len() && (#[trigger] after[j]).spec.id == id {
        let j = choose|j: int| 0 <= j < after.len() && (#[trigger] after[j]).spec.id == id;
        assert(before[j].spec.id == id);
    }
}

/// Where two lists of cuts agree on the identifiers place by place, an
/// identifier finds in the second list the cut that stands where the one it
/// finds in the first list stands, or nothing in either.
pub proof fn lemma_cuts_in_step(before: Seq<Cut>, after: Seq<Cut>, id: Uuid)
    requires
        distinct_cuts(before),
        before.len() == after.len(),
        forall|k: int|
            0 <= k < before.len() ==> (#[trigger] after[k]).descr().id == before[k].descr().id,
    ensures
        distinct_cuts(after),
        match cut_of(before, id) {
            None => cut_of(after, id) is None,
            Some(cut) => exists|k: int|
                0 <= k < before.len() && #[trigger] before[k] == cut && cut_of(after, id) == Some(
                    after[k],
                ),
        },
{
    assert forall|a: int, b: int| 0 <= a < b < after.len() implies (#[trigger] after[a]).descr().id
        != (#[trigger] after[b]).descr().id by {
        assert(before[a].descr().id != before[b].descr().id);
    }
    if exists|i: int| 0 <= i < before.len() && (#[trigger] before[i]).descr().id == id {
        let i = choose|i: int| 0 <= i < before.len() && (#[trigger] before[i]).descr().id == id;
        assert(after[i].descr().id == id);
        lemma_cut_at(before, i);
        lemma_cut_at(after, i);
    } else if exists|j: int| 0 <= j < after.len() && (#[trigger] after[j]).descr().id == id {
        let j = choose|j: int| 0 <= j < after.len() && (#[trigger] after[j]).descr().id == id;
        assert(before[j].descr().id == id);
    }
}

} // verus!
