//! The split of a dataset into a validation part and a training part, after
//! one shuffle of the whole.
//!
//! Samples are spoken of by their index in the dataset as it was loaded.

use rand::rngs::ThreadRng;
use rand::seq::SliceRandom;
use vstd::prelude::*;

verus! {

/// The thread-local generator of the `rand` crate. Nothing is said of what it
/// holds.
#[verifier::external_type_specification]
#[verifier::external_body]
pub struct ExThreadRng(ThreadRng);

/// Why a dataset cannot be trained on.
#[derive(Clone, Copy, Debug, PartialEq, Eq, Structural)]
pub enum InputError {
    /// The dataset holds no sample.
    NoSamples,
}

/// The two parts of a dataset, each as the indices of its samples in the
/// order in which they are to be walked.
#[derive(Debug)]
pub struct Split {
    pub validation: Vec<usize>,
    pub training: Vec<usize>,
}

/// The indices `0, 1, ..., n - 1` in rising order.
pub open spec fn identity(n: nat) -> Seq<usize> {
    Seq::new(n, |i: int| i as usize)
}

/// Whether `order` is a permutation of the indices below `n`.
pub open spec fn is_order(order: Seq<usize>, n: nat) -> bool {
    order.to_multiset() == identity(n).to_multiset()
}

/// The size of the validation part of `len` samples, where `rounded` is the
/// held-out share of `len` rounded to a whole number: `rounded` itself, but
/// no more than `len - 1`, so that a sample is left to train on.
pub open spec fn spec_validation_size(len: usize, rounded: usize) -> usize {
    if len == 0 {
        0
    } else if rounded < len {
        rounded
    } else {
        (len - 1) as usize
    }
}

/// The size of the validation part.
#[verifier::when_used_as_spec(spec_validation_size)]
pub fn validation_size(len: usize, rounded: usize) -> (r: usize)
    ensures
        r == spec_validation_size(len, rounded),
        r <= rounded,
        len > 0 ==> r < len,
{
    if len == 0 {
        0
    } else if rounded < len {
        rounded
    } else {
        len - 1
    }
}

/// `SliceRandom::shuffle` of the `rand` crate, on a vector of indices: it
/// swaps elements in place, so what comes back holds what went in, each as
/// often as before. Which order comes back is not said.
#[verifier::external_body]
fn shuffle(order: &mut Vec<usize>, rng: &mut ThreadRng)
    ensures
        final(order)@.to_multiset() == old(order)@.to_multiset(),
{
    order.shuffle(rng);
}

/// A permutation of the indices below `n` holds `n` indices, each below `n`,
/// none twice, and every index below `n` among them.
pub proof fn lemma_order_elements(order: Seq<usize>, n: nat)
    requires
        n <= usize::MAX,
        is_order(order, n),
    ensures
        order.len() == n,
        order.no_duplicates(),
        forall|i: int| 0 <= i < order.len() ==> (#[trigger] order[i]) < n,
        forall|k: usize| k < n ==> order.contains(k),
{
    broadcast use vstd::seq_lib::group_to_multiset_ensures;

    let ids = identity(n);
    assert(order.len() == order.to_multiset().len());
    assert(ids.len() == ids.to_multiset().len());
    assert(ids.no_duplicates());
    ids.lemma_multiset_has_no_duplicates();
    order.lemma_multiset_has_no_duplicates_conv();
    assert forall|i: int| 0 <= i < order.len() implies (#[trigger] order[i]) < n by {
        assert(order.contains(order[i]));
        assert(ids.to_multiset().count(order[i]) > 0);
        assert(ids.contains(order[i]));
    }
    assert forall|k: usize| k < n implies order.contains(k) by {
        assert(ids[k as int] == k);
        assert(ids.contains(k));
        assert(order.to_multiset().count(k) > 0);
    }
}

/// The indices below `len`, in rising order.
pub fn rising_order(len: usize) -> (order: Vec<usize>)
    ensures
        order@ == identity(len as nat),
{
    let mut order: Vec<usize> = Vec::new();
    let mut i: usize = 0;
    while i < len
        invariant
            i <= len,
            order@ == identity(i as nat),
        decreases len - i,
    {
        order.push(i);
        i = i + 1;
        assert(order@ == identity(i as nat));
    }
    order
}

/// The indices below `len` in a random order: a whole-dataset permutation.
pub fn shuffled_order(len: usize, rng: &mut ThreadRng) -> (order: Vec<usize>)
    ensures
        is_order(order@, len as nat),
{
    let mut order = rising_order(len);
    shuffle(&mut order, rng);
    order
}

/// Cuts an order into its validation prefix and its training suffix.
pub fn partition(order: Vec<usize>, rounded: usize) -> (split: Split)
    ensures
        split.validation@ == order@.take(spec_validation_size(order.len(), rounded) as int),
        split.training@ == order@.skip(spec_validation_size(order.len(), rounded) as int),
        split.validation@ + split.training@ == order@,
        order.len() > 0 ==> split.training.len() > 0,
{
    let size = validation_size(order.len(), rounded);
    let mut validation: Vec<usize> = Vec::new();
    let mut training: Vec<usize> = Vec::new();
    let mut i: usize = 0;
    while i < size
        invariant
            i <= size <= order.len(),
            validation@ == order@.take(i as int),
        decreases size - i,
    {
        validation.push(order[i]);
        i = i + 1;
        assert(validation@ == order@.take(i as int));
    }
    while i < order.len()
        invariant
            size <= i <= order.len(),
            training@ == order@.subrange(size as int, i as int),
        decreases order.len() - i,
    {
        training.push(order[i]);
        i = i + 1;
        assert(training@ == order@.subrange(size as int, i as int));
    }
    assert(training@ == order@.skip(size as int));
    assert(validation@ + training@ == order@);
    Split { validation, training }
}

/// Shuffles the indices of a dataset of `len` samples and splits them.
///
/// `rounded` is the held-out share of `len`, rounded to a whole number. An
/// empty dataset is refused. The order is the generator's choice: whatever
/// it is, the two parts together hold every sample once, the validation part
/// has the size that `validation_size` gives, and the training part is not
/// empty.
pub fn shuffle_split(len: usize, rounded: usize, rng: &mut ThreadRng) -> (r: Result<
    Split,
    InputError,
>)
    ensures
        len == 0 <==> r == Err::<Split, InputError>(InputError::NoSamples),
        len > 0 <==> r.is_ok(),
        r matches Ok(split) ==> {
            &&& is_order(split.validation@ + split.training@, len as nat)
            &&& split.validation.len() == spec_validation_size(len, rounded)
            &&& split.training.len() == len - spec_validation_size(len, rounded)
            &&& split.training.len() > 0
        },
{
    if len == 0 {
        return Err(InputError::NoSamples);
    }
    let order = shuffled_order(len, rng);
    proof {
        lemma_order_elements(order@, len as nat);
    }
    Ok(partition(order, rounded))
}

} // verus!
