//! The random order in which quiz files and their questions are evaluated.
use vstd::prelude::*;

verus! {

broadcast use vstd::seq_lib::group_seq_properties;

/// Shuffles `v` with `rand::seq::SliceRandom::shuffle` and the thread-local
/// generator of `rand::thread_rng`. Claimed of the crate: the slice holds the
/// same elements afterwards, as many times each; the order is chance and is
/// not stated.
#[verifier::external_body]
fn shuffle<T>(v: &mut Vec<T>)
    ensures
        final(v)@.to_multiset() == old(v)@.to_multiset(),
{
    rand::seq::SliceRandom::shuffle(v.as_mut_slice(), &mut rand::thread_rng());
}

/// A number drawn below `n` with `rand::Rng::gen_range` and the thread-local
/// generator. Claimed of the crate: the number is below `n` (the range
/// `0..n` is not empty); which one is chance.
#[verifier::external_body]
fn random_below(n: u32) -> (r: u32)
    requires
        n > 0,
    ensures
        r < n,
{
    rand::Rng::gen_range(&mut rand::thread_rng(), 0..n)
}

/// One element of `v` picked with `rand::seq::SliceRandom::choose` and the
/// thread-local generator. Claimed of the crate: there is one exactly when
/// `v` is not empty, and it is an element of `v`; which one is chance.
#[verifier::external_body]
fn choose_one<T>(v: &Vec<T>) -> (r: Option<&T>)
    ensures
        r is Some <==> v@.len() > 0,
        r matches Some(x) ==> v@.contains(*x),
{
    rand::seq::SliceRandom::choose(v.as_slice(), &mut rand::thread_rng())
}

/// The quiz files in the random order in which they are evaluated: the same
/// names, as many times each.
pub fn evaluation_order(filenames: Vec<String>) -> (r: Vec<String>)
    ensures
        r@.to_multiset() == filenames@.to_multiset(),
{
    let mut names = filenames;
    shuffle(&mut names);
    names
}

/// A stored quiz question: its id, its prompt and the model's response.
pub type QuizTuple = (i32, String, String);

/// The shuffled questions of one file with the chance draws applied: when
/// the coin shows 1 and a question was picked, that question is added once
/// more at the end; otherwise the questions stay as they are.
pub fn batch_with_pick(shuffled: Vec<QuizTuple>, coin: u32, pick: Option<QuizTuple>) -> (r: Vec<
    QuizTuple,
>)
    ensures
        r@ == (if coin == 1 && pick is Some {
            shuffled@.push(pick.unwrap())
        } else {
            shuffled@
        }),
{
    let mut batch = shuffled;
    if coin == 1 {
        if let Some(x) = pick {
            batch.push(x);
        }
    }
    batch
}

/// The questions of one file in the random order in which they are
/// evaluated: all of them once, shuffled, and on a coin flip one of them,
/// picked at random, a second time at the end.
pub fn evaluation_batch(tuples: Vec<QuizTuple>) -> (r: Vec<QuizTuple>)
    ensures
        r@.len() == tuples@.len() || r@.len() == tuples@.len() + 1,
        r@.take(tuples@.len() as int).to_multiset() == tuples@.to_multiset(),
        r@.len() == tuples@.len() + 1 ==> tuples@.contains(r@.last()),
{
    let ghost n = tuples@.len();
    let mut batch = tuples;
    shuffle(&mut batch);
    proof {
        batch@.to_multiset_ensures();
        tuples@.to_multiset_ensures();
        assert(batch@.len() == n);
    }
    let coin = random_below(2);
    let mut pick: Option<QuizTuple> = None;
    if coin == 1 {
        pick = match choose_one(&batch) {
            Some(t) => Some((t.0, t.1.clone(), t.2.clone())),
            None => None,
        };
    }
    proof {
        if pick is Some {
            let x = pick.unwrap();
            assert(batch@.contains(x));
            assert(batch@.to_multiset().count(x) > 0);
            assert(tuples@.to_multiset().count(x) > 0);
            assert(tuples@.contains(x));
        }
    }
    let ghost shuffled = batch@;
    let r = batch_with_pick(batch, coin, pick);
    proof {
        assert(r@.take(n as int) =~= shuffled);
    }
    r
}

} // verus!
