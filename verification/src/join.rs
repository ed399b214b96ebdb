//! Waiting for several tasks.
use std::future::Future;
use vstd::future::*;
use vstd::prelude::*;

verus! {

/// Waits for each of `futures` by `wait`, and gives what the waits gave, in the
/// order of the futures.
pub fn join<F, T, W: Fn(F) -> T>(futures: Vec<F>, wait: W) -> (results: Vec<T>)
    requires
        forall|i: int| 0 <= i < futures@.len() ==> call_requires(wait, (#[trigger] futures@[i],)),
    ensures
        results@.len() == futures@.len(),
        forall|i: int|
            0 <= i < futures@.len() ==> call_ensures(
                wait,
                (futures@[i],),
                #[trigger] results@[i],
            ),
{
    let mut results: Vec<T> = Vec::new();
    for future in it: futures
        invariant
            it.seq() == futures@,
            results@.len() == it.index(),
            forall|i: int|
                0 <= i < futures@.len() ==> call_requires(wait, (#[trigger] futures@[i],)),
            forall|i: int|
                0 <= i < results@.len() ==> call_ensures(
                    wait,
                    (futures@[i],),
                    #[trigger] results@[i],
                ),
    {
        results.push(wait(future));
    }
    results
}

/// Waiting by awaiting: where a wait gives what the future gives, a join gives
/// the outputs of the futures, in their order.
pub proof fn law_join_gives_the_outputs_in_order<F: Future<Output = T>, T, W: Fn(F) -> T>(
    futures: Vec<F>,
    wait: W,
    results: Vec<T>,
)
    requires
        call_ensures(join::<F, T, W>, (futures, wait), results),
        forall|future: F, output: T|
            call_ensures(wait, (future,), output) ==> output == future@,
    ensures
        results@.len() == futures@.len(),
        forall|i: int| 0 <= i < futures@.len() ==> #[trigger] results@[i] == futures@[i]@,
{
}

} // verus!
