//! Mapping a sequence through a function that can fail.

use vstd::prelude::*;

verus! {

/// The images of all elements, or the error of the first element that has one.
pub open spec fn collected<T, U, E>(s: Seq<T>, f: spec_fn(T) -> Result<U, E>) -> Result<Seq<U>, E>
    decreases s.len(),
{
    if s.len() == 0 {
        Ok(Seq::empty())
    } else {
        match collected(s.drop_last(), f) {
            Err(e) => Err(e),
            Ok(done) => match f(s.last()) {
                Err(e) => Err(e),
                Ok(u) => Ok(done.push(u)),
            },
        }
    }
}

pub proof fn lemma_collected_push<T, U, E>(s: Seq<T>, x: T, f: spec_fn(T) -> Result<U, E>)
    ensures
        collected(s.push(x), f) == match collected(s, f) {
            Err(e) => Err(e),
            Ok(done) => match f(x) {
                Err(e) => Err(e),
                Ok(u) => Ok::<Seq<U>, E>(done.push(u)),
            },
        },
{
    assert(s.push(x).drop_last() =~= s);
}

/// The error of a prefix is the error of the whole.
pub proof fn lemma_collected_prefix<T, U, E>(
    s: Seq<T>,
    n: int,
    f: spec_fn(T) -> Result<U, E>,
)
    requires
        0 <= n <= s.len(),
    ensures
        collected(s.take(n), f) matches Err(e) ==> collected(s, f) == Err::<Seq<U>, E>(e),
    decreases s.len(),
{
    if n == s.len() {
        assert(s.take(n) =~= s);
    } else {
        lemma_collected_prefix(s.drop_last(), n, f);
        assert(s.drop_last().take(n) =~= s.take(n));
    }
}

/// Where all images exist, they stand at the places of their elements.
pub proof fn lemma_collected_ok<T, U, E>(s: Seq<T>, f: spec_fn(T) -> Result<U, E>)
    ensures
        collected(s, f) matches Ok(done) ==> done.len() == s.len() && forall|i: int|
            0 <= i < s.len() ==> f(s[i]) == Ok::<U, E>(#[trigger] done[i]),
    decreases s.len(),
{
    if s.len() > 0 {
        lemma_collected_ok(s.drop_last(), f);
        match collected(s, f) {
            Ok(done) => {
                let rest = collected(s.drop_last(), f)->Ok_0;
                assert forall|i: int| 0 <= i < s.len() implies f(s[i]) == Ok::<U, E>(
                    #[trigger] done[i],
                ) by {
                    if i < s.len() - 1 {
                        assert(done[i] == rest[i]);
                        assert(s.drop_last()[i] == s[i]);
                    }
                }
            },
            Err(_) => {},
        }
    }
}

/// Where an image is missing, the error is that of the first element without
/// one.
pub proof fn lemma_collected_err<T, U, E>(s: Seq<T>, f: spec_fn(T) -> Result<U, E>) -> (k: int)
    ensures
        collected(s, f) matches Err(e) ==> 0 <= k < s.len() && f(s[k]) == Err::<U, E>(e)
            && forall|i: int| 0 <= i < k ==> f(#[trigger] s[i]) is Ok,
        (forall|i: int| 0 <= i < s.len() ==> f(#[trigger] s[i]) is Ok) ==> collected(s, f) is Ok,
    decreases s.len(),
{
    if s.len() == 0 {
        0
    } else {
        let rest = s.drop_last();
        let n = s.len() - 1;
        let k = lemma_collected_err(rest, f);
        lemma_collected_ok(rest, f);
        assert(s[n] == s.last());
        assert(forall|i: int| 0 <= i < n ==> #[trigger] s[i] == rest[i]);
        assert(forall|i: int| 0 <= i < n ==> #[trigger] rest[i] == s[i]);
        if collected(rest, f) is Err {
            k
        } else {
            assert forall|i: int| 0 <= i < n implies f(#[trigger] s[i]) is Ok by {
                let done = collected(rest, f)->Ok_0;
                assert(f(rest[i]) == Ok::<U, E>(done[i]));
            }
            n
        }
    }
}

} // verus!
