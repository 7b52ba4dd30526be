//! Fallible, order-preserving mapping over fixed-size arrays.
//!
//! [`ArrayExt`] extends `[T; N]` with [`try_map`](ArrayExt::try_map), which
//! feeds the elements of an array to a fallible transform, left to right, and
//! either builds a fully initialized output array or stops at the first
//! failure, and with [`map2`](ArrayExt::map2), the infallible variant.
//! The already produced outputs are owned by ordinary values throughout, so
//! they are dropped exactly once on every exit path, including an unwind of
//! the transform itself.

use vstd::prelude::*;

mod convert;

verus! {

/// Every output element is an outcome the transform allows for the
/// corresponding source element: `out[i]` is a possible `Ok` result of the
/// transform on `src[i]`, for every index.
pub open spec fn outputs_allowed<T, U, E, F: FnMut(T) -> Result<U, E>>(
    src: Seq<T>,
    f: F,
    out: Seq<U>,
) -> bool {
    &&& out.len() == src.len()
    &&& forall|i: int|
        0 <= i < src.len() ==> call_ensures(f, (src[i],), Ok::<U, E>(#[trigger] out[i]))
}

/// The transform has at least one successful outcome for the element `x`.
pub open spec fn can_succeed<T, U, E, F: FnMut(T) -> Result<U, E>>(f: F, x: T) -> bool {
    exists|u: U| call_ensures(f, (x,), Ok::<U, E>(u))
}

/// The transform can fail with `e` at index `k`, and can succeed on every
/// element before index `k`: the shape of every failing run that stops at the
/// first failure.
pub open spec fn first_failure_at<T, U, E, F: FnMut(T) -> Result<U, E>>(
    src: Seq<T>,
    f: F,
    e: E,
    k: int,
) -> bool {
    &&& 0 <= k < src.len()
    &&& call_ensures(f, (src[k],), Err::<U, E>(e))
    &&& forall|j: int| 0 <= j < k ==> #[trigger] can_succeed(f, src[j])
}

/// Some index of the source is a first failure point for the error value `e`.
pub open spec fn failure_allowed<T, U, E, F: FnMut(T) -> Result<U, E>>(
    src: Seq<T>,
    f: F,
    e: E,
) -> bool {
    exists|k: int| first_failure_at(src, f, e, k)
}

/// Every output element is an outcome the infallible transform allows for
/// the source element at the same index.
pub open spec fn mapped_outputs_allowed<T, U, F: FnMut(T) -> U>(
    src: Seq<T>,
    f: F,
    out: Seq<U>,
) -> bool {
    &&& out.len() == src.len()
    &&& forall|i: int| 0 <= i < src.len() ==> call_ensures(f, (src[i],), #[trigger] out[i])
}

/// Extension of `[T; N]` that adds fallible and infallible element-wise
/// mapping, consuming the array by value.
pub trait ArrayExt<T, const N: usize>: View<V = Seq<T>> + Sized {
    /// Fallible version of `map`: runs `f` on each element, left to right,
    /// and stops at the first error.
    ///
    /// On success every output element is an outcome `f` allows for the
    /// element at the same index. On failure the error is one that `f` allows
    /// at some index whose every predecessor `f` could map successfully; the
    /// outputs produced before that index are dropped before the call
    /// returns, and elements past it are never handed to `f`.
    fn try_map<F, U, E>(self, f: F) -> (r: Result<[U; N], E>) where F: FnMut(T) -> Result<U, E>
        requires
            forall|i: int| 0 <= i < self@.len() ==> call_requires(f, (#[trigger] self@[i],)),
        ensures
            match r {
                Ok(out) => outputs_allowed(self@, f, out@),
                Err(e) => failure_allowed(self@, f, e),
            },
    ;

    /// Infallible version of [`try_map`](ArrayExt::try_map): runs `f` on
    /// every element, left to right, and collects the outputs.
    ///
    /// Every output element is an outcome `f` allows for the element at the
    /// same index. If `f` unwinds, the outputs produced so far are dropped
    /// before the unwind continues past this call.
    fn map2<F, U>(self, f: F) -> (r: [U; N]) where F: FnMut(T) -> U
        requires
            forall|i: int| 0 <= i < self@.len() ==> call_requires(f, (#[trigger] self@[i],)),
        ensures
            mapped_outputs_allowed(self@, f, r@),
    ;
}

/// The core of the crate: consumes `src` left to right, feeds each element
/// to `f`, and collects the outputs, stopping at the first error.
///
/// The outputs produced so far live in the result vector, so on every exit
/// path — the error return as well as an unwind of `f` itself — they are
/// owned by exactly one place and dropped exactly once.
pub fn try_map_vec<T, U, E, F: FnMut(T) -> Result<U, E>>(src: Vec<T>, f: F) -> (r: Result<
    Vec<U>,
    E,
>)
    requires
        forall|i: int| 0 <= i < src@.len() ==> call_requires(f, (#[trigger] src@[i],)),
    ensures
        match r {
            Ok(out) => outputs_allowed(src@, f, out@),
            Err(e) => failure_allowed(src@, f, e),
        },
{
    let ghost s: Seq<T> = src@;
    let mut g = f;
    let mut rest: Vec<T> = src;
    let mut done: Vec<U> = Vec::new();
    while rest.len() > 0
        invariant
            g == f,
            s == src@,
            done@.len() + rest@.len() == s.len(),
            rest@ == s.subrange(done@.len() as int, s.len() as int),
            forall|i: int| 0 <= i < s.len() ==> call_requires(f, (#[trigger] s[i],)),
            forall|j: int|
                0 <= j < done@.len() ==> call_ensures(f, (s[j],), Ok::<U, E>(#[trigger] done@[j])),
        decreases rest@.len(),
    {
        let ghost k: int = done@.len() as int;
        let t = rest.remove(0);
        match g(t) {
            Ok(u) => {
                done.push(u);
            }
            Err(e) => {
                proof {
                    assert forall|j: int| 0 <= j < k implies #[trigger] can_succeed(f, s[j]) by {
                        assert(call_ensures(f, (s[j],), Ok::<U, E>(done@[j])));
                    }
                    assert(first_failure_at(s, f, e, k));
                    assert(failure_allowed(s, f, e));
                }
                return Err(e);
            }
        }
    }
    Ok(done)
}

/// The infallible core: consumes `src` left to right, feeds each element to
/// `f`, and collects the outputs.
pub fn map_vec<T, U, F: FnMut(T) -> U>(src: Vec<T>, f: F) -> (out: Vec<U>)
    requires
        forall|i: int| 0 <= i < src@.len() ==> call_requires(f, (#[trigger] src@[i],)),
    ensures
        mapped_outputs_allowed(src@, f, out@),
{
    let ghost s: Seq<T> = src@;
    let mut g = f;
    let mut rest: Vec<T> = src;
    let mut done: Vec<U> = Vec::new();
    while rest.len() > 0
        invariant
            g == f,
            s == src@,
            done@.len() + rest@.len() == s.len(),
            rest@ == s.subrange(done@.len() as int, s.len() as int),
            forall|i: int| 0 <= i < s.len() ==> call_requires(f, (#[trigger] s[i],)),
            forall|j: int| 0 <= j < done@.len() ==> call_ensures(f, (s[j],), #[trigger] done@[j]),
        decreases rest@.len(),
    {
        let t = rest.remove(0);
        let u = g(t);
        done.push(u);
    }
    done
}

impl<T, const N: usize> ArrayExt<T, N> for [T; N] {
    fn try_map<F, U, E>(self, f: F) -> (r: Result<[U; N], E>) where F: FnMut(T) -> Result<U, E> {
        match try_map_vec(convert::array_into_vec(self), f) {
            Ok(done) => match convert::vec_into_array::<U, N>(done) {
                Ok(out) => Ok(out),
                Err(_) => vstd::pervasive::unreached(),
            },
            Err(e) => Err(e),
        }
    }

    fn map2<F, U>(self, f: F) -> (r: [U; N]) where F: FnMut(T) -> U {
        let done = map_vec(convert::array_into_vec(self), f);
        match convert::vec_into_array::<U, N>(done) {
            Ok(out) => out,
            Err(_) => vstd::pervasive::unreached(),
        }
    }
}

/// A transform that can only succeed admits no failing run: no error value
/// can emerge from mapping any source with it.
pub proof fn lemma_infallible_never_fails<T, U, E, F: FnMut(T) -> Result<U, E>>(
    src: Seq<T>,
    f: F,
    e: E,
)
    requires
        forall|x: T, y: Result<U, E>| #[trigger] call_ensures(f, (x,), y) ==> y is Ok,
    ensures
        !failure_allowed(src, f, e),
{
    if failure_allowed(src, f, e) {
        let k = choose|k: int| first_failure_at(src, f, e, k);
        assert(call_ensures(f, (src[k],), Err::<U, E>(e)));
    }
}

/// A deterministic transform whose only outcome on `x` is `Ok(m(x))` maps the
/// source pointwise: an allowed output sequence is exactly the source mapped
/// through `m`, element by element, in order.
pub proof fn lemma_deterministic_outputs<T, U, E, F: FnMut(T) -> Result<U, E>>(
    src: Seq<T>,
    f: F,
    out: Seq<U>,
    m: spec_fn(T) -> U,
)
    requires
        outputs_allowed(src, f, out),
        forall|x: T, y: Result<U, E>| #[trigger] call_ensures(f, (x,), y) ==> y == Ok::<U, E>(
            m(x),
        ),
    ensures
        out == src.map_values(m),
{
    assert forall|i: int| 0 <= i < src.len() implies out[i] == m(src[i]) by {
        assert(call_ensures(f, (src[i],), Ok::<U, E>(out[i])));
    }
    assert(out =~= src.map_values(m));
}

/// The [`map2`](ArrayExt::map2) counterpart of
/// [`lemma_deterministic_outputs`]: a deterministic infallible transform maps
/// the source pointwise.
pub proof fn lemma_deterministic_map<T, U, F: FnMut(T) -> U>(
    src: Seq<T>,
    f: F,
    out: Seq<U>,
    m: spec_fn(T) -> U,
)
    requires
        mapped_outputs_allowed(src, f, out),
        forall|x: T, y: U| #[trigger] call_ensures(f, (x,), y) ==> y == m(x),
    ensures
        out == src.map_values(m),
{
    assert forall|i: int| 0 <= i < src.len() implies out[i] == m(src[i]) by {
        assert(call_ensures(f, (src[i],), out[i]));
    }
    assert(out =~= src.map_values(m));
}

/// Short-circuit: with a deterministic transform, the only error value that
/// can emerge is the one produced at the first failing index — every index
/// before it maps successfully.
pub proof fn lemma_first_failure_deterministic<T, U, E, F: FnMut(T) -> Result<U, E>>(
    src: Seq<T>,
    f: F,
    e: E,
    m: spec_fn(T) -> Result<U, E>,
)
    requires
        failure_allowed(src, f, e),
        forall|x: T, y: Result<U, E>| #[trigger] call_ensures(f, (x,), y) ==> y == m(x),
    ensures
        exists|k: int|
            {
                &&& 0 <= k < src.len()
                &&& m(src[k]) == Err::<U, E>(e)
                &&& forall|j: int| 0 <= j < k ==> (#[trigger] m(src[j])) is Ok
            },
{
    let k = choose|k: int| first_failure_at(src, f, e, k);
    assert(call_ensures(f, (src[k],), Err::<U, E>(e)));
    assert forall|j: int| 0 <= j < k implies (#[trigger] m(src[j])) is Ok by {
        assert(can_succeed(f, src[j]));
        let u = choose|u: U| call_ensures(f, (src[j],), Ok::<U, E>(u));
        assert(m(src[j]) == Ok::<U, E>(u));
    }
    assert({
        &&& 0 <= k < src.len()
        &&& m(src[k]) == Err::<U, E>(e)
        &&& forall|j: int| 0 <= j < k ==> (#[trigger] m(src[j])) is Ok
    });
}

/// A zero-length source: no failure is possible, and the one allowed output
/// sequence is the empty one — so mapping an empty array always succeeds
/// with an empty array.
pub proof fn lemma_empty_source<T, U, E, F: FnMut(T) -> Result<U, E>>(src: Seq<T>, f: F, e: E)
    requires
        src.len() == 0,
    ensures
        !failure_allowed(src, f, e),
        forall|out: Seq<U>| #[trigger] outputs_allowed(src, f, out) ==> out == Seq::<U>::empty(),
{
    if failure_allowed(src, f, e) {
        let k = choose|k: int| first_failure_at(src, f, e, k);
        assert(0 <= k < src.len());
    }
    assert forall|out: Seq<U>| #[trigger] outputs_allowed(src, f, out) implies out
        == Seq::<U>::empty() by {
        assert(out =~= Seq::<U>::empty());
    }
}

} // verus!
