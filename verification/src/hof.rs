//! Higher-order helpers: mapping a function over a slice, composing two
//! functions, and currying an addition.

use vstd::prelude::*;

verus! {

/// Apply `func` to every element of `list`, in order.
pub fn my_map<T, U, F>(list: &[T], func: &F) -> (result: Vec<U>) where F: Fn(&T) -> U
    requires
        forall|i: int| 0 <= i < list@.len() ==> call_requires(*func, (&list@[i],)),
    ensures
        result@.len() == list@.len(),
        forall|i: int|
            0 <= i < list@.len() ==> call_ensures(*func, (&list@[i],), #[trigger] result@[i]),
{
    let mut result: Vec<U> = Vec::new();
    let mut j: usize = 0;
    while j < list.len()
        invariant
            j <= list@.len(),
            result@.len() == j,
            forall|i: int| 0 <= i < list@.len() ==> call_requires(*func, (&list@[i],)),
            forall|i: int|
                0 <= i < j ==> call_ensures(*func, (&list@[i],), #[trigger] result@[i]),
        decreases list@.len() - j,
    {
        result.push(func(&list[j]));
        j = j + 1;
    }
    result
}

/// Compose `f` after `g`: the returned function may be called wherever `g`
/// accepts the input and `f` accepts whatever `g` can return, and every one
/// of its results comes from chaining the two.
pub fn compose<F, G, A, B, C>(f: F, g: G) -> (h: impl Fn(&A) -> C) where
    F: Fn(B) -> C,
    G: Fn(&A) -> B,

    ensures
        forall|x: &A|
            (call_requires(g, (x,)) && (forall|b: B|
                call_ensures(g, (x,), b) ==> call_requires(f, (b,)))) ==> #[trigger] call_requires(
                h,
                (x,),
            ),
        forall|x: &A, c: C|
            #[trigger] call_ensures(h, (x,), c) ==> exists|b: B|
                call_ensures(g, (x,), b) && call_ensures(f, (b,), c),
{
    (move |x: &A| -> (c: C)
        requires
            call_requires(g, (x,)),
            forall|b: B| call_ensures(g, (x,), b) ==> call_requires(f, (b,)),
        ensures
            exists|b: B| call_ensures(g, (x,), b) && call_ensures(f, (b,), c),
        {
            f(g(x))
        })
}

/// Curried addition: `add(a)` is the function that adds `a`, callable
/// wherever the sum fits in an `i32`.
pub fn add(a: i32) -> (h: impl Fn(i32) -> i32)
    ensures
        forall|b: i32|
            i32::MIN <= a + b <= i32::MAX ==> #[trigger] call_requires(h, (b,)),
        forall|b: i32, r: i32| #[trigger] call_ensures(h, (b,), r) ==> r == a + b,
{
    (move |b: i32| -> (r: i32)
        requires
            i32::MIN <= a + b <= i32::MAX,
        ensures
            r == a + b,
        {
            a + b
        })
}

} // verus!
