//! Composable plan rewrites.
//!
//! A [`Transform`] turns a value into a validation of the same type; its
//! specification is the relation [`Transform::rel`] between the input and
//! the returned validation's view. [`Pipe`] runs one transform after
//! another, short-circuiting on failure; [`Identity`] leaves the value
//! alone; [`MapError`] rewrites the messages of a failure. Piping is
//! associative: [`lemma_pipe_associative`].

use vstd::prelude::*;

use crate::valid::CauseV;
use crate::valid::Valid;

verus! {

/// One rewriting step over values of one type.
pub trait Transform: Sized {
    type Value;

    type Error;

    /// When this transform is ready to run at all.
    spec fn wf(&self) -> bool;

    /// What this transform may return for `input`: the contract that
    /// `transform` establishes, phrased over the view of the result.
    spec fn rel(
        &self,
        input: Self::Value,
        output: Result<Self::Value, Seq<CauseV<Self::Error>>>,
    ) -> bool;

    /// Runs the transform.
    fn transform(&self, input: Self::Value) -> (r: Valid<Self::Value, Self::Error>)
        requires
            self.wf(),
        ensures
            self.rel(input, r@),
    ;
}

/// The transform that runs `A`, then `B` on its output; a failure of `A`
/// is returned as it stands and `B` never runs.
pub struct Pipe<A, B>(pub A, pub B);

impl<A: Transform, B: Transform<Value = A::Value, Error = A::Error>> Transform for Pipe<A, B> {
    type Value = A::Value;

    type Error = A::Error;

    open spec fn wf(&self) -> bool {
        self.0.wf() && self.1.wf()
    }

    open spec fn rel(
        &self,
        input: A::Value,
        output: Result<A::Value, Seq<CauseV<A::Error>>>,
    ) -> bool {
        ||| (exists|mid: A::Value|
            #[trigger] self.0.rel(input, Result::Ok(mid)) && self.1.rel(mid, output))
        ||| (exists|cs: Seq<CauseV<A::Error>>|
            #[trigger] self.0.rel(input, Result::Err(cs)) && output == Result::<
                A::Value,
                Seq<CauseV<A::Error>>,
            >::Err(cs))
    }

    fn transform(&self, input: A::Value) -> (r: Valid<A::Value, A::Error>) {
        let first = self.0.transform(input);
        match first.to_result() {
            Ok(mid) => {
                let ghost m = mid;
                let r = self.1.transform(mid);
                proof {
                    assert(self.0.rel(input, Result::Ok(m)));
                }
                r
            },
            Err(e) => {
                let ghost cs = e@;
                let r = Valid::from_validation_err(e);
                proof {
                    assert(self.0.rel(input, Result::Err(cs)));
                }
                r
            },
        }
    }
}

/// The transform that returns its input unchanged.
pub struct Identity<V, E>(core::marker::PhantomData<(V, E)>);

impl<V, E> Identity<V, E> {
    /// The identity transform.
    pub fn new() -> (r: Identity<V, E>) {
        Identity(core::marker::PhantomData)
    }
}

impl<V, E> Transform for Identity<V, E> {
    type Value = V;

    type Error = E;

    open spec fn wf(&self) -> bool {
        true
    }

    open spec fn rel(&self, input: V, output: Result<V, Seq<CauseV<E>>>) -> bool {
        output == Result::<V, Seq<CauseV<E>>>::Ok(input)
    }

    fn transform(&self, input: V) -> (r: Valid<V, E>) {
        Valid::succeed(input)
    }
}

/// The transform that runs `A` and maps each failure message through a
/// function, keeping values and traces.
pub struct MapError<A, F>(pub A, pub F);

impl<A: Transform, E, F: Fn(A::Error) -> E> Transform for MapError<A, F> {
    type Value = A::Value;

    type Error = E;

    open spec fn wf(&self) -> bool {
        &&& self.0.wf()
        &&& forall|e: A::Error| self.1.requires((e,))
    }

    open spec fn rel(
        &self,
        input: A::Value,
        output: Result<A::Value, Seq<CauseV<E>>>,
    ) -> bool {
        ||| (exists|v: A::Value|
            #[trigger] self.0.rel(input, Result::Ok(v)) && output == Result::<
                A::Value,
                Seq<CauseV<E>>,
            >::Ok(v))
        ||| (exists|cs: Seq<CauseV<A::Error>>|
            #[trigger] self.0.rel(input, Result::Err(cs)) && (output matches Result::Err(cs2)
                && cs2.len() == cs.len() && forall|i: int|
                0 <= i < cs.len() ==> (#[trigger] cs2[i]).trace == cs[i].trace && self.1.ensures(
                    (cs[i].message,),
                    cs2[i].message,
                )))
    }

    fn transform(&self, input: A::Value) -> (r: Valid<A::Value, E>) {
        let inner = self.0.transform(input);
        let ghost iv = inner@;
        let r = inner.map_err(&self.1);
        proof {
            if iv is Ok {
                assert(self.0.rel(input, Result::Ok(iv->Ok_0)));
            } else {
                assert(self.0.rel(input, Result::Err(iv->Err_0)));
            }
        }
        r
    }
}

/// Piping is associative: piping `a` before `b` and then `c` relates an
/// input to an output exactly when piping `a` before the pipe of `b` and
/// `c` does.
pub proof fn lemma_pipe_associative<
    A: Transform,
    B: Transform<Value = A::Value, Error = A::Error>,
    C: Transform<Value = A::Value, Error = A::Error>,
>(
    a: A,
    b: B,
    c: C,
    input: A::Value,
    output: Result<A::Value, Seq<CauseV<A::Error>>>,
)
    ensures
        Pipe(Pipe(a, b), c).rel(input, output) <==> Pipe(a, Pipe(b, c)).rel(input, output),
{
    let left = Pipe(Pipe(a, b), c);
    let right = Pipe(a, Pipe(b, c));
    if left.rel(input, output) {
        if exists|mid: A::Value|
            #[trigger] left.0.rel(input, Result::Ok(mid)) && left.1.rel(mid, output) {
            let mid = choose|mid: A::Value|
                #[trigger] left.0.rel(input, Result::Ok(mid)) && left.1.rel(mid, output);
            if exists|m0: A::Value| #[trigger] a.rel(input, Result::Ok(m0)) && b.rel(
                m0,
                Result::Ok(mid),
            ) {
                let m0 = choose|m0: A::Value|
                    #[trigger] a.rel(input, Result::Ok(m0)) && b.rel(m0, Result::Ok(mid));
                assert(right.1.0.rel(m0, Result::Ok(mid)));
                assert(right.1.rel(m0, output));
                assert(right.0.rel(input, Result::Ok(m0)));
                assert(right.rel(input, output));
            } else {
                let cs = choose|cs: Seq<CauseV<A::Error>>|
                    #[trigger] a.rel(input, Result::Err(cs)) && Result::<
                        A::Value,
                        Seq<CauseV<A::Error>>,
                    >::Ok(mid) == Result::<A::Value, Seq<CauseV<A::Error>>>::Err(cs);
                assert(false);
            }
        } else {
            let cs = choose|cs: Seq<CauseV<A::Error>>|
                #[trigger] left.0.rel(input, Result::Err(cs)) && output == Result::<
                    A::Value,
                    Seq<CauseV<A::Error>>,
                >::Err(cs);
            if exists|m0: A::Value| #[trigger] a.rel(input, Result::Ok(m0)) && b.rel(
                m0,
                Result::Err(cs),
            ) {
                let m0 = choose|m0: A::Value|
                    #[trigger] a.rel(input, Result::Ok(m0)) && b.rel(m0, Result::Err(cs));
                assert(right.1.0.rel(m0, Result::Err(cs)));
                assert(right.1.rel(m0, output));
                assert(right.0.rel(input, Result::Ok(m0)));
                assert(right.rel(input, output));
            } else {
                let cs0 = choose|cs0: Seq<CauseV<A::Error>>|
                    #[trigger] a.rel(input, Result::Err(cs0)) && Result::<
                        A::Value,
                        Seq<CauseV<A::Error>>,
                    >::Err(cs) == Result::<A::Value, Seq<CauseV<A::Error>>>::Err(cs0);
                assert(right.0.rel(input, Result::Err(cs0)));
                assert(right.rel(input, output));
            }
        }
    }
    if right.rel(input, output) {
        if exists|m0: A::Value|
            #[trigger] right.0.rel(input, Result::Ok(m0)) && right.1.rel(m0, output) {
            let m0 = choose|m0: A::Value|
                #[trigger] right.0.rel(input, Result::Ok(m0)) && right.1.rel(m0, output);
            if exists|mid: A::Value| #[trigger] b.rel(m0, Result::Ok(mid)) && c.rel(
                mid,
                output,
            ) {
                let mid = choose|mid: A::Value|
                    #[trigger] b.rel(m0, Result::Ok(mid)) && c.rel(mid, output);
                assert(left.0.0.rel(input, Result::Ok(m0)));
                assert(left.0.rel(input, Result::Ok(mid)));
                assert(left.rel(input, output));
            } else {
                let cs = choose|cs: Seq<CauseV<A::Error>>|
                    #[trigger] b.rel(m0, Result::Err(cs)) && output == Result::<
                        A::Value,
                        Seq<CauseV<A::Error>>,
                    >::Err(cs);
                assert(left.0.0.rel(input, Result::Ok(m0)));
                assert(left.0.rel(input, Result::Err(cs)));
                assert(left.rel(input, output));
            }
        } else {
            let cs = choose|cs: Seq<CauseV<A::Error>>|
                #[trigger] right.0.rel(input, Result::Err(cs)) && output == Result::<
                    A::Value,
                    Seq<CauseV<A::Error>>,
                >::Err(cs);
            assert(left.0.0.rel(input, Result::Err(cs)));
            assert(left.0.rel(input, Result::Err(cs)));
            assert(left.rel(input, output));
        }
    }
}

/// The identity is neutral for piping: piping the identity before or after
/// `t` relates inputs to outputs exactly as `t` does.
pub proof fn lemma_pipe_identity<T: Transform>(
    id: Identity<T::Value, T::Error>,
    t: T,
    input: T::Value,
    output: Result<T::Value, Seq<CauseV<T::Error>>>,
)
    ensures
        Pipe(id, t).rel(input, output) <==> t.rel(input, output),
        t.rel(input, output) ==> Pipe(t, id).rel(input, output),
{
    let before = Pipe(id, t);
    let after = Pipe(t, id);
    if t.rel(input, output) {
        assert(before.0.rel(input, Result::Ok(input)));
        assert(before.rel(input, output));
        match output {
            Result::Ok(v) => {
                assert(after.0.rel(input, Result::Ok(v)));
                assert(after.1.rel(v, output));
                assert(after.rel(input, output));
            },
            Result::Err(cs) => {
                assert(after.0.rel(input, Result::Err(cs)));
                assert(after.rel(input, output));
            },
        }
    }
    if before.rel(input, output) {
        if exists|mid: T::Value|
            #[trigger] before.0.rel(input, Result::Ok(mid)) && before.1.rel(mid, output) {
            let mid = choose|mid: T::Value|
                #[trigger] before.0.rel(input, Result::Ok(mid)) && before.1.rel(mid, output);
            assert(mid == input);
        } else {
            let cs = choose|cs: Seq<CauseV<T::Error>>|
                #[trigger] before.0.rel(input, Result::Err(cs)) && output == Result::<
                    T::Value,
                    Seq<CauseV<T::Error>>,
                >::Err(cs);
            assert(false);
        }
    }
}

} // verus!
