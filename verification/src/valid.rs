//! An accumulating-error validation result.
//!
//! A [`Valid`] carries either a value or a non-empty list of causes, each a
//! message with a trace of the steps it passed through. Unlike a plain
//! `Result`, the combinators [`Valid::zip`] and [`Valid::from_iter`] keep
//! going after a failure and collect every cause, so one malformed query
//! reports all of its bad fields at once; [`Valid::and_then`] short-circuits.

use vstd::prelude::*;

verus! {

/// One failure: a message and the trace of segments it passed through.
#[derive(Debug)]
pub struct Cause<E> {
    pub message: E,
    pub trace: Vec<String>,
}

/// The mathematical content of a [`Cause`]: the message value and the trace
/// as a sequence of character sequences.
#[verifier::ext_equal]
pub struct CauseV<E> {
    pub message: E,
    pub trace: Seq<Seq<char>>,
}

impl<E> View for Cause<E> {
    type V = CauseV<E>;

    open spec fn view(&self) -> CauseV<E> {
        CauseV { message: self.message, trace: self.trace.deep_view() }
    }
}

/// The view of a cause with `message` and no trace yet.
pub open spec fn cause_v<E>(message: E) -> CauseV<E> {
    CauseV { message, trace: Seq::<Seq<char>>::empty() }
}

/// The view of `c` after `prefix` was prepended to its trace.
pub open spec fn cause_traced<E>(c: CauseV<E>, prefix: Seq<char>) -> CauseV<E> {
    CauseV { message: c.message, trace: seq![prefix] + c.trace }
}

impl<E> Cause<E> {
    /// A cause with an empty trace.
    pub fn new(message: E) -> (r: Cause<E>)
        ensures
            r@ == cause_v(message),
    {
        let c = Cause { message, trace: Vec::new() };
        proof {
            assert(c@ =~= cause_v(c.message));
        }
        c
    }

    /// Replaces the trace of this cause.
    pub fn trace(self, trace: Vec<String>) -> (r: Cause<E>)
        ensures
            r@ == (CauseV { message: self@.message, trace: trace.deep_view() }),
    {
        Cause { message: self.message, trace }
    }
}

/// A non-ordered collection of causes; the error side of a [`Valid`].
#[derive(Debug)]
pub struct ValidationError<E>(Vec<Cause<E>>);

/// The views of every cause in `s`, in order.
pub open spec fn causes_view<E>(s: Seq<Cause<E>>) -> Seq<CauseV<E>> {
    s.map_values(|c: Cause<E>| c@)
}

impl<E> View for ValidationError<E> {
    type V = Seq<CauseV<E>>;

    closed spec fn view(&self) -> Seq<CauseV<E>> {
        causes_view(self.0@)
    }
}

impl<E> ValidationError<E> {
    /// The causes, in the order they were recorded.
    pub fn as_vec(&self) -> (r: &Vec<Cause<E>>)
        ensures
            causes_view(r@) == self@,
    {
        &self.0
    }

    /// All causes of `self`, then all causes of `other`.
    pub fn combine(self, other: ValidationError<E>) -> (r: ValidationError<E>)
        ensures
            r@ == self@ + other@,
    {
        let mut causes = self.0;
        let mut more = other.0;
        causes.append(&mut more);
        let r = ValidationError(causes);
        proof {
            assert(r@ =~= self@ + other@);
        }
        r
    }

    /// An error with no causes at all.
    pub fn empty() -> (r: ValidationError<E>)
        ensures
            r@ == Seq::<CauseV<E>>::empty(),
    {
        let r = ValidationError(Vec::new());
        proof {
            assert(r@ =~= Seq::<CauseV<E>>::empty());
        }
        r
    }

    /// An error holding exactly these causes, in order.
    pub fn from_causes(causes: Vec<Cause<E>>) -> (r: ValidationError<E>)
        ensures
            r@ == causes_view(causes@),
    {
        ValidationError(causes)
    }

    /// An error with the single cause `e`.
    pub fn new(e: E) -> (r: ValidationError<E>)
        ensures
            r@ == seq![cause_v(e)],
    {
        let mut causes = Vec::new();
        causes.push(Cause::new(e));
        let r = ValidationError(causes);
        proof {
            assert(r@ =~= seq![cause_v(r.0@[0]@.message)]);
        }
        r
    }

    /// True when there is no cause.
    pub fn is_empty(&self) -> (r: bool)
        ensures
            r == (self@.len() == 0),
    {
        self.0.len() == 0
    }

    /// Prepends `message` to the trace of every cause.
    pub fn trace(self, message: &str) -> (r: ValidationError<E>)
        ensures
            r@ == self@.map_values(|c: CauseV<E>| cause_traced(c, message@)),
    {
        let ghost orig = self.0@;
        let mut rest = self.0;
        let mut out: Vec<Cause<E>> = Vec::new();
        while rest.len() > 0
            invariant
                out@.len() + rest@.len() == orig.len(),
                rest@ == orig.skip(out@.len() as int),
                forall|i: int|
                    0 <= i < out@.len() ==> #[trigger] out@[i]@ == cause_traced(orig[i]@, message@),
            decreases rest@.len(),
        {
            let mut c = rest.remove(0);
            c.trace.insert(0, String::from_str(message));
            proof {
                assert(c.trace.deep_view() =~= seq![message@] + orig[out@.len() as int]@.trace);
            }
            out.push(c);
        }
        let r = ValidationError(out);
        proof {
            assert(r@ =~= self@.map_values(|c: CauseV<E>| cause_traced(c, message@)));
        }
        r
    }


    /// Maps every cause's message through `f`, keeping the traces.
    pub fn transform<E1, F: Fn(E) -> E1>(self, f: &F) -> (r: ValidationError<E1>)
        requires
            forall|i: int| 0 <= i < self@.len() ==> f.requires(((#[trigger] self@[i]).message,)),
        ensures
            r@.len() == self@.len(),
            forall|i: int| 0 <= i < self@.len() ==> {
                &&& (#[trigger] r@[i]).trace == self@[i].trace
                &&& f.ensures((self@[i].message,), r@[i].message)
            },
    {
        let ghost orig = self.0@;
        proof {
            assert(forall|i: int| 0 <= i < orig.len() ==> #[trigger] orig[i]@ == self@[i]);
        }
        let mut rest = self.0;
        let mut out: Vec<Cause<E1>> = Vec::new();
        while rest.len() > 0
            invariant
                out@.len() + rest@.len() == orig.len(),
                rest@ == orig.skip(out@.len() as int),
                forall|i: int|
                    0 <= i < orig.len() ==> f.requires(((#[trigger] orig[i])@.message,)),
                forall|i: int| 0 <= i < out@.len() ==> {
                    &&& (#[trigger] out@[i])@.trace == orig[i]@.trace
                    &&& f.ensures((orig[i]@.message,), out@[i]@.message)
                },
            decreases rest@.len(),
        {
            let c = rest.remove(0);
            let message = f(c.message);
            out.push(Cause { message, trace: c.trace });
        }
        ValidationError(out)
    }

    /// Adds one more cause with message `error` and no trace.
    pub fn append(self, error: E) -> (r: ValidationError<E>)
        ensures
            r@ == self@ + seq![cause_v(error)],
    {
        let mut causes = self.0;
        causes.push(Cause::new(error));
        let r = ValidationError(causes);
        proof {
            assert(r@ =~= self@ + seq![cause_v(r.0@[r.0@.len() - 1]@.message)]);
        }
        r
    }
}


/// The causes of a failed result view; a success contributes none.
pub open spec fn err_causes<B, E>(r: Result<B, Seq<CauseV<E>>>) -> Seq<CauseV<E>> {
    match r {
        Result::Ok(_) => Seq::<CauseV<E>>::empty(),
        Result::Err(cs) => cs,
    }
}

/// Every cause of every failure among `rs`, in order.
pub open spec fn all_causes<B, E>(rs: Seq<Result<B, Seq<CauseV<E>>>>) -> Seq<CauseV<E>>
    decreases rs.len(),
{
    if rs.len() == 0 {
        Seq::<CauseV<E>>::empty()
    } else {
        err_causes(rs[0]) + all_causes(rs.drop_first())
    }
}

/// How many of the results in `rs` failed.
pub open spec fn count_errs<B, E>(rs: Seq<Result<B, Seq<CauseV<E>>>>) -> nat
    decreases rs.len(),
{
    if rs.len() == 0 {
        0nat
    } else {
        (if rs[0] is Err { 1nat } else { 0nat }) + count_errs(rs.drop_first())
    }
}

proof fn lemma_all_causes_push<B, E>(rs: Seq<Result<B, Seq<CauseV<E>>>>, x: Result<B, Seq<CauseV<E>>>)
    ensures
        all_causes(rs.push(x)) == all_causes(rs) + err_causes(x),
        count_errs(rs.push(x)) == count_errs(rs) + (if x is Err { 1nat } else { 0nat }),
    decreases rs.len(),
{
    if rs.len() == 0 {
        assert(rs.push(x).drop_first() =~= rs);
        assert(all_causes(rs.push(x)) =~= err_causes(x));
        assert(all_causes(rs) + err_causes(x) =~= err_causes(x));
    } else {
        assert(rs.push(x).drop_first() =~= rs.drop_first().push(x));
        lemma_all_causes_push(rs.drop_first(), x);
        assert(all_causes(rs.push(x)) =~= all_causes(rs) + err_causes(x));
    }
}

/// Validation accumulates: when every failure among `rs` carries exactly one
/// cause, the combined error carries exactly one cause per failure, so a run
/// of field lookups of which some number fail reports exactly that many.
pub proof fn lemma_causes_count<B, E>(rs: Seq<Result<B, Seq<CauseV<E>>>>)
    requires
        forall|i: int| 0 <= i < rs.len() ==> (#[trigger] rs[i] matches Err(cs) ==> cs.len() == 1),
    ensures
        all_causes(rs).len() == count_errs(rs),
    decreases rs.len(),
{
    if rs.len() > 0 {
        assert(rs[0] matches Err(cs) ==> cs.len() == 1);
        lemma_causes_count(rs.drop_first());
    }
}

/// What holds of `r` when [`Valid::from_iter`] was applied to `xs` with `f`
/// and the element validations came back as `rs`: the values are kept in
/// order when all succeed, and otherwise every cause of every failure is
/// collected, in order.
pub open spec fn from_iter_rel<T, B, E, F: Fn(T) -> Valid<B, E>>(
    f: &F,
    xs: Seq<T>,
    rs: Seq<Valid<B, E>>,
    r: Valid<Vec<B>, E>,
) -> bool {
    &&& rs.len() == xs.len()
    &&& forall|i: int| 0 <= i < rs.len() ==> f.ensures((xs[i],), #[trigger] rs[i])
    &&& if forall|i: int| 0 <= i < rs.len() ==> (#[trigger] rs[i])@ is Ok {
        &&& r@ is Ok
        &&& r@->Ok_0@.len() == rs.len()
        &&& forall|i: int| 0 <= i < rs.len() ==> rs[i]@ == Result::<B, Seq<CauseV<E>>>::Ok(
            #[trigger] r@->Ok_0@[i],
        )
    } else {
        r@ == Result::<Vec<B>, Seq<CauseV<E>>>::Err(
            all_causes(rs.map_values(|v: Valid<B, E>| v@)),
        )
    }
}

/// Causes that carry exactly the given messages, in order, each traced
/// with the single segment `name`.
pub open spec fn traced_causes(
    cs: Seq<CauseV<String>>,
    msgs: Seq<Seq<char>>,
    name: Seq<char>,
) -> bool {
    &&& cs.len() == msgs.len()
    &&& forall|i: int|
        0 <= i < cs.len() ==> (#[trigger] cs[i]).trace == seq![name] && cs[i].message@ == msgs[i]
}

/// Causes that carry exactly the given messages, in order, with no
/// traces.
pub open spec fn message_causes(cs: Seq<CauseV<String>>, msgs: Seq<Seq<char>>) -> bool {
    &&& cs.len() == msgs.len()
    &&& forall|i: int|
        0 <= i < cs.len() ==> (#[trigger] cs[i]).trace.len() == 0 && cs[i].message@ == msgs[i]
}

impl ValidationError<String> {
/// The error as human-readable lines: a heading, then one bullet per
    /// cause with its message and its trace.
    #[verifier::loop_isolation(false)]
    pub fn render(&self) -> (r: String)
        ensures
            r@ == error_report(self@),
    {
        let mut out = String::from_str("Validation Error\n");
        let n = self.0.len();
        let mut i: usize = 0;
        proof {
            assert(self@.take(0) =~= Seq::<CauseV<String>>::empty());
            assert(forall|j: int|
                0 <= j < self.0@.len() ==> #[trigger] causes_view(self.0@)[j] == self.0@[j]@);
        }
        while i < n
            invariant
                i <= n,
                n == self.0@.len(),
                self@.len() == n,
                out@ == error_report(self@.take(i as int)),
            decreases n - i,
        {
            proof {
                assert(self@[i as int] == self.0@[i as int]@);
                assert(self@.take(i + 1).drop_last() =~= self@.take(i as int));
                assert(self@.take(i + 1).last() == self@[i as int]);
            }
            let c = &self.0[i];
            out.append("\u{2022} ");
            out.append(c.message.as_str());
            let m = c.trace.len();
            if m > 0 {
                out.append(" [");
                let mut k: usize = 0;
                let ghost base = out@;
                proof {
                    assert(c@.trace.skip(0) =~= c@.trace);
                }
                while k < m
                    invariant
                        k <= m,
                        m == c.trace@.len(),
                        c@.trace.len() == m,
                        m > 0,
                        base + trace_text(c@.trace) == (if k < m {
                            out@ + trace_text(c@.trace.skip(k as int))
                        } else {
                            out@
                        }),
                    decreases m - k,
                {
                    proof {
                        assert(c@.trace[k as int] == c.trace@[k as int]@);
                        assert(c@.trace.skip(k as int)[0] == c@.trace[k as int]);
                        if k + 1 < m {
                            assert(c@.trace.skip(k as int).drop_first() =~= c@.trace.skip(
                                k + 1,
                            ));
                            assert(c@.trace.skip(k as int).len() > 1);
                        } else {
                            assert(c@.trace.skip(k as int).len() == 1);
                        }
                    }
                    out.append(c.trace[k].as_str());
                    if k + 1 < m {
                        out.append(", ");
                    }
                    k = k + 1;
                }
                out.append("]");
            }
            out.append("\n");
            proof {
                assert(out@ =~= error_report(self@.take(i + 1)));
            }
            i = i + 1;
        }
        proof {
            assert(self@.take(n as int) =~= self@);
        }
        out
    }

    /// A fresh error with the same causes.
    pub fn duplicate(&self) -> (r: ValidationError<String>)
        ensures
            r@ == self@,
    {
        let n = self.0.len();
        let mut out: Vec<Cause<String>> = Vec::new();
        let mut i: usize = 0;
        while i < n
            invariant
                i <= n,
                n == self.0@.len(),
                out@.len() == i,
                forall|j: int| 0 <= j < i ==> (#[trigger] out@[j])@ == self.0@[j]@,
            decreases n - i,
        {
            let c = &self.0[i];
            let mut trace: Vec<String> = Vec::new();
            let m = c.trace.len();
            let mut k: usize = 0;
            while k < m
                invariant
                    k <= m,
                    m == c.trace@.len(),
                    trace@.len() == k,
                    forall|j: int| 0 <= j < k ==> (#[trigger] trace@[j])@ == c.trace@[j]@,
                decreases m - k,
            {
                trace.push(c.trace[k].clone());
                k = k + 1;
            }
            let copy = Cause { message: c.message.clone(), trace };
            proof {
                assert(copy@ =~= self.0@[i as int]@);
            }
            out.push(copy);
            i = i + 1;
        }
        let r = ValidationError(out);
        proof {
            assert(r@ =~= self@);
        }
        r
    }
}

/// The rendering of one cause's trace, joined with commas.
pub open spec fn trace_text(trace: Seq<Seq<char>>) -> Seq<char>
    decreases trace.len(),
{
    if trace.len() == 0 {
        Seq::<char>::empty()
    } else if trace.len() == 1 {
        trace[0]
    } else {
        trace[0] + ", "@ + trace_text(trace.drop_first())
    }
}

/// The rendering of one cause: a bullet, the message, and the trace in
/// brackets when there is one.
pub open spec fn cause_text(c: CauseV<String>) -> Seq<char> {
    "\u{2022} "@ + c.message@ + (if c.trace.len() > 0 {
        " ["@ + trace_text(c.trace) + "]"@
    } else {
        Seq::<char>::empty()
    }) + "\n"@
}

/// The rendering of a whole error: a heading, then one line per cause.
pub open spec fn error_report(cs: Seq<CauseV<String>>) -> Seq<char>
    decreases cs.len(),
{
    if cs.len() == 0 {
        "Validation Error\n"@
    } else {
        error_report(cs.drop_last()) + cause_text(cs.last())
    }
}

/// Either a value or an accumulated validation error.
pub struct Valid<A, E>(Result<A, ValidationError<E>>);

impl<A, E> View for Valid<A, E> {
    type V = Result<A, Seq<CauseV<E>>>;

    closed spec fn view(&self) -> Result<A, Seq<CauseV<E>>> {
        match self.0 {
            Ok(a) => Result::Ok(a),
            Err(e) => Result::Err(e@),
        }
    }
}

impl<A, E> Valid<A, E> {
    /// The success carrying `a`.
    pub fn succeed(a: A) -> (r: Valid<A, E>)
        ensures
            r@ == Result::<A, Seq<CauseV<E>>>::Ok(a),
    {
        Valid(Ok(a))
    }

    /// The failure with the single cause `e`.
    pub fn fail(e: E) -> (r: Valid<A, E>)
        ensures
            r@ == Result::<A, Seq<CauseV<E>>>::Err(seq![cause_v(e)]),
    {
        Valid(Err(ValidationError::new(e)))
    }

    /// The failure carrying every cause of `e` as it stands.
    pub fn from_validation_err(e: ValidationError<E>) -> (r: Valid<A, E>)
        ensures
            r@ == Result::<A, Seq<CauseV<E>>>::Err(e@),
    {
        Valid(Err(e))
    }

    /// `Some(a)` succeeds with `a`; `None` fails with the cause `e`.
    pub fn from_option(opt: Option<A>, e: E) -> (r: Valid<A, E>)
        ensures
            opt matches Some(a) ==> r@ == Result::<A, Seq<CauseV<E>>>::Ok(a),
            opt is None ==> r@ == Result::<A, Seq<CauseV<E>>>::Err(seq![cause_v(e)]),
    {
        match opt {
            Some(a) => Valid::succeed(a),
            None => Valid::fail(e),
        }
    }

    /// Lowers this validation to a plain result.
    pub fn to_result(self) -> (r: Result<A, ValidationError<E>>)
        ensures
            r matches Ok(a) ==> self@ == Result::<A, Seq<CauseV<E>>>::Ok(a),
            r matches Err(e) ==> self@ == Result::<A, Seq<CauseV<E>>>::Err(e@),
            r is Ok <==> self@ is Ok,
    {
        self.0
    }

    /// Combines two validations, keeping both values or every cause of both
    /// failures: unlike [`Valid::and_then`], a failure on one side does not
    /// hide the other side.
    pub fn zip<B>(self, other: Valid<B, E>) -> (r: Valid<(A, B), E>)
        ensures
            self@ matches Ok(a) ==> (other@ matches Ok(b) ==> r@ == Result::<(A, B), Seq<CauseV<E>>>::Ok((a, b))),
            self@ matches Err(c1) ==> (other@ is Ok ==> r@ == Result::<(A, B), Seq<CauseV<E>>>::Err(c1)),
            other@ matches Err(c2) ==> (self@ is Ok ==> r@ == Result::<(A, B), Seq<CauseV<E>>>::Err(c2)),
            self@ matches Err(c1) ==> (other@ matches Err(c2) ==> r@ == Result::<(A, B), Seq<CauseV<E>>>::Err(c1 + c2)),
    {
        match self.0 {
            Ok(a) => match other.0 {
                Ok(b) => Valid::succeed((a, b)),
                Err(e2) => Valid(Err(e2)),
            },
            Err(e1) => match other.0 {
                Ok(_) => Valid(Err(e1)),
                Err(e2) => Valid(Err(e1.combine(e2))),
            },
        }
    }

    /// The n-ary accumulating combination: the same as [`Valid::zip`], meant
    /// to be chained so that tuples nest on the left.
    pub fn fuse<B>(self, other: Valid<B, E>) -> (r: Valid<(A, B), E>)
        ensures
            self@ matches Ok(a) ==> (other@ matches Ok(b) ==> r@ == Result::<(A, B), Seq<CauseV<E>>>::Ok((a, b))),
            self@ matches Err(c1) ==> (other@ is Ok ==> r@ == Result::<(A, B), Seq<CauseV<E>>>::Err(c1)),
            other@ matches Err(c2) ==> (self@ is Ok ==> r@ == Result::<(A, B), Seq<CauseV<E>>>::Err(c2)),
            self@ matches Err(c1) ==> (other@ matches Err(c2) ==> r@ == Result::<(A, B), Seq<CauseV<E>>>::Err(c1 + c2)),
    {
        self.zip(other)
    }


    /// Applies `f` to the value of a success; keeps a failure as it is.
    pub fn map<B, F: FnOnce(A) -> B>(self, f: F) -> (r: Valid<B, E>)
        requires
            self@ matches Ok(a) ==> f.requires((a,)),
        ensures
            self@ matches Ok(a) ==> (r@ matches Ok(b) && f.ensures((a,), b)),
            self@ matches Err(cs) ==> r@ == Result::<B, Seq<CauseV<E>>>::Err(cs),
    {
        match self.0 {
            Ok(a) => Valid(Ok(f(a))),
            Err(e) => Valid(Err(e)),
        }
    }

    /// Chains a second validation after a success; a failure short-circuits,
    /// so `f` never runs and no further cause is collected.
    pub fn and_then<B, F: FnOnce(A) -> Valid<B, E>>(self, f: F) -> (r: Valid<B, E>)
        requires
            self@ matches Ok(a) ==> f.requires((a,)),
        ensures
            self@ matches Ok(a) ==> f.ensures((a,), r),
            self@ matches Err(cs) ==> r@ == Result::<B, Seq<CauseV<E>>>::Err(cs),
    {
        match self.0 {
            Ok(a) => f(a),
            Err(e) => Valid(Err(e)),
        }
    }


    /// Applies `f` to every element of `xs`, accumulating: every element is
    /// visited even after a failure, all values are kept in order when all
    /// succeed, and otherwise every cause of every failing element is
    /// collected, in order.
    pub fn from_iter<T, F: Fn(T) -> Valid<A, E>>(xs: Vec<T>, f: F) -> (r: Valid<Vec<A>, E>)
        requires
            forall|i: int| 0 <= i < xs@.len() ==> f.requires((#[trigger] xs@[i],)),
        ensures
            exists|rs: Seq<Valid<A, E>>| #[trigger] from_iter_rel(&f, xs@, rs, r),
    {
        let ghost orig = xs@;
        let mut rest = xs;
        let mut out: Vec<A> = Vec::new();
        let mut errs: ValidationError<E> = ValidationError::empty();
        let mut failed = false;
        let ghost mut rs: Seq<Valid<A, E>> = Seq::empty();
        proof {
            assert(rs.map_values(|v: Valid<A, E>| v@) =~= Seq::<Result<A, Seq<CauseV<E>>>>::empty());
        }
        while rest.len() > 0
            invariant
                rs.len() + rest@.len() == orig.len(),
                rest@ == orig.skip(rs.len() as int),
                forall|i: int| 0 <= i < orig.len() ==> f.requires((#[trigger] orig[i],)),
                forall|i: int| 0 <= i < rs.len() ==> f.ensures((orig[i],), #[trigger] rs[i]),
                failed ==> exists|i: int| 0 <= i < rs.len() && !((#[trigger] rs[i])@ is Ok),
                !failed ==> forall|i: int| 0 <= i < rs.len() ==> (#[trigger] rs[i])@ is Ok,
                errs@ == all_causes(rs.map_values(|v: Valid<A, E>| v@)),
                !failed ==> out@.len() == rs.len(),
                !failed ==> forall|i: int|
                    0 <= i < rs.len() ==> rs[i]@ == Result::<A, Seq<CauseV<E>>>::Ok(
                        #[trigger] out@[i],
                    ),
            decreases rest@.len(),
        {
            let x = rest.remove(0);
            proof {
                assert(x == orig[rs.len() as int]);
            }
            let v = f(x);
            let ghost gv = v;
            proof {
                lemma_all_causes_push(rs.map_values(|w: Valid<A, E>| w@), gv@);
                assert(rs.push(gv).map_values(|w: Valid<A, E>| w@) =~= rs.map_values(
                    |w: Valid<A, E>| w@,
                ).push(gv@));
            }
            match v.0 {
                Ok(a) => {
                    if !failed {
                        out.push(a);
                    }
                },
                Err(e) => {
                    failed = true;
                    errs = errs.combine(e);
                },
            }
            proof {
                let rs2 = rs.push(gv);
                assert(forall|i: int| 0 <= i < rs.len() ==> rs2[i] == #[trigger] rs[i]);
                assert(rs2[rs.len() as int] == gv);
                rs = rs2;
            }
        }
        let r = if failed {
            Valid(Err(errs))
        } else {
            Valid::succeed(out)
        };
        proof {
            assert(from_iter_rel(&f, orig, rs, r));
        }
        r
    }


    /// Maps every cause's message of a failure through `f`.
    pub fn map_err<E1, F: Fn(E) -> E1>(self, f: &F) -> (r: Valid<A, E1>)
        requires
            forall|i: int|
                0 <= i < err_causes(self@).len() ==> f.requires(
                    ((#[trigger] err_causes(self@)[i]).message,),
                ),
        ensures
            self@ matches Ok(a) ==> r@ == Result::<A, Seq<CauseV<E1>>>::Ok(a),
            self@ matches Err(cs) ==> (r@ matches Err(cs1) && cs1.len() == cs.len()
                && forall|i: int| 0 <= i < cs.len() ==> {
                    &&& (#[trigger] cs1[i]).trace == cs[i].trace
                    &&& f.ensures((cs[i].message,), cs1[i].message)
                }),
    {
        match self.0 {
            Ok(a) => Valid(Ok(a)),
            Err(e) => {
                proof {
                    assert(err_causes(self@) == e@);
                }
                Valid(Err(e.transform(f)))
            },
        }
    }

    /// Prepends `message` to the trace of every cause of a failure.
    pub fn trace(self, message: &str) -> (r: Valid<A, E>)
        ensures
            self@ matches Ok(a) ==> r@ == Result::<A, Seq<CauseV<E>>>::Ok(a),
            self@ matches Err(cs) ==> r@ == Result::<A, Seq<CauseV<E>>>::Err(
                cs.map_values(|c: CauseV<E>| cause_traced(c, message@)),
            ),
    {
        match self.0 {
            Ok(a) => Valid(Ok(a)),
            Err(e) => Valid(Err(e.trace(message))),
        }
    }
}

} // verus!
