//! The extraction of a handler's arguments from a request: one argument at
//! a time, in declared order, stopping at the first that fails.
use vstd::prelude::*;

verus! {

/// What an extraction in progress holds: how many arguments the handler
/// takes, the values extracted so far, and the error that stopped it.
pub struct ExtractionModel<T, E> {
    pub arity: nat,
    pub values: Seq<T>,
    pub error: Option<E>,
}

/// What extracting with the given outcomes, in order, gives: the first
/// error, else all the values.
pub open spec fn extract_all<T, E>(outcomes: Seq<Result<T, E>>) -> Result<Seq<T>, E>
    decreases outcomes.len(),
{
    if outcomes.len() == 0 {
        Ok(Seq::empty())
    } else {
        match outcomes[0] {
            Err(e) => Err(e),
            Ok(v) => match extract_all(outcomes.drop_first()) {
                Ok(vs) => Ok(seq![v] + vs),
                Err(e) => Err(e),
            },
        }
    }
}

/// The extraction of a handler's arguments.
pub struct Extraction<T, E> {
    arity: usize,
    values: Vec<T>,
    error: Option<E>,
}

impl<T, E> View for Extraction<T, E> {
    type V = ExtractionModel<T, E>;

    closed spec fn view(&self) -> ExtractionModel<T, E> {
        ExtractionModel { arity: self.arity as nat, values: self.values@, error: self.error }
    }
}

impl<T, E> Extraction<T, E> {
    /// Starts the extraction of `arity` arguments.
    pub fn new(arity: usize) -> (r: Extraction<T, E>)
        ensures
            r@ == (ExtractionModel::<T, E> { arity: arity as nat, values: Seq::empty(), error: None }),
    {
        Extraction { arity, values: Vec::new(), error: None }
    }

    /// The index of the argument to extract next; `None` once all are
    /// extracted or one has failed.
    pub fn next(&self) -> (r: Option<usize>)
        ensures
            r == if self@.error is None && self@.values.len() < self@.arity {
                Some(self@.values.len() as usize)
            } else {
                None::<usize>
            },
    {
        if self.error.is_none() && self.values.len() < self.arity {
            Some(self.values.len())
        } else {
            None
        }
    }

    /// Records what extracting the next argument gave.
    pub fn offer(&mut self, outcome: Result<T, E>)
        requires
            old(self)@.error is None,
            old(self)@.values.len() < old(self)@.arity,
        ensures
            final(self)@.arity == old(self)@.arity,
            match outcome {
                Ok(v) => final(self)@.values == old(self)@.values.push(v) && final(self)@.error is None,
                Err(e) => final(self)@.values == old(self)@.values && final(self)@.error == Some(e),
            },
    {
        match outcome {
            Ok(v) => self.values.push(v),
            Err(e) => self.error = Some(e),
        }
    }

    /// The extracted values, or the error that stopped the extraction;
    /// `None` (the extraction given back) while arguments remain.
    pub fn finish(self) -> (r: Result<Result<Vec<T>, E>, Extraction<T, E>>)
        ensures
            match self@.error {
                Some(e) => r == Ok::<Result<Vec<T>, E>, Extraction<T, E>>(Err(e)),
                None => if self@.values.len() == self@.arity {
                    r matches Ok(Ok(vs)) && vs@ == self@.values
                } else {
                    r matches Err(x) && x@ == self@
                },
            },
    {
        match self.error {
            Some(e) => Ok(Err(e)),
            None => {
                if self.values.len() == self.arity {
                    Ok(Ok(self.values))
                } else {
                    Err(Extraction { arity: self.arity, values: self.values, error: None })
                }
            },
        }
    }
}

/// Runs an extraction over outcomes given in order: each is offered while
/// `next` asks for one. The result is the first error, else all values, and
/// no outcome after the first error is looked at.
pub fn extract_in_order<T, E>(outcomes: Vec<Result<T, E>>) -> (r: Result<Vec<T>, E>)
    ensures
        match extract_all(outcomes@) {
            Ok(vs) => r matches Ok(v) && v@ == vs,
            Err(e) => r == Err::<Vec<T>, E>(e),
        },
{
    let n = outcomes.len();
    let ghost all = outcomes@;
    let mut ex: Extraction<T, E> = Extraction::new(n);
    let mut rest = outcomes;
    let mut i: usize = 0;
    proof {
        assert(all.subrange(0, 0) =~= Seq::<Result<T, E>>::empty());
    }
    while ex.next().is_some()
        invariant
            n == all.len(),
            ex@.arity == n,
            ex@.error is None ==> i == ex@.values.len(),
            i <= n,
            rest@ == all.subrange(i as int, n as int),
            extract_all(all.subrange(0, i as int)) == if ex@.error is None {
                Ok::<Seq<T>, E>(ex@.values)
            } else {
                Err::<Seq<T>, E>(ex@.error->Some_0)
            },
            ex@.error is Some ==> extract_all(all) == Err::<Seq<T>, E>(ex@.error->Some_0),
        decreases n - i,
    {
        let o = rest.remove(0);
        proof {
            lemma_extract_extend(all, i as int);
        }
        ex.offer(o);
        i = i + 1;
        proof {
            assert(rest@ =~= all.subrange(i as int, n as int));
            if ex@.error is Some {
                lemma_extract_prefix_error(all, i as int);
            }
        }
    }
    proof {
        if ex@.error is None {
            assert(all.subrange(0, i as int) =~= all);
        }
    }
    match ex.finish() {
        Ok(res) => res,
        Err(_) => vstd::pervasive::unreached(),
    }
}

proof fn lemma_extract_extend<T, E>(all: Seq<Result<T, E>>, i: int)
    requires
        0 <= i < all.len(),
    ensures
        extract_all(all.subrange(0, i + 1)) == match extract_all(all.subrange(0, i)) {
            Ok(vs) => match all[i] {
                Ok(v) => Ok(vs.push(v)),
                Err(e) => Err(e),
            },
            Err(e) => Err(e),
        },
    decreases i,
{
    let a = all.subrange(0, i + 1);
    if i == 0 {
        assert(a.drop_first() =~= Seq::<Result<T, E>>::empty());
        assert(all.subrange(0, 0) =~= Seq::<Result<T, E>>::empty());
        match all[0] {
            Ok(v) => {
                assert(seq![v] + Seq::<T>::empty() =~= Seq::<T>::empty().push(v));
            },
            Err(_) => {},
        }
    } else {
        let tail = all.drop_first();
        lemma_extract_extend(tail, i - 1);
        assert(a.drop_first() =~= tail.subrange(0, i));
        assert(all.subrange(0, i).drop_first() =~= tail.subrange(0, i - 1));
        match all[0] {
            Ok(v) => {
                match extract_all(tail.subrange(0, i - 1)) {
                    Ok(vs) => {
                        match all[i] {
                            Ok(w) => {
                                assert(seq![v] + vs.push(w) =~= (seq![v] + vs).push(w));
                            },
                            Err(_) => {},
                        }
                    },
                    Err(_) => {},
                }
            },
            Err(_) => {},
        }
    }
}

proof fn lemma_extract_prefix_error<T, E>(all: Seq<Result<T, E>>, i: int)
    requires
        0 <= i <= all.len(),
        extract_all(all.subrange(0, i)) is Err,
    ensures
        extract_all(all) == extract_all(all.subrange(0, i)),
    decreases i,
{
    if i == 0 {
        assert(all.subrange(0, 0) =~= Seq::<Result<T, E>>::empty());
    } else {
        let tail = all.drop_first();
        assert(all.subrange(0, i).drop_first() =~= tail.subrange(0, i - 1));
        assert(all.subrange(0, i)[0] == all[0]);
        if all[0] is Ok {
            lemma_extract_prefix_error(tail, i - 1);
        }
    }
}

} // verus!
