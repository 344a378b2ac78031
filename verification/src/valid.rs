//! A validation either succeeds with a value or fails with diagnostics.

use crate::text::{join, joined, texts};
use vstd::prelude::*;

verus! {

/// What a validation is: a value, or the diagnostics of a failure in the
/// order in which they were found.
pub enum Validation<T> {
    Success(T),
    Failure(Seq<Seq<char>>),
}

impl<T> Validation<T> {
    /// A failure holds at least one diagnostic.
    pub open spec fn well_formed(self) -> bool {
        self matches Validation::Failure(diagnostics) ==> diagnostics.len() > 0
    }

    /// The validation as a result: the diagnostics of a failure become one
    /// message, one diagnostic per line.
    pub open spec fn collapsed(self) -> Result<T, Seq<char>> {
        match self {
            Validation::Success(value) => Ok(value),
            Validation::Failure(diagnostics) => Err(joined(diagnostics, "\n"@)),
        }
    }
}

/// The outcome of a validation. A failure never holds zero diagnostics.
pub struct Valid<T> {
    outcome: Result<T, Vec<String>>,
}

impl<T> View for Valid<T> {
    type V = Validation<T>;

    closed spec fn view(&self) -> Validation<T> {
        match self.outcome {
            Ok(value) => Validation::Success(value),
            Err(diagnostics) => Validation::Failure(texts(diagnostics@)),
        }
    }
}

impl<T> Valid<T> {
    #[verifier::type_invariant]
    spec fn failure_is_not_empty(self) -> bool {
        self.outcome matches Err(diagnostics) ==> diagnostics@.len() > 0
    }

    /// A validation that succeeded with `value`.
    pub fn succeed(value: T) -> (out: Self)
        ensures
            out@ == Validation::Success(value),
    {
        Valid { outcome: Ok(value) }
    }

    /// A validation that failed with one diagnostic.
    pub fn fail(diagnostic: String) -> (out: Self)
        ensures
            out@ == Validation::<T>::Failure(seq![diagnostic@]),
    {
        let mut diagnostics: Vec<String> = Vec::new();
        diagnostics.push(diagnostic);
        assert(texts(diagnostics@) =~= seq![diagnostic@]);
        Valid { outcome: Err(diagnostics) }
    }

    /// Whether the validation succeeded.
    pub fn is_succeed(&self) -> (yes: bool)
        ensures
            yes == (self@ is Success),
            self@.well_formed(),
    {
        proof {
            use_type_invariant(self);
        }
        self.outcome.is_ok()
    }

    /// Whether the validation failed. A failure holds at least one diagnostic.
    pub fn is_fail(&self) -> (yes: bool)
        ensures
            yes == (self@ is Failure),
            self@.well_formed(),
    {
        proof {
            use_type_invariant(self);
        }
        self.outcome.is_err()
    }

    /// Applies `f` to the value of a success. A failure keeps all its
    /// diagnostics, in their order, and `f` is not called.
    pub fn map<U, Fun: FnOnce(T) -> U>(self, f: Fun) -> (out: Valid<U>)
        requires
            self@ matches Validation::Success(value) ==> f.requires((value,)),
        ensures
            out@.well_formed(),
            self@ matches Validation::Success(value) ==> out@ is Success && f.ensures(
                (value,),
                out@->Success_0,
            ),
            self@ matches Validation::Failure(diagnostics) ==> out@ == Validation::<U>::Failure(
                diagnostics,
            ),
    {
        proof {
            use_type_invariant(&self);
        }
        match self.outcome {
            Ok(value) => Valid { outcome: Ok(f(value)) },
            Err(diagnostics) => Valid { outcome: Err(diagnostics) },
        }
    }

    /// Runs `f` on the value of a success and gives its validation. A failure
    /// keeps all its diagnostics, in their order, and `f` is not called.
    pub fn and_then<U, Fun: FnOnce(T) -> Valid<U>>(self, f: Fun) -> (out: Valid<U>)
        requires
            self@ matches Validation::Success(value) ==> f.requires((value,)),
        ensures
            out@.well_formed(),
            self@ matches Validation::Success(value) ==> f.ensures((value,), out),
            self@ matches Validation::Failure(diagnostics) ==> out@ == Validation::<U>::Failure(
                diagnostics,
            ),
    {
        proof {
            use_type_invariant(&self);
        }
        match self.outcome {
            Ok(value) => {
                let out = f(value);
                proof {
                    use_type_invariant(&out);
                }
                out
            },
            Err(diagnostics) => Valid { outcome: Err(diagnostics) },
        }
    }

    /// Collapses the validation into a result. The diagnostics of a failure
    /// are joined into one message, one per line.
    pub fn to_result(self) -> (out: Result<T, String>)
        ensures
            self@.well_formed(),
            match out {
                Ok(value) => self@.collapsed() == Ok::<T, Seq<char>>(value),
                Err(message) => self@.collapsed() == Err::<T, Seq<char>>(message@),
            },
    {
        proof {
            use_type_invariant(&self);
        }
        match self.outcome {
            Ok(value) => Ok(value),
            Err(diagnostics) => Err(join(&diagnostics, "\n")),
        }
    }
}

} // verus!
