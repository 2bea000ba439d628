//! The error of every fallible operation: a message, with its causes appended.
use vstd::prelude::*;
use vstd::string::*;

verus! {

/// A refusal, described by its message.
#[derive(Clone, Debug, PartialEq, Eq)]
pub struct Error {
    pub message: String,
}

impl DeepView for Error {
    type V = Seq<char>;

    open spec fn deep_view(&self) -> Seq<char> {
        self.message@
    }
}

/// The outcome of a fallible operation, over models.
pub open spec fn outcome<T: DeepView>(r: Result<T, Error>) -> Result<T::V, Seq<char>> {
    match r {
        Ok(x) => Ok(x.deep_view()),
        Err(e) => Err(e.deep_view()),
    }
}

/// `cause` described in a wider setting.
pub open spec fn in_context(context: Seq<char>, cause: Seq<char>) -> Seq<char> {
    context + ": "@ + cause
}

impl Error {
    pub fn new(message: &str) -> (e: Error)
        ensures
            e.deep_view() == message@,
    {
        Error { message: String::from_str(message) }
    }

    pub fn of(message: String) -> (e: Error)
        ensures
            e.deep_view() == message@,
    {
        Error { message }
    }

    /// The same refusal, with what was being done in front of it.
    pub fn context(self, context: &str) -> (e: Error)
        ensures
            e.deep_view() == in_context(context@, self.deep_view()),
    {
        let mut message = String::from_str(context);
        message.append(": ");
        message.append(self.message.as_str());
        Error { message }
    }

    /// The message with all its causes.
    pub fn message(&self) -> (m: &str)
        ensures
            m@ == self.deep_view(),
    {
        self.message.as_str()
    }
}

/// The first refusal when items are checked in order.
pub open spec fn first_refusal<T>(items: Seq<T>, check: spec_fn(T) -> Result<(), Seq<char>>) -> Result<(), Seq<char>>
    decreases items.len(),
{
    if items.len() == 0 {
        Ok(())
    } else {
        match first_refusal(items.drop_last(), check) {
            Err(e) => Err(e),
            Ok(_) => check(items.last()),
        }
    }
}

/// A refusal among the first items is the refusal of all.
pub proof fn refusal_stands<T>(items: Seq<T>, check: spec_fn(T) -> Result<(), Seq<char>>, n: int)
    requires
        0 <= n <= items.len(),
        first_refusal(items.take(n), check) is Err,
    ensures
        first_refusal(items, check) == first_refusal(items.take(n), check),
    decreases items.len(),
{
    if n < items.len() {
        assert(items.drop_last().take(n) =~= items.take(n));
        refusal_stands(items.drop_last(), check, n);
    } else {
        crate::model::take_all(items);
    }
}

/// Checking one item more.
pub proof fn refusal_step<T>(items: Seq<T>, check: spec_fn(T) -> Result<(), Seq<char>>, n: int)
    requires
        0 <= n < items.len(),
        first_refusal(items.take(n), check) is Ok,
    ensures
        first_refusal(items.take(n + 1), check) == check(items[n]),
        check(items[n]) is Err ==> first_refusal(items, check) == check(items[n]),
{
    assert(items.take(n + 1).drop_last() =~= items.take(n));
    if check(items[n]) is Err {
        refusal_stands(items, check, n + 1);
    }
}

/// Nothing is refused exactly where every item passes.
pub proof fn no_refusal<T>(items: Seq<T>, check: spec_fn(T) -> Result<(), Seq<char>>)
    ensures
        first_refusal(items, check) is Ok <==> forall|i: int| 0 <= i < items.len() ==> check(#[trigger] items[i]) is Ok,
    decreases items.len(),
{
    if items.len() > 0 {
        let d = items.drop_last();
        no_refusal(d, check);
        if first_refusal(items, check) is Ok {
            assert forall|i: int| 0 <= i < items.len() implies check(#[trigger] items[i]) is Ok by {
                if i < d.len() {
                    assert(d[i] == items[i]);
                }
            }
        } else if first_refusal(d, check) is Err {
            let i = choose|i: int| 0 <= i < d.len() && !(check(#[trigger] d[i]) is Ok);
            assert(check(items[i]) is Err);
        } else {
            assert(check(items[items.len() - 1]) is Err);
        }
    }
}

} // verus!
