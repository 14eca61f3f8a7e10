//! Deserialization helpers: the wrapper that carries a value deserialized
//! through an adapter type, and the reading of `std::time::Duration` values
//! from integers and strings.

use crate::number::{lemma_parse_unsigned_range, parse_u64, parse_unsigned};
use crate::strings::{spec_split, split_by, strings_view};
use crate::utils::{fraction_nanos, spec_fraction_nanos, SecondsStrError, NANOS_PER_SEC};
use std::marker::PhantomData;
use vstd::prelude::*;

verus! {

/// A value of type `T` that was deserialized as the adapter type `U`.
#[derive(Debug)]
pub struct DeserializeAsWrap<T, U> {
    pub value: T,
    pub marker: PhantomData<U>,
}

impl<T, U> DeserializeAsWrap<T, U> {
    /// Wrap a deserialized value.
    pub fn new(value: T) -> (w: Self)
        ensures
            w.value == value,
    {
        DeserializeAsWrap { value, marker: PhantomData }
    }

    /// The deserialized value.
    pub fn into_inner(self) -> (v: T)
        ensures
            v == self.value,
    {
        self.value
    }
}

/// The elements read so far of a sequence being deserialized into a `Vec`.
///
/// The reader is handed each next element as the format yields it, and says
/// whether reading goes on; at the end it gives the elements in order.
#[derive(Debug)]
pub struct SeqReader<T> {
    values: Vec<T>,
}

impl<T> View for SeqReader<T> {
    type V = Seq<T>;

    open spec fn view(&self) -> Seq<T> {
        self.spec_values()
    }
}

impl<T> SeqReader<T> {
    /// The elements read so far, in order.
    pub closed spec fn spec_values(&self) -> Seq<T> {
        self.values@
    }

    /// A reader with no elements yet, with room for the announced number of
    /// them, but never for more than 4096.
    pub fn with_size_hint(hint: Option<usize>) -> (r: Self)
        ensures
            r@ == Seq::<T>::empty(),
    {
        SeqReader { values: Vec::with_capacity(crate::utils::size_hint_cautious(hint)) }
    }

    /// Take the next element of the sequence, or its end: an element is kept
    /// and reading goes on; the end stops it.
    pub fn step(&mut self, next: Option<T>) -> (more: bool)
        ensures
            more == next is Some,
            match next {
                Some(v) => final(self)@ == old(self)@.push(v),
                None => final(self)@ == old(self)@,
            },
    {
        match next {
            Some(v) => {
                self.values.push(v);
                true
            },
            None => false,
        }
    }

    /// Take the outcome of reading the next element: an element is kept and
    /// reading goes on; the end stops it; an element that failed to
    /// deserialize stops it with that element's error, so that no later
    /// element is read.
    pub fn step_element<E>(&mut self, next: Option<Result<T, E>>) -> (r: Result<bool, E>)
        ensures
            match next {
                Some(Ok(v)) => r == Ok::<bool, E>(true) && final(self)@ == old(self)@.push(v),
                Some(Err(e)) => r == Err::<bool, E>(e) && final(self)@ == old(self)@,
                None => r == Ok::<bool, E>(false) && final(self)@ == old(self)@,
            },
    {
        match next {
            Some(Ok(v)) => {
                self.values.push(v);
                Ok(true)
            },
            Some(Err(e)) => Err(e),
            None => Ok(false),
        }
    }

    /// The elements read, in order.
    pub fn finish(self) -> (v: Vec<T>)
        ensures
            v@ == self@,
    {
        self.values
    }
}

/// Reads a `std::time::Duration`, as whole seconds and nanoseconds, from an
/// integer or from a string holding a number.
#[derive(Debug)]
pub struct DurationVisitiorFlexible;

/// Why a number cannot be a `std::time::Duration`.
#[derive(Debug, Clone, Copy, PartialEq, Eq)]
pub enum NegativeDuration {
    /// The number of seconds is negative.
    Negative,
}

/// The duration that a string stands for: whole seconds, optionally followed
/// by a `.` and the digits of a fraction of a second.
pub open spec fn spec_duration_from_str(s: Seq<char>) -> Result<(u64, u32), SecondsStrError> {
    let parts = spec_split(s, seq!['.']);
    if parts.len() == 1 {
        match parse_unsigned(parts[0], u64::MAX as int) {
            Some(v) => Ok((v as u64, 0u32)),
            None => Err(SecondsStrError::InvalidValue),
        }
    } else if parts.len() == 2 {
        match parse_unsigned(parts[0], u64::MAX as int) {
            Some(v) => match spec_fraction_nanos(parts[1]) {
                Ok(n) => Ok((v as u64, n)),
                Err(e) => Err(e),
            },
            None => Err(SecondsStrError::InvalidValue),
        }
    } else {
        Err(SecondsStrError::InvalidValue)
    }
}

impl DurationVisitiorFlexible {
    /// A signed number of seconds: negative values are refused.
    pub fn visit_i64(&self, value: i64) -> (r: Result<(u64, u32), NegativeDuration>)
        ensures
            value >= 0 ==> r == Ok::<(u64, u32), NegativeDuration>((value as u64, 0u32)),
            value < 0 ==> r == Err::<(u64, u32), NegativeDuration>(NegativeDuration::Negative),
    {
        if value >= 0 {
            Ok((value as u64, 0))
        } else {
            Err(NegativeDuration::Negative)
        }
    }

    /// An unsigned number of seconds.
    pub fn visit_u64(&self, secs: u64) -> (r: (u64, u32))
        ensures
            r == (secs, 0u32),
    {
        (secs, 0)
    }

    /// A string holding whole seconds, optionally with a fraction of up to
    /// nine digits.
    pub fn visit_str(&self, value: &str) -> (r: Result<(u64, u32), SecondsStrError>)
        ensures
            r == spec_duration_from_str(value@),
            r matches Ok((_, n)) ==> n < NANOS_PER_SEC,
    {
        proof {
            reveal_strlit(".");
        }
        let dot = ".";
        assert(dot@ =~= seq!['.']);
        let parts = split_by(value, dot);
        assert(strings_view(parts@) == spec_split(value@, seq!['.']));
        if parts.len() == 1 {
            assert(parts[0]@ == strings_view(parts@)[0]);
            proof {
                lemma_parse_unsigned_range(parts[0]@, u64::MAX as int);
            }
            match parse_u64(parts[0].as_str()) {
                Some(secs) => Ok((secs, 0)),
                None => Err(SecondsStrError::InvalidValue),
            }
        } else if parts.len() == 2 {
            assert(parts[0]@ == strings_view(parts@)[0]);
            assert(parts[1]@ == strings_view(parts@)[1]);
            proof {
                lemma_parse_unsigned_range(parts[0]@, u64::MAX as int);
            }
            match parse_u64(parts[0].as_str()) {
                Some(secs) => match fraction_nanos(parts[1].as_str()) {
                    Ok(nanos) => Ok((secs, nanos)),
                    Err(e) => Err(e),
                },
                None => Err(SecondsStrError::InvalidValue),
            }
        } else {
            Err(SecondsStrError::InvalidValue)
        }
    }
}

/// Why the elements do not fill an array.
#[derive(Debug, PartialEq, Eq)]
pub enum ArrayError<E> {
    /// An element failed to deserialize.
    Element(E),
    /// The sequence ended after this many elements.
    InvalidLength(usize),
}

/// The array filled from the elements at positions `i` to `n`: the values in
/// order, or the first error, or the length at which the elements ran out.
pub open spec fn spec_fill_from<T, E>(items: Seq<Result<T, E>>, n: int, i: int) -> Result<
    Seq<T>,
    ArrayError<E>,
>
    decreases n - i,
{
    if i < 0 || i >= n {
        Ok(Seq::empty())
    } else if i >= items.len() {
        Err(ArrayError::InvalidLength(i as usize))
    } else {
        match items[i] {
            Err(e) => Err(ArrayError::Element(e)),
            Ok(v) => match spec_fill_from(items, n, i + 1) {
                Ok(rest) => Ok(seq![v] + rest),
                Err(x) => Err(x),
            },
        }
    }
}

/// The values of elements that all deserialized.
pub open spec fn ok_values<T, E>(items: Seq<Result<T, E>>) -> Seq<T> {
    items.map_values(|r: Result<T, E>| r->Ok_0)
}

proof fn lemma_fill_prefix<T, E>(items: Seq<Result<T, E>>, n: int, i: int)
    requires
        0 <= i <= n,
        i <= items.len(),
        forall|j: int| 0 <= j < i ==> (#[trigger] items[j]) is Ok,
    ensures
        spec_fill_from(items, n, 0) == match spec_fill_from(items, n, i) {
            Ok(rest) => Ok::<Seq<T>, ArrayError<E>>(ok_values(items.take(i)) + rest),
            Err(x) => Err(x),
        },
    decreases i,
{
    if i > 0 {
        lemma_fill_prefix(items, n, i - 1);
        assert(ok_values(items.take(i)) =~= ok_values(items.take(i - 1)).push(
            items[i - 1]->Ok_0,
        ));
        match spec_fill_from(items, n, i) {
            Ok(rest) => {
                assert(ok_values(items.take(i - 1)) + (seq![items[i - 1]->Ok_0] + rest)
                    =~= ok_values(items.take(i)) + rest);
            },
            Err(x) => {},
        }
    } else {
        match spec_fill_from(items, n, 0) {
            Ok(rest) => {
                assert(ok_values(items.take(0)) + rest =~= rest);
            },
            Err(x) => {},
        }
    }
}

/// When the first `n` elements are all there and all deserialized, the array
/// fills with their values, in order.
pub proof fn lemma_fill_all_present<T, E>(items: Seq<Result<T, E>>, n: int)
    requires
        0 <= n <= items.len(),
        forall|j: int| 0 <= j < n ==> (#[trigger] items[j]) is Ok,
    ensures
        spec_fill_from(items, n, 0) == Ok::<Seq<T>, ArrayError<E>>(ok_values(items.take(n))),
{
    lemma_fill_prefix(items, n, n);
    assert(ok_values(items.take(n)) + Seq::<T>::empty() =~= ok_values(items.take(n)));
}

/// The first of the first `n` elements that failed to deserialize is the error.
pub proof fn lemma_fill_first_error<T, E>(items: Seq<Result<T, E>>, n: int, f: int)
    requires
        0 <= f < n,
        f < items.len(),
        items[f] is Err,
        forall|j: int| 0 <= j < f ==> (#[trigger] items[j]) is Ok,
    ensures
        spec_fill_from(items, n, 0) == Err::<Seq<T>, ArrayError<E>>(
            ArrayError::Element(items[f]->Err_0),
        ),
{
    lemma_fill_prefix(items, n, f);
}

/// When fewer than `n` elements are there and all deserialized, the error is
/// their number.
pub proof fn lemma_fill_too_short<T, E>(items: Seq<Result<T, E>>, n: int)
    requires
        items.len() < n,
        forall|j: int| 0 <= j < items.len() ==> (#[trigger] items[j]) is Ok,
    ensures
        spec_fill_from(items, n, 0) == Err::<Seq<T>, ArrayError<E>>(
            ArrayError::InvalidLength(items.len() as usize),
        ),
{
    lemma_fill_prefix(items, n, items.len() as int);
}

/// Fill an array of length `n` from the deserialized elements, in order:
/// the first `n` values, or the first error among them, or the length at
/// which the elements ran out. Elements after the first `n` are not read.
pub fn array_from_iterator<T, E>(elements: Vec<Result<T, E>>, n: usize) -> (r: Result<
    Vec<T>,
    ArrayError<E>,
>)
    ensures
        match r {
            Ok(v) => spec_fill_from(elements@, n as int, 0) == Ok::<Seq<T>, ArrayError<E>>(v@),
            Err(x) => spec_fill_from(elements@, n as int, 0) == Err::<Seq<T>, ArrayError<E>>(x),
        },
{
    let ghost items = elements@;
    let len = elements.len();
    let mut out: Vec<T> = Vec::new();
    let mut idx: usize = 0;
    assert(ok_values(items.take(0)) =~= Seq::<T>::empty());
    for element in it: elements.into_iter()
        invariant
            it.seq() == items,
            idx == it.index(),
            len == items.len(),
            idx <= n,
            forall|j: int| 0 <= j < idx ==> (#[trigger] items[j]) is Ok,
            out@ == ok_values(items.take(idx as int)),
    {
        if idx == n {
            proof {
                lemma_fill_prefix(items, n as int, n as int);
                assert(spec_fill_from(items, n as int, n as int) == Ok::<Seq<T>, ArrayError<E>>(
                    Seq::empty(),
                ));
                assert(out@ + Seq::<T>::empty() =~= out@);
            }
            return Ok(out);
        }
        assert(element == items[idx as int]);
        match element {
            Ok(value) => {
                out.push(value);
                assert(ok_values(items.take(idx + 1)) =~= ok_values(items.take(idx as int)).push(
                    items[idx as int]->Ok_0,
                ));
                idx = idx + 1;
            },
            Err(err) => {
                proof {
                    lemma_fill_prefix(items, n as int, idx as int);
                }
                return Err(ArrayError::Element(err));
            },
        }
    }
    if idx < n {
        proof {
            lemma_fill_prefix(items, n as int, idx as int);
        }
        return Err(ArrayError::InvalidLength(idx));
    }
    proof {
        lemma_fill_prefix(items, n as int, n as int);
        assert(out@ + Seq::<T>::empty() =~= out@);
    }
    Ok(out)
}

} // verus!
