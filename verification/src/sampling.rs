//! Sampling what passes through a blob store.
//!
//! A sampling store stands in front of another store and shows a handler
//! every blob that is read, every blob that is written, and every answer to
//! the question whether a blob is there. The handler may fail, and then the
//! operation fails.

use vstd::prelude::*;

verus! {

/// A mark that a request carries where its blobs are to be sampled.
#[derive(Clone, Copy, Debug, PartialEq, Eq, Structural, Hash)]
pub struct SamplingKey(pub u32);

/// What a handler gets to see of a blob store at work.
pub trait SamplingHandler {
    /// Why a handler fails.
    type Error;

    /// A blob was read under `key`; `value` is `None` where there is none.
    fn sample_get(
        &self,
        sampling_key: Option<SamplingKey>,
        key: &str,
        value: Option<&Vec<u8>>,
    ) -> (r: Result<(), Self::Error>);

    /// The blob `value` is about to be written under `key`. A handler that
    /// does not say otherwise lets every write pass.
    fn sample_put(&self, sampling_key: Option<SamplingKey>, key: &str, value: &Vec<u8>) -> (r:
        Result<(), Self::Error>)
        default_ensures
            r is Ok,
    {
        Ok(())
    }

    /// The store was asked whether a blob is there under `key`, and
    /// answered `value`. A handler that does not say otherwise lets every
    /// answer pass.
    fn sample_is_present(&self, sampling_key: Option<SamplingKey>, key: &str, value: bool) -> (r:
        Result<(), Self::Error>)
        default_ensures
            r is Ok,
    {
        Ok(())
    }
}

/// The blob as the handler gets to see it.
pub open spec fn borrowed(blob: &Option<Vec<u8>>) -> Option<&Vec<u8>> {
    match blob {
        Some(b) => Some(b),
        None => None,
    }
}

/// What an operation returns after the handler saw `value`: the value,
/// unless the handler failed.
pub open spec fn sampled<T, E>(value: T, sample: Result<(), E>) -> Result<T, E> {
    match sample {
        Ok(_) => Ok(value),
        Err(e) => Err(e),
    }
}

/// What an operation returns after the handler saw `value`.
pub fn after_sample<T, E>(value: T, sample: Result<(), E>) -> (r: Result<T, E>)
    ensures
        r == sampled(value, sample),
{
    match sample {
        Ok(_) => Ok(value),
        Err(e) => Err(e),
    }
}

/// What a write returns: the failure of the store, or else what the handler
/// returned when it saw the blob.
pub open spec fn put_outcome<E>(stored: Result<(), E>, sample: Result<(), E>) -> Result<(), E> {
    match stored {
        Ok(_) => sample,
        Err(e) => Err(e),
    }
}

/// What a write returns, given what the store and the handler returned.
pub fn after_put<E>(stored: Result<(), E>, sample: Result<(), E>) -> (r: Result<(), E>)
    ensures
        r == put_outcome(stored, sample),
{
    match stored {
        Ok(_) => sample,
        Err(e) => Err(e),
    }
}

/// The part of a sampling store that decides: it shows the handler what
/// the store behind it did.
pub struct SamplingBlobstore<H: SamplingHandler> {
    handler: H,
}

impl<H: SamplingHandler> SamplingBlobstore<H> {
    /// The sampling store with the given handler.
    pub fn new(handler: H) -> (r: Self)
        ensures
            r.handler() == handler,
    {
        SamplingBlobstore { handler }
    }

    /// The handler.
    pub closed spec fn handler(&self) -> H {
        self.handler
    }

    /// The handler.
    pub fn get_handler(&self) -> (r: &H)
        ensures
            *r == self.handler(),
    {
        &self.handler
    }

    /// The result of a read of `key` from which the store behind returned
    /// `blob`: the blob, unless the handler fails.
    pub fn get(&self, sampling_key: Option<SamplingKey>, key: &str, blob: Option<Vec<u8>>) -> (r:
        Result<Option<Vec<u8>>, H::Error>)
        ensures
            exists|sample: Result<(), H::Error>|
                #![trigger sampled(blob, sample)]
                call_ensures(
                    H::sample_get,
                    (&self.handler(), sampling_key, key, borrowed(&blob)),
                    sample,
                ) && r == sampled(blob, sample),
    {
        let sample = self.handler.sample_get(sampling_key, key, blob.as_ref());
        after_sample(blob, sample)
    }

    /// Shows the handler the blob that is about to be written under `key`.
    /// What it returns goes into `after_put` with what the store returns.
    pub fn put(&self, sampling_key: Option<SamplingKey>, key: &str, value: &Vec<u8>) -> (r: Result<
        (),
        H::Error,
    >)
        ensures
            call_ensures(H::sample_put, (&self.handler(), sampling_key, key, value), r),
    {
        self.handler.sample_put(sampling_key, key, value)
    }

    /// The answer to whether a blob is there under `key`, where the store
    /// behind answered `present`: the same answer, unless the handler
    /// fails.
    pub fn is_present(&self, sampling_key: Option<SamplingKey>, key: &str, present: bool) -> (r:
        Result<bool, H::Error>)
        ensures
            exists|sample: Result<(), H::Error>|
                #![trigger sampled(present, sample)]
                call_ensures(
                    H::sample_is_present,
                    (&self.handler(), sampling_key, key, present),
                    sample,
                ) && r == sampled(present, sample),
    {
        let sample = self.handler.sample_is_present(sampling_key, key, present);
        after_sample(present, sample)
    }
}

} // verus!
