//! Iterates over the values a decoder reads from a byte source.

use vstd::prelude::*;

use crate::itm::parser::DecodeError;
use crate::readpos::ReadPos;

verus! {

/// Decodes one value at a time from a byte source.
pub trait Decoder {
    type Output;

    /// Decoding from reader `before` may return `r` and leave the reader
    /// as `after`.
    spec fn decodes(&self, before: ReadPos, r: Result<Self::Output, DecodeError>, after: ReadPos) -> bool;

    /// Decodes the value where the reader stands.
    fn decode_next(&self, input: &mut ReadPos) -> (r: Result<Self::Output, DecodeError>)
        requires
            old(input).wf(),
        ensures
            final(input).wf(),
            final(input).input() == old(input).input(),
            final(input).pos() >= old(input).pos(),
            self.decodes(*old(input), r, *final(input)),
    ;
}

/// Calls a decoder on a byte source until it fails. The end of the input
/// ends the iteration without error; any other error is kept.
pub struct ParserIterator<D> {
    input: ReadPos,
    decoder: D,
    error: Option<DecodeError>,
}

impl<D: Decoder> ParserIterator<D> {
    /// The reader the decoder consumes.
    pub closed spec fn reader(&self) -> ReadPos {
        self.input
    }

    /// The decoder.
    pub closed spec fn decoder(&self) -> D {
        self.decoder
    }

    /// The error that stopped the iteration, if any.
    pub closed spec fn failure(&self) -> Option<DecodeError> {
        self.error
    }

    /// The invariant that every method keeps.
    pub open spec fn wf(&self) -> bool {
        self.reader().wf()
    }

    /// Iterates `decoder` over `input`.
    pub fn new(input: ReadPos, decoder: D) -> (r: ParserIterator<D>)
        requires
            input.wf(),
        ensures
            r.wf(),
            r.reader() == input,
            r.decoder() == decoder,
            r.failure() is None,
    {
        ParserIterator { input, decoder, error: None }
    }

    /// The error that stopped the iteration, if any.
    pub fn error(&self) -> (r: Option<&DecodeError>)
        ensures
            r is Some == self.failure() is Some,
            r matches Some(e) ==> *e == self.failure()->Some_0,
    {
        match &self.error {
            Some(e) => Some(e),
            None => None,
        }
    }

    /// The next value; `None` when the decoder failed. An error other than
    /// the end of the input is kept.
    pub fn next(&mut self) -> (r: Option<D::Output>)
        requires
            old(self).wf(),
        ensures
            final(self).wf(),
            final(self).decoder() == old(self).decoder(),
            final(self).reader().input() == old(self).reader().input(),
            final(self).reader().pos() >= old(self).reader().pos(),
            exists|res: Result<D::Output, DecodeError>|
                #[trigger] old(self).decoder().decodes(old(self).reader(), res, final(self).reader())
                    && match res {
                    Ok(v) => r == Some(v) && final(self).failure() == old(self).failure(),
                    Err(DecodeError::UnexpectedEof) => r is None && final(self).failure() == old(
                        self,
                    ).failure(),
                    Err(e) => r is None && final(self).failure() == Some(e),
                },
    {
        let ghost before = self.input;
        let res = self.decoder.decode_next(&mut self.input);
        let ghost outcome = res;
        assert(self.decoder.decodes(before, outcome, self.input));
        match res {
            Ok(result) => Some(result),
            Err(DecodeError::UnexpectedEof) => None,
            Err(error) => {
                self.error = Some(error);
                None
            },
        }
    }
}

} // verus!
