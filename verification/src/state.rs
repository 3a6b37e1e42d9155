//! The shared run state: the growing output buffer, the parse offset,
//! the milestone watermark and the latest reading.
//!
//! Capture threads append whole lines; the monitor takes the unparsed
//! tail and advances the offset.  The buffer only grows, and the
//! offset never moves backwards.

use vstd::prelude::*;
use vstd::string::StrSliceExecFns;
use crate::reading::{ProgressReading, SpecReading, view_opt};

verus! {

/// Mathematical model of the run state.
pub struct SpecRunState {
    pub buffer: Seq<char>,
    /// Characters of `buffer` already handed to the extractor.
    pub offset: int,
    /// The milestone watermark, in hundredths of a percent.
    pub milestone: u32,
    pub latest: Option<SpecReading>,
}

impl SpecRunState {
    pub open spec fn wf(self) -> bool {
        &&& 0 <= self.offset <= self.buffer.len()
        &&& (self.latest is Some ==> self.latest->0.wf())
    }
}

/// The one shared, mutually-owned entity of a run.
pub struct RunState {
    /// Everything the child has written, both streams interleaved.
    pub output_buffer: String,
    /// How many characters of the buffer were already parsed.
    pub unparsed_offset: usize,
    /// The highest milestone already fired, in hundredths of a
    /// percent; zero before any fired.
    pub last_milestone: u32,
    /// The most recent progress reading, if any.
    pub latest_reading: Option<ProgressReading>,
}

impl View for RunState {
    type V = SpecRunState;

    open spec fn view(&self) -> SpecRunState {
        SpecRunState {
            buffer: self.output_buffer@,
            offset: self.unparsed_offset as int,
            milestone: self.last_milestone,
            latest: view_opt(self.latest_reading),
        }
    }
}

impl RunState {
    /// A fresh state: empty buffer, nothing parsed, no milestone, no
    /// reading.
    pub fn new() -> (r: RunState)
        ensures
            r@.buffer.len() == 0,
            r@.offset == 0,
            r@.milestone == 0,
            r@.latest is None,
            r@.wf(),
    {
        RunState {
            output_buffer: String::new(),
            unparsed_offset: 0,
            last_milestone: 0,
            latest_reading: Option::None,
        }
    }

    /// Appends one captured line and its terminator.  The buffer only
    /// grows; nothing else moves.
    pub fn append_line(&mut self, line: &str)
        ensures
            final(self)@.buffer == old(self)@.buffer + line@ + "\n"@,
            final(self)@.offset == old(self)@.offset,
            final(self)@.milestone == old(self)@.milestone,
            final(self)@.latest == old(self)@.latest,
            old(self)@.wf() ==> final(self)@.wf(),
    {
        self.output_buffer.append(line);
        self.output_buffer.append("\n");
    }

    /// Takes everything past the parse offset and advances the offset
    /// to the end of the buffer.  The offset never moves backwards
    /// from a well-formed state, and afterwards it equals the buffer
    /// length.
    pub fn take_unparsed(&mut self) -> (r: String)
        ensures
            final(self)@.buffer == old(self)@.buffer,
            final(self)@.offset == final(self)@.buffer.len(),
            final(self)@.milestone == old(self)@.milestone,
            final(self)@.latest == old(self)@.latest,
            old(self)@.wf() ==> final(self)@.offset >= old(self)@.offset,
            old(self)@.wf() ==> r@ == old(self)@.buffer.skip(old(self)@.offset),
            old(self)@.wf() ==> final(self)@.wf(),
    {
        let len = self.output_buffer.as_str().unicode_len();
        let off = if self.unparsed_offset <= len { self.unparsed_offset } else { len };
        let tail = self.output_buffer.as_str().substring_char(off, len);
        let r = tail.to_owned();
        self.unparsed_offset = len;
        proof {
            if old(self)@.wf() {
                assert(r@ =~= old(self)@.buffer.skip(old(self)@.offset));
            }
        }
        r
    }
}

} // verus!
