//! The stream decoder: takes complete lines from a caller-owned byte buffer
//! with tokio-util's [`LinesCodec`] and decodes each into a [`Record`].
//!
//! Empty lines and lines that do not start with `$` are noise and dropped.
//! A line that does not decode is skipped and reported beside the stream, so
//! that one bad record never ends a healthy feed. An over-long line and a
//! line that is not UTF-8 are errors of the framing, returned as such.
use crate::fields::split_fields;
use crate::framing::{framed, no_newline, Framed, NEWLINE};
use crate::protocol::{Record, RecordError};
use tokio_util::bytes::BytesMut;
use tokio_util::codec::{LinesCodec, LinesCodecError};
use vstd::prelude::*;
use vstd::utf8::{decode_utf8, valid_utf8};

verus! {

#[verifier::external_type_specification]
#[verifier::external_body]
pub struct ExBytesMut(BytesMut);

#[verifier::external_type_specification]
#[verifier::external_body]
pub struct ExLinesCodec(LinesCodec);

#[verifier::external_type_specification]
#[verifier::external_body]
pub struct ExIoError(std::io::Error);

#[verifier::external_type_specification]
pub struct ExLinesCodecError(LinesCodecError);

/// The bytes held in a buffer, front first.
pub uninterp spec fn buffered(b: BytesMut) -> Seq<u8>;

/// The codec's maximum line length (`usize::MAX` when unbounded).
pub uninterp spec fn codec_max_length(c: LinesCodec) -> usize;

/// The index from which the codec resumes its search for `\n`.
pub uninterp spec fn codec_next_index(c: LinesCodec) -> usize;

/// Whether the codec is dropping the rest of an over-long line.
pub uninterp spec fn codec_discarding(c: LinesCodec) -> bool;

/// The codec may be handed the buffer `b`: the bytes it has already searched
/// are still at the front of `b`, and hold no newline.
pub open spec fn scan_ok(c: LinesCodec, b: Seq<u8>) -> bool {
    &&& codec_next_index(c) <= b.len()
    &&& codec_next_index(c) <= codec_max_length(c) + 1
    &&& no_newline(b, 0, codec_next_index(c) as int)
}

/// Relies on tokio-util's `LinesCodec::new`: no length limit, nothing
/// searched yet, not discarding.
pub assume_specification[ tokio_util::codec::LinesCodec::new ]() -> (c:
    tokio_util::codec::LinesCodec)
    ensures
        codec_max_length(c) == usize::MAX,
        codec_next_index(c) == 0,
        !codec_discarding(c),
;

/// Relies on tokio-util's `LinesCodec::new_with_max_length`: the given limit,
/// nothing searched yet, not discarding.
pub assume_specification[ tokio_util::codec::LinesCodec::new_with_max_length ](
    max_length: usize,
) -> (c: tokio_util::codec::LinesCodec)
    ensures
        codec_max_length(c) == max_length,
        codec_next_index(c) == 0,
        !codec_discarding(c),
;

/// Relies on tokio-util's `<LinesCodec as Decoder>::decode`. While
/// discarding, it drops the bytes through the next `\n` (all of them, and
/// stays discarding, when there is none). It then looks for `\n` in the first
/// `max_length + 1` bytes, resuming at its stored index: a line found there is
/// split off with its `\n`, loses one trailing `\r`, and is returned as UTF-8
/// text (an `Io` error when it is not UTF-8, the bytes consumed all the same);
/// with no `\n` there and more than `max_length` bytes buffered, it fails
/// with `MaxLineLengthExceeded` and starts discarding; otherwise it returns
/// `None` and remembers how far it searched. Slicing from the stored index
/// panics unless that index is within the buffer, hence the `requires`.
#[verifier::external_body]
fn next_line(codec: &mut LinesCodec, buf: &mut BytesMut) -> (r: Result<
    Option<String>,
    LinesCodecError,
>)
    requires
        scan_ok(*old(codec), buffered(*old(buf))),
    ensures
        codec_max_length(*final(codec)) == codec_max_length(*old(codec)),
        scan_ok(*final(codec), buffered(*final(buf))),
        match framed(
            codec_max_length(*old(codec)) as nat,
            codec_discarding(*old(codec)),
            buffered(*old(buf)),
        ) {
            Framed::Dropped => {
                &&& r matches Ok(None)
                &&& buffered(*final(buf)) == Seq::<u8>::empty()
                &&& codec_discarding(*final(codec))
            },
            Framed::Pending(rest) => {
                &&& r matches Ok(None)
                &&& buffered(*final(buf)) == rest
                &&& !codec_discarding(*final(codec))
            },
            Framed::TooLong(rest) => {
                &&& r matches Err(LinesCodecError::MaxLineLengthExceeded)
                &&& buffered(*final(buf)) == rest
                &&& codec_discarding(*final(codec))
            },
            Framed::Line(line, rest) => {
                &&& buffered(*final(buf)) == rest
                &&& !codec_discarding(*final(codec))
                &&& if valid_utf8(line) {
                    r matches Ok(Some(s)) && s@ == decode_utf8(line)
                } else {
                    r matches Err(LinesCodecError::Io(_))
                }
            },
        },
{
    tokio_util::codec::Decoder::decode(codec, buf)
}

/// An error that ends decoding of the buffer: the caller is expected to
/// close or reset the connection.
#[derive(Debug)]
pub enum RMonitorCodecError {
    /// The underlying `LinesCodec` could not extract a line: it was over the
    /// length limit, or it was not UTF-8.
    LinesCodec(LinesCodecError),
    /// The transport failed.
    Io(std::io::Error),
}

/// What one decoding step produced.
#[derive(Debug)]
pub enum Decoded {
    /// No complete line is buffered yet, or the rest of an over-long line
    /// was dropped.
    NeedMore,
    /// An empty line, or one not starting with `$`, was dropped as noise.
    Ignored,
    /// A line decoded to this record.
    Record(Record),
    /// A line that did not decode was dropped; here it is, with the reason.
    Skipped { line: String, source: RecordError },
}

/// What decoding one line of text yields (as a [`Decoded`] step).
pub open spec fn line_outcome(t: Seq<char>, d: Decoded) -> bool {
    if t.len() == 0 || t[0] != '$' {
        d is Ignored
    } else {
        match Record::fault(split_fields(t)) {
            None => d matches Decoded::Record(rec) && rec.decoded_from(split_fields(t)),
            Some(fault) => d matches Decoded::Skipped { line, source } && line@ == t
                && source@ == fault,
        }
    }
}

/// A decoder for RMonitor records, which wraps an underlying [`LinesCodec`]
/// to provide framing.
#[derive(Debug)]
pub struct RMonitorDecoder {
    lines_codec: LinesCodec,
}

impl RMonitorDecoder {
    /// The maximum length of a buffered line (`usize::MAX` when unbounded).
    pub closed spec fn max_length(&self) -> nat {
        codec_max_length(self.lines_codec) as nat
    }

    /// Whether the rest of an over-long line is being dropped.
    pub closed spec fn is_discarding(&self) -> bool {
        codec_discarding(self.lines_codec)
    }

    /// The decoder may be handed a buffer holding `b`: it is the buffer of the
    /// previous call, or a fresh one, with bytes appended at the back.
    pub closed spec fn ready_for(&self, b: Seq<u8>) -> bool {
        scan_ok(self.lines_codec, b)
    }

    /// Returns a decoder with no upper bound on the length of a buffered line.
    /// Prefer [`RMonitorDecoder::new_with_max_length`] for untrusted input.
    pub fn new() -> (d: Self)
        ensures
            d.max_length() == usize::MAX,
            !d.is_discarding(),
            forall|b: Seq<u8>| #[trigger] d.ready_for(b),
    {
        RMonitorDecoder { lines_codec: LinesCodec::new() }
    }

    /// Returns a decoder that fails on a line longer than `max_length` bytes.
    ///
    /// It is recommended to set such a limit where the input is untrusted, as
    /// a producer could send an unbounded amount of input with no newline.
    pub fn new_with_max_length(max_length: usize) -> (d: Self)
        ensures
            d.max_length() == max_length,
            !d.is_discarding(),
            forall|b: Seq<u8>| #[trigger] d.ready_for(b),
    {
        RMonitorDecoder { lines_codec: LinesCodec::new_with_max_length(max_length) }
    }

    /// Takes at most one line from the front of `src` and decodes it. The
    /// step is the one [`framed`] describes for the buffered bytes; a complete
    /// line is then dropped as noise, decoded, or skipped with its error.
    pub fn decode_step(&mut self, src: &mut BytesMut) -> (r: Result<Decoded, RMonitorCodecError>)
        requires
            old(self).ready_for(buffered(*old(src))),
        ensures
            final(self).max_length() == old(self).max_length(),
            final(self).ready_for(buffered(*final(src))),
            match framed(old(self).max_length(), old(self).is_discarding(), buffered(*old(src))) {
                Framed::Dropped => {
                    &&& r matches Ok(Decoded::NeedMore)
                    &&& buffered(*final(src)) == Seq::<u8>::empty()
                    &&& final(self).is_discarding()
                },
                Framed::Pending(rest) => {
                    &&& r matches Ok(Decoded::NeedMore)
                    &&& buffered(*final(src)) == rest
                    &&& !final(self).is_discarding()
                },
                Framed::TooLong(rest) => {
                    &&& r matches Err(
                        RMonitorCodecError::LinesCodec(LinesCodecError::MaxLineLengthExceeded),
                    )
                    &&& buffered(*final(src)) == rest
                    &&& final(self).is_discarding()
                },
                Framed::Line(line, rest) => {
                    &&& buffered(*final(src)) == rest
                    &&& !final(self).is_discarding()
                    &&& if valid_utf8(line) {
                        r matches Ok(d) && line_outcome(decode_utf8(line), d)
                    } else {
                        r matches Err(RMonitorCodecError::LinesCodec(LinesCodecError::Io(_)))
                    }
                },
            },
    {
        let line = match next_line(&mut self.lines_codec, src) {
            Ok(Some(line)) => line,
            Ok(None) => return Ok(Decoded::NeedMore),
            Err(e) => return Err(RMonitorCodecError::LinesCodec(e)),
        };
        // A decoder that attached in the middle of a record, or an empty
        // line: drop it and go on with the next one.
        if line.as_str().is_empty() || line.as_str().get_char(0) != '$' {
            return Ok(Decoded::Ignored);
        }
        match Record::decode(line.as_str()) {
            Ok(record) => Ok(Decoded::Record(record)),
            Err(source) => Ok(Decoded::Skipped { line, source }),
        }
    }

    /// Takes at most one line from the front of `src` and returns its record,
    /// if it is one. Noise and lines that do not decode are dropped (see
    /// [`RMonitorDecoder::decode_step`] for what was dropped, and why).
    pub fn decode(&mut self, src: &mut BytesMut) -> (r: Result<Option<Record>, RMonitorCodecError>)
        requires
            old(self).ready_for(buffered(*old(src))),
        ensures
            final(self).max_length() == old(self).max_length(),
            final(self).ready_for(buffered(*final(src))),
            match framed(old(self).max_length(), old(self).is_discarding(), buffered(*old(src))) {
                Framed::Dropped => {
                    &&& r matches Ok(None)
                    &&& buffered(*final(src)) == Seq::<u8>::empty()
                    &&& final(self).is_discarding()
                },
                Framed::Pending(rest) => {
                    &&& r matches Ok(None)
                    &&& buffered(*final(src)) == rest
                    &&& !final(self).is_discarding()
                },
                Framed::TooLong(rest) => {
                    &&& r matches Err(
                        RMonitorCodecError::LinesCodec(LinesCodecError::MaxLineLengthExceeded),
                    )
                    &&& buffered(*final(src)) == rest
                    &&& final(self).is_discarding()
                },
                Framed::Line(line, rest) => {
                    &&& buffered(*final(src)) == rest
                    &&& !final(self).is_discarding()
                    &&& if !valid_utf8(line) {
                        r matches Err(RMonitorCodecError::LinesCodec(LinesCodecError::Io(_)))
                    } else {
                        let t = decode_utf8(line);
                        if t.len() > 0 && t[0] == '$' && Record::fault(split_fields(t)) is None {
                            r matches Ok(Some(rec)) && rec.decoded_from(split_fields(t))
                        } else {
                            r matches Ok(None)
                        }
                    }
                },
            },
    {
        match self.decode_step(src) {
            Ok(Decoded::Record(record)) => Ok(Some(record)),
            Ok(_) => Ok(None),
            Err(e) => Err(e),
        }
    }

    /// Appending bytes to a buffer keeps the decoder ready for it.
    pub proof fn lemma_ready_after_append(&self, b: Seq<u8>, more: Seq<u8>)
        requires
            self.ready_for(b),
        ensures
            self.ready_for(b + more),
    {
        assert forall|j: int| 0 <= j < codec_next_index(self.lines_codec) implies #[trigger] (b
            + more)[j] != NEWLINE by {
            assert((b + more)[j] == b[j]);
        }
    }
}

impl Default for RMonitorDecoder {
    fn default() -> (d: Self)
        ensures
            d.max_length() == usize::MAX,
            !d.is_discarding(),
            forall|b: Seq<u8>| #[trigger] d.ready_for(b),
    {
        RMonitorDecoder::new()
    }
}

} // verus!
