//! The buffered line reader: accumulates bytes from an asynchronous read
//! source until a newline arrives, hands out the line with every carriage
//! return removed, and, when it is dropped, pushes everything unconsumed
//! back into the source so that no byte of the stream is lost.
//!
//! The surroundings drive the reads: each round they feed whatever one poll
//! of the source delivered into `read_line_step`, which decides whether a
//! line is complete, the stream has ended, or more bytes are needed.

use vstd::prelude::*;

use crate::types::RuntimeError;

verus! {

/// The newline byte that terminates a line.
pub const NL: u8 = 10;

/// The carriage-return byte, removed from every delivered line.
pub const CR: u8 = 13;

/// The bytes with every carriage return taken out.
pub open spec fn strip_cr(s: Seq<u8>) -> Seq<u8>
    decreases s.len(),
{
    if s.len() == 0 {
        Seq::empty()
    } else if s[0] == CR {
        strip_cr(s.skip(1))
    } else {
        seq![s[0]] + strip_cr(s.skip(1))
    }
}

/// Whether a newline stands somewhere in the bytes.
pub open spec fn has_newline(s: Seq<u8>) -> bool {
    exists|i: int| 0 <= i < s.len() && s[i] == NL
}

/// The index of the first newline; the length when there is none.
pub open spec fn first_newline(s: Seq<u8>) -> int
    decreases s.len(),
{
    if s.len() == 0 {
        0
    } else if s[0] == NL {
        0
    } else {
        1 + first_newline(s.skip(1))
    }
}

/// What `String::from_utf8` decodes the bytes to: `None` exactly when they
/// are not valid UTF-8. The decoding itself is left unspecified.
pub uninterp spec fn utf8_decode(b: Seq<u8>) -> Option<Seq<char>>;

/// Relies on `String::from_utf8`: it returns `Ok` exactly when the bytes
/// are valid UTF-8, and the string it returns is a function of the bytes
/// alone.
#[verifier::external_body]
fn string_from_utf8(v: Vec<u8>) -> (r: Option<String>)
    ensures
        r is Some <==> utf8_decode(v@) is Some,
        r is Some ==> r->0@ == utf8_decode(v@)->0,
{
    match String::from_utf8(v) {
        Ok(s) => Some(s),
        Err(_) => None,
    }
}

/// The outcome of one round of line reading.
#[derive(Debug, PartialEq, Eq)]
pub enum LineStep {
    /// A full line, decoded, with carriage returns removed and the newline
    /// consumed.
    Line(String),
    /// The source ended and nothing more can complete a line.
    EndOfStream,
    /// No newline yet: the caller must read more from the source.
    NeedMore,
}

/// The reader's state: the bytes taken from the source but not yet
/// delivered as lines.
pub struct AsyncBufReader {
    /// Undelivered bytes, in stream order.
    pub buf: Vec<u8>,
}

impl AsyncBufReader {
    /// A reader with nothing buffered.
    pub fn new() -> (r: AsyncBufReader)
        ensures
            r.buf@ == Seq::<u8>::empty(),
    {
        AsyncBufReader { buf: Vec::new() }
    }

    /// One round of reading a line. `read` holds what the latest poll of the
    /// source delivered (its first `count` bytes; none on the first round),
    /// and `eof` says that the source ended instead. With those bytes
    /// appended, the first complete line — everything before the first
    /// newline, carriage returns removed — is consumed and decoded; a
    /// stream that ended without a newline is reported as ended, with the
    /// partial line left buffered for pushback; otherwise more bytes are
    /// needed.
    pub fn read_line_step(&mut self, read: &Vec<u8>, count: usize, eof: bool) -> (r: Result<
        LineStep,
        RuntimeError,
    >)
        requires
            count <= read@.len(),
            eof ==> count == 0,
        ensures
            ({
                let b = old(self).buf@ + read@.take(count as int);
                let i = first_newline(b);
                let lb = strip_cr(b.take(i));
                &&& has_newline(b) ==> {
                    &&& final(self).buf@ == b.skip(i + 1)
                    &&& utf8_decode(lb) is Some ==> (r matches Ok(LineStep::Line(s)) && s@
                        == utf8_decode(lb)->0)
                    &&& utf8_decode(lb) is None ==> r == Result::<
                        LineStep,
                        RuntimeError,
                    >::Err(RuntimeError::Utf8Decode)
                }
                &&& !has_newline(b) && eof ==> (r matches Ok(LineStep::EndOfStream)
                    && final(self).buf@ == b)
                &&& !has_newline(b) && !eof ==> (r matches Ok(LineStep::NeedMore)
                    && final(self).buf@ == b)
            }),
    {
        let ghost b0 = old(self).buf@;
        let mut k: usize = 0;
        while k < count
            invariant
                0 <= k <= count,
                count <= read@.len(),
                self.buf@ == b0 + read@.take(k as int),
            decreases count - k,
        {
            self.buf.push(read[k]);
            proof {
                assert(b0 + read@.take(k as int + 1) =~= (b0 + read@.take(k as int)).push(
                    read@[k as int],
                ));
            }
            k = k + 1;
        }
        let ghost b = b0 + read@.take(count as int);
        match self.find_newline() {
            Some(i) => {
                let line = self.take_line_at(i);
                match string_from_utf8(line) {
                    Some(s) => Ok(LineStep::Line(s)),
                    None => Err(RuntimeError::Utf8Decode),
                }
            },
            None => {
                if eof {
                    Ok(LineStep::EndOfStream)
                } else {
                    Ok(LineStep::NeedMore)
                }
            },
        }
    }

    /// The index of the first buffered newline, if any.
    pub fn find_newline(&self) -> (r: Option<usize>)
        ensures
            r is Some <==> has_newline(self.buf@),
            r is Some ==> r->0 == first_newline(self.buf@) && r->0 < self.buf@.len()
                && self.buf@[r->0 as int] == NL && forall|j: int|
                0 <= j < r->0 ==> self.buf@[j] != NL,
    {
        let mut i: usize = 0;
        while i < self.buf.len()
            invariant
                0 <= i <= self.buf@.len(),
                forall|j: int| 0 <= j < i ==> self.buf@[j] != NL,
            decreases self.buf@.len() - i,
        {
            if self.buf[i] == NL {
                proof {
                    lemma_first_newline_at(self.buf@, i as int);
                }
                return Some(i);
            }
            i = i + 1;
        }
        None
    }

    /// Consume the line ending at the newline at index `i`: everything
    /// before it is delivered with carriage returns removed, and the
    /// newline itself is consumed too.
    fn take_line_at(&mut self, i: usize) -> (r: Vec<u8>)
        requires
            i < old(self).buf@.len(),
            old(self).buf@[i as int] == NL,
            forall|j: int| 0 <= j < i ==> old(self).buf@[j] != NL,
        ensures
            r@ == strip_cr(old(self).buf@.take(i as int)),
            final(self).buf@ == old(self).buf@.skip(i as int + 1),
    {
        let ghost sub = old(self).buf@.take(i as int);
        let mut line: Vec<u8> = Vec::new();
        let mut j: usize = 0;
        proof {
            assert(sub.skip(0) =~= sub);
            assert(Seq::<u8>::empty() + strip_cr(sub) =~= strip_cr(sub));
        }
        while j < i
            invariant
                0 <= j <= i,
                i < self.buf@.len(),
                self.buf@ == old(self).buf@,
                sub == old(self).buf@.take(i as int),
                line@ + strip_cr(sub.skip(j as int)) == strip_cr(sub),
            decreases i - j,
        {
            let c = self.buf[j];
            proof {
                let suf = sub.skip(j as int);
                assert(suf[0] == sub[j as int]);
                assert(sub[j as int] == self.buf@[j as int]);
                assert(suf.skip(1) =~= sub.skip(j as int + 1));
            }
            if c != CR {
                line.push(c);
                proof {
                    assert(line@ =~= line@.subrange(0, line@.len() - 1).push(c));
                    assert(line@.subrange(0, line@.len() - 1).push(c) + strip_cr(
                        sub.skip(j as int + 1),
                    ) =~= line@.subrange(0, line@.len() - 1) + (seq![c] + strip_cr(
                        sub.skip(j as int + 1),
                    )));
                }
            }
            j = j + 1;
        }
        proof {
            assert(sub.skip(i as int).len() == 0);
            assert(line@ + strip_cr(sub.skip(i as int)) =~= line@);
        }
        let blen = self.buf.len();
        assert(i < blen);
        let rest = self.buf.split_off(i + 1);
        self.buf = rest;
        proof {
            assert(self.buf@ =~= old(self).buf@.skip(i as int + 1));
        }
        line
    }

    /// Hand back everything still buffered, for pushback into the source;
    /// the reader is empty afterwards. This is the drop path: reader and
    /// source together keep every unconsumed byte.
    pub fn take_remaining(&mut self) -> (r: Vec<u8>)
        ensures
            r@ == old(self).buf@,
            final(self).buf@ == Seq::<u8>::empty(),
    {
        let r = self.buf.split_off(0);
        r
    }
}

/// The stream as it looks after reading lines to exhaustion and dropping
/// the reader: every delivered line with its newline restored, in order,
/// followed by the pushed-back leftover.
pub open spec fn lines_then_leftover(b: Seq<u8>) -> Seq<u8>
    decreases b.len(),
    via lines_then_leftover_decreases
{
    if has_newline(b) {
        strip_cr(b.take(first_newline(b))) + seq![NL] + lines_then_leftover(
            b.skip(first_newline(b) + 1),
        )
    } else {
        b
    }
}

#[via_fn]
proof fn lines_then_leftover_decreases(b: Seq<u8>) {
    if has_newline(b) {
        lemma_first_newline_bounds(b);
    }
}

/// Bytes without a carriage return pass through `strip_cr` unchanged.
proof fn lemma_strip_cr_identity(s: Seq<u8>)
    requires
        forall|i: int| 0 <= i < s.len() ==> s[i] != CR,
    ensures
        strip_cr(s) == s,
    decreases s.len(),
{
    if s.len() > 0 {
        assert forall|i: int| 0 <= i < s.skip(1).len() implies s.skip(1)[i] != CR by {
            assert(s.skip(1)[i] == s[i + 1]);
        }
        lemma_strip_cr_identity(s.skip(1));
        assert(seq![s[0]] + s.skip(1) =~= s);
    }
}

/// Nothing `strip_cr` hands back is a carriage return.
proof fn lemma_strip_cr_no_cr(s: Seq<u8>)
    ensures
        forall|i: int| 0 <= i < strip_cr(s).len() ==> #[trigger] strip_cr(s)[i] != CR,
    decreases s.len(),
{
    if s.len() > 0 {
        lemma_strip_cr_no_cr(s.skip(1));
        if s[0] != CR {
            assert forall|i: int| 0 <= i < strip_cr(s).len() implies #[trigger] strip_cr(s)[i]
                != CR by {
                if i > 0 {
                    assert(strip_cr(s)[i] == strip_cr(s.skip(1))[i - 1]);
                }
            }
        } else {
            assert forall|i: int| 0 <= i < strip_cr(s).len() implies #[trigger] strip_cr(s)[i]
                != CR by {
                assert(strip_cr(s)[i] == strip_cr(s.skip(1))[i]);
            }
        }
    }
}

/// `strip_cr` distributes over concatenation.
proof fn lemma_strip_cr_add(a: Seq<u8>, b: Seq<u8>)
    ensures
        strip_cr(a + b) == strip_cr(a) + strip_cr(b),
    decreases a.len(),
{
    if a.len() == 0 {
        assert(a + b =~= b);
        assert(strip_cr(a) + strip_cr(b) =~= strip_cr(b));
    } else {
        assert((a + b).skip(1) =~= a.skip(1) + b);
        assert((a + b)[0] == a[0]);
        lemma_strip_cr_add(a.skip(1), b);
        if a[0] != CR {
            assert(seq![a[0]] + (strip_cr(a.skip(1)) + strip_cr(b)) =~= (seq![a[0]] + strip_cr(
                a.skip(1),
            )) + strip_cr(b));
        }
    }
}

/// Stripping twice strips once.
proof fn lemma_strip_cr_idempotent(s: Seq<u8>)
    ensures
        strip_cr(strip_cr(s)) == strip_cr(s),
{
    lemma_strip_cr_no_cr(s);
    lemma_strip_cr_identity(strip_cr(s));
}

/// Buffered-reader round trip, exact form: a stream with no carriage
/// returns is reproduced byte for byte — concatenating the delivered lines,
/// each with its newline restored, and the pushed-back leftover yields the
/// original stream.
pub proof fn lemma_round_trip_no_cr(b: Seq<u8>)
    requires
        forall|i: int| 0 <= i < b.len() ==> b[i] != CR,
    ensures
        lines_then_leftover(b) == b,
    decreases b.len(),
{
    if has_newline(b) {
        lemma_first_newline_bounds(b);
        let i = first_newline(b);
        assert forall|j: int| 0 <= j < b.take(i).len() implies b.take(i)[j] != CR by {
            assert(b.take(i)[j] == b[j]);
        }
        lemma_strip_cr_identity(b.take(i));
        assert forall|j: int| 0 <= j < b.skip(i + 1).len() implies #[trigger] b.skip(i + 1)[j]
            != CR by {
            assert(b.skip(i + 1)[j] == b[i + 1 + j]);
        }
        lemma_round_trip_no_cr(b.skip(i + 1));
        assert(b.take(i) + seq![NL] + b.skip(i + 1) =~= b);
    }
}

/// Buffered-reader round trip, general form: for every stream, the round
/// trip preserves every byte but carriage returns, in order — reading lines
/// to exhaustion and restoring their newlines loses exactly the carriage
/// returns of the consumed lines and nothing else.
pub proof fn lemma_round_trip_preserves_bytes(b: Seq<u8>)
    ensures
        strip_cr(lines_then_leftover(b)) == strip_cr(b),
    decreases b.len(),
{
    if has_newline(b) {
        lemma_first_newline_bounds(b);
        let i = first_newline(b);
        let line = strip_cr(b.take(i));
        let rest = lines_then_leftover(b.skip(i + 1));
        lemma_round_trip_preserves_bytes(b.skip(i + 1));
        assert(seq![NL].skip(1) =~= Seq::<u8>::empty());
        assert(strip_cr(Seq::<u8>::empty()) =~= Seq::<u8>::empty());
        assert(strip_cr(seq![NL].skip(1)) =~= Seq::<u8>::empty());
        assert(strip_cr(seq![NL]) =~= seq![NL] + Seq::<u8>::empty());
        assert(seq![NL] + Seq::<u8>::empty() =~= seq![NL]);
        assert(strip_cr(seq![NL]) =~= seq![NL]);
        assert(lines_then_leftover(b) =~= (line + seq![NL]) + rest);
        lemma_strip_cr_add(line + seq![NL], rest);
        lemma_strip_cr_add(line, seq![NL]);
        lemma_strip_cr_idempotent(b.take(i));
        assert(b =~= (b.take(i) + seq![NL]) + b.skip(i + 1));
        lemma_strip_cr_add(b.take(i) + seq![NL], b.skip(i + 1));
        lemma_strip_cr_add(b.take(i), seq![NL]);
        assert(strip_cr(lines_then_leftover(b)) =~= strip_cr(b));
    }
}

/// The first newline really is the first: if index `i` holds a newline and
/// nothing before it does, `first_newline` names `i`.
pub proof fn lemma_first_newline_at(s: Seq<u8>, i: int)
    requires
        0 <= i < s.len(),
        s[i] == NL,
        forall|j: int| 0 <= j < i ==> s[j] != NL,
    ensures
        first_newline(s) == i,
        has_newline(s),
    decreases i,
{
    if i == 0 {
    } else {
        assert forall|j: int| 0 <= j < i - 1 implies s.skip(1)[j] != NL by {
            assert(s.skip(1)[j] == s[j + 1]);
        }
        assert(s.skip(1)[i - 1] == NL);
        lemma_first_newline_at(s.skip(1), i - 1);
    }
}

/// Bounds of `first_newline`: it stays within the bytes, points at a
/// newline exactly when one exists, and nothing before it is a newline.
pub proof fn lemma_first_newline_bounds(s: Seq<u8>)
    ensures
        0 <= first_newline(s) <= s.len(),
        has_newline(s) <==> first_newline(s) < s.len(),
        has_newline(s) ==> s[first_newline(s)] == NL,
        forall|j: int| 0 <= j < first_newline(s) ==> s[j] != NL,
    decreases s.len(),
{
    if s.len() > 0 && s[0] != NL {
        lemma_first_newline_bounds(s.skip(1));
        assert forall|j: int| 0 <= j < first_newline(s) implies s[j] != NL by {
            if j > 0 {
                assert(s.skip(1)[j - 1] != NL);
            }
        }
        if has_newline(s) {
            let w = choose|i: int| 0 <= i < s.len() && s[i] == NL;
            assert(s.skip(1)[w - 1] == NL);
        }
        if has_newline(s.skip(1)) {
            let w = choose|i: int| 0 <= i < s.skip(1).len() && s.skip(1)[i] == NL;
            assert(s[w + 1] == NL);
        }
        if has_newline(s) {
            assert(s[first_newline(s)] == s.skip(1)[first_newline(s.skip(1))]);
        }
    }
}

} // verus!
