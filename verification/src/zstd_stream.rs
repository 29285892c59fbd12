//! Decompression of a Zstandard stream that goes on from message to message.

use vstd::prelude::*;

use crate::error::{SessionError, SessionResult};

verus! {

/// `zstd_safe::DCtx`: a stream that is being decompressed.
#[verifier::external_type_specification]
#[verifier::external_body]
pub struct ExDCtx<'a>(zstd_safe::DCtx<'a>);

/// What a stream has seen: for each call of `DCtx::decompress_stream` the bytes that were there to read,
/// the room that was there to write, and the reply: how many bytes were read and what was written, or an
/// error code.
pub uninterp spec fn seen(stream: zstd_safe::DCtx<'static>) -> Seq<
    (Seq<u8>, nat, Result<(nat, Seq<u8>), usize>),
>;

/// What a call of `DCtx::decompress_stream` that works comes to, by what the stream has seen before, the
/// bytes to read and the room to write: how many bytes it reads, and what it writes.
pub uninterp spec fn decompressed(
    before: Seq<(Seq<u8>, nat, Result<(nat, Seq<u8>), usize>)>,
    input: Seq<u8>,
    room: nat,
) -> (nat, Seq<u8>);

/// A call on a stream.
pub type StreamCall = (Seq<u8>, nat, Result<(nat, Seq<u8>), usize>);

/// `DCtx::default`: a stream that has seen nothing.
#[verifier::external_body]
pub(crate) fn new_stream() -> (r: zstd_safe::DCtx<'static>)
    ensures
        seen(r) == Seq::<StreamCall>::empty(),
{
    zstd_safe::DCtx::default()
}

/// `DCtx::decompress_stream`: reads on in `input` from `at`, and writes to `output` from `pos`. Gives
/// back how far it read and wrote, or an error code. What came before `pos` stays. If it works, what it
/// reads and writes is a function of what the stream has seen, of the bytes to read and of the room to
/// write; it may leave anything in the room that it does not report as written. A stream that has failed
/// goes on failing with the same code. When it fails for the first time is not stated, for that can also
/// be for want of memory.
#[verifier::external_body]
fn inflate_step(
    stream: &mut zstd_safe::DCtx<'static>,
    input: &[u8],
    at: usize,
    output: &mut Vec<u8>,
    pos: usize,
) -> (r: Result<(usize, usize), usize>)
    requires
        at <= input@.len(),
        pos <= old(output)@.len(),
    ensures
        final(output)@.len() == old(output)@.len(),
        final(output)@.take(pos as int) == old(output)@.take(pos as int),
        ({
            let left = input@.skip(at as int);
            let room = (old(output)@.len() - pos) as nat;
            &&& r matches Ok((read, written)) ==> at <= read <= input@.len() && pos <= written
                <= old(output)@.len()
            &&& seen(*final(stream)) == seen(*old(stream)).push(
                (
                    left,
                    room,
                    match r {
                        Ok((read, written)) => Ok(
                            ((read - at) as nat, final(output)@.subrange(pos as int, written as int)),
                        ),
                        Err(code) => Err(code),
                    },
                ),
            )
            &&& r is Ok ==> seen(*final(stream)).last().2 == Ok::<(nat, Seq<u8>), usize>(
                decompressed(seen(*old(stream)), left, room),
            )
            &&& seen(*old(stream)).len() > 0 ==> (seen(*old(stream)).last().2 matches Err(code) ==> r == Err::<
                (usize, usize),
                usize,
            >(code))
        }),
{
    let mut src = zstd_safe::InBuffer::around(input);
    src.set_pos(at);
    let mut dst = zstd_safe::OutBuffer::around_pos(output.as_mut_slice(), pos);
    match stream.decompress_stream(&mut dst, &mut src) {
        Ok(_) => Ok((src.pos(), dst.pos())),
        Err(code) => Err(code),
    }
}

/// What becomes of a buffer that a stream writes to.
#[derive(Debug, Clone, Copy, PartialEq, Eq, Structural)]
pub enum BufferStep {
    /// It is not full: the stream has nothing more to write.
    Done,
    /// It is full, and goes on with this length.
    Grow(usize),
    /// It is full and cannot be longer.
    TooLong,
}

/// A buffer of `len` bytes of which `written` are written: a full one is doubled.
pub open spec fn buffer_step(len: nat, written: nat) -> BufferStep {
    if written < len {
        BufferStep::Done
    } else if len <= usize::MAX / 2 {
        BufferStep::Grow((2 * len) as usize)
    } else {
        BufferStep::TooLong
    }
}

/// How far the decompression of some input has come.
#[verifier::ext_equal]
pub struct Inflating {
    /// What has not been read yet.
    pub left: Seq<u8>,
    /// What has been written.
    pub plain: Seq<u8>,
    /// Length of the buffer.
    pub len: nat,
}

/// How far the decompression of `input` has come after the first `n` calls. The buffer is four times as
/// long as the input at first.
pub open spec fn inflating(input: Seq<u8>, calls: Seq<StreamCall>, n: nat) -> Inflating
    decreases n,
{
    if n == 0 {
        Inflating { left: input, plain: Seq::empty(), len: input.len() * 4 }
    } else {
        let before = inflating(input, calls, (n - 1) as nat);
        match calls[n - 1].2 {
            Ok((read, written)) => {
                let plain = before.plain + written;
                Inflating {
                    left: before.left.skip(read as int),
                    plain,
                    len: match buffer_step(before.len, plain.len()) {
                        BufferStep::Grow(len) => len as nat,
                        _ => before.len,
                    },
                }
            },
            Err(_) => before,
        }
    }
}

impl Inflating {
    /// Whether a call hands over what is left to read, and the rest of the buffer.
    pub open spec fn asks(self, call: StreamCall) -> bool {
        call.0 == self.left && call.1 == self.len - self.plain.len()
    }

    /// What becomes of the buffer once a call has written to it.
    pub open spec fn step(self, written: Seq<u8>) -> BufferStep {
        buffer_step(self.len, self.plain.len() + written.len())
    }

    /// Whether there is another call after this one: it worked, and the buffer has to grow.
    pub open spec fn goes_on(self, call: StreamCall) -> bool {
        call.2 matches Ok((_, written)) && self.step(written) is Grow
    }
}

/// Whether call `n` hands over what is left to read, and the rest of the buffer.
pub open spec fn asked(input: Seq<u8>, calls: Seq<StreamCall>, n: int) -> bool {
    inflating(input, calls, n as nat).asks(calls[n])
}

/// Whether there is another call after call `n`.
pub open spec fn went_on(input: Seq<u8>, calls: Seq<StreamCall>, n: int) -> bool {
    inflating(input, calls, n as nat).goes_on(calls[n])
}

/// Whether `calls` are those by which `input` is decompressed.
pub open spec fn inflated_by(input: Seq<u8>, calls: Seq<StreamCall>) -> bool {
    &&& calls.len() > 0
    &&& forall|n: int| 0 <= n < calls.len() ==> #[trigger] asked(input, calls, n)
    &&& forall|n: int| 0 <= n < calls.len() ==> (#[trigger] went_on(input, calls, n) <==> n < calls.len() - 1)
}

/// What the calls by which `input` is decompressed wrote, or the error code of the last one. There is
/// no code for a buffer that cannot be longer: it is told by zero.
pub open spec fn inflated(input: Seq<u8>, calls: Seq<StreamCall>) -> Result<Seq<u8>, usize> {
    let before = inflating(input, calls, (calls.len() - 1) as nat);
    match calls.last().2 {
        Ok((_, written)) => if before.step(written) is TooLong {
            Err(0)
        } else {
            Ok(before.plain + written)
        },
        Err(code) => Err(code),
    }
}

/// Whether call `n` on a stream is answered as the calls before it determine: what it writes if it works,
/// and that it fails if the one before it did.
pub open spec fn is_determined(calls: Seq<StreamCall>, n: int) -> bool {
    &&& calls[n].2 matches Ok(reply) ==> reply == decompressed(calls.take(n), calls[n].0, calls[n].1)
    &&& n > 0 ==> (calls[n - 1].2 matches Err(code) ==> calls[n].2 == Err::<(nat, Seq<u8>), usize>(code))
}

/// Whether a stream that had seen `before` has seen `after` once it has been handed `input` to
/// decompress.
pub open spec fn stream_step(before: Seq<StreamCall>, input: Seq<u8>, after: Seq<StreamCall>) -> bool {
    &&& before.is_prefix_of(after)
    &&& inflated_by(input, after.skip(before.len() as int))
    &&& forall|n: int| before.len() <= n < after.len() ==> #[trigger] is_determined(after, n)
}

/// Whether `data` begin with `plain`.
pub open spec fn begins_with(data: Seq<u8>, plain: Seq<u8>) -> bool {
    plain.len() <= data.len() && data.take(plain.len() as int) == plain
}

/// What becomes of a buffer of `len` bytes of which `written` are written.
pub fn next_buffer(len: usize, written: usize) -> (r: BufferStep)
    ensures
        r == buffer_step(len as nat, written as nat),
{
    if written < len {
        BufferStep::Done
    } else if len <= usize::MAX / 2 {
        BufferStep::Grow(len * 2)
    } else {
        BufferStep::TooLong
    }
}

/// How far decompression has come does not depend on later calls.
proof fn lemma_inflating_prefix(input: Seq<u8>, a: Seq<StreamCall>, b: Seq<StreamCall>, n: nat)
    requires
        n <= a.len(),
        n <= b.len(),
        forall|k: int| 0 <= k < n ==> a[k] == b[k],
    ensures
        inflating(input, a, n) == inflating(input, b, n),
    decreases n,
{
    if n > 0 {
        lemma_inflating_prefix(input, a, b, (n - 1) as nat);
    }
}

/// Decompresses what a Zstandard stream goes on with. There may be more bytes behind the data.
pub(crate) fn inflate(stream: &mut zstd_safe::DCtx<'static>, compressed: &[u8]) -> (r: SessionResult<Vec<u8>>)
    requires
        compressed@.len() > 0,
        compressed@.len() * 4 <= usize::MAX,
    ensures
        stream_step(seen(*old(stream)), compressed@, seen(*final(stream))),
        match inflated(compressed@, seen(*final(stream)).skip(seen(*old(stream)).len() as int)) {
            Ok(plain) => r is Ok && begins_with((r->Ok_0)@, plain),
            Err(code) => r == Err::<Vec<u8>, SessionError>(SessionError::Zstd(code)),
        },
{
    let mut data: Vec<u8> = vec![0; compressed.len() * 4];
    let mut at: usize = 0;
    let mut pos: usize = 0;
    let ghost before = seen(*stream);
    let ghost mut calls: Seq<StreamCall> = Seq::empty();
    proof {
        assert(compressed@.skip(0) =~= compressed@);
        assert(data@.take(0) =~= Seq::empty());
        assert(before + calls =~= before);
    }
    loop
        invariant
            at <= compressed@.len(),
            pos <= data@.len(),
            0 < data@.len(),
            before == seen(*old(stream)),
            seen(*stream) == before + calls,
            inflating(compressed@, calls, calls.len()) == (Inflating {
                left: compressed@.skip(at as int),
                plain: data@.take(pos as int),
                len: data@.len(),
            }),
            forall|n: int| 0 <= n < calls.len() ==> #[trigger] asked(compressed@, calls, n),
            forall|n: int| 0 <= n < calls.len() ==> #[trigger] went_on(compressed@, calls, n),
            forall|n: int|
                before.len() <= n < (before + calls).len() ==> #[trigger] is_determined(before + calls, n),
        decreases usize::MAX - data@.len(),
    {
        let ghost here = inflating(compressed@, calls, calls.len());
        let ghost earlier = data@;
        let ghost past = before + calls;
        let step: Result<(usize, usize), usize> = inflate_step(stream, compressed, at, &mut data, pos);
        proof {
            let call = seen(*stream).last();
            let longer = calls.push(call);
            let now = before + longer;
            assert(seen(*stream) =~= now);
            assert(now.take(past.len() as int) =~= past);
            lemma_inflating_prefix(compressed@, calls, longer, calls.len());
            assert(here.asks(call));
            assert forall|n: int| 0 <= n < longer.len() implies #[trigger] asked(compressed@, longer, n) by {
                lemma_inflating_prefix(compressed@, calls, longer, n as nat);
                if n < calls.len() {
                    assert(asked(compressed@, calls, n));
                }
            }
            assert forall|n: int| 0 <= n < longer.len() - 1 implies #[trigger] went_on(
                compressed@,
                longer,
                n,
            ) by {
                lemma_inflating_prefix(compressed@, calls, longer, n as nat);
                assert(went_on(compressed@, calls, n));
            }
            assert forall|n: int| before.len() <= n < now.len() implies #[trigger] is_determined(now, n) by {
                if n < past.len() {
                    assert(is_determined(past, n));
                    assert(now.take(n) =~= past.take(n));
                }
            }
            assert(now.skip(before.len() as int) =~= longer);
            assert(before.is_prefix_of(now));
            calls = longer;
        }
        match step {
            Ok((read, written)) => {
                proof {
                    assert(data@.take(written as int) =~= earlier.take(pos as int) + data@.subrange(
                        pos as int,
                        written as int,
                    ));
                    assert(compressed@.skip(at as int).skip(read - at) =~= compressed@.skip(read as int));
                }
                at = read;
                pos = written;
            },
            Err(code) => {
                return Err(SessionError::Zstd(code));
            },
        }
        match next_buffer(data.len(), pos) {
            BufferStep::Done => {
                return Ok(data);
            },
            BufferStep::Grow(len) => {
                let ghost written = data@;
                data.resize(len, 0);
                assert(data@.take(pos as int) =~= written.take(pos as int));
            },
            BufferStep::TooLong => {
                return Err(SessionError::Zstd(0));
            },
        }
    }
}

/// A stream that works is handed the same calls and gives the same data whenever it has seen the same.
pub proof fn law_decompression_is_determined(
    before: Seq<StreamCall>,
    input: Seq<u8>,
    a: Seq<StreamCall>,
    b: Seq<StreamCall>,
)
    requires
        stream_step(before, input, a),
        stream_step(before, input, b),
        inflated(input, a.skip(before.len() as int)) is Ok,
        inflated(input, b.skip(before.len() as int)) is Ok,
    ensures
        a == b,
{
    let m = before.len() as int;
    let x = a.skip(m);
    let y = b.skip(m);
    lemma_calls_agree(before, input, a, b, x.len());
    lemma_calls_agree(before, input, b, a, y.len());
    if x.len() < y.len() {
        let n = x.len() - 1;
        lemma_inflating_prefix(input, x, y, n as nat);
        assert(x[n] == y[n]);
        assert(!went_on(input, x, n) && went_on(input, y, n));
    }
    if y.len() < x.len() {
        let n = y.len() - 1;
        lemma_inflating_prefix(input, x, y, n as nat);
        assert(x[n] == y[n]);
        assert(went_on(input, x, n) && !went_on(input, y, n));
    }
    assert(a =~= before + x);
    assert(b =~= before + y);
    assert(x =~= y);
}

proof fn lemma_calls_agree(
    before: Seq<StreamCall>,
    input: Seq<u8>,
    a: Seq<StreamCall>,
    b: Seq<StreamCall>,
    n: nat,
)
    requires
        stream_step(before, input, a),
        stream_step(before, input, b),
        inflated(input, a.skip(before.len() as int)) is Ok,
        inflated(input, b.skip(before.len() as int)) is Ok,
        n <= a.len() - before.len(),
    ensures
        ({
            let x = a.skip(before.len() as int);
            let y = b.skip(before.len() as int);
            forall|k: int| 0 <= k < n && k < y.len() ==> x[k] == y[k]
        }),
    decreases n,
{
    let m = before.len() as int;
    let x = a.skip(m);
    let y = b.skip(m);
    if n > 0 {
        let k = n - 1;
        lemma_calls_agree(before, input, a, b, k as nat);
        if k < y.len() {
            lemma_inflating_prefix(input, x, y, k as nat);
            assert(asked(input, x, k) && asked(input, y, k));
            assert(went_on(input, x, k) <==> k < x.len() - 1);
            assert(went_on(input, y, k) <==> k < y.len() - 1);
            assert(a.take(m + k) =~= b.take(m + k)) by {
                assert forall|i: int| 0 <= i < m + k implies a[i] == b[i] by {
                    if i < m {
                        assert(a[i] == before[i] && b[i] == before[i]);
                    } else {
                        assert(a[i] == x[i - m] && b[i] == y[i - m]);
                    }
                }
            }
            assert(is_determined(a, m + k));
            assert(is_determined(b, m + k));
        }
    }
}

/// A stream that has failed goes on failing with the same code, whatever it is handed.
pub proof fn law_failed_stream_stays_failed(
    before: Seq<StreamCall>,
    input: Seq<u8>,
    after: Seq<StreamCall>,
    code: usize,
)
    requires
        stream_step(before, input, after),
        before.len() > 0,
        before.last().2 == Err::<(nat, Seq<u8>), usize>(code),
    ensures
        inflated(input, after.skip(before.len() as int)) == Err::<Seq<u8>, usize>(code),
        after.last().2 == Err::<(nat, Seq<u8>), usize>(code),
{
    let m = before.len() as int;
    let calls = after.skip(m);
    assert(after[m - 1] == before[m - 1]);
    assert(is_determined(after, m));
    assert(calls[0] == after[m]);
    assert(went_on(input, calls, 0) <==> 0 < calls.len() - 1);
}

} // verus!
