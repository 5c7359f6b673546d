use vstd::prelude::*;

use crate::error::TransferError;

verus! {

/// A readable byte stream: a file, a socket, an archive entry, or memory.
///
/// `pending` is what is still to be read before the end of the stream.
pub trait ByteSource {
    spec fn pending(&self) -> Seq<u8>;

    /// A reliable source never fails to read.
    spec fn reliable(&self) -> bool;

    /// Reads up to `buf.len()` bytes into the front of `buf`.
    /// `Ok(0)` is returned exactly at the end of the stream.
    fn read_chunk(&mut self, buf: &mut Vec<u8>) -> (r: Result<usize, TransferError>)
        requires
            old(buf)@.len() > 0,
        ensures
            final(buf)@.len() == old(buf)@.len(),
            final(self).reliable() == old(self).reliable(),
            old(self).reliable() ==> r is Ok,
            match r {
                Ok(n) => {
                    &&& n <= old(buf)@.len()
                    &&& (n == 0 <==> old(self).pending().len() == 0)
                    &&& n <= old(self).pending().len()
                    &&& final(buf)@.take(n as int) == old(self).pending().take(n as int)
                    &&& final(self).pending() == old(self).pending().skip(n as int)
                },
                Err(_) => final(self).pending() == old(self).pending(),
            },
    ;
}

/// A writable byte stream. `written` is everything accepted so far.
pub trait ByteSink {
    spec fn written(&self) -> Seq<u8>;

    /// A reliable sink never fails to write.
    spec fn reliable(&self) -> bool;

    /// The chunks accepted so far, one for each successful write, in order.
    spec fn writes(&self) -> Seq<Seq<u8>>;

    /// Writes the first `n` bytes of `buf`, all of them or fails.
    fn write_all(&mut self, buf: &Vec<u8>, n: usize) -> (r: Result<(), TransferError>)
        requires
            n <= buf@.len(),
        ensures
            final(self).reliable() == old(self).reliable(),
            old(self).reliable() ==> r is Ok,
            r is Ok ==> final(self).written() == old(self).written() + buf@.take(n as int)
                && final(self).writes() == old(self).writes().push(buf@.take(n as int)),
            r is Err ==> final(self).written() == old(self).written() && final(self).writes() == old(self).writes(),
    ;
}

/// Moves every byte of `reader` into `writer` through one buffer of
/// `buffer_size` bytes, until the reader reports the end of its stream.
/// The first failing read or write ends the copy with its error. The writer
/// then holds every byte read before the failure, less the one chunk (of at
/// most `buffer_size` bytes) whose write failed.
pub fn copy<R: ByteSource, W: ByteSink>(reader: &mut R, writer: &mut W, buffer_size: usize) -> (r:
    Result<(), TransferError>)
    requires
        buffer_size > 0,
    ensures
        old(reader).reliable() && (old(writer).reliable() || old(reader).pending().len() == 0) ==> r is Ok,
        final(writer).writes().len() >= old(writer).writes().len(),
        final(writer).writes().take(old(writer).writes().len() as int) == old(writer).writes(),
        forall|c: int|
            old(writer).writes().len() <= c < final(writer).writes().len() ==> 0 < (
            #[trigger] final(writer).writes()[c]).len() <= buffer_size,
        r is Ok ==> {
            &&& final(reader).pending().len() == 0
            &&& final(writer).written() == old(writer).written() + old(reader).pending()
        },
        r is Err ==> {
            let k = old(reader).pending().len() - final(reader).pending().len();
            &&& 0 <= k <= old(reader).pending().len()
            &&& final(reader).pending() == old(reader).pending().skip(k)
            &&& exists|m: int|
                0 <= m <= buffer_size && m <= k && final(writer).written() == old(writer).written()
                    + #[trigger] old(reader).pending().take(k - m)
        },
{
    let mut buffer: Vec<u8> = vec![0u8; buffer_size];
    loop
        invariant
            buffer@.len() == buffer_size,
            buffer_size > 0,
            old(writer).written() + old(reader).pending() == writer.written() + reader.pending(),
            reader.reliable() == old(reader).reliable(),
            writer.reliable() == old(writer).reliable(),
            writer.writes().len() >= old(writer).writes().len(),
            writer.writes().take(old(writer).writes().len() as int) == old(writer).writes(),
            forall|c: int|
                old(writer).writes().len() <= c < writer.writes().len() ==> 0 < (
                #[trigger] writer.writes()[c]).len() <= buffer_size,
            writer.written().len() >= old(writer).written().len(),
            writer.written() == old(writer).written() + old(reader).pending().take(
                writer.written().len() - old(writer).written().len(),
            ),
            reader.pending() == old(reader).pending().skip(
                writer.written().len() - old(writer).written().len(),
            ),
            writer.written().len() - old(writer).written().len() <= old(reader).pending().len(),
        decreases reader.pending().len(),
    {
        let ghost before = reader.pending();
        let ghost written_before = writer.written();
        let ghost k = writer.written().len() - old(writer).written().len();
        let n = match reader.read_chunk(&mut buffer) {
            Ok(n) => n,
            Err(e) => {
                assert(writer.written() =~= old(writer).written() + old(reader).pending().take(k));
                assert(reader.pending().len() == old(reader).pending().len() - k);
                assert(writer.written() == old(writer).written() + old(reader).pending().take(k - 0));
                return Err(e);
            },
        };
        if n == 0 {
            assert(writer.written() + reader.pending() =~= writer.written());
            return Ok(());
        }
        match writer.write_all(&buffer, n) {
            Ok(()) => {},
            Err(e) => {
                let ghost p = old(reader).pending();
                assert(before == p.skip(k));
                assert(reader.pending() =~= p.skip(k + n));
                assert(writer.written() == old(writer).written() + p.take((k + n) - n));
                return Err(e);
            },
        }
        let ghost p = old(reader).pending();
        assert(writer.writes().take(old(writer).writes().len() as int) =~= old(writer).writes());
        assert(before =~= before.take(n as int) + before.skip(n as int));
        assert(writer.written() + reader.pending() =~= written_before + before);
        assert(before == p.skip(k));
        assert(before.take(n as int) =~= p.subrange(k, k + n));
        assert(p.take(k + n) =~= p.take(k) + p.subrange(k, k + n));
        assert(writer.written() =~= old(writer).written() + p.take(k + n));
        assert(reader.pending() =~= p.skip(k + n));
    }
}

/// An in-memory stream: the bytes of `data` from `pos` on are still to be read.
pub struct MemSource {
    data: Vec<u8>,
    pos: usize,
}

impl MemSource {
    pub fn new(data: Vec<u8>) -> (r: MemSource)
        ensures
            r.pending() == data@,
            r.reliable(),
    {
        let r = MemSource { data, pos: 0 };
        assert(r.data@.skip(0) =~= data@);
        r
    }

    /// The number of bytes not yet read.
    pub fn remaining(&self) -> (r: usize)
        ensures
            r == self.pending().len(),
    {
        if self.pos <= self.data.len() {
            self.data.len() - self.pos
        } else {
            0
        }
    }
}

impl ByteSource for MemSource {
    closed spec fn reliable(&self) -> bool {
        true
    }

    closed spec fn pending(&self) -> Seq<u8> {
        if self.pos <= self.data@.len() {
            self.data@.skip(self.pos as int)
        } else {
            Seq::empty()
        }
    }

    fn read_chunk(&mut self, buf: &mut Vec<u8>) -> (r: Result<usize, TransferError>) {
        let avail = self.remaining();
        if avail == 0 {
            assert(self.pending().skip(0) =~= self.pending());
            return Ok(0);
        }
        let n: usize = if avail < buf.len() {
            avail
        } else {
            buf.len()
        };
        let start = self.pos;
        let len = self.data.len();
        let mut i: usize = 0;
        while i < n
            invariant
                i <= n,
                n <= buf@.len(),
                n <= old(self).pending().len(),
                start == self.pos,
                self.pos == old(self).pos,
                self.data == old(self).data,
                start <= self.data@.len(),
                len == self.data@.len(),
                n + start <= self.data@.len(),
                buf@.len() == old(buf)@.len(),
                forall|k: int| 0 <= k < i ==> buf@[k] == self.data@[start + k],
            decreases n - i,
        {
            buf.set(i, self.data[start + i]);
            i = i + 1;
        }
        if n > 0 {
            self.pos = start + n;
        }
        assert(buf@.take(n as int) =~= old(self).pending().take(n as int));
        assert(self.pending() =~= old(self).pending().skip(n as int));
        Ok(n)
    }
}

/// An in-memory sink that keeps every byte written to it.
pub struct MemSink {
    data: Vec<u8>,
    log: Ghost<Seq<Seq<u8>>>,
}

impl MemSink {
    pub fn new() -> (r: MemSink)
        ensures
            r.written() == Seq::<u8>::empty(),
            r.writes() == Seq::<Seq<u8>>::empty(),
            r.reliable(),
    {
        MemSink { data: Vec::new(), log: Ghost(Seq::empty()) }
    }

    /// Everything written so far.
    pub fn into_bytes(self) -> (r: Vec<u8>)
        ensures
            r@ == self.written(),
    {
        self.data
    }
}

impl ByteSink for MemSink {
    closed spec fn reliable(&self) -> bool {
        true
    }

    closed spec fn written(&self) -> Seq<u8> {
        self.data@
    }

    closed spec fn writes(&self) -> Seq<Seq<u8>> {
        self.log@
    }

    fn write_all(&mut self, buf: &Vec<u8>, n: usize) -> (r: Result<(), TransferError>) {
        let mut i: usize = 0;
        while i < n
            invariant
                i <= n,
                n <= buf@.len(),
                self.data@ == old(self).data@ + buf@.take(i as int),
                self.log == old(self).log,
            decreases n - i,
        {
            self.data.push(buf[i]);
            assert(buf@.take(i + 1) =~= buf@.take(i as int).push(buf@[i as int]));
            i = i + 1;
        }
        self.log = Ghost(self.log@.push(buf@.take(n as int)));
        Ok(())
    }
}

} // verus!
