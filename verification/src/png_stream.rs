//! The PNG stream demultiplexer: splits a continuous, unframed byte stream
//! of back-to-back PNG images into single images by following the chunk
//! structure — an 8-byte signature, then chunks of 4-byte big-endian
//! length, 4-byte type tag, payload and 4-byte checksum, up to and
//! including the end-of-image chunk. Checksums are not verified; the
//! declared lengths are trusted, and a stream that ends inside an image is
//! a format error.

use vstd::prelude::*;
use vstd::slice::slice_subrange;

verus! {

/// A malformed image stream.
#[derive(Clone, Copy, Debug, PartialEq, Eq)]
pub enum FormatError {
    /// The bytes at the start of an image are not the PNG signature.
    BadSignature,
    /// The stream ended inside an image.
    Truncated,
}

/// The fixed 8-byte PNG signature.
pub open spec fn png_signature() -> Seq<u8> {
    seq![0x89u8, 0x50u8, 0x4eu8, 0x47u8, 0x0du8, 0x0au8, 0x1au8, 0x0au8]
}

/// The 4-byte type tag of the end-of-image chunk, `IEND`.
pub open spec fn iend_type() -> Seq<u8> {
    seq![0x49u8, 0x45u8, 0x4eu8, 0x44u8]
}

/// The value of 4 bytes read as a big-endian integer.
pub open spec fn be32(b: Seq<u8>) -> int
    recommends
        b.len() == 4,
{
    b[0] * 0x1000000 + b[1] * 0x10000 + b[2] * 0x100 + b[3]
}

/// The total size of the chunk whose 8-byte header starts `s`: header,
/// payload and checksum.
pub open spec fn chunk_size(s: Seq<u8>) -> int
    recommends
        s.len() >= 8,
{
    12 + be32(s.subrange(0, 4))
}

/// Whether the chunk whose 8-byte header starts `s` is the end-of-image
/// chunk.
pub open spec fn chunk_is_iend(s: Seq<u8>) -> bool
    recommends
        s.len() >= 8,
{
    s.subrange(4, 8) == iend_type()
}

/// Parses a run of complete chunks from the front of `s`, up to and
/// including the first end-of-image chunk. Returns the number of bytes
/// those chunks cover, or `None` when `s` holds no such run.
pub open spec fn parse_chunks(s: Seq<u8>) -> Option<int>
    decreases s.len(),
{
    if s.len() < 8 {
        None
    } else {
        let c = chunk_size(s);
        if s.len() < c {
            None
        } else if chunk_is_iend(s) {
            Some(c)
        } else {
            match parse_chunks(s.skip(c)) {
                Some(r) => Some(c + r),
                None => None,
            }
        }
    }
}

/// Parses one complete PNG image from the front of `s`: the signature,
/// then chunks up to and including the end-of-image chunk. Returns the
/// number of bytes the image covers, or `None` when `s` does not begin
/// with a complete image.
pub open spec fn parse_image(s: Seq<u8>) -> Option<int> {
    if s.len() >= 8 && s.subrange(0, 8) == png_signature() {
        match parse_chunks(s.skip(8)) {
            Some(n) => Some(8 + n),
            None => None,
        }
    } else {
        None
    }
}

/// Whether `s` is exactly one complete PNG image.
pub open spec fn is_png_image(s: Seq<u8>) -> bool {
    parse_image(s) == Some(s.len() as int)
}

/// Whether `s` is exactly a run of complete chunks, none of them the
/// end-of-image chunk.
pub open spec fn non_iend_chunks(s: Seq<u8>) -> bool
    decreases s.len(),
{
    if s.len() == 0 {
        true
    } else if s.len() < 8 {
        false
    } else {
        let c = chunk_size(s);
        if s.len() < c || chunk_is_iend(s) {
            false
        } else {
            non_iend_chunks(s.skip(c))
        }
    }
}

/// Whether `s` is exactly one complete chunk.
pub open spec fn single_chunk(s: Seq<u8>) -> bool {
    s.len() >= 8 && s.len() == chunk_size(s)
}

proof fn lemma_parse_chunks_bounds(s: Seq<u8>)
    ensures
        match parse_chunks(s) {
            Some(n) => 12 <= n <= s.len(),
            None => true,
        },
    decreases s.len(),
{
    if s.len() >= 8 {
        let c = chunk_size(s);
        if s.len() >= c && !chunk_is_iend(s) {
            lemma_parse_chunks_bounds(s.skip(c));
        }
    }
}

proof fn lemma_parse_chunks_extend(s: Seq<u8>, t: Seq<u8>)
    requires
        parse_chunks(s) is Some,
    ensures
        parse_chunks(s + t) == parse_chunks(s),
    decreases s.len(),
{
    let c = chunk_size(s);
    let u = s + t;
    assert(u.subrange(0, 4) =~= s.subrange(0, 4));
    assert(u.subrange(4, 8) =~= s.subrange(4, 8));
    if chunk_is_iend(s) {
    } else {
        assert(u.skip(c) =~= s.skip(c) + t);
        lemma_parse_chunks_extend(s.skip(c), t);
    }
}

/// Prepending complete non-end chunks shifts the parse by their length.
proof fn lemma_parse_chunks_prepend(a: Seq<u8>, b: Seq<u8>)
    requires
        non_iend_chunks(a),
    ensures
        parse_chunks(a + b) == match parse_chunks(b) {
            Some(m) => Some(a.len() + m),
            None => None::<int>,
        },
    decreases a.len(),
{
    if a.len() == 0 {
        assert(a + b =~= b);
    } else {
        let c = chunk_size(a);
        let u = a + b;
        assert(u.subrange(0, 4) =~= a.subrange(0, 4));
        assert(u.subrange(4, 8) =~= a.subrange(4, 8));
        assert(u.skip(c) =~= a.skip(c) + b);
        lemma_parse_chunks_prepend(a.skip(c), b);
    }
}

proof fn lemma_non_iend_append(a: Seq<u8>, c: Seq<u8>)
    requires
        non_iend_chunks(a),
        single_chunk(c),
        !chunk_is_iend(c),
    ensures
        non_iend_chunks(a + c),
    decreases a.len(),
{
    if a.len() == 0 {
        assert(a + c =~= c);
        assert(c.skip(chunk_size(c)) =~= Seq::<u8>::empty());
        assert(non_iend_chunks(Seq::<u8>::empty()));
        assert(non_iend_chunks(c));
    } else {
        let ca = chunk_size(a);
        let u = a + c;
        assert(u.subrange(0, 4) =~= a.subrange(0, 4));
        assert(u.subrange(4, 8) =~= a.subrange(4, 8));
        assert(u.skip(ca) =~= a.skip(ca) + c);
        lemma_non_iend_append(a.skip(ca), c);
        assert(chunk_size(u) == ca);
        assert(u.len() >= ca);
        assert(non_iend_chunks(u));
    }
}

proof fn lemma_image_extend(s: Seq<u8>, t: Seq<u8>)
    requires
        is_png_image(s),
    ensures
        parse_image(s + t) == Some(s.len() as int),
{
    let u = s + t;
    assert(u.subrange(0, 8) =~= s.subrange(0, 8));
    assert(u.skip(8) =~= s.skip(8) + t);
    lemma_parse_chunks_extend(s.skip(8), t);
}

/// Splits a whole stream into images: one image parsed off the front at a
/// time until the stream is exhausted. `None` when the stream is not
/// exactly a concatenation of complete images.
pub open spec fn demux_spec(s: Seq<u8>) -> Option<Seq<Seq<u8>>>
    decreases s.len(),
{
    if s.len() == 0 {
        Some(Seq::<Seq<u8>>::empty())
    } else {
        match parse_image(s) {
            Some(n) => if 0 < n <= s.len() {
                match demux_spec(s.skip(n)) {
                    Some(rest) => Some(seq![s.take(n)] + rest),
                    None => None,
                }
            } else {
                None
            },
            None => None,
        }
    }
}

/// Law: a stream formed by concatenating complete PNG images
/// demultiplexes into exactly those images, byte for byte, consuming the
/// entire stream with nothing left over and nothing missing.
pub proof fn lemma_demux_round_trip(imgs: Seq<Seq<u8>>)
    requires
        forall|i: int| 0 <= i < imgs.len() ==> is_png_image(#[trigger] imgs[i]),
    ensures
        demux_spec(imgs.flatten()) == Some(imgs),
    decreases imgs.len(),
{
    if imgs.len() == 0 {
        assert(imgs.flatten() =~= Seq::<u8>::empty());
        assert(imgs =~= Seq::<Seq<u8>>::empty());
    } else {
        let first = imgs.first();
        let rest = imgs.drop_first();
        let s = imgs.flatten();
        assert(s == first + rest.flatten());
        assert(is_png_image(first));
        lemma_image_extend(first, rest.flatten());
        lemma_parse_chunks_bounds(first.skip(8));
        let n = first.len() as int;
        assert(parse_image(s) == Some(n));
        assert(0 < n <= s.len());
        assert(s.take(n) =~= first);
        assert(s.skip(n) =~= rest.flatten());
        assert(forall|i: int| 0 <= i < rest.len() ==> is_png_image(#[trigger] rest[i])) by {
            assert(forall|i: int| 0 <= i < rest.len() ==> rest[i] == imgs[i + 1]);
        }
        lemma_demux_round_trip(rest);
        assert(seq![first] + rest =~= imgs);
    }
}

/// Where the splitter stands inside the current image.
#[derive(Clone, Copy)]
enum SplitState {
    /// At an image boundary, about to read the 8-byte signature.
    Signature,
    /// About to read an 8-byte chunk header.
    ChunkHeader,
    /// Inside a chunk: `remaining` bytes of payload and checksum are still
    /// owed; `last` says whether this chunk is the end-of-image chunk.
    ChunkData { remaining: u64, last: bool },
}

/// The demultiplexer of a continuous stream of back-to-back PNG images.
///
/// The splitter is fed the stream's bytes in portions whose sizes it
/// dictates, and reports the instant one image is complete; the caller
/// copies every fed portion verbatim to wherever the image goes. The
/// completed images and the bytes of the image under way are tracked in
/// ghost state, so that what was fed is pinned byte for byte.
pub struct PngStreamSplitter {
    state: SplitState,
    images: Ghost<Seq<Seq<u8>>>,
    complete: Ghost<Seq<u8>>,
    partial: Ghost<Seq<u8>>,
}

impl PngStreamSplitter {
    /// The images completed so far, in stream order.
    pub closed spec fn images(&self) -> Seq<Seq<u8>> {
        self.images@
    }

    /// The bytes of the image under way.
    pub closed spec fn pending(&self) -> Seq<u8> {
        self.complete@ + self.partial@
    }

    /// Whether the splitter stands at an image boundary.
    pub open spec fn at_image_start(&self) -> bool {
        self.pending().len() == 0
    }

    /// How many bytes the splitter asks for next.
    pub closed spec fn spec_needed(&self) -> int {
        match self.state {
            SplitState::Signature => 8,
            SplitState::ChunkHeader => 8,
            SplitState::ChunkData { remaining, .. } => remaining as int,
        }
    }

    /// Whether the splitter is inside a chunk's payload, where it accepts
    /// any portion of the owed bytes rather than an exact count.
    pub closed spec fn in_data(&self) -> bool {
        self.state is ChunkData
    }

    /// The portion sizes `feed` accepts.
    pub open spec fn feed_len_ok(&self, n: int) -> bool {
        if self.in_data() {
            1 <= n <= self.spec_needed()
        } else {
            n == self.spec_needed()
        }
    }

    spec fn complete_ok(&self) -> bool {
        &&& self.complete@.len() >= 8
        &&& self.complete@.subrange(0, 8) == png_signature()
        &&& non_iend_chunks(self.complete@.skip(8))
    }

    /// The splitter's invariant: its position ties exactly to the bytes
    /// fed so far, and every completed image is a complete PNG image.
    pub closed spec fn wf(&self) -> bool {
        &&& (forall|i: int| 0 <= i < self.images@.len() ==> is_png_image(#[trigger] self.images@[i]))
        &&& match self.state {
            SplitState::Signature => self.complete@.len() == 0 && self.partial@.len() == 0,
            SplitState::ChunkHeader => self.complete_ok() && self.partial@.len() == 0,
            SplitState::ChunkData { remaining, last } => {
                &&& self.complete_ok()
                &&& self.partial@.len() >= 8
                &&& self.partial@.len() + remaining == chunk_size(self.partial@)
                &&& remaining >= 1
                &&& last == chunk_is_iend(self.partial@)
            },
        }
    }

    /// A fresh splitter at the start of the stream.
    pub fn new() -> (s: Self)
        ensures
            s.wf(),
            s.images() == Seq::<Seq<u8>>::empty(),
            s.pending() == Seq::<u8>::empty(),
    {
        let s = PngStreamSplitter {
            state: SplitState::Signature,
            images: Ghost(Seq::empty()),
            complete: Ghost(Seq::empty()),
            partial: Ghost(Seq::empty()),
        };
        proof {
            assert(s.pending() =~= Seq::<u8>::empty());
        }
        s
    }

    /// How many bytes to read next. Inside a chunk this is everything
    /// still owed, and any nonempty portion of it may be fed; elsewhere
    /// exactly this count must be fed.
    pub fn needed(&self) -> (n: u64)
        requires
            self.wf(),
        ensures
            n == self.spec_needed(),
            n >= 1,
    {
        match self.state {
            SplitState::Signature => 8,
            SplitState::ChunkHeader => 8,
            SplitState::ChunkData { remaining, .. } => remaining,
        }
    }

    /// Whether the splitter is inside a chunk's payload.
    pub fn in_data_phase(&self) -> (b: bool)
        ensures
            b == self.in_data(),
    {
        match self.state {
            SplitState::ChunkData { .. } => true,
            _ => false,
        }
    }

    /// Consumes the next portion of the stream. Returns `Ok(true)` exactly
    /// when the portion completes an image — the bytes fed since the last
    /// image boundary then form one complete PNG image — and `Ok(false)`
    /// while the image is still incomplete. Fails exactly when the 8 bytes
    /// at an image boundary are not the PNG signature.
    pub fn feed(&mut self, buf: &[u8]) -> (r: Result<bool, FormatError>)
        requires
            old(self).wf(),
            old(self).feed_len_ok(buf@.len() as int),
        ensures
            match r {
                Ok(done) => {
                    let fed = old(self).pending() + buf@;
                    &&& final(self).wf()
                    &&& (old(self).at_image_start() ==> buf@ == png_signature())
                    &&& if done {
                        &&& is_png_image(fed)
                        &&& final(self).images() == old(self).images().push(fed)
                        &&& final(self).pending() == Seq::<u8>::empty()
                    } else {
                        &&& parse_image(fed) is None
                        &&& final(self).images() == old(self).images()
                        &&& final(self).pending() == fed
                    }
                },
                Err(e) => {
                    &&& e == FormatError::BadSignature
                    &&& old(self).at_image_start()
                    &&& buf@ != png_signature()
                    &&& *final(self) == *old(self)
                },
            },
    {
        match self.state {
            SplitState::Signature => {
                proof {
                    assert(old(self).pending() =~= Seq::<u8>::empty());
                }
                let ok = buf[0] == 0x89 && buf[1] == 0x50 && buf[2] == 0x4e && buf[3] == 0x47
                    && buf[4] == 0x0d && buf[5] == 0x0a && buf[6] == 0x1a && buf[7] == 0x0a;
                if !ok {
                    proof {
                        assert(buf@ != png_signature());
                    }
                    return Err(FormatError::BadSignature);
                }
                proof {
                    assert(buf@ =~= png_signature());
                }
                self.state = SplitState::ChunkHeader;
                self.complete = Ghost(buf@);
                proof {
                    let fed = old(self).pending() + buf@;
                    assert(fed =~= buf@);
                    assert(self.complete@.subrange(0, 8) =~= buf@);
                    assert(self.complete@.skip(8) =~= Seq::<u8>::empty());
                    assert(non_iend_chunks(Seq::<u8>::empty()));
                    assert(fed.skip(8) =~= Seq::<u8>::empty());
                    assert(parse_chunks(Seq::<u8>::empty()) is None);
                    assert(self.pending() =~= fed);
                }
                Ok(false)
            },
            SplitState::ChunkHeader => {
                let chunk_len: u32 = (buf[0] as u32) * 0x1000000 + (buf[1] as u32) * 0x10000 + (
                buf[2] as u32) * 0x100 + (buf[3] as u32);
                let remaining: u64 = chunk_len as u64 + 4;
                let last = buf[4] == 0x49 && buf[5] == 0x45 && buf[6] == 0x4e && buf[7] == 0x44;
                proof {
                    assert(buf@.subrange(0, 4) =~= seq![buf@[0], buf@[1], buf@[2], buf@[3]]);
                    assert(be32(buf@.subrange(0, 4)) == chunk_len);
                    if last {
                        assert(buf@.subrange(4, 8) =~= iend_type());
                    } else {
                        assert(buf@.subrange(4, 8) != iend_type()) by {
                            if buf@.subrange(4, 8) == iend_type() {
                                assert(buf@[4] == 0x49u8 && buf@[5] == 0x45u8 && buf@[6] == 0x4eu8
                                    && buf@[7] == 0x44u8);
                            }
                        }
                    }
                }
                self.state = SplitState::ChunkData { remaining, last };
                self.partial = Ghost(buf@);
                proof {
                    let fed = old(self).pending() + buf@;
                    assert(old(self).pending() =~= self.complete@);
                    assert(self.pending() =~= fed);
                    assert(chunk_size(self.partial@) == 12 + chunk_len);
                    lemma_pending_open(self.complete@, self.partial@);
                    assert(fed =~= self.complete@ + self.partial@);
                }
                Ok(false)
            },
            SplitState::ChunkData { remaining, last } => {
                let got = buf.len() as u64;
                if got < remaining {
                    self.state = SplitState::ChunkData { remaining: remaining - got, last };
                    self.partial = Ghost(self.partial@ + buf@);
                    proof {
                        let fed = old(self).pending() + buf@;
                        assert(self.partial@.subrange(0, 4) =~= old(self).partial@.subrange(0, 4));
                        assert(self.partial@.subrange(4, 8) =~= old(self).partial@.subrange(4, 8));
                        assert(chunk_size(self.partial@) == chunk_size(old(self).partial@));
                        assert(self.pending() =~= fed);
                        lemma_pending_open(self.complete@, self.partial@);
                        assert(fed =~= self.complete@ + self.partial@);
                    }
                    Ok(false)
                } else {
                    let ghost chunk = self.partial@ + buf@;
                    proof {
                        assert(chunk.subrange(0, 4) =~= self.partial@.subrange(0, 4));
                        assert(chunk.subrange(4, 8) =~= self.partial@.subrange(4, 8));
                        assert(chunk_size(chunk) == chunk_size(self.partial@));
                        assert(chunk.len() == chunk_size(chunk));
                        assert(single_chunk(chunk));
                        assert(chunk_is_iend(chunk) == last);
                    }
                    if last {
                        let ghost img = self.complete@ + chunk;
                        proof {
                            let dones = self.complete@.skip(8);
                            lemma_parse_chunks_prepend(dones, chunk);
                            assert(chunk.skip(chunk_size(chunk)) =~= Seq::<u8>::empty());
                            assert(parse_chunks(chunk) == Some(chunk_size(chunk)));
                            assert(img.subrange(0, 8) =~= self.complete@.subrange(0, 8));
                            assert(img.skip(8) =~= dones + chunk);
                            assert(parse_chunks(img.skip(8)) == Some(dones.len() + chunk.len() as int));
                            assert(is_png_image(img));
                        }
                        self.state = SplitState::Signature;
                        self.images = Ghost(self.images@.push(img));
                        self.complete = Ghost(Seq::empty());
                        self.partial = Ghost(Seq::empty());
                        proof {
                            let fed = old(self).pending() + buf@;
                            assert(fed =~= img);
                            assert(self.pending() =~= Seq::<u8>::empty());
                        }
                        Ok(true)
                    } else {
                        self.state = SplitState::ChunkHeader;
                        self.complete = Ghost(self.complete@ + chunk);
                        self.partial = Ghost(Seq::empty());
                        proof {
                            let fed = old(self).pending() + buf@;
                            let dones = old(self).complete@.skip(8);
                            lemma_non_iend_append(dones, chunk);
                            assert(self.complete@.subrange(0, 8) =~= old(self).complete@.subrange(
                                0,
                                8,
                            ));
                            assert(self.complete@.skip(8) =~= dones + chunk);
                            assert(self.pending() =~= fed);
                            lemma_pending_open(self.complete@, self.partial@);
                            assert(fed =~= self.complete@ + self.partial@);
                        }
                        Ok(false)
                    }
                }
            },
        }
    }
}

/// A signature plus complete non-end chunks plus at most part of one more
/// chunk never parses as a complete image: the end-of-image chunk is still
/// missing.
proof fn lemma_pending_open(complete: Seq<u8>, partial: Seq<u8>)
    requires
        complete.len() >= 8,
        complete.subrange(0, 8) == png_signature(),
        non_iend_chunks(complete.skip(8)),
        partial.len() == 0 || (partial.len() >= 8 && partial.len() < chunk_size(partial)),
    ensures
        parse_image(complete + partial) is None,
{
    let u = complete + partial;
    let dones = complete.skip(8);
    assert(u.subrange(0, 8) =~= complete.subrange(0, 8));
    assert(u.skip(8) =~= dones + partial);
    lemma_parse_chunks_prepend(dones, partial);
    assert(parse_chunks(partial) is None);
}

/// A stream that ends while the splitter still asks for bytes holds no
/// complete image.
proof fn lemma_pending_truncated(sp: &PngStreamSplitter, rest: Seq<u8>)
    requires
        sp.wf(),
        rest.len() < sp.spec_needed(),
    ensures
        parse_image(sp.pending() + rest) is None,
{
    match sp.state {
        SplitState::Signature => {
            assert(sp.pending() + rest =~= rest);
        },
        SplitState::ChunkHeader => {
            let u = sp.pending() + rest;
            let dones = sp.complete@.skip(8);
            assert(u =~= sp.complete@ + rest);
            assert(u.subrange(0, 8) =~= sp.complete@.subrange(0, 8));
            assert(u.skip(8) =~= dones + rest);
            lemma_parse_chunks_prepend(dones, rest);
            assert(parse_chunks(rest) is None);
        },
        SplitState::ChunkData { remaining, .. } => {
            let u = sp.pending() + rest;
            let dones = sp.complete@.skip(8);
            let part = sp.partial@ + rest;
            assert(part.subrange(0, 4) =~= sp.partial@.subrange(0, 4));
            assert(chunk_size(part) == chunk_size(sp.partial@));
            assert(part.len() < chunk_size(part));
            assert(u =~= sp.complete@ + part);
            assert(u.subrange(0, 8) =~= sp.complete@.subrange(0, 8));
            assert(u.skip(8) =~= dones + part);
            lemma_parse_chunks_prepend(dones, part);
            assert(parse_chunks(part) is None);
        },
    }
}

/// Parses the extent of the complete PNG image that starts at `start` in
/// `data`. Returns the position one past its last byte; fails exactly
/// when no complete image starts there — a wrong signature or a stream
/// that ends inside the image.
#[verifier::rlimit(50)]
pub fn extract_next_image(data: &[u8], start: usize) -> (r: Result<usize, FormatError>)
    requires
        start <= data@.len(),
    ensures
        match r {
            Ok(end) => start < end <= data@.len() && parse_image(data@.skip(start as int)) == Some(
                (end - start) as int,
            ),
            Err(e) => {
                &&& parse_image(data@.skip(start as int)) is None
                &&& (e == FormatError::BadSignature <==> data@.len() - start >= 8 && data@.subrange(
                    start as int,
                    start as int + 8,
                ) != png_signature())
            },
        },
{
    let mut sp = PngStreamSplitter::new();
    let mut pos: usize = start;
    proof {
        assert(sp.pending() =~= data@.subrange(start as int, start as int));
    }
    loop
        invariant
            sp.wf(),
            start <= pos <= data@.len(),
            sp.pending() == data@.subrange(start as int, pos as int),
            pos == start || pos - start >= 8,
            pos - start >= 8 ==> data@.subrange(start as int, start as int + 8)
                == png_signature(),
        decreases data@.len() - pos,
    {
        let n = sp.needed();
        let avail = data.len() - pos;
        if sp.in_data_phase() {
            proof {
                assert(sp.pending().len() >= 16);
            }
            if avail == 0 {
                proof {
                    lemma_pending_truncated(&sp, Seq::<u8>::empty());
                    assert(data@.skip(start as int) =~= sp.pending() + Seq::<u8>::empty());
                }
                return Err(FormatError::Truncated);
            }
            let m: usize = if (avail as u64) < n {
                avail
            } else {
                n as usize
            };
            let portion = slice_subrange(data, pos, pos + m);
            let fed_res = sp.feed(portion);
            match fed_res {
                Ok(true) => {
                    proof {
                        let fed = data@.subrange(start as int, (pos + m) as int);
                        assert(data@.subrange(start as int, pos as int) + portion@ =~= fed);
                        lemma_image_extend(fed, data@.skip((pos + m) as int));
                        assert(data@.skip(start as int) =~= fed + data@.skip((pos + m) as int));
                    }
                    return Ok(pos + m);
                },
                Ok(false) => {
                    proof {
                        assert(data@.subrange(start as int, pos as int) + portion@ =~= data@
                            .subrange(start as int, (pos + m) as int));
                    }
                    pos = pos + m;
                },
                Err(_) => {
                    proof {
                        assert(false);
                    }
                    return Err(FormatError::Truncated);
                },
            }
        } else {
            if avail < 8 {
                proof {
                    lemma_pending_truncated(&sp, data@.skip(pos as int));
                    assert(data@.skip(start as int) =~= sp.pending() + data@.skip(pos as int));
                }
                return Err(FormatError::Truncated);
            }
            let portion = slice_subrange(data, pos, pos + 8);
            let fed_res = sp.feed(portion);
            match fed_res {
                Ok(true) => {
                    proof {
                        let fed = data@.subrange(start as int, (pos + 8) as int);
                        assert(data@.subrange(start as int, pos as int) + portion@ =~= fed);
                        lemma_image_extend(fed, data@.skip((pos + 8) as int));
                        assert(data@.skip(start as int) =~= fed + data@.skip((pos + 8) as int));
                    }
                    return Ok(pos + 8);
                },
                Ok(false) => {
                    proof {
                        assert(data@.subrange(start as int, pos as int) + portion@ =~= data@
                            .subrange(start as int, (pos + 8) as int));
                        if pos == start {
                            assert(data@.subrange(start as int, start as int + 8) =~= portion@);
                        }
                    }
                    pos = pos + 8;
                },
                Err(e) => {
                    proof {
                        let s0 = data@.skip(start as int);
                        assert(pos == start);
                        assert(s0.subrange(0, 8) =~= portion@);
                        assert(s0.subrange(0, 8) != png_signature());
                        assert(data@.subrange(start as int, start as int + 8) =~= portion@);
                    }
                    return Err(e);
                },
            }
        }
    }
}

/// Splits a whole in-memory stream into its images. Returns the images,
/// byte for byte; fails exactly when the stream is not a concatenation of
/// complete PNG images.
pub fn demux_stream(data: &[u8]) -> (r: Result<Vec<Vec<u8>>, FormatError>)
    ensures
        match r {
            Ok(images) => demux_spec(data@) == Some(images.deep_view()),
            Err(e) => demux_spec(data@) is None,
        },
{
    let mut out: Vec<Vec<u8>> = Vec::new();
    let mut pos: usize = 0;
    proof {
        assert(data@.skip(0) =~= data@);
        assert(out.deep_view() =~~= Seq::<Seq<u8>>::empty());
        match demux_spec(data@) {
            Some(rest) => {
                assert(Seq::<Seq<u8>>::empty() + rest =~= rest);
            },
            None => {},
        }
    }
    while pos < data.len()
        invariant
            pos <= data@.len(),
            match demux_spec(data@.skip(pos as int)) {
                Some(rest) => demux_spec(data@) == Some(out.deep_view() + rest),
                None => demux_spec(data@) is None,
            },
        decreases data@.len() - pos,
    {
        match extract_next_image(data, pos) {
            Ok(end) => {
                let mut img: Vec<u8> = Vec::new();
                let mut k: usize = pos;
                while k < end
                    invariant
                        pos <= k <= end <= data@.len(),
                        img@ == data@.subrange(pos as int, k as int),
                    decreases end - k,
                {
                    img.push(data[k]);
                    proof {
                        assert(img@ =~= data@.subrange(pos as int, k + 1));
                    }
                    k = k + 1;
                }
                proof {
                    let s = data@.skip(pos as int);
                    let nn = (end - pos) as int;
                    assert(s.skip(8).len() == s.len() - 8);
                    lemma_parse_chunks_bounds(s.skip(8));
                    assert(0 < nn <= s.len());
                    assert(s.skip(nn) =~= data@.skip(end as int));
                    assert(s.take(nn) =~= data@.subrange(pos as int, end as int));
                    let prev_dv = out.deep_view();
                    match demux_spec(data@.skip(end as int)) {
                        Some(rest) => {
                            assert(demux_spec(s) == Some(seq![s.take(nn)] + rest));
                        },
                        None => {
                            assert(demux_spec(s) is None);
                        },
                    }
                }
                let ghost prev_dv = out.deep_view();
                out.push(img);
                proof {
                    assert(out.deep_view() =~~= prev_dv.push(img@));
                    match demux_spec(data@.skip(end as int)) {
                        Some(rest) => {
                            assert(prev_dv + (seq![img@] + rest) =~~= out.deep_view() + rest);
                        },
                        None => {},
                    }
                }
                pos = end;
            },
            Err(e) => {
                proof {
                    let s = data@.skip(pos as int);
                    assert(s.len() > 0);
                    assert(demux_spec(s) is None);
                }
                return Err(e);
            },
        }
    }
    proof {
        assert(data@.skip(pos as int) =~= Seq::<u8>::empty());
        assert(demux_spec(Seq::<u8>::empty()) == Some(Seq::<Seq<u8>>::empty()));
        assert(out.deep_view() + Seq::<Seq<u8>>::empty() =~= out.deep_view());
    }
    Ok(out)
}

} // verus!
