use tokio_core::reactor::Core;
use vstd::prelude::*;

verus! {

/// Makes `std::io::Error` usable in signatures; its contents stay opaque and
/// nothing is claimed of them.
#[verifier::external_type_specification]
#[verifier::external_body]
pub struct ExIoError(std::io::Error);

/// Makes `tokio_core::reactor::Core`, the event loop, usable in signatures;
/// it is carried through unopened and nothing is claimed of it.
#[verifier::external_type_specification]
#[verifier::external_body]
pub struct ExCore(tokio_core::reactor::Core);

/// Calls `tokio_core::reactor::Core::new`, which sets up an event loop with its
/// runtime and worker threads. Whether that succeeds depends on the machine, so
/// nothing is claimed of the result.
#[verifier::external_body]
fn new_core() -> (r: Result<Core, std::io::Error>) {
    Core::new()
}

/// A socket address, held as plain values.
#[derive(Debug, Clone, Copy, PartialEq, Eq)]
pub enum NetAddress {
    V4 { octets: [u8; 4], v4_port: u16 },
    V6 { segments: [u16; 8], v6_port: u16, flowinfo: u32, scope_id: u32 },
}

/// What a process asks the network layer to do.
#[allow(non_camel_case_types)]
#[derive(Debug, PartialEq, Eq)]
pub enum NetCommand {
    /// Listen on the address; connections accepted there are reported under
    /// the given event id.
    LISTEN((usize, NetAddress)),
    /// Connect to the address; the connection is reported under the given
    /// event id.
    CONNECT((usize, NetAddress)),
    /// Send the bytes on the connection with the given id.
    SEND((usize, Vec<u8>)),
    /// Report `TIMEOUT(id)` after the given number of seconds.
    TIMEOUT((usize, usize)),
    /// Withdraw the timeout with the given id.
    CANCEL_TIMEOUT(usize),
}

/// What the network layer reports to a process.
#[allow(non_camel_case_types)]
#[derive(Debug, PartialEq, Eq)]
pub enum NetEvent {
    /// A connection was made: (event id of the listen or connect, connection id).
    CONNECTED((usize, usize)),
    /// A connection ended: (event id of the listen or connect, connection id).
    DISCONNECTED((usize, usize)),
    /// A frame arrived: (connection id, body).
    MESSAGE((usize, Vec<u8>)),
    /// The timeout with this id fired.
    TIMEOUT(usize),
}

/// The network layer's handle.
pub struct NetService {}

impl NetService {
    /// Builds the network layer from the outcome of creating its event loop:
    /// it exists exactly when the event loop could be created.
    pub fn from_core(core: Result<Core, std::io::Error>) -> (r: Result<NetService, std::io::Error>)
        ensures
            r is Ok <==> core is Ok,
            core is Err ==> r == Err::<NetService, std::io::Error>(core->Err_0),
    {
        match core {
            Ok(_core) => Ok(NetService {  }),
            Err(e) => Err(e),
        }
    }

    /// Creates the network layer, checking first that an event loop can be set
    /// up on this machine.
    pub fn new() -> (r: Result<NetService, std::io::Error>) {
        NetService::from_core(new_core())
    }
}

/// Reads frames from a connection as its bytes arrive in pieces, keeping the
/// bytes of an incomplete frame until the rest comes.
pub struct FrameReader {
    pending: Vec<u8>,
}

impl FrameReader {
    /// The bytes received and not yet consumed by a complete frame.
    pub closed spec fn buffered(&self) -> Seq<u8> {
        self.pending@
    }

    /// A reader that has received nothing.
    pub fn new() -> (r: FrameReader)
        ensures
            r.buffered() == Seq::<u8>::empty(),
    {
        FrameReader { pending: Vec::new() }
    }

    /// How many bytes are buffered.
    pub fn buffered_len(&self) -> (r: usize)
        ensures
            r == self.buffered().len(),
    {
        self.pending.len()
    }

    /// Takes in the next piece of the stream and returns the frames it
    /// completes: those found in the buffered bytes followed by `chunk`.
    /// What they do not consume stays buffered.
    pub fn feed(&mut self, chunk: &[u8]) -> (r: FrameSplit)
        requires
            old(self).buffered().len() + chunk@.len() <= usize::MAX,
        ensures
            r.bodies() == frame_split(old(self).buffered() + chunk@).0,
            r.consumed == frame_split(old(self).buffered() + chunk@).1,
            r.closed == frame_split(old(self).buffered() + chunk@).2,
            final(self).buffered() == (old(self).buffered() + chunk@).skip(r.consumed as int),
    {
        let ghost start = self.pending@;
        let mut k: usize = 0;
        while k < chunk.len()
            invariant
                k <= chunk@.len(),
                start.len() + chunk@.len() <= usize::MAX,
                self.pending@ == start + chunk@.subrange(0, k as int),
            decreases chunk@.len() - k,
        {
            self.pending.push(chunk[k]);
            k = k + 1;
            assert(self.pending@ =~= start + chunk@.subrange(0, k as int));
        }
        assert(chunk@.subrange(0, k as int) =~= chunk@);
        let r = split_frames(&self.pending);
        proof {
            lemma_consumed_in_bounds(self.pending@);
        }
        let len = self.pending.len();
        let rest = copy_range(&self.pending, r.consumed, len);
        assert(rest@ =~= self.pending@.skip(r.consumed as int));
        self.pending = rest;
        r
    }
}

/// Hands out connection ids: each id once, counting up from zero.
pub struct IdSource {
    next: usize,
}

impl IdSource {
    pub closed spec fn next_id(&self) -> nat {
        self.next as nat
    }

    pub fn new() -> (r: IdSource)
        ensures
            r.next_id() == 0,
    {
        IdSource { next: 0 }
    }

    /// The id that `take` will return next.
    pub fn peek(&self) -> (r: usize)
        ensures
            r == self.next_id(),
    {
        self.next
    }

    /// Returns a fresh id: every id taken from this source before is smaller.
    pub fn take(&mut self) -> (r: usize)
        requires
            old(self).next_id() < usize::MAX,
        ensures
            r == old(self).next_id(),
            final(self).next_id() == r + 1,
    {
        let id = self.next;
        self.next = id + 1;
        id
    }
}

/// Bodies, bytes consumed and end-of-stream flag of the length-prefixed frames
/// at the front of `s`.
///
/// A frame is one length byte `n` followed by `n` body bytes. A length byte of
/// zero ends the stream: the connection is closed there, and nothing after it
/// is read. An incomplete frame at the end is left for more input.
pub open spec fn frame_split(s: Seq<u8>) -> (Seq<Seq<u8>>, int, bool)
    decreases s.len(),
{
    if s.len() == 0 {
        (Seq::empty(), 0, false)
    } else if s[0] == 0 {
        (Seq::empty(), 1, true)
    } else if s.len() < 1 + s[0] {
        (Seq::empty(), 0, false)
    } else {
        let rest = frame_split(s.skip(1 + s[0]));
        (seq![s.subrange(1, 1 + s[0])] + rest.0, 1 + s[0] + rest.1, rest.2)
    }
}

/// The bytes that carry `bodies` as consecutive frames: each body preceded by
/// its length byte.
pub open spec fn frame_encoding(bodies: Seq<Seq<u8>>) -> Seq<u8>
    decreases bodies.len(),
{
    if bodies.len() == 0 {
        Seq::empty()
    } else {
        seq![bodies[0].len() as u8] + bodies[0] + frame_encoding(bodies.drop_first())
    }
}

/// Whether each body fits one frame: between 1 and 255 bytes long.
pub open spec fn framable(bodies: Seq<Seq<u8>>) -> bool {
    forall|i: int| 0 <= i < bodies.len() ==> 1 <= #[trigger] bodies[i].len() <= 255
}

/// Framing loses nothing: bodies of 1 to 255 bytes, sent as consecutive
/// frames, are read back as exactly those bodies, in order, with every byte
/// consumed and the stream still open.
pub proof fn lemma_frames_read_back(bodies: Seq<Seq<u8>>)
    requires
        framable(bodies),
    ensures
        frame_split(frame_encoding(bodies)) == (bodies, frame_encoding(bodies).len() as int, false),
    decreases bodies.len(),
{
    let enc = frame_encoding(bodies);
    if bodies.len() == 0 {
        assert(bodies =~= Seq::<Seq<u8>>::empty());
    } else {
        let b = bodies[0];
        let rest = bodies.drop_first();
        assert(framable(rest)) by {
            assert forall|i: int| 0 <= i < rest.len() implies 1 <= #[trigger] rest[i].len() <= 255 by {
                assert(rest[i] == bodies[i + 1]);
            }
        }
        lemma_frames_read_back(rest);
        let n = b.len() as u8;
        assert(1 <= b.len() <= 255);
        assert(n as int == b.len());
        assert(enc[0] == n);
        assert(enc.skip(1 + n) =~= frame_encoding(rest));
        assert(enc.subrange(1, 1 + n) =~= b);
        assert(seq![b] + rest =~= bodies);
    }
}

proof fn lemma_consumed_in_bounds(s: Seq<u8>)
    ensures
        0 <= frame_split(s).1 <= s.len(),
    decreases s.len(),
{
    if s.len() > 0 && s[0] != 0 && s.len() >= 1 + s[0] {
        lemma_consumed_in_bounds(s.skip(1 + s[0]));
    }
}

/// Frames can be read piece by piece: splitting `s + t` gives what splitting
/// `s` gives, followed by what splitting the unconsumed rest of `s` joined
/// with `t` gives; and once a zero length byte has closed the stream, bytes
/// that arrive after it change nothing.
pub proof fn lemma_frames_stream(s: Seq<u8>, t: Seq<u8>)
    ensures
        frame_split(s).2 ==> frame_split(s + t) == frame_split(s),
        !frame_split(s).2 ==> {
            let first = frame_split(s);
            let more = frame_split(s.skip(first.1) + t);
            frame_split(s + t) == (first.0 + more.0, first.1 + more.1, more.2)
        },
    decreases s.len(),
{
    let first = frame_split(s);
    if s.len() == 0 {
        assert(s + t =~= t);
        assert(s.skip(0) + t =~= t);
        assert(first.0 + frame_split(t).0 =~= frame_split(t).0);
    } else if s[0] == 0 {
        assert((s + t)[0] == 0);
    } else if s.len() < 1 + s[0] {
        assert(s.skip(0) =~= s);
        assert(first.0 + frame_split(s + t).0 =~= frame_split(s + t).0);
    } else {
        let k = 1 + s[0];
        let st = s + t;
        assert(st[0] == s[0]);
        assert(st.skip(k) =~= s.skip(k) + t);
        assert(st.subrange(1, k) =~= s.subrange(1, k));
        lemma_frames_stream(s.skip(k), t);
        let inner = frame_split(s.skip(k));
        lemma_consumed_in_bounds(s.skip(k));
        assert(s.skip(k).skip(inner.1) =~= s.skip(first.1));
        if !inner.2 {
            let more = frame_split(s.skip(first.1) + t);
            assert(seq![s.subrange(1, k)] + (inner.0 + more.0)
                =~= (seq![s.subrange(1, k)] + inner.0) + more.0);
        }
    }
}

/// A zero length byte at a frame boundary closes the stream at once: it is
/// consumed, no body is read, and it does not matter whether any byte follows.
pub proof fn lemma_zero_length_closes(s: Seq<u8>)
    ensures
        frame_split(seq![0u8] + s) == (Seq::<Seq<u8>>::empty(), 1int, true),
{
    assert((seq![0u8] + s)[0] == 0);
}

/// Frames followed by a zero length byte: all their bodies are read, in order,
/// the zero byte is consumed with them, and the stream is closed, whatever
/// comes after.
pub proof fn lemma_frames_then_close(bodies: Seq<Seq<u8>>, s: Seq<u8>)
    requires
        framable(bodies),
    ensures
        frame_split(frame_encoding(bodies) + (seq![0u8] + s)) == (
            bodies,
            frame_encoding(bodies).len() + 1int,
            true,
        ),
{
    let enc = frame_encoding(bodies);
    lemma_frames_read_back(bodies);
    lemma_frames_stream(enc, seq![0u8] + s);
    lemma_zero_length_closes(s);
    assert(enc.skip(enc.len() as int) + (seq![0u8] + s) =~= seq![0u8] + s);
    assert(bodies + Seq::<Seq<u8>>::empty() =~= bodies);
}

/// What `split_frames` found in a buffer.
pub struct FrameSplit {
    /// The bodies of the complete frames, in stream order.
    pub messages: Vec<Vec<u8>>,
    /// How many bytes at the front of the buffer those frames (and a closing
    /// zero byte, if any) take.
    pub consumed: usize,
    /// Whether a zero length byte closed the stream.
    pub closed: bool,
}

impl FrameSplit {
    pub open spec fn bodies(&self) -> Seq<Seq<u8>> {
        self.messages@.map_values(|m: Vec<u8>| m@)
    }
}

fn copy_range(buf: &[u8], start: usize, end: usize) -> (r: Vec<u8>)
    requires
        start <= end <= buf@.len(),
    ensures
        r@ == buf@.subrange(start as int, end as int),
{
    let mut r: Vec<u8> = Vec::new();
    let mut k: usize = start;
    while k < end
        invariant
            start <= k <= end <= buf@.len(),
            r@ == buf@.subrange(start as int, k as int),
        decreases end - k,
    {
        r.push(buf[k]);
        k = k + 1;
        assert(r@ =~= buf@.subrange(start as int, k as int));
    }
    r
}

/// Splits a received byte stream into the bodies of its length-prefixed frames.
pub fn split_frames(buf: &[u8]) -> (r: FrameSplit)
    ensures
        r.bodies() == frame_split(buf@).0,
        r.consumed == frame_split(buf@).1,
        r.closed == frame_split(buf@).2,
{
    let mut messages: Vec<Vec<u8>> = Vec::new();
    let mut i: usize = 0;
    assert(buf@.skip(0) =~= buf@);
    assert(messages@.map_values(|m: Vec<u8>| m@) + frame_split(buf@).0 =~= frame_split(buf@).0);
    loop
        invariant
            i <= buf@.len(),
            messages@.map_values(|m: Vec<u8>| m@) + frame_split(buf@.skip(i as int)).0
                == frame_split(buf@).0,
            i + frame_split(buf@.skip(i as int)).1 == frame_split(buf@).1,
            frame_split(buf@.skip(i as int)).2 == frame_split(buf@).2,
        decreases buf@.len() - i,
    {
        let ghost rest = buf@.skip(i as int);
        if i == buf.len() {
            assert(rest.len() == 0);
            assert(messages@.map_values(|m: Vec<u8>| m@) + frame_split(rest).0
                =~= messages@.map_values(|m: Vec<u8>| m@));
            return FrameSplit { messages, consumed: i, closed: false };
        }
        let n = buf[i];
        assert(rest[0] == n);
        if n == 0 {
            assert(messages@.map_values(|m: Vec<u8>| m@) + frame_split(rest).0
                =~= messages@.map_values(|m: Vec<u8>| m@));
            return FrameSplit { messages, consumed: i + 1, closed: true };
        }
        if buf.len() - i - 1 < n as usize {
            assert(messages@.map_values(|m: Vec<u8>| m@) + frame_split(rest).0
                =~= messages@.map_values(|m: Vec<u8>| m@));
            return FrameSplit { messages, consumed: i, closed: false };
        }
        let next: usize = i + 1 + n as usize;
        let body = copy_range(buf, i + 1, next);
        proof {
            assert(rest.skip(1 + n) =~= buf@.skip(next as int));
            assert(rest.subrange(1, 1 + n) =~= buf@.subrange(i + 1, next as int));
        }
        let ghost before = messages@.map_values(|m: Vec<u8>| m@);
        messages.push(body);
        proof {
            assert(messages@.map_values(|m: Vec<u8>| m@) =~= before.push(body@));
            assert(before.push(body@) + frame_split(buf@.skip(next as int)).0
                =~= before + (seq![body@] + frame_split(buf@.skip(next as int)).0));
        }
        i = next;
    }
}

} // verus!
