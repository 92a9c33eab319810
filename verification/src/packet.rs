//! The wire codec: delimiter-framed packets of a command byte followed by
//! opaque argument bytes. The codec is ignorant of game semantics; it only
//! frames and unframes byte streams.

use vstd::prelude::*;

verus! {

/// Delimiter between packets. It is a fixed sentinel and is never permitted
/// to appear inside argument bytes; the framing does not escape it.
pub const DELIMITER: u8 = 255;

/// Decode failure: a delimiter arrived while the accumulator was empty.
#[derive(Clone, Copy, Debug, PartialEq, Eq, Structural)]
pub enum PacketError {
    ZeroSizePacket,
}

/// Session-layer command bytes. Unknown bytes decode to `Unknown` rather
/// than failing, preserving forward compatibility.
#[derive(Clone, Copy, Debug, PartialEq, Eq, Structural)]
pub enum Command {
    Error,
    CreateLobby,
    JoinLobby,
    LeaveLobby,
    LobbiesInfo,
    Unknown,
}

/// Command denoted by a leading packet byte.
pub open spec fn spec_command_from_byte(b: u8) -> Command {
    if b == 0 {
        Command::Error
    } else if b == 1 {
        Command::CreateLobby
    } else if b == 2 {
        Command::JoinLobby
    } else if b == 3 {
        Command::LeaveLobby
    } else if b == 4 {
        Command::LobbiesInfo
    } else {
        Command::Unknown
    }
}

/// Byte that encodes a command; `Unknown` keeps the reserved sentinel.
pub open spec fn spec_command_byte(c: Command) -> u8 {
    match c {
        Command::Error => 0u8,
        Command::CreateLobby => 1u8,
        Command::JoinLobby => 2u8,
        Command::LeaveLobby => 3u8,
        Command::LobbiesInfo => 4u8,
        Command::Unknown => 255u8,
    }
}

impl Command {
    /// Maps a leading packet byte to its command.
    pub fn from_byte(b: u8) -> (c: Command)
        ensures
            c == spec_command_from_byte(b),
    {
        match b {
            0 => Command::Error,
            1 => Command::CreateLobby,
            2 => Command::JoinLobby,
            3 => Command::LeaveLobby,
            4 => Command::LobbiesInfo,
            _ => Command::Unknown,
        }
    }

    /// Maps a command back to its byte.
    pub fn to_byte(self) -> (b: u8)
        ensures
            b == spec_command_byte(self),
    {
        match self {
            Command::Error => 0,
            Command::CreateLobby => 1,
            Command::JoinLobby => 2,
            Command::LeaveLobby => 3,
            Command::LobbiesInfo => 4,
            Command::Unknown => 255,
        }
    }
}

/// Argument bytes of one packet, supporting random-access reads and range
/// extraction so command decoders can pull fields progressively.
#[derive(Clone, Debug)]
pub struct Args(Vec<u8>);

impl View for Args {
    type V = Seq<u8>;

    closed spec fn view(&self) -> Seq<u8> {
        self.0@
    }
}

impl Args {
    /// An empty argument list.
    pub fn new() -> (a: Args)
        ensures
            a@ =~= Seq::<u8>::empty(),
    {
        Args(Vec::new())
    }

    /// Appends one byte.
    pub fn add_byte(&mut self, b: u8)
        ensures
            final(self)@ == old(self)@.push(b),
    {
        self.0.push(b);
    }

    /// Wraps a byte vector as arguments.
    pub fn from_vec(v: Vec<u8>) -> (a: Args)
        ensures
            a@ == v@,
    {
        Args(v)
    }

    /// Random-access read of one byte.
    pub fn get(&self, index: usize) -> (r: Option<&u8>)
        ensures
            match r {
                Some(b) => index < self@.len() && *b == self@[index as int],
                None => index >= self@.len(),
            },
    {
        if index < self.0.len() {
            Some(&self.0[index])
        } else {
            None
        }
    }

    /// Removes and returns the bytes of `[start, end)`, keeping the rest in
    /// order.
    pub fn get_range(&mut self, start: usize, end: usize) -> (r: Vec<u8>)
        requires
            start <= end <= old(self)@.len(),
        ensures
            r@ == old(self)@.subrange(start as int, end as int),
            final(self)@ == old(self)@.subrange(0, start as int) + old(self)@.subrange(
                end as int,
                old(self)@.len() as int,
            ),
    {
        let mut taken: Vec<u8> = Vec::new();
        let mut i: usize = start;
        while i < end
            invariant
                start <= i <= end <= self@.len(),
                self@ == old(self)@,
                taken@ == self@.subrange(start as int, i as int),
            decreases end - i,
        {
            taken.push(self.0[i]);
            proof {
                assert(taken@ =~= self@.subrange(start as int, i + 1 as int));
            }
            i = i + 1;
        }
        let mut rest: Vec<u8> = Vec::new();
        let mut j: usize = 0;
        while j < start
            invariant
                j <= start <= self@.len(),
                self@ == old(self)@,
                rest@ == self@.subrange(0, j as int),
            decreases start - j,
        {
            rest.push(self.0[j]);
            proof {
                assert(rest@ =~= self@.subrange(0, j + 1 as int));
            }
            j = j + 1;
        }
        let mut k: usize = end;
        while k < self.0.len()
            invariant
                end <= k <= self@.len(),
                start <= end,
                self@ == old(self)@,
                rest@ == self@.subrange(0, start as int) + self@.subrange(end as int, k as int),
            decreases self@.len() - k,
        {
            rest.push(self.0[k]);
            proof {
                assert(rest@ =~= self@.subrange(0, start as int) + self@.subrange(
                    end as int,
                    k + 1 as int,
                ));
            }
            k = k + 1;
        }
        self.0 = rest;
        taken
    }

    /// The arguments as a byte slice.
    pub fn as_slice(&self) -> (r: &[u8])
        ensures
            r@ == self@,
    {
        self.0.as_slice()
    }
}

/// A fully parsed packet: its command and its opaque argument bytes.
#[derive(Clone, Debug)]
pub struct Packet {
    pub command: Command,
    pub args: Args,
}

/// Parses one delimiter-free frame: first byte names the command, the rest
/// are argument bytes; an empty frame is a decode error.
pub fn parse_packet(packet: Vec<u8>) -> (r: Result<Packet, PacketError>)
    ensures
        packet@.len() == 0 ==> r == Err::<Packet, PacketError>(PacketError::ZeroSizePacket),
        packet@.len() >= 1 ==> r is Ok && r->Ok_0.command == spec_command_from_byte(packet@[0])
            && r->Ok_0.args@ == packet@.drop_first(),
{
    if packet.len() < 1 {
        return Err(PacketError::ZeroSizePacket);
    }
    let command = Command::from_byte(packet[0]);
    let mut rest: Vec<u8> = Vec::new();
    let mut i: usize = 1;
    while i < packet.len()
        invariant
            1 <= i <= packet@.len(),
            rest@ == packet@.subrange(1, i as int),
        decreases packet@.len() - i,
    {
        rest.push(packet[i]);
        proof {
            assert(rest@ =~= packet@.subrange(1, i + 1 as int));
        }
        i = i + 1;
    }
    proof {
        assert(rest@ =~= packet@.drop_first());
    }
    Ok(Packet { command, args: Args(rest) })
}

/// What scanning `bytes` with pending accumulator `acc` yields: the list of
/// completed frames, or `None` when a delimiter closes an empty frame.
/// Bytes after the last delimiter are discarded.
pub open spec fn spec_frames(bytes: Seq<u8>, acc: Seq<u8>) -> Option<Seq<Seq<u8>>>
    decreases bytes.len(),
{
    if bytes.len() == 0 {
        Some(Seq::empty())
    } else if bytes.first() == DELIMITER {
        if acc.len() == 0 {
            None
        } else {
            match spec_frames(bytes.drop_first(), Seq::empty()) {
                Some(fs) => Some(seq![acc] + fs),
                None => None,
            }
        }
    } else {
        spec_frames(bytes.drop_first(), acc.push(bytes.first()))
    }
}

/// Each parsed packet matches its raw frame.
pub open spec fn packets_match(ps: Seq<Packet>, fs: Seq<Seq<u8>>) -> bool {
    ps.len() == fs.len() && forall|i: int|
        0 <= i < ps.len() ==> fs[i].len() >= 1 && ps[i].command == spec_command_from_byte(fs[i][0])
            && ps[i].args@ == fs[i].drop_first()
}

/// Scans a received buffer, accumulating bytes until each delimiter and
/// finalizing one packet per delimiter; bytes after the last delimiter are
/// discarded. A zero-length frame aborts the whole scan.
pub fn parse_packets(buffer: &[u8]) -> (r: Result<Vec<Packet>, PacketError>)
    ensures
        match spec_frames(buffer@, Seq::<u8>::empty()) {
            Some(fs) => r is Ok && packets_match(r->Ok_0@, fs),
            None => r == Err::<Vec<Packet>, PacketError>(PacketError::ZeroSizePacket),
        },
{
    let ghost whole = spec_frames(buffer@, Seq::<u8>::empty());
    let mut packets: Vec<Packet> = Vec::new();
    let mut acc: Vec<u8> = Vec::new();
    let ghost mut done: Seq<Seq<u8>> = Seq::empty();
    let mut i: usize = 0;
    proof {
        assert(buffer@.skip(0) =~= buffer@);
        if whole is Some {
            assert(Seq::<Seq<u8>>::empty() + whole->0 =~= whole->0);
        }
    }
    while i < buffer.len()
        invariant
            i <= buffer@.len(),
            whole == spec_frames(buffer@, Seq::<u8>::empty()),
            packets_match(packets@, done),
            whole == match spec_frames(buffer@.skip(i as int), acc@) {
                Some(fs) => Some(done + fs),
                None => None::<Seq<Seq<u8>>>,
            },
        decreases buffer@.len() - i,
    {
        let ghost tail = buffer@.skip(i as int);
        proof {
            assert(tail.first() == buffer@[i as int]);
            assert(tail.drop_first() =~= buffer@.skip(i + 1 as int));
        }
        let b = buffer[i];
        if b == DELIMITER {
            if acc.len() == 0 {
                return Err(PacketError::ZeroSizePacket);
            }
            let frame = acc;
            acc = Vec::new();
            let ghost fseq = frame@;
            let p = match parse_packet(frame) {
                Ok(p) => p,
                Err(_) => {
                    proof {
                        assert(false);
                    }
                    return Err(PacketError::ZeroSizePacket);
                },
            };
            packets.push(p);
            proof {
                done = done.push(fseq);
                if spec_frames(buffer@.skip(i + 1 as int), Seq::<u8>::empty()) is Some {
                    let fs = spec_frames(buffer@.skip(i + 1 as int), Seq::<u8>::empty())->0;
                    assert(done.drop_last() + (seq![fseq] + fs) =~= done + fs);
                }
            }
        } else {
            acc.push(b);
        }
        i = i + 1;
    }
    proof {
        assert(buffer@.skip(buffer@.len() as int) =~= Seq::<u8>::empty());
        assert(done + Seq::<Seq<u8>>::empty() =~= done);
    }
    Ok(packets)
}

/// Scans a received buffer into raw delimiter-free frames, for decoders
/// that read the command code themselves; bytes after the last delimiter
/// are discarded, and a zero-length frame aborts the whole scan.
pub fn split_frames(buffer: &[u8]) -> (r: Result<Vec<Vec<u8>>, PacketError>)
    ensures
        match spec_frames(buffer@, Seq::<u8>::empty()) {
            Some(fs) => r is Ok && r->Ok_0@.len() == fs.len() && forall|i: int|
                0 <= i < fs.len() ==> r->Ok_0@[i]@ == fs[i],
            None => r == Err::<Vec<Vec<u8>>, PacketError>(PacketError::ZeroSizePacket),
        },
{
    let ghost whole = spec_frames(buffer@, Seq::<u8>::empty());
    let mut frames: Vec<Vec<u8>> = Vec::new();
    let mut acc: Vec<u8> = Vec::new();
    let ghost mut done: Seq<Seq<u8>> = Seq::empty();
    let mut i: usize = 0;
    proof {
        assert(buffer@.skip(0) =~= buffer@);
        if whole is Some {
            assert(Seq::<Seq<u8>>::empty() + whole->0 =~= whole->0);
        }
    }
    while i < buffer.len()
        invariant
            i <= buffer@.len(),
            whole == spec_frames(buffer@, Seq::<u8>::empty()),
            frames@.len() == done.len(),
            forall|k: int| 0 <= k < done.len() ==> frames@[k]@ == done[k],
            whole == match spec_frames(buffer@.skip(i as int), acc@) {
                Some(fs) => Some(done + fs),
                None => None::<Seq<Seq<u8>>>,
            },
        decreases buffer@.len() - i,
    {
        let ghost tail = buffer@.skip(i as int);
        proof {
            assert(tail.first() == buffer@[i as int]);
            assert(tail.drop_first() =~= buffer@.skip(i + 1 as int));
        }
        let b = buffer[i];
        if b == DELIMITER {
            if acc.len() == 0 {
                return Err(PacketError::ZeroSizePacket);
            }
            let frame = acc;
            acc = Vec::new();
            let ghost fseq = frame@;
            frames.push(frame);
            proof {
                done = done.push(fseq);
                if spec_frames(buffer@.skip(i + 1 as int), Seq::<u8>::empty()) is Some {
                    let fs = spec_frames(buffer@.skip(i + 1 as int), Seq::<u8>::empty())->0;
                    assert(done.drop_last() + (seq![fseq] + fs) =~= done + fs);
                }
            }
        } else {
            acc.push(b);
        }
        i = i + 1;
    }
    proof {
        assert(buffer@.skip(buffer@.len() as int) =~= Seq::<u8>::empty());
        assert(done + Seq::<Seq<u8>>::empty() =~= done);
    }
    Ok(frames)
}

/// Encodes one packet for the wire: command byte, argument bytes, then the
/// delimiter, concatenated.
pub fn encode_packet(command: Command, args: &Args) -> (r: Vec<u8>)
    ensures
        r@ == seq![spec_command_byte(command)] + args@ + seq![DELIMITER],
{
    let mut out: Vec<u8> = Vec::new();
    out.push(command.to_byte());
    let bytes = args.as_slice();
    let mut i: usize = 0;
    while i < bytes.len()
        invariant
            i <= args@.len(),
            bytes@ == args@,
            out@ == seq![spec_command_byte(command)] + args@.subrange(0, i as int),
        decreases args@.len() - i,
    {
        out.push(bytes[i]);
        proof {
            assert(out@ =~= seq![spec_command_byte(command)] + args@.subrange(0, i + 1 as int));
        }
        i = i + 1;
    }
    out.push(DELIMITER);
    proof {
        assert(out@ =~= seq![spec_command_byte(command)] + args@ + seq![DELIMITER]);
    }
    out
}

} // verus!
