//! Fragment wire format and the fragmenter.
//!
//! A fragment on the wire is `[sequence][flags][payload ...]`. Bit 0 of the
//! flags marks the first fragment of a packet, bit 1 says that more fragments
//! follow; every other bit must be zero.

use crate::text::decimal;
use crate::text::push_decimal;
use crate::text::push_text;
use crate::text::upper_hex_digit;
use crate::text::upper_hex_digit_char;
use vstd::prelude::*;
use vstd::string::*;

verus! {

/// Header size in bytes (sequence + flags).
pub const HEADER_SIZE: usize = 2;

/// Flag indicating this is the first fragment of a packet.
pub const FLAG_FIRST_FRAGMENT: u8 = 0x01;

/// Flag indicating more fragments follow.
pub const FLAG_MORE_FRAGMENTS: u8 = 0x02;

/// A BLE device address: six opaque bytes.
#[derive(Debug, Clone, Copy, PartialEq, Eq, Hash)]
pub struct BleAddress(pub [u8; 6]);

impl View for BleAddress {
    type V = Seq<u8>;

    open spec fn view(&self) -> Seq<u8> {
        self.0@
    }
}

impl BleAddress {
    /// Wraps six raw bytes.
    pub fn new(bytes: [u8; 6]) -> (a: Self)
        ensures
            a@ == bytes@,
            a.0 == bytes,
    {
        BleAddress(bytes)
    }

    /// The raw bytes of the address.
    pub fn as_bytes(&self) -> (b: &[u8; 6])
        ensures
            *b == self.0,
    {
        &self.0
    }

    /// The all-zero address.
    pub fn zero() -> (a: Self)
        ensures
            a@ == Seq::new(6, |i: int| 0u8),
    {
        let a = BleAddress([0; 6]);
        assert(a@ =~= Seq::new(6, |i: int| 0u8));
        a
    }

    /// Whether two addresses hold the same six bytes.
    pub fn same(&self, other: &BleAddress) -> (r: bool)
        ensures
            r == (self@ == other@),
            r == (*self == *other),
    {
        let mut i: usize = 0;
        while i < 6
            invariant
                0 <= i <= 6,
                forall|j: int| 0 <= j < i ==> self.0@[j] == other.0@[j],
            decreases 6 - i,
        {
            if self.0[i] != other.0[i] {
                return false;
            }
            i += 1;
        }
        assert(self.0@ =~= other.0@);
        assert(self.0 =~= other.0);
        true
    }
}

/// One fragment of a packet.
#[derive(Debug, Clone, PartialEq, Eq)]
pub struct Fragment {
    /// Sequence number; wraps at 256.
    pub sequence: u8,
    /// Flag bits.
    pub flags: u8,
    /// Payload, without the header.
    pub payload: Vec<u8>,
}

/// Why a fragment or a packet was refused.
#[derive(Debug, Clone, PartialEq, Eq)]
pub enum FragmentError {
    /// Fewer bytes than a header.
    TooShort,
    /// The MTU leaves no room for payload.
    MtuTooSmall,
    /// The packet has no bytes.
    EmptyPacket,
    /// The output buffer cannot hold header and payload.
    BufferTooSmall,
    /// A fragment with this sequence number is missing.
    MissingFragment(u8),
    /// A flag bit outside the two defined ones is set.
    InvalidFlags,
}

/// The usual notation of an address: six pairs of upper-case hexadecimal
/// digits with colons between.
pub open spec fn address_text(bytes: Seq<u8>, count: int) -> Seq<char>
    decreases count,
{
    if count <= 0 {
        Seq::empty()
    } else {
        address_text(bytes, count - 1) + (if count > 1 {
            ":"@
        } else {
            Seq::<char>::empty()
        }).push(upper_hex_digit((bytes[count - 1] / 16) as nat)).push(
            upper_hex_digit((bytes[count - 1] % 16) as nat),
        )
    }
}

impl BleAddress {
    /// The address in its usual notation, as in `11:22:33:AA:BB:CC`.
    pub fn to_text(&self) -> (s: String)
        ensures
            s@ == address_text(self@, 6),
    {
        let mut s = String::new();
        let mut i: usize = 0;
        assert(s@ =~= address_text(self@, 0));
        while i < 6
            invariant
                0 <= i <= 6,
                s@ == address_text(self@, i as int),
            decreases 6 - i,
        {
            if i > 0 {
                push_text(&mut s, ":");
            }
            let b = self.0[i];
            s.push(upper_hex_digit_char(b / 16));
            s.push(upper_hex_digit_char(b % 16));
            assert(s@ =~= address_text(self@, i + 1));
            i = i + 1;
        }
        s
    }
}

/// The sentence that describes an error.
pub open spec fn error_text(error: FragmentError) -> Seq<char> {
    match error {
        FragmentError::TooShort => "fragment too short"@,
        FragmentError::MtuTooSmall => "MTU too small (minimum: 3)"@,
        FragmentError::EmptyPacket => "cannot fragment empty packet"@,
        FragmentError::BufferTooSmall => "buffer too small for fragment"@,
        FragmentError::MissingFragment(sequence) => "missing fragment with sequence "@ + decimal(
            sequence as nat,
        ),
        FragmentError::InvalidFlags => "invalid flags on fragment"@,
    }
}

impl FragmentError {
    /// A sentence that describes the error.
    pub fn describe(&self) -> (s: String)
        ensures
            s@ == error_text(*self),
    {
        match self {
            FragmentError::TooShort => String::from_str("fragment too short"),
            FragmentError::MtuTooSmall => String::from_str("MTU too small (minimum: 3)"),
            FragmentError::EmptyPacket => String::from_str("cannot fragment empty packet"),
            FragmentError::BufferTooSmall => String::from_str("buffer too small for fragment"),
            FragmentError::MissingFragment(sequence) => {
                let mut s = String::from_str("missing fragment with sequence ");
                push_decimal(&mut s, *sequence as u64);
                s
            },
            FragmentError::InvalidFlags => String::from_str("invalid flags on fragment"),
        }
    }
}

/// Bit 0 of `flags` is set.
pub open spec fn flags_first(flags: u8) -> bool {
    flags & 0x01 != 0
}

/// Bit 1 of `flags` is set.
pub open spec fn flags_more(flags: u8) -> bool {
    flags & 0x02 != 0
}

/// No bit of `flags` outside bits 0 and 1 is set.
pub open spec fn flags_valid(flags: u8) -> bool {
    flags & !0x03u8 == 0
}

/// What [`Fragment::to_bytes`] produces: the header followed by the payload.
pub open spec fn wire_bytes(sequence: u8, flags: u8, payload: Seq<u8>) -> Seq<u8> {
    seq![sequence, flags] + payload
}

impl Fragment {
    /// Builds a fragment from its parts.
    pub fn new(sequence: u8, flags: u8, payload: Vec<u8>) -> (f: Self)
        ensures
            f.sequence == sequence,
            f.flags == flags,
            f.payload == payload,
    {
        Fragment { sequence, flags, payload }
    }

    /// Whether this is the first fragment of a packet.
    pub fn is_first(&self) -> (r: bool)
        ensures
            r == flags_first(self.flags),
    {
        self.flags & FLAG_FIRST_FRAGMENT != 0
    }

    /// Whether more fragments follow this one.
    pub fn has_more(&self) -> (r: bool)
        ensures
            r == flags_more(self.flags),
    {
        self.flags & FLAG_MORE_FRAGMENTS != 0
    }

    /// Whether only defined flag bits are set.
    pub fn has_valid_flags(&self) -> (r: bool)
        ensures
            r == flags_valid(self.flags),
    {
        assert(!(0x01u8 | 0x02u8) == !0x03u8) by (bit_vector);
        self.flags & !(FLAG_FIRST_FRAGMENT | FLAG_MORE_FRAGMENTS) == 0
    }

    /// Serializes header and payload into a fresh vector.
    pub fn to_bytes(&self) -> (bytes: Vec<u8>)
        ensures
            bytes@ == wire_bytes(self.sequence, self.flags, self.payload@),
    {
        let mut bytes: Vec<u8> = Vec::new();
        bytes.push(self.sequence);
        bytes.push(self.flags);
        bytes.extend_from_slice(self.payload.as_slice());
        assert(bytes@ =~= wire_bytes(self.sequence, self.flags, self.payload@));
        bytes
    }

    /// Serializes header and payload into the front of `buf`.
    ///
    /// Returns the number of bytes written. A buffer shorter than header
    /// plus payload is refused and left untouched.
    pub fn write_to(&self, buf: &mut [u8]) -> (r: Result<usize, FragmentError>)
        ensures
            old(buf)@.len() < HEADER_SIZE + self.payload@.len() ==> r == Err::<usize, FragmentError>(
                FragmentError::BufferTooSmall,
            ) && final(buf)@ == old(buf)@,
            old(buf)@.len() >= HEADER_SIZE + self.payload@.len() ==> r == Ok::<usize, FragmentError>(
                (HEADER_SIZE + self.payload@.len()) as usize,
            ) && final(buf)@ == wire_bytes(self.sequence, self.flags, self.payload@) + old(
                buf,
            )@.skip(HEADER_SIZE + self.payload@.len()),
    {
        let n = self.payload.len();
        if buf.len() < HEADER_SIZE || buf.len() - HEADER_SIZE < n {
            return Err(FragmentError::BufferTooSmall);
        }
        buf[0] = self.sequence;
        buf[1] = self.flags;
        let mut i: usize = 0;
        while i < n
            invariant
                0 <= i <= n,
                n == self.payload@.len(),
                buf@.len() == old(buf)@.len(),
                buf@.len() >= HEADER_SIZE + n,
                HEADER_SIZE + n <= usize::MAX,
                buf@[0] == self.sequence,
                buf@[1] == self.flags,
                forall|j: int| 0 <= j < i ==> buf@[HEADER_SIZE + j] == self.payload@[j],
                forall|j: int| HEADER_SIZE + i <= j < buf@.len() ==> buf@[j] == old(buf)@[j],
            decreases n - i,
        {
            buf[HEADER_SIZE + i] = self.payload[i];
            i += 1;
        }
        assert(buf@ =~= wire_bytes(self.sequence, self.flags, self.payload@) + old(buf)@.skip(
            HEADER_SIZE + n,
        ));
        Ok(HEADER_SIZE + n)
    }

    /// Parses a fragment from its wire form.
    ///
    /// Fails with `TooShort` exactly when fewer than two bytes are given.
    /// The flags are not judged here; see [`Fragment::has_valid_flags`].
    pub fn from_bytes(bytes: &[u8]) -> (r: Result<Self, FragmentError>)
        ensures
            bytes@.len() < HEADER_SIZE ==> r == Err::<Self, FragmentError>(FragmentError::TooShort),
            bytes@.len() >= HEADER_SIZE ==> r.is_ok() && r.unwrap().sequence == bytes@[0]
                && r.unwrap().flags == bytes@[1] && r.unwrap().payload@ == bytes@.skip(
                HEADER_SIZE as int,
            ),
    {
        if bytes.len() < HEADER_SIZE {
            return Err(FragmentError::TooShort);
        }
        let mut payload: Vec<u8> = Vec::new();
        let mut i: usize = HEADER_SIZE;
        while i < bytes.len()
            invariant
                HEADER_SIZE <= i <= bytes@.len(),
                payload@ == bytes@.subrange(HEADER_SIZE as int, i as int),
            decreases bytes@.len() - i,
        {
            payload.push(bytes[i]);
            assert(payload@ =~= bytes@.subrange(HEADER_SIZE as int, i + 1));
            i += 1;
        }
        assert(payload@ =~= bytes@.skip(HEADER_SIZE as int));
        Ok(Fragment { sequence: bytes[0], flags: bytes[1], payload })
    }
}


/// Number of fragments needed for `len` payload bytes at `max_payload` bytes
/// per fragment: `len / max_payload`, rounded up.
pub open spec fn fragment_count(len: nat, max_payload: nat) -> nat
    recommends
        max_payload > 0,
{
    ((len + max_payload - 1) / (max_payload as int)) as nat
}

/// The sequence number `k` steps after `start`, wrapping at 256.
pub open spec fn seq_add(start: u8, k: int) -> u8 {
    ((start as int + k) % 256) as u8
}

/// Flags of fragment `i` out of `n`: `FIRST` on fragment 0, `MORE` on every
/// fragment but the last.
pub open spec fn fragment_flags(i: int, n: int) -> u8 {
    if i == 0 {
        if i + 1 < n {
            0x03u8
        } else {
            0x01u8
        }
    } else {
        if i + 1 < n {
            0x02u8
        } else {
            0x00u8
        }
    }
}

/// Payload of fragment `i`: bytes `i * max_payload` up to the next multiple of
/// `max_payload` or the end of the packet.
pub open spec fn chunk(packet: Seq<u8>, i: int, max_payload: int) -> Seq<u8> {
    let start = i * max_payload;
    let end = if start + max_payload < packet.len() {
        start + max_payload
    } else {
        packet.len() as int
    };
    packet.subrange(start, end)
}

/// All payloads of `frags`, joined in order.
pub open spec fn concat_payloads(frags: Seq<Fragment>) -> Seq<u8>
    decreases frags.len(),
{
    if frags.len() == 0 {
        Seq::empty()
    } else {
        concat_payloads(frags.drop_last()) + frags.last().payload@
    }
}

/// `frags` is exactly the fragmentation of `packet` at `max_payload` bytes
/// per fragment, numbered from `start`.
pub open spec fn is_fragmentation_of(
    frags: Seq<Fragment>,
    packet: Seq<u8>,
    max_payload: int,
    start: u8,
) -> bool {
    &&& frags.len() == fragment_count(packet.len(), max_payload as nat)
    &&& forall|i: int|
        0 <= i < frags.len() ==> {
            &&& (#[trigger] frags[i]).sequence == seq_add(start, i)
            &&& frags[i].flags == fragment_flags(i, frags.len() as int)
            &&& frags[i].payload@ == chunk(packet, i, max_payload)
        }
}

/// Splits packets into fragments that fit a BLE characteristic write.
#[derive(Debug)]
pub struct Fragmenter {
    mtu: usize,
    next_sequence: u8,
}

impl Fragmenter {
    /// Maximum fragment size, header included.
    pub closed spec fn mtu(&self) -> usize {
        self.mtu
    }

    /// Sequence number the next fragment will carry.
    pub closed spec fn next_sequence(&self) -> u8 {
        self.next_sequence
    }

    /// The MTU leaves room for at least one payload byte.
    pub open spec fn wf(&self) -> bool {
        self.mtu() > HEADER_SIZE
    }

    /// Creates a fragmenter for the given MTU, starting at sequence 0.
    pub fn new(mtu: usize) -> (f: Self)
        requires
            mtu > HEADER_SIZE,
        ensures
            f.wf(),
            f.mtu() == mtu,
            f.next_sequence() == 0,
    {
        Fragmenter { mtu, next_sequence: 0 }
    }

    /// Creates a fragmenter, or fails with `MtuTooSmall` exactly when the MTU
    /// does not exceed the header size.
    pub fn try_new(mtu: usize) -> (r: Result<Self, FragmentError>)
        ensures
            mtu <= HEADER_SIZE ==> r is Err && r->Err_0 == FragmentError::MtuTooSmall,
            mtu > HEADER_SIZE ==> r is Ok && r->Ok_0.wf() && r->Ok_0.mtu() == mtu
                && r->Ok_0.next_sequence() == 0,
    {
        if mtu <= HEADER_SIZE {
            return Err(FragmentError::MtuTooSmall);
        }
        Ok(Fragmenter { mtu, next_sequence: 0 })
    }

    /// Makes the next fragment carry `sequence`.
    pub fn set_next_sequence(&mut self, sequence: u8)
        ensures
            final(self).mtu() == old(self).mtu(),
            final(self).next_sequence() == sequence,
    {
        self.next_sequence = sequence;
    }

    /// Payload bytes that fit in one fragment.
    pub fn max_payload(&self) -> (m: usize)
        requires
            self.wf(),
        ensures
            m == self.mtu() - HEADER_SIZE,
            m > 0,
    {
        self.mtu - HEADER_SIZE
    }

    /// Whether a packet of `packet_len` bytes needs more than one fragment.
    pub fn needs_fragmentation(&self, packet_len: usize) -> (r: bool)
        requires
            self.wf(),
        ensures
            r == (packet_len > self.mtu() - HEADER_SIZE),
    {
        packet_len > self.max_payload()
    }

    /// Splits `packet` into fragments.
    ///
    /// An empty packet is refused and leaves the fragmenter unchanged.
    /// Otherwise the result is the fragmentation of `packet`, its payloads
    /// joined give back `packet`, and the sequence counter has advanced by
    /// the number of fragments, wrapping at 256.
    pub fn fragment(&mut self, packet: &[u8]) -> (r: Result<Vec<Fragment>, FragmentError>)
        requires
            old(self).wf(),
        ensures
            final(self).mtu() == old(self).mtu(),
            packet@.len() == 0 ==> r is Err && r->Err_0 == FragmentError::EmptyPacket
                && final(self).next_sequence() == old(self).next_sequence(),
            packet@.len() > 0 ==> r is Ok && is_fragmentation_of(
                r->Ok_0@,
                packet@,
                old(self).mtu() - HEADER_SIZE,
                old(self).next_sequence(),
            ) && concat_payloads(r->Ok_0@) == packet@ && final(self).next_sequence() == seq_add(
                old(self).next_sequence(),
                r->Ok_0@.len() as int,
            ),
    {
        if packet.len() == 0 {
            return Err(FragmentError::EmptyPacket);
        }
        let max_payload = self.max_payload();
        let len = packet.len();
        let ghost mp = max_payload as int;
        let ghost start = self.next_sequence;
        let ghost n = fragment_count(len as nat, max_payload as nat) as int;
        proof {
            lemma_fragment_count(len as int, mp);
        }
        let mut fragments: Vec<Fragment> = Vec::new();
        let mut offset: usize = 0;
        while offset < len
            invariant
                self.mtu == old(self).mtu,
                len == packet@.len(),
                len > 0,
                mp == max_payload,
                mp > 0,
                (n - 1) * mp < len <= n * mp,
                0 <= offset <= len,
                0 <= fragments@.len() <= n,
                offset < len ==> offset == fragments@.len() * mp,
                offset == len ==> fragments@.len() == n,
                self.next_sequence == seq_add(start, fragments@.len() as int),
                concat_payloads(fragments@) == packet@.subrange(0, offset as int),
                forall|i: int|
                    0 <= i < fragments@.len() ==> {
                        &&& (#[trigger] fragments@[i]).sequence == seq_add(start, i)
                        &&& fragments@[i].flags == fragment_flags(i, n)
                        &&& fragments@[i].payload@ == chunk(packet@, i, mp)
                    },
            decreases len - offset,
        {
            let ghost k = fragments@.len() as int;
            let ghost before = fragments@;
            let remaining = len - offset;
            let payload_len = if remaining < max_payload {
                remaining
            } else {
                max_payload
            };
            proof {
                lemma_next_chunk(len as int, mp, n, k);
                lemma_chunk_at(packet@, mp, k, payload_len as int);
            }
            let flags = flags_for(offset == 0, payload_len < remaining);
            let payload = copy_range(packet, offset, payload_len);
            fragments.push(Fragment::new(self.next_sequence, flags, payload));
            proof {
                assert(fragments@.drop_last() =~= before);
                assert(packet@.subrange(0, offset as int) + packet@.subrange(
                    offset as int,
                    offset + payload_len,
                ) =~= packet@.subrange(0, offset + payload_len));
            }
            self.next_sequence = if self.next_sequence == 255 {
                0
            } else {
                self.next_sequence + 1
            };
            offset = offset + payload_len;
        }
        assert(packet@.subrange(0, len as int) =~= packet@);
        Ok(fragments)
    }
}

/// The flags of a fragment that is or is not the first and has or has not a
/// successor.
fn flags_for(first: bool, more: bool) -> (flags: u8)
    ensures
        flags == if first {
            if more {
                0x03u8
            } else {
                0x01u8
            }
        } else {
            if more {
                0x02u8
            } else {
                0x00u8
            }
        },
{
    let mut flags: u8 = 0;
    if first {
        flags = flags | FLAG_FIRST_FRAGMENT;
    }
    if more {
        flags = flags | FLAG_MORE_FRAGMENTS;
    }
    assert(0u8 | 0x01u8 == 0x01u8) by (bit_vector);
    assert(0u8 | 0x02u8 == 0x02u8) by (bit_vector);
    assert(0x01u8 | 0x02u8 == 0x03u8) by (bit_vector);
    flags
}

/// Copies `count` bytes of `bytes` from index `from` on.
fn copy_range(bytes: &[u8], from: usize, count: usize) -> (copy: Vec<u8>)
    requires
        from + count <= bytes@.len(),
    ensures
        copy@ == bytes@.subrange(from as int, from + count),
{
    let mut copy: Vec<u8> = Vec::new();
    let total = bytes.len();
    let mut j: usize = 0;
    while j < count
        invariant
            0 <= j <= count,
            from + count <= bytes@.len(),
            total == bytes@.len(),
            copy@ == bytes@.subrange(from as int, from + j),
        decreases count - j,
    {
        copy.push(bytes[from + j]);
        assert(copy@ =~= bytes@.subrange(from as int, from + j + 1));
        j = j + 1;
    }
    copy
}

/// Fragment `k` begins at `k * mp` and takes what is left of the packet, at
/// most `mp` bytes.
proof fn lemma_chunk_at(packet: Seq<u8>, mp: int, k: int, taken: int)
    requires
        mp > 0,
        k >= 0,
        k * mp < packet.len(),
        taken == if packet.len() - k * mp < mp {
            packet.len() - k * mp
        } else {
            mp
        },
    ensures
        packet.subrange(k * mp, k * mp + taken) == chunk(packet, k, mp),
        (k + 1) * mp == k * mp + mp,
        k * mp == 0 <==> k == 0,
        k * mp >= 0,
{
    assert((k + 1) * mp == k * mp + mp) by (nonlinear_arith);
    assert(k * mp == 0 <==> k == 0) by (nonlinear_arith)
        requires
            mp > 0,
            k >= 0,
    ;
    assert(k * mp >= 0) by (nonlinear_arith)
        requires
            mp > 0,
            k >= 0,
    ;
}

/// The fragment count `n` brackets the length: `(n - 1) * mp < len <= n * mp`.
pub proof fn lemma_fragment_count(len: int, mp: int)
    requires
        len > 0,
        mp > 0,
    ensures
        ({
            let n = fragment_count(len as nat, mp as nat) as int;
            n >= 1 && (n - 1) * mp < len <= n * mp
        }),
{
    let n = (len + mp - 1) / mp;
    assert(n >= 1 && (n - 1) * mp < len && len <= n * mp) by (nonlinear_arith)
        requires
            len > 0,
            mp > 0,
            n == (len + mp - 1) / mp,
    ;
}

/// With `k` full fragments cut, fragment `k` exists, and it is the last one
/// exactly when what remains fits in it.
proof fn lemma_next_chunk(len: int, mp: int, n: int, k: int)
    requires
        mp > 0,
        k >= 0,
        k * mp < len,
        (n - 1) * mp < len <= n * mp,
    ensures
        k < n,
        (k + 1 < n) <==> (k * mp + mp < len),
        k * mp + mp >= len ==> k + 1 == n,
{
    assert(k < n) by (nonlinear_arith)
        requires
            mp > 0,
            k * mp < len,
            len <= n * mp,
    ;
    assert((k + 1 < n) ==> (k * mp + mp < len)) by (nonlinear_arith)
        requires
            mp > 0,
            (n - 1) * mp < len,
    ;
    assert((k * mp + mp < len) ==> (k + 1 < n)) by (nonlinear_arith)
        requires
            mp > 0,
            len <= n * mp,
    ;
}

} // verus!
