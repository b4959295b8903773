use vstd::prelude::*;

verus! {

/// Size in bytes of one inbound position record.
pub const RECORD_SIZE: usize = 8;

/// A remote participant's position as it comes off the wire: the bit
/// patterns of two single-precision floats, x then y.
#[derive(Clone, Copy, Debug, PartialEq, Eq, Structural)]
pub struct RemotePosition {
    pub x_bits: u32,
    pub y_bits: u32,
}

/// The big-endian 32-bit word at `i` in `b`.
pub open spec fn be_word(b: Seq<u8>, i: int) -> u32 {
    (b[i] as int * 0x1000000 + b[i + 1] as int * 0x10000 + b[i + 2] as int * 0x100
        + b[i + 3] as int) as u32
}

/// The record that starts at byte `i` of `b`.
pub open spec fn record_at(b: Seq<u8>, i: int) -> RemotePosition {
    RemotePosition { x_bits: be_word(b, i), y_bits: be_word(b, i + 4) }
}

/// `recs` are the whole records at the front of `b`, in order.
pub open spec fn decodes_to(b: Seq<u8>, recs: Seq<RemotePosition>) -> bool {
    &&& recs.len() == b.len() / (RECORD_SIZE as nat)
    &&& forall|k: int|
        0 <= k < recs.len() ==> #[trigger] recs[k] == record_at(b, k * RECORD_SIZE as int)
}

/// Reads the big-endian word at `i`.
fn read_be_word(b: &[u8], i: usize) -> (r: u32)
    requires
        i + 4 <= b@.len(),
    ensures
        r == be_word(b@, i as int),
{
    let w = (b[i] as u32) * 0x1000000 + (b[i + 1] as u32) * 0x10000 + (b[i + 2] as u32) * 0x100
        + (b[i + 3] as u32);
    w
}

/// Splits `bytes` into its whole records and the trailing bytes of a
/// record not yet complete.
pub fn decode_records(bytes: &[u8]) -> (r: (Vec<RemotePosition>, Vec<u8>))
    ensures
        decodes_to(bytes@, r.0@),
        r.1@ == bytes@.skip((bytes@.len() / (RECORD_SIZE as nat) * RECORD_SIZE as nat) as int),
        r.1@.len() < RECORD_SIZE,
{
    let n = bytes.len();
    let whole: usize = n / RECORD_SIZE * RECORD_SIZE;
    let mut recs: Vec<RemotePosition> = Vec::new();
    let mut i: usize = 0;
    while i < whole
        invariant
            whole == n / RECORD_SIZE * RECORD_SIZE,
            whole <= n,
            n == bytes@.len(),
            i % RECORD_SIZE == 0,
            i <= whole,
            recs@.len() == i / RECORD_SIZE,
            forall|k: int|
                0 <= k < recs@.len() ==> #[trigger] recs@[k] == record_at(
                    bytes@,
                    k * RECORD_SIZE as int,
                ),
        decreases whole - i,
    {
        assert(i + RECORD_SIZE <= whole) by (nonlinear_arith)
            requires
                i % 8 == 0,
                whole % 8 == 0,
                i < whole,
                RECORD_SIZE == 8,
        {
        }
        let rec = RemotePosition { x_bits: read_be_word(bytes, i), y_bits: read_be_word(bytes, i + 4) };
        recs.push(rec);
        assert(recs@.len() - 1 == i / 8);
        assert(((i / 8) * 8) as int == i) by (nonlinear_arith)
            requires i % 8 == 0;
        i = i + RECORD_SIZE;
    }
    let mut rest: Vec<u8> = Vec::new();
    let mut j: usize = whole;
    while j < n
        invariant
            whole <= j <= n,
            n == bytes@.len(),
            rest@ == bytes@.subrange(whole as int, j as int),
        decreases n - j,
    {
        rest.push(bytes[j]);
        assert(rest@ =~= bytes@.subrange(whole as int, j + 1));
        j = j + 1;
    }
    assert(rest@ =~= bytes@.skip(whole as int));
    (recs, rest)
}

/// Inbound bytes not yet making up a whole record, kept from one poll to
/// the next.
pub struct RecordReader {
    partial: Vec<u8>,
}

impl RecordReader {
    /// The bytes held back.
    pub closed spec fn held(&self) -> Seq<u8> {
        self.partial@
    }

    /// Number of bytes held back.
    pub fn held_len(&self) -> (r: usize)
        ensures
            r == self.held().len(),
    {
        self.partial.len()
    }

    /// A reader holding nothing.
    pub fn new() -> (r: Self)
        ensures
            r.held() == Seq::<u8>::empty(),
    {
        RecordReader { partial: Vec::new() }
    }

    /// Takes in the bytes of one poll and returns the whole records that
    /// the held bytes and `data` make up; the bytes of a trailing partial
    /// record are held for the next poll.
    pub fn feed(&mut self, data: &[u8]) -> (r: Vec<RemotePosition>)
        requires
            old(self).held().len() + data@.len() <= usize::MAX,
        ensures
            decodes_to(old(self).held() + data@, r@),
            final(self).held() == (old(self).held() + data@).skip(
                (r@.len() * RECORD_SIZE) as int,
            ),
            final(self).held().len() < RECORD_SIZE,
    {
        let mut all: Vec<u8> = Vec::new();
        let mut i: usize = 0;
        while i < self.partial.len()
            invariant
                i <= self.partial@.len(),
                all@ == self.partial@.subrange(0, i as int),
            decreases self.partial@.len() - i,
        {
            all.push(self.partial[i]);
            assert(all@ =~= self.partial@.subrange(0, i + 1));
            i = i + 1;
        }
        let mut j: usize = 0;
        while j < data.len()
            invariant
                j <= data@.len(),
                all@ == self.partial@ + data@.subrange(0, j as int),
            decreases data@.len() - j,
        {
            all.push(data[j]);
            assert(all@ =~= self.partial@ + data@.subrange(0, j + 1));
            j = j + 1;
        }
        assert(data@.subrange(0, data@.len() as int) =~= data@);
        let (recs, rest) = decode_records(all.as_slice());
        self.partial = rest;
        recs
    }
}

/// The latest known positions of the other participants; always replaced
/// as a whole, never edited in place.
pub struct RemotePositions {
    positions: Vec<RemotePosition>,
}

impl RemotePositions {
    /// The positions held.
    pub closed spec fn view(&self) -> Seq<RemotePosition> {
        self.positions@
    }

    /// No remote participant known yet.
    pub fn new() -> (r: Self)
        ensures
            r.view() == Seq::<RemotePosition>::empty(),
    {
        RemotePositions { positions: Vec::new() }
    }

    /// Replaces the whole collection with `positions`.
    pub fn replace_remote(&mut self, positions: Vec<RemotePosition>)
        ensures
            final(self).view() == positions@,
    {
        self.positions = positions;
    }

    /// A copy of the whole collection.
    pub fn remote_snapshot(&self) -> (r: Vec<RemotePosition>)
        ensures
            r@ == self.view(),
    {
        let mut r: Vec<RemotePosition> = Vec::new();
        let mut i: usize = 0;
        while i < self.positions.len()
            invariant
                i <= self.positions@.len(),
                r@ == self.positions@.subrange(0, i as int),
            decreases self.positions@.len() - i,
        {
            r.push(self.positions[i]);
            assert(r@ =~= self.positions@.subrange(0, i + 1));
            i = i + 1;
        }
        assert(r@ =~= self.positions@);
        r
    }
}

} // verus!
