//! Identifiers of owners, groups and entries: twelve bytes, ordered as one
//! big-endian number. The first four bytes of an entry's identifier are the
//! second it was created in, so a later entry has the greater identifier.

use vstd::prelude::*;

verus! {

/// Number of bytes in an identifier.
pub const ID_LEN: usize = 12;

/// Seconds for which an entry counts as recent: three days.
pub const RECENT_SECS: u64 = 259200;

/// The number that `bytes` spell, most significant byte first.
pub open spec fn be_value(bytes: Seq<u8>) -> nat
    decreases bytes.len(),
{
    if bytes.len() == 0 {
        0
    } else {
        be_value(bytes.drop_last()) * 256 + bytes.last() as nat
    }
}

/// The four bytes of `secs`, most significant first, followed by eight zero
/// bytes: the least identifier that carries this creation time.
pub open spec fn floor_bytes(secs: u32) -> Seq<u8> {
    seq![
        (secs / 0x100_0000) as u8,
        (secs / 0x1_0000 % 0x100) as u8,
        (secs / 0x100 % 0x100) as u8,
        (secs % 0x100) as u8,
        0u8, 0u8, 0u8, 0u8, 0u8, 0u8, 0u8, 0u8,
    ]
}

/// The creation time, in whole seconds since the epoch and cut to 32 bits,
/// that the recent window starts at when the clock reads `now_ms`
/// milliseconds.
pub open spec fn recent_start(now_ms: u64) -> u32 {
    ((now_ms / 1000 - RECENT_SECS) % 0x1_0000_0000) as u32
}

/// 256 to the power of `n`.
pub open spec fn pow256(n: nat) -> nat
    decreases n,
{
    if n == 0 {
        1
    } else {
        256 * pow256((n - 1) as nat)
    }
}

/// The creation time that the identifier `id` carries: its first four
/// bytes, read as seconds since the epoch.
pub open spec fn secs_of(id: Seq<u8>) -> nat {
    be_value(id.take(4))
}

/// Bytes spell a number below 256 to the power of their count.
pub proof fn lemma_be_value_bound(bytes: Seq<u8>)
    ensures
        be_value(bytes) < pow256(bytes.len()),
    decreases bytes.len(),
{
    if bytes.len() > 0 {
        lemma_be_value_bound(bytes.drop_last());
    }
}

/// The number that two byte strings spell when put together.
pub proof fn lemma_be_value_add(a: Seq<u8>, b: Seq<u8>)
    ensures
        be_value(a + b) == be_value(a) * pow256(b.len()) + be_value(b),
    decreases b.len(),
{
    if b.len() == 0 {
        assert(a + b =~= a);
        assert(pow256(b.len()) == 1);
        assert(be_value(b) == 0);
    } else {
        let front = b.drop_last();
        lemma_be_value_add(a, front);
        assert((a + b).drop_last() =~= a + front);
        assert((a + b).last() == b.last());
        let x = be_value(a);
        let y = be_value(front);
        let p = pow256(front.len());
        assert(pow256(b.len()) == 256 * p);
        assert(be_value(a + b) == (x * p + y) * 256 + b.last() as nat);
        assert(be_value(b) == y * 256 + b.last() as nat);
        assert((x * p + y) * 256 == x * (256 * p) + y * 256) by (nonlinear_arith);
    }
}

/// An identifier is its creation time, then eight more bytes: it lies above
/// another whenever its time is later, and below whenever its time is
/// earlier.
pub proof fn lemma_secs_order(a: Seq<u8>, b: Seq<u8>)
    requires
        a.len() == 12,
        b.len() == 12,
    ensures
        secs_of(a) > secs_of(b) ==> be_value(a) > be_value(b),
        secs_of(a) < secs_of(b) ==> be_value(a) < be_value(b),
{
    assert(a =~= a.take(4) + a.skip(4));
    assert(b =~= b.take(4) + b.skip(4));
    lemma_be_value_add(a.take(4), a.skip(4));
    lemma_be_value_add(b.take(4), b.skip(4));
    lemma_be_value_bound(a.skip(4));
    lemma_be_value_bound(b.skip(4));
    let p = pow256(8);
    let x = secs_of(a);
    let y = secs_of(b);
    if x > y {
        assert(x * p >= (y + 1) * p) by (nonlinear_arith)
            requires
                x >= y + 1,
        ;
        assert((y + 1) * p == y * p + p) by (nonlinear_arith);
    }
    if x < y {
        assert(y * p >= (x + 1) * p) by (nonlinear_arith)
            requires
                y >= x + 1,
        ;
        assert((x + 1) * p == x * p + p) by (nonlinear_arith);
    }
}

/// The least identifier of a creation time carries that time, and no
/// identifier with the same time lies below it.
pub proof fn lemma_floor(secs: u32, id: Seq<u8>)
    requires
        id.len() == 12,
    ensures
        floor_bytes(secs).len() == 12,
        secs_of(floor_bytes(secs)) == secs,
        secs_of(id) == secs ==> be_value(id) >= be_value(floor_bytes(secs)),
{
    let f = floor_bytes(secs);
    let head = f.take(4);
    reveal_with_fuel(be_value, 5);
    assert(head.drop_last() =~= seq![f[0], f[1], f[2]]);
    assert(head.drop_last().drop_last() =~= seq![f[0], f[1]]);
    assert(head.drop_last().drop_last().drop_last() =~= seq![f[0]]);
    assert(head.drop_last().drop_last().drop_last().drop_last() =~= Seq::<u8>::empty());
    assert(be_value(head) == ((f[0] as nat * 256 + f[1] as nat) * 256 + f[2] as nat) * 256
        + f[3] as nat);
    assert(be_value(head) == secs);
    lemma_zeros(f.skip(4));
    assert(f =~= f.take(4) + f.skip(4));
    assert(id =~= id.take(4) + id.skip(4));
    lemma_be_value_add(f.take(4), f.skip(4));
    lemma_be_value_add(id.take(4), id.skip(4));
}

/// Zero bytes spell zero.
proof fn lemma_zeros(bytes: Seq<u8>)
    requires
        forall|i: int| 0 <= i < bytes.len() ==> bytes[i] == 0,
    ensures
        be_value(bytes) == 0,
    decreases bytes.len(),
{
    if bytes.len() > 0 {
        lemma_zeros(bytes.drop_last());
    }
}

/// A twelve-byte identifier.
#[derive(Clone, Copy, Debug, PartialEq, Eq, Hash)]
pub struct Id {
    pub bytes: [u8; 12],
}

impl View for Id {
    type V = Seq<u8>;

    open spec fn view(&self) -> Seq<u8> {
        self.bytes@
    }
}

impl Default for Id {
    /// The all-zero identifier.
    fn default() -> (id: Id)
        ensures
            id@ == Seq::new(12, |i: int| 0u8),
    {
        Id::zero()
    }
}

impl Id {
    /// The identifier read as a number; identifiers are ordered by it.
    pub open spec fn value(self) -> nat {
        be_value(self@)
    }

    /// The creation time that the identifier carries, in seconds.
    pub open spec fn secs(self) -> nat {
        be_value(self@.take(4))
    }

    /// The identifier with the given bytes.
    pub fn new(bytes: [u8; 12]) -> (id: Id)
        ensures
            id@ == bytes@,
    {
        Id { bytes }
    }

    /// The all-zero identifier, the least of all.
    pub fn zero() -> (id: Id)
        ensures
            id@ == Seq::new(12, |i: int| 0u8),
    {
        let id = Id { bytes: [0u8, 0u8, 0u8, 0u8, 0u8, 0u8, 0u8, 0u8, 0u8, 0u8, 0u8, 0u8] };
        assert(id@ =~= Seq::new(12, |i: int| 0u8));
        id
    }

    /// The greatest identifier: a cursor that lies after every entry.
    pub fn max() -> (id: Id)
        ensures
            id@ == Seq::new(12, |i: int| 255u8),
    {
        let id = Id {
            bytes: [255u8, 255u8, 255u8, 255u8, 255u8, 255u8, 255u8, 255u8, 255u8, 255u8, 255u8, 255u8],
        };
        assert(id@ =~= Seq::new(12, |i: int| 255u8));
        id
    }

    /// The least identifier whose creation time is `secs`.
    pub fn floor(secs: u32) -> (id: Id)
        ensures
            id@ == floor_bytes(secs),
    {
        let b0: u8 = (secs / 0x100_0000) as u8;
        let b1: u8 = (secs / 0x1_0000 % 0x100) as u8;
        let b2: u8 = (secs / 0x100 % 0x100) as u8;
        let b3: u8 = (secs % 0x100) as u8;
        let id = Id { bytes: [b0, b1, b2, b3, 0u8, 0u8, 0u8, 0u8, 0u8, 0u8, 0u8, 0u8] };
        assert(id@ =~= floor_bytes(secs));
        id
    }

    /// The identifier below which no entry is recent, for a clock that reads
    /// `now_ms` milliseconds since the epoch.
    pub fn recent_floor(now_ms: u64) -> (id: Id)
        requires
            now_ms / 1000 >= RECENT_SECS,
        ensures
            id@ == floor_bytes(recent_start(now_ms)),
    {
        let secs: u64 = now_ms / 1000 - RECENT_SECS;
        Id::floor((secs % 0x1_0000_0000) as u32)
    }

    /// The identifier held in `bytes`, if there are twelve of them.
    pub fn from_slice(bytes: &Vec<u8>) -> (id: Option<Id>)
        ensures
            id is Some <==> bytes@.len() == ID_LEN,
            id matches Some(v) ==> v@ == bytes@,
    {
        if bytes.len() != ID_LEN {
            return None;
        }
        let id = Id {
            bytes: [
                bytes[0], bytes[1], bytes[2], bytes[3], bytes[4], bytes[5],
                bytes[6], bytes[7], bytes[8], bytes[9], bytes[10], bytes[11],
            ],
        };
        assert(id@ =~= bytes@);
        Some(id)
    }

    /// The twelve bytes, in a vector.
    pub fn to_vec(&self) -> (bytes: Vec<u8>)
        ensures
            bytes@ == self@,
    {
        let mut out: Vec<u8> = Vec::with_capacity(ID_LEN);
        let mut i: usize = 0;
        while i < ID_LEN
            invariant
                i <= ID_LEN,
                out@ == self@.take(i as int),
            decreases ID_LEN - i,
        {
            out.push(self.bytes[i]);
            assert(out@ =~= self@.take(i + 1));
            i += 1;
        }
        assert(self@.take(12) =~= self@);
        out
    }

    /// Whether the two identifiers are the same.
    pub fn same(&self, other: &Id) -> (r: bool)
        ensures
            r == (self@ == other@),
    {
        let mut i: usize = 0;
        while i < ID_LEN
            invariant
                i <= ID_LEN,
                self@.take(i as int) == other@.take(i as int),
            decreases ID_LEN - i,
        {
            if self.bytes[i] != other.bytes[i] {
                assert(self@[i as int] != other@[i as int]);
                return false;
            }
            assert(self@.take(i + 1) =~= self@.take(i as int).push(self@[i as int]));
            assert(other@.take(i + 1) =~= other@.take(i as int).push(other@[i as int]));
            i += 1;
        }
        assert(self@.take(12) =~= self@);
        assert(other@.take(12) =~= other@);
        true
    }

    /// Whether this identifier comes before `other`.
    pub fn lt(&self, other: &Id) -> (r: bool)
        ensures
            r == (self.value() < other.value()),
    {
        let mut i: usize = 0;
        let mut less: bool = false;
        let mut more: bool = false;
        while i < ID_LEN
            invariant
                i <= ID_LEN,
                less == (be_value(self@.take(i as int)) < be_value(other@.take(i as int))),
                more == (be_value(self@.take(i as int)) > be_value(other@.take(i as int))),
            decreases ID_LEN - i,
        {
            proof {
                assert(self@.take(i + 1).drop_last() =~= self@.take(i as int));
                assert(other@.take(i + 1).drop_last() =~= other@.take(i as int));
            }
            if !less && !more {
                less = self.bytes[i] < other.bytes[i];
                more = self.bytes[i] > other.bytes[i];
            }
            i += 1;
        }
        assert(self@.take(12) =~= self@);
        assert(other@.take(12) =~= other@);
        less
    }
}

/// A new identifier from `xid::new`: the current second, then bytes that
/// stand for this machine and process, then a counter. Nothing is claimed of
/// the bytes that come back. The call panics where the system clock reads a
/// time before the epoch.
#[verifier::external_body]
pub(crate) fn new_id() -> Id {
    Id { bytes: xid::new().0 }
}

} // verus!
