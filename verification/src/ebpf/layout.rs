//! How keys and values lie in the kernel's maps: their fields one after the other, without gaps,
//! each in the machine's byte order.

use super::tracing::PidCpuCounters;
use crate::common::{
    CpuFreqKey, CpuFreqTime, PidCgroupValue, PidCpuKey, PidCpuTime, PidNetBytes,
};
use vstd::prelude::*;

verus! {

/// A machine's byte order.
#[derive(Clone, Copy, Debug, PartialEq, Eq, Structural)]
pub enum ByteOrder {
    Little,
    Big,
}

/// The byte of a number of four bytes that stands at an index.
pub open spec fn byte_of(x: u32, i: int, order: ByteOrder) -> u8 {
    let place = match order {
        ByteOrder::Little => i,
        ByteOrder::Big => 3 - i,
    };
    if place == 0 {
        (x % 256) as u8
    } else if place == 1 {
        (x / 256 % 256) as u8
    } else if place == 2 {
        (x / 65_536 % 256) as u8
    } else {
        (x / 16_777_216) as u8
    }
}

/// A number's four bytes.
pub open spec fn word_bytes(x: u32, order: ByteOrder) -> Seq<u8> {
    Seq::new(4, |i: int| byte_of(x, i, order))
}

/// The number that the four bytes from `at` on make.
pub open spec fn word_at(s: Seq<u8>, at: int, order: ByteOrder) -> int {
    match order {
        ByteOrder::Little => s[at] + 256 * s[at + 1] + 65_536 * s[at + 2] + 16_777_216 * s[at + 3],
        ByteOrder::Big => s[at + 3] + 256 * s[at + 2] + 65_536 * s[at + 1] + 16_777_216 * s[at],
    }
}

/// The number that the eight bytes from `at` on make.
pub open spec fn long_at(s: Seq<u8>, at: int, order: ByteOrder) -> int {
    match order {
        ByteOrder::Little => word_at(s, at, order) + 4_294_967_296 * word_at(s, at + 4, order),
        ByteOrder::Big => word_at(s, at + 4, order) + 4_294_967_296 * word_at(s, at, order),
    }
}

/// A number's bytes make the number again, wherever they stand.
pub proof fn law_bytes_read_back(x: u32, s: Seq<u8>, at: int, order: ByteOrder)
    requires
        0 <= at,
        at + 4 <= s.len(),
        s.subrange(at, at + 4) == word_bytes(x, order),
    ensures
        word_at(s, at, order) == x,
{
    let b = s.subrange(at, at + 4);
    assert(b[0] == s[at] && b[1] == s[at + 1] && b[2] == s[at + 2] && b[3] == s[at + 3]);
    assert(x == (x % 256) + 256 * (x / 256 % 256) + 65_536 * (x / 65_536 % 256) + 16_777_216 * (x
        / 16_777_216) && x / 16_777_216 < 256) by (bit_vector);
}

fn push_word(v: &mut Vec<u8>, x: u32, order: ByteOrder)
    ensures
        final(v)@ == old(v)@ + word_bytes(x, order),
{
    let ghost before = v@;
    let a: u8 = (x % 256) as u8;
    let b: u8 = (x / 256 % 256) as u8;
    let c: u8 = (x / 65_536 % 256) as u8;
    let d: u8 = (x / 16_777_216) as u8;
    match order {
        ByteOrder::Little => {
            v.push(a);
            v.push(b);
            v.push(c);
            v.push(d);
        },
        ByteOrder::Big => {
            v.push(d);
            v.push(c);
            v.push(b);
            v.push(a);
        },
    }
    assert(v@ =~= before + word_bytes(x, order));
}

fn read_word(s: &[u8], at: usize, order: ByteOrder) -> (r: u32)
    requires
        at + 4 <= s@.len(),
    ensures
        r == word_at(s@, at as int, order),
{
    let n: usize = s.len();
    assert(at + 4 <= n);
    let (a, b, c, d): (u8, u8, u8, u8) = match order {
        ByteOrder::Little => (s[at], s[at + 1], s[at + 2], s[at + 3]),
        ByteOrder::Big => (s[at + 3], s[at + 2], s[at + 1], s[at]),
    };
    a as u32 + 256 * b as u32 + 65_536 * c as u32 + 16_777_216 * d as u32
}

fn read_long(s: &[u8], at: usize, order: ByteOrder) -> (r: u64)
    requires
        at + 8 <= s@.len(),
    ensures
        r == long_at(s@, at as int, order),
{
    let n: usize = s.len();
    assert(at + 8 <= n);
    let first: u32 = read_word(s, at, order);
    let second: u32 = read_word(s, at + 4, order);
    match order {
        ByteOrder::Little => first as u64 + 4_294_967_296 * second as u64,
        ByteOrder::Big => second as u64 + 4_294_967_296 * first as u64,
    }
}

impl PidCpuKey {
    /// The key as it lies in the run-time map: first the core, then the PID.
    pub fn to_bytes(&self, order: ByteOrder) -> (r: Vec<u8>)
        ensures
            r@ == word_bytes(self.cpu, order) + word_bytes(self.pid, order),
    {
        let mut v: Vec<u8> = Vec::new();
        push_word(&mut v, self.cpu, order);
        push_word(&mut v, self.pid, order);
        assert(v@ =~= word_bytes(self.cpu, order) + word_bytes(self.pid, order));
        v
    }

    /// Reads a key; not of another size.
    pub fn from_bytes(s: &[u8], order: ByteOrder) -> (r: Option<Self>)
        ensures
            r is Some <==> s@.len() == 8,
            r is Some ==> r->0.cpu == word_at(s@, 0, order) && r->0.pid == word_at(s@, 4, order),
    {
        if s.len() != 8 {
            return None;
        }
        Some(PidCpuKey { cpu: read_word(s, 0, order), pid: read_word(s, 4, order) })
    }
}

impl CpuFreqKey {
    /// Reads a key of the frequency map: first the core, then the frequency.
    pub fn from_bytes(s: &[u8], order: ByteOrder) -> (r: Option<Self>)
        ensures
            r is Some <==> s@.len() == 8,
            r is Some ==> r->0.cpu == word_at(s@, 0, order) && r->0.freq_khz == word_at(
                s@,
                4,
                order,
            ),
    {
        if s.len() != 8 {
            return None;
        }
        Some(CpuFreqKey { cpu: read_word(s, 0, order), freq_khz: read_word(s, 4, order) })
    }
}

impl PidCpuTime {
    /// Reads a value of the run-time map.
    pub fn from_bytes(s: &[u8], order: ByteOrder) -> (r: Option<Self>)
        ensures
            r is Some <==> s@.len() == 8,
            r is Some ==> r->0.time_ns == long_at(s@, 0, order),
    {
        if s.len() != 8 {
            return None;
        }
        Some(PidCpuTime { time_ns: read_long(s, 0, order) })
    }
}

impl CpuFreqTime {
    /// Reads a value of the frequency map.
    pub fn from_bytes(s: &[u8], order: ByteOrder) -> (r: Option<Self>)
        ensures
            r is Some <==> s@.len() == 8,
            r is Some ==> r->0.time_ns == long_at(s@, 0, order),
    {
        if s.len() != 8 {
            return None;
        }
        Some(CpuFreqTime { time_ns: read_long(s, 0, order) })
    }
}

impl PidCgroupValue {
    /// Reads a value of the cgroup map.
    pub fn from_bytes(s: &[u8], order: ByteOrder) -> (r: Option<Self>)
        ensures
            r is Some <==> s@.len() == 8,
            r is Some ==> r->0.cgroup_id == long_at(s@, 0, order),
    {
        if s.len() != 8 {
            return None;
        }
        Some(PidCgroupValue { cgroup_id: read_long(s, 0, order) })
    }
}

impl PidNetBytes {
    /// Reads a value of the network map: first what was sent, then what was received.
    pub fn from_bytes(s: &[u8], order: ByteOrder) -> (r: Option<Self>)
        ensures
            r is Some <==> s@.len() == 16,
            r is Some ==> r->0.tx_bytes == long_at(s@, 0, order) && r->0.rx_bytes == long_at(
                s@,
                8,
                order,
            ),
    {
        if s.len() != 16 {
            return None;
        }
        Some(PidNetBytes { tx_bytes: read_long(s, 0, order), rx_bytes: read_long(s, 8, order) })
    }
}

impl PidCpuCounters {
    /// Reads a value of the counter map: instructions, cycles, cache misses.
    pub fn from_bytes(s: &[u8], order: ByteOrder) -> (r: Option<Self>)
        ensures
            r is Some <==> s@.len() == 24,
            r is Some ==> r->0.instructions == long_at(s@, 0, order) && r->0.cycles == long_at(
                s@,
                8,
                order,
            ) && r->0.cache_misses == long_at(s@, 16, order),
    {
        if s.len() != 24 {
            return None;
        }
        Some(
            PidCpuCounters {
                instructions: read_long(s, 0, order),
                cycles: read_long(s, 8, order),
                cache_misses: read_long(s, 16, order),
            },
        )
    }
}

/// What is read of a key's bytes is the key.
pub proof fn law_key_reads_back(key: PidCpuKey, order: ByteOrder)
    ensures
        ({
            let s = word_bytes(key.cpu, order) + word_bytes(key.pid, order);
            s.len() == 8 && word_at(s, 0, order) == key.cpu && word_at(s, 4, order) == key.pid
        }),
{
    let s = word_bytes(key.cpu, order) + word_bytes(key.pid, order);
    assert(s.subrange(0, 4) =~= word_bytes(key.cpu, order));
    assert(s.subrange(4, 8) =~= word_bytes(key.pid, order));
    law_bytes_read_back(key.cpu, s, 0, order);
    law_bytes_read_back(key.pid, s, 4, order);
}

/// In little-endian order the first byte is the lowest and in big-endian order the last; the bytes
/// of one order are those of the other the other way round.
pub proof fn law_byte_order(x: u32, s: Seq<u8>)
    requires
        s.len() == 8,
    ensures
        word_bytes(x, ByteOrder::Little)[0] == x % 256,
        word_bytes(x, ByteOrder::Big)[3] == x % 256,
        word_bytes(x, ByteOrder::Big) == word_bytes(x, ByteOrder::Little).reverse(),
        word_at(s, 0, ByteOrder::Big) == word_at(s.reverse(), 4, ByteOrder::Little),
        long_at(s, 0, ByteOrder::Big) == long_at(s.reverse(), 0, ByteOrder::Little),
        s[1] == 0 && s[2] == 0 && s[3] == 0 ==> word_at(s, 0, ByteOrder::Little) == s[0],
        word_at(s, 4, ByteOrder::Little) == 0 ==> long_at(s, 0, ByteOrder::Little) == word_at(
            s,
            0,
            ByteOrder::Little,
        ),
{
    assert(word_bytes(x, ByteOrder::Big) =~= word_bytes(x, ByteOrder::Little).reverse());
}

} // verus!
