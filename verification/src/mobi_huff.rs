//! HUFF/CDIC (Huffman) decompression of MOBI text records.
//!
//! A HUFF record holds the code tables; each CDIC record holds a batch of
//! dictionary phrases. A compressed text record is a bit stream of codes;
//! each code selects a dictionary phrase, which is itself either literal
//! bytes or (flag unset) another compressed stream that is expanded on first
//! use and remembered in its expanded form. Malformed input always yields an
//! error, never a panic.
use vstd::prelude::*;

verus! {

/// The standard I/O error type, carried by [`HuffmanError::IoError`].
#[verifier::external_type_specification]
#[verifier::external_body]
pub struct ExIoError(std::io::Error);

/// `std::io::Error::from(std::io::ErrorKind::UnexpectedEof)`: the error that
/// reading past the end of an in-memory record produces. Nothing is stated
/// of the value beyond its type.
#[verifier::external_body]
fn unexpected_eof() -> std::io::Error {
    std::io::Error::from(std::io::ErrorKind::UnexpectedEof)
}

/// Decoding errors from the HUFF/CDIC algorithm.
#[derive(Debug)]
pub enum HuffmanError {
    IoError(std::io::Error),
    CodeLenOutOfBounds,
    BadTerm,
    InvalidHuffHeader,
    InvalidCDICHeader,
    InvalidDictionaryIndex,
}

/// The kind of a [`HuffmanError`], for use in specifications.
#[derive(PartialEq, Eq, Structural, Debug, Clone, Copy)]
pub enum HuffFault {
    Io,
    CodeLenOutOfBounds,
    BadTerm,
    InvalidHuffHeader,
    InvalidCDICHeader,
    InvalidDictionaryIndex,
}

/// The kind of an error value.
pub open spec fn fault_of(e: HuffmanError) -> HuffFault {
    match e {
        HuffmanError::IoError(_) => HuffFault::Io,
        HuffmanError::CodeLenOutOfBounds => HuffFault::CodeLenOutOfBounds,
        HuffmanError::BadTerm => HuffFault::BadTerm,
        HuffmanError::InvalidHuffHeader => HuffFault::InvalidHuffHeader,
        HuffmanError::InvalidCDICHeader => HuffFault::InvalidCDICHeader,
        HuffmanError::InvalidDictionaryIndex => HuffFault::InvalidDictionaryIndex,
    }
}

// ──────────────────────────────────────────────────────────────────────────
// Big-endian record reading
// ──────────────────────────────────────────────────────────────────────────

/// `b"HUFF"` read as a big-endian `u32`.
pub open spec fn huff_magic() -> int {
    0x48554646
}

/// `b"CDIC"` read as a big-endian `u32`.
pub open spec fn cdic_magic() -> int {
    0x43444943
}

pub open spec fn be16(s: Seq<u8>, p: int) -> int {
    s[p] * 256 + s[p + 1]
}

pub open spec fn be32(s: Seq<u8>, p: int) -> int {
    s[p] * 16777216 + s[p + 1] * 65536 + s[p + 2] * 256 + s[p + 3]
}

pub open spec fn be64(s: Seq<u8>, p: int) -> int {
    be32(s, p) * 4294967296 + be32(s, p + 4)
}

/// The big-endian `u32` at byte offset `p`, if the record holds it.
pub open spec fn read32(s: Seq<u8>, p: int) -> Option<u32> {
    if 0 <= p && p + 4 <= s.len() {
        Some(be32(s, p) as u32)
    } else {
        None
    }
}

/// The big-endian `u16` at byte offset `p`, if the record holds it.
pub open spec fn read16(s: Seq<u8>, p: int) -> Option<u16> {
    if 0 <= p && p + 2 <= s.len() {
        Some(be16(s, p) as u16)
    } else {
        None
    }
}

/// Forward-only reader over an in-memory record. `set_position` never moves
/// backwards; reads past the end fail with an I/O error.
pub(crate) struct MobiHuffReader<'a> {
    reader: &'a [u8],
    position: usize,
}

impl<'a> MobiHuffReader<'a> {
    pub(crate) closed spec fn bytes(&self) -> Seq<u8> {
        self.reader@
    }

    pub(crate) closed spec fn pos(&self) -> int {
        self.position as int
    }

    pub(crate) fn new(content: &'a [u8]) -> (r: MobiHuffReader<'a>)
        ensures
            r.bytes() == content@,
            r.pos() == 0,
    {
        MobiHuffReader { reader: content, position: 0 }
    }

    /// The bytes from the current position on, preceded by `position` zero
    /// bytes; afterwards the position is the length of the returned buffer.
    #[allow(dead_code)]
    pub(crate) fn read_to_end(&mut self) -> (r: Result<Vec<u8>, std::io::Error>)
        ensures
            final(self).bytes() == old(self).bytes(),
            r matches Ok(v) && v@ == Seq::new(old(self).pos() as nat, |i: int| 0u8)
                + old(self).bytes().subrange(
                if old(self).pos() <= old(self).bytes().len() {
                    old(self).pos()
                } else {
                    old(self).bytes().len() as int
                },
                old(self).bytes().len() as int,
            ),
            r matches Ok(v) ==> final(self).pos() == v.len(),
    {
        let mut buf: Vec<u8> = Vec::new();
        let mut i: usize = 0;
        while i < self.position
            invariant
                i <= self.position,
                buf@ == Seq::new(i as nat, |j: int| 0u8),
            decreases self.position - i,
        {
            buf.push(0u8);
            i += 1;
            assert(buf@ =~= Seq::new(i as nat, |j: int| 0u8));
        }
        let ghost prefix = buf@;
        let start = if self.position <= self.reader.len() {
            self.position
        } else {
            self.reader.len()
        };
        let mut k = start;
        assert(buf@ =~= prefix + self.reader@.subrange(start as int, k as int));
        while k < self.reader.len()
            invariant
                start <= k <= self.reader.len(),
                buf@ == prefix + self.reader@.subrange(start as int, k as int),
            decreases self.reader.len() - k,
        {
            buf.push(self.reader[k]);
            k += 1;
            assert(buf@ =~= prefix + self.reader@.subrange(start as int, k as int));
        }
        self.position = buf.len();
        Ok(buf)
    }

    /// Fills `buf` with the next `buf.len()` bytes.
    pub(crate) fn read_exact(&mut self, buf: &mut Vec<u8>) -> (r: Result<(), std::io::Error>)
        ensures
            final(self).bytes() == old(self).bytes(),
            final(buf).len() == old(buf).len(),
            r is Ok <==> old(self).pos() + old(buf).len() <= old(self).bytes().len(),
            r is Ok ==> final(buf)@ == old(self).bytes().subrange(
                old(self).pos(),
                old(self).pos() + old(buf).len(),
            ),
            r is Ok ==> final(self).pos() == old(self).pos() + old(buf).len(),
    {
        let n = buf.len();
        if n > self.reader.len() || self.position > self.reader.len() - n {
            return Err(unexpected_eof());
        }
        let mut i: usize = 0;
        while i < n
            invariant
                n == buf.len(),
                self.position + n <= self.reader.len(),
                i <= n,
                forall|j: int| 0 <= j < i ==> buf@[j] == self.reader@[self.position + j],
            decreases n - i,
        {
            buf.set(i, self.reader[self.position + i]);
            i += 1;
        }
        assert(buf@ =~= self.reader@.subrange(self.position as int, self.position + n));
        self.position = self.position + n;
        Ok(())
    }

    /// Skips forward to `p`; a position behind the current one is ignored.
    pub(crate) fn set_position(&mut self, p: usize) -> (r: Result<(), std::io::Error>)
        ensures
            r is Ok,
            final(self).bytes() == old(self).bytes(),
            final(self).pos() == if p >= old(self).pos() {
                p as int
            } else {
                old(self).pos()
            },
    {
        if p >= self.position {
            self.position = p;
        }
        Ok(())
    }

    pub(crate) fn read_u64_be(&mut self) -> (r: Result<u64, std::io::Error>)
        ensures
            final(self).bytes() == old(self).bytes(),
            r is Ok <==> old(self).pos() + 8 <= old(self).bytes().len(),
            r matches Ok(v) ==> v == be64(old(self).bytes(), old(self).pos()) && final(self).pos()
                == old(self).pos() + 8,
    {
        let mut b: Vec<u8> = vec![0u8, 0u8, 0u8, 0u8, 0u8, 0u8, 0u8, 0u8];
        self.read_exact(&mut b)?;
        let hi: u64 = (b[0] as u64) * 16777216 + (b[1] as u64) * 65536 + (b[2] as u64) * 256
            + (b[3] as u64);
        let lo: u64 = (b[4] as u64) * 16777216 + (b[5] as u64) * 65536 + (b[6] as u64) * 256
            + (b[7] as u64);
        Ok(hi * 4294967296 + lo)
    }

    pub(crate) fn read_u32_be(&mut self) -> (r: Result<u32, std::io::Error>)
        ensures
            final(self).bytes() == old(self).bytes(),
            r is Ok <==> old(self).pos() + 4 <= old(self).bytes().len(),
            r matches Ok(v) ==> v == be32(old(self).bytes(), old(self).pos()) && final(self).pos()
                == old(self).pos() + 4,
    {
        let mut b: Vec<u8> = vec![0u8, 0u8, 0u8, 0u8];
        self.read_exact(&mut b)?;
        Ok((b[0] as u32) * 16777216 + (b[1] as u32) * 65536 + (b[2] as u32) * 256 + (b[3] as u32))
    }

    pub(crate) fn read_u16_be(&mut self) -> (r: Result<u16, std::io::Error>)
        ensures
            final(self).bytes() == old(self).bytes(),
            r is Ok <==> old(self).pos() + 2 <= old(self).bytes().len(),
            r matches Ok(v) ==> v == be16(old(self).bytes(), old(self).pos()) && final(self).pos()
                == old(self).pos() + 2,
    {
        let mut b: Vec<u8> = vec![0u8, 0u8];
        self.read_exact(&mut b)?;
        Ok((b[0] as u16) * 256 + (b[1] as u16))
    }

    pub(crate) fn read_u8(&mut self) -> (r: Result<u8, std::io::Error>)
        ensures
            final(self).bytes() == old(self).bytes(),
            r is Ok <==> old(self).pos() + 1 <= old(self).bytes().len(),
            r matches Ok(v) ==> v == old(self).bytes()[old(self).pos()] && final(self).pos()
                == old(self).pos() + 1,
    {
        let mut b: Vec<u8> = vec![0u8];
        self.read_exact(&mut b)?;
        Ok(b[0])
    }

    /// The next `len` bytes as a vector.
    #[allow(dead_code)]
    pub(crate) fn read_vec_header(&mut self, len: usize) -> (r: Result<Vec<u8>, std::io::Error>)
        ensures
            final(self).bytes() == old(self).bytes(),
            r is Ok <==> old(self).pos() + len <= old(self).bytes().len(),
            r matches Ok(v) ==> v@ == old(self).bytes().subrange(old(self).pos(), old(self).pos()
                + len) && final(self).pos() == old(self).pos() + len,
    {
        let mut buf: Vec<u8> = Vec::new();
        let mut i: usize = 0;
        while i < len
            invariant
                i <= len,
                buf.len() == i,
            decreases len - i,
        {
            buf.push(0u8);
            i += 1;
        }
        self.read_exact(&mut buf)?;
        Ok(buf)
    }
}

// ──────────────────────────────────────────────────────────────────────────
// HUFF record: code tables
// ──────────────────────────────────────────────────────────────────────────

/// `a.wrapping_sub(b)` on `u32`.
pub open spec fn wsub32(a: u32, b: u32) -> u32 {
    if a >= b {
        (a - b) as u32
    } else {
        (a - b + 0x1_0000_0000) as u32
    }
}

/// `a.wrapping_add(b)` on `u32`.
pub open spec fn wadd32(a: u32, b: u32) -> u32 {
    if a + b < 0x1_0000_0000 {
        (a + b) as u32
    } else {
        (a + b - 0x1_0000_0000) as u32
    }
}

fn wrapping_sub32(a: u32, b: u32) -> (r: u32)
    ensures
        r == wsub32(a, b),
{
    if a >= b {
        a - b
    } else {
        ((a as u64 + 0x1_0000_0000u64) - b as u64) as u32
    }
}

fn wrapping_add32(a: u32, b: u32) -> (r: u32)
    ensures
        r == wadd32(a, b),
{
    if (a as u64) + (b as u64) < 0x1_0000_0000u64 {
        a + b
    } else {
        ((a as u64 + b as u64) - 0x1_0000_0000u64) as u32
    }
}

/// One entry of the first code table: `(code_len, term, max_code)`.
pub open spec fn huff_entry(v: u32) -> Result<(u8, bool, u32), HuffFault> {
    let code_len = (v & 0x1F) as u8;
    let term = (v & 0x80) == 0x80;
    let max_code = v >> 8u32;
    if code_len == 0 {
        Err(HuffFault::CodeLenOutOfBounds)
    } else if code_len <= 8 && !term {
        Err(HuffFault::BadTerm)
    } else {
        Ok(
            (
                code_len,
                term,
                wsub32((((max_code + 1) as u32) << ((32 - code_len) as u32)) as u32, 1),
            ),
        )
    }
}

/// The first `n` entries of the code table read from offset `start`.
pub open spec fn load_code_dict(s: Seq<u8>, start: int, n: nat) -> Result<
    Seq<(u8, bool, u32)>,
    HuffFault,
>
    decreases n,
{
    if n == 0 {
        Ok(Seq::empty())
    } else {
        match load_code_dict(s, start, (n - 1) as nat) {
            Err(e) => Err(e),
            Ok(d) => match read32(s, start + 4 * (n - 1)) {
                None => Err(HuffFault::Io),
                Some(v) => match huff_entry(v) {
                    Err(e) => Err(e),
                    Ok(t) => Ok(d.push(t)),
                },
            },
        }
    }
}

/// The `(min_codes, max_codes)` tables for code lengths `0..=n`, the pairs
/// for lengths `1..=n` read from offset `start`.
pub open spec fn load_code_bounds(s: Seq<u8>, start: int, n: nat) -> Result<
    (Seq<u32>, Seq<u32>),
    HuffFault,
>
    decreases n,
{
    if n == 0 {
        Ok((seq![0u32], seq![0xFFFF_FFFFu32]))
    } else {
        match load_code_bounds(s, start, (n - 1) as nat) {
            Err(e) => Err(e),
            Ok((mins, maxs)) => match read32(s, start + 8 * (n - 1)) {
                None => Err(HuffFault::Io),
                Some(a) => match read32(s, start + 8 * (n - 1) + 4) {
                    None => Err(HuffFault::Io),
                    Some(b) => Ok(
                        (
                            mins.push((a << ((32 - n) as u32)) as u32),
                            maxs.push(wsub32((wadd32(b, 1) << ((32 - n) as u32)) as u32, 1)),
                        ),
                    ),
                },
            },
        }
    }
}

/// The decoding tables of a HUFF record.
pub struct HuffTables {
    pub code_dict: Seq<(u8, bool, u32)>,
    pub min_codes: Seq<u32>,
    pub max_codes: Seq<u32>,
}

pub open spec fn max_int(a: int, b: int) -> int {
    if a >= b {
        a
    } else {
        b
    }
}

/// What loading a HUFF record yields: the header must read `HUFF`, `0x18`;
/// then come the offsets of the 256-entry code table and of the 32 pairs of
/// code bounds (offsets behind the read position are ignored).
pub open spec fn load_huff_spec(s: Seq<u8>) -> Result<HuffTables, HuffFault> {
    match read32(s, 0) {
        None => Err(HuffFault::Io),
        Some(m) => if m != huff_magic() {
            Err(HuffFault::InvalidHuffHeader)
        } else {
            match read32(s, 4) {
                None => Err(HuffFault::Io),
                Some(h) => if h != 0x18 {
                    Err(HuffFault::InvalidHuffHeader)
                } else {
                    match (read32(s, 8), read32(s, 12)) {
                        (Some(cache), Some(base)) => {
                            let p1 = max_int(16, cache as int);
                            match load_code_dict(s, p1, 256) {
                                Err(e) => Err(e),
                                Ok(d) => {
                                    let p2 = max_int(p1 + 1024, base as int);
                                    match load_code_bounds(s, p2, 32) {
                                        Err(e) => Err(e),
                                        Ok((mins, maxs)) => Ok(
                                            HuffTables { code_dict: d, min_codes: mins, max_codes: maxs },
                                        ),
                                    }
                                },
                            }
                        },
                        _ => Err(HuffFault::Io),
                    }
                },
            }
        },
    }
}

/// Well-formed tables: 256 code entries whose lengths lie in `1..=31`, and
/// 33 bounds per table.
pub open spec fn tables_wf(t: HuffTables) -> bool {
    &&& t.code_dict.len() == 256
    &&& t.min_codes.len() == 33
    &&& t.max_codes.len() == 33
    &&& forall|i: int| 0 <= i < 256 ==> 1 <= (#[trigger] t.code_dict[i]).0 <= 31
}

/// The spec view of executable tables.
pub open spec fn tables_of(d: Seq<(u8, bool, u32)>, mins: Seq<u32>, maxs: Seq<u32>) -> HuffTables {
    HuffTables { code_dict: d, min_codes: mins, max_codes: maxs }
}

proof fn lemma_code_dict_entries(s: Seq<u8>, start: int, n: nat)
    requires
        load_code_dict(s, start, n) is Ok,
    ensures
        load_code_dict(s, start, n)->Ok_0.len() == n,
        forall|i: int|
            0 <= i < n ==> 1 <= (#[trigger] load_code_dict(s, start, n)->Ok_0[i]).0 <= 31,
    decreases n,
{
    if n > 0 {
        lemma_code_dict_entries(s, start, (n - 1) as nat);
        let v = read32(s, start + 4 * (n - 1))->Some_0;
        assert((v & 0x1F) as u8 <= 31) by (bit_vector);
    }
}

proof fn lemma_code_bounds_len(s: Seq<u8>, start: int, n: nat)
    requires
        load_code_bounds(s, start, n) is Ok,
    ensures
        load_code_bounds(s, start, n)->Ok_0.0.len() == n + 1,
        load_code_bounds(s, start, n)->Ok_0.1.len() == n + 1,
    decreases n,
{
    if n > 0 {
        lemma_code_bounds_len(s, start, (n - 1) as nat);
    }
}

proof fn lemma_code_dict_err_prop(s: Seq<u8>, start: int, k: nat, m: nat)
    requires
        k <= m,
        load_code_dict(s, start, k) is Err,
    ensures
        load_code_dict(s, start, m) == load_code_dict(s, start, k),
    decreases m - k,
{
    if k < m {
        lemma_code_dict_err_prop(s, start, k, (m - 1) as nat);
    }
}

proof fn lemma_code_bounds_err_prop(s: Seq<u8>, start: int, k: nat, m: nat)
    requires
        k <= m,
        load_code_bounds(s, start, k) is Err,
    ensures
        load_code_bounds(s, start, m) == load_code_bounds(s, start, k),
    decreases m - k,
{
    if k < m {
        lemma_code_bounds_err_prop(s, start, k, (m - 1) as nat);
    }
}

/// The code tables of a HUFF record.
fn load_huff(huff: &[u8]) -> (r: Result<(Vec<(u8, bool, u32)>, Vec<u32>, Vec<u32>), HuffmanError>)
    ensures
        match r {
            Ok((d, mins, maxs)) => load_huff_spec(huff@) == Ok::<HuffTables, HuffFault>(
                tables_of(d@, mins@, maxs@),
            ) && tables_wf(tables_of(d@, mins@, maxs@)),
            Err(e) => load_huff_spec(huff@) == Err::<HuffTables, HuffFault>(fault_of(e)),
        },
{
    let ghost s = huff@;
    let mut r = MobiHuffReader::new(huff);
    let magic = match r.read_u32_be() {
        Ok(v) => v,
        Err(e) => return Err(HuffmanError::IoError(e)),
    };
    if magic != 0x48554646u32 {
        return Err(HuffmanError::InvalidHuffHeader);
    }
    let hlen = match r.read_u32_be() {
        Ok(v) => v,
        Err(e) => return Err(HuffmanError::IoError(e)),
    };
    if hlen != 0x18 {
        return Err(HuffmanError::InvalidHuffHeader);
    }
    let cache_offset = match r.read_u32_be() {
        Ok(v) => v,
        Err(e) => return Err(HuffmanError::IoError(e)),
    };
    let base_offset = match r.read_u32_be() {
        Ok(v) => v,
        Err(e) => return Err(HuffmanError::IoError(e)),
    };
    let _ = r.set_position(cache_offset as usize);
    let ghost p1 = max_int(16, cache_offset as int);
    assert(r.pos() == p1);

    let mut code_dict: Vec<(u8, bool, u32)> = Vec::new();
    let mut k: usize = 0;
    while k < 256
        invariant
            k <= 256,
            r.bytes() == s,
            s == huff@,
            r.pos() == p1 + 4 * k,
            load_code_dict(s, p1, k as nat) == Ok::<Seq<(u8, bool, u32)>, HuffFault>(code_dict@),
            read32(s, 0) == Some(0x48554646u32),
            read32(s, 4) == Some(0x18u32),
            read32(s, 8) == Some(cache_offset),
            read32(s, 12) == Some(base_offset),
            p1 == max_int(16, cache_offset as int),
        decreases 256 - k,
    {
        let v = match r.read_u32_be() {
            Ok(v) => v,
            Err(e) => {
                proof {
                    lemma_code_dict_err_prop(s, p1, (k + 1) as nat, 256);
                }
                return Err(HuffmanError::IoError(e));
            },
        };
        assert(v & 0x1F < 32) by (bit_vector);
        let code_len = (v & 0x1F) as u8;
        let term = (v & 0x80) == 0x80;
        let max_code = v >> 8;
        if code_len == 0 {
            proof {
                lemma_code_dict_err_prop(s, p1, (k + 1) as nat, 256);
            }
            return Err(HuffmanError::CodeLenOutOfBounds);
        }
        if code_len <= 8 && !term {
            proof {
                lemma_code_dict_err_prop(s, p1, (k + 1) as nat, 256);
            }
            return Err(HuffmanError::BadTerm);
        }
        assert(v >> 8u32 < 0x100_0000) by (bit_vector);
        let shifted: u32 = ((max_code + 1) as u32) << ((32 - code_len) as u32);
        let mc = wrapping_sub32(shifted, 1);
        code_dict.push((code_len, term, mc));
        k += 1;
    }
    let _ = r.set_position(base_offset as usize);
    let ghost p2 = max_int(p1 + 1024, base_offset as int);
    assert(r.pos() == p2);

    let mut min_codes: Vec<u32> = Vec::new();
    min_codes.push(0u32);
    let mut max_codes: Vec<u32> = Vec::new();
    max_codes.push(0xFFFF_FFFFu32);
    assert(min_codes@ =~= seq![0u32]);
    assert(max_codes@ =~= seq![0xFFFF_FFFFu32]);
    let mut code_len: u32 = 1;
    while code_len <= 32
        invariant
            1 <= code_len <= 33,
            r.bytes() == s,
            s == huff@,
            r.pos() == p2 + 8 * (code_len - 1),
            load_code_bounds(s, p2, (code_len - 1) as nat) == Ok::<(Seq<u32>, Seq<u32>), HuffFault>(
                (min_codes@, max_codes@),
            ),
            read32(s, 0) == Some(0x48554646u32),
            read32(s, 4) == Some(0x18u32),
            read32(s, 8) == Some(cache_offset),
            read32(s, 12) == Some(base_offset),
            p1 == max_int(16, cache_offset as int),
            p2 == max_int(p1 + 1024, base_offset as int),
            load_code_dict(s, p1, 256) == Ok::<Seq<(u8, bool, u32)>, HuffFault>(code_dict@),
        decreases 33 - code_len,
    {
        let a = match r.read_u32_be() {
            Ok(v) => v,
            Err(e) => {
                proof {
                    lemma_code_bounds_err_prop(s, p2, code_len as nat, 32);
                }
                return Err(HuffmanError::IoError(e));
            },
        };
        let b = match r.read_u32_be() {
            Ok(v) => v,
            Err(e) => {
                proof {
                    lemma_code_bounds_err_prop(s, p2, code_len as nat, 32);
                }
                return Err(HuffmanError::IoError(e));
            },
        };
        min_codes.push(a << (32 - code_len));
        max_codes.push(wrapping_sub32(wrapping_add32(b, 1) << (32 - code_len), 1));
        code_len += 1;
    }
    proof {
        lemma_code_dict_entries(s, p1, 256);
        lemma_code_bounds_len(s, p2, 32);
    }
    Ok((code_dict, min_codes, max_codes))
}

// ──────────────────────────────────────────────────────────────────────────
// CDIC records: dictionary phrases
// ──────────────────────────────────────────────────────────────────────────

/// A dictionary slot: a phrase and whether it is already literal bytes.
pub type DictEntry = Option<(Vec<u8>, bool)>;

/// Spec view of a dictionary slot.
pub open spec fn entry_view(e: DictEntry) -> Option<(Seq<u8>, bool)> {
    match e {
        Some(p) => Some((p.0@, p.1)),
        None => None,
    }
}

/// Spec view of a dictionary.
pub open spec fn dict_view(d: Seq<DictEntry>) -> Seq<Option<(Seq<u8>, bool)>> {
    d.map_values(|e: DictEntry| entry_view(e))
}

/// The first `n` phrase offsets (big-endian `u16`s from byte 16 on).
pub open spec fn read_offsets(s: Seq<u8>, n: nat) -> Option<Seq<u16>>
    decreases n,
{
    if n == 0 {
        Some(Seq::empty())
    } else {
        match read_offsets(s, (n - 1) as nat) {
            None => None,
            Some(o) => match read16(s, 16 + 2 * (n - 1)) {
                None => None,
                Some(v) => Some(o.push(v)),
            },
        }
    }
}

/// The phrases at the given offsets, read from position `pos` on: each is a
/// big-endian `u16` header (low 15 bits: length; top bit: literal flag)
/// followed by its bytes.
pub open spec fn cdic_phrases(s: Seq<u8>, pos: int, offs: Seq<u16>) -> Option<
    Seq<(Seq<u8>, bool)>,
>
    decreases offs.len(),
{
    if offs.len() == 0 {
        Some(Seq::empty())
    } else {
        let p = max_int(pos, 16 + offs[0]);
        match read16(s, p) {
            None => None,
            Some(nb) => {
                let len = (nb & 0x7FFF) as int;
                if p + 2 + len > s.len() {
                    None
                } else {
                    match cdic_phrases(s, p + 2 + len, offs.drop_first()) {
                        None => None,
                        Some(rest) => Some(
                            seq![(s.subrange(p + 2, p + 2 + len), (nb & 0x8000) == 0x8000)]
                                + rest,
                        ),
                    }
                }
            },
        }
    }
}

/// How many phrases a CDIC record contributes: `2^bits` (shift amount taken
/// modulo 32), capped by the phrases still missing from the dictionary
/// (`num_phrases - dict_len`, wrapping).
pub open spec fn cdic_count(num_phrases: u32, bits: u32, dict_len: int) -> nat {
    let a = (1u32 << (bits % 32)) as u32;
    let b = wsub32(num_phrases, dict_len as u32);
    if a <= b {
        a as nat
    } else {
        b as nat
    }
}

/// The phrases that a CDIC record adds to a dictionary of `dict_len` slots.
#[verifier::opaque]
pub open spec fn load_cdic_spec(s: Seq<u8>, dict_len: int) -> Result<
    Seq<(Seq<u8>, bool)>,
    HuffFault,
> {
    match read32(s, 0) {
        None => Err(HuffFault::Io),
        Some(m) => if m != cdic_magic() {
            Err(HuffFault::InvalidCDICHeader)
        } else {
            match read32(s, 4) {
                None => Err(HuffFault::Io),
                Some(h) => if h != 0x10 {
                    Err(HuffFault::InvalidCDICHeader)
                } else {
                    match (read32(s, 8), read32(s, 12)) {
                        (Some(np), Some(bits)) => {
                            let n = cdic_count(np, bits, dict_len);
                            match read_offsets(s, n) {
                                None => Err(HuffFault::Io),
                                Some(offs) => match cdic_phrases(s, 16 + 2 * (n as int), offs) {
                                    None => Err(HuffFault::Io),
                                    Some(ph) => Ok(ph),
                                },
                            }
                        },
                        _ => Err(HuffFault::Io),
                    }
                },
            }
        },
    }
}

/// Phrases as fresh dictionary slots.
pub open spec fn phrase_slots(ph: Seq<(Seq<u8>, bool)>) -> Seq<Option<(Seq<u8>, bool)>> {
    ph.map_values(|p: (Seq<u8>, bool)| Some(p))
}

proof fn lemma_offsets_len(s: Seq<u8>, n: nat)
    requires
        read_offsets(s, n) is Some,
    ensures
        read_offsets(s, n)->Some_0.len() == n,
    decreases n,
{
    if n > 0 {
        lemma_offsets_len(s, (n - 1) as nat);
    }
}

proof fn lemma_offsets_none_prop(s: Seq<u8>, k: nat, m: nat)
    requires
        k <= m,
        read_offsets(s, k) is None,
    ensures
        read_offsets(s, m) is None,
    decreases m - k,
{
    if k < m {
        lemma_offsets_none_prop(s, k, (m - 1) as nat);
    }
}

fn shl1_wrapping(bits: u32) -> (r: u32)
    ensures
        r == (1u32 << (bits % 32)) as u32,
{
    let b = bits % 32;
    1u32 << b
}

/// Appends the phrases of one CDIC record to `dictionary`.
fn load_cdic(cdic: &[u8], dictionary: &mut Vec<DictEntry>) -> (r: Result<(), HuffmanError>)
    ensures
        match r {
            Ok(_) => load_cdic_spec(cdic@, old(dictionary)@.len() as int) matches Ok(ph)
                && dict_view(final(dictionary)@) == dict_view(old(dictionary)@) + phrase_slots(ph),
            Err(e) => load_cdic_spec(cdic@, old(dictionary)@.len() as int) == Err::<
                Seq<(Seq<u8>, bool)>,
                HuffFault,
            >(fault_of(e)),
        },
        dict_wf(dict_view(old(dictionary)@)) ==> dict_wf(dict_view(final(dictionary)@)),
{
    reveal(load_cdic_spec);
    let ghost s = cdic@;
    let ghost d0 = dictionary@;
    let mut r = MobiHuffReader::new(cdic);
    let magic = match r.read_u32_be() {
        Ok(v) => v,
        Err(e) => return Err(HuffmanError::IoError(e)),
    };
    if magic != 0x43444943u32 {
        return Err(HuffmanError::InvalidCDICHeader);
    }
    let hlen = match r.read_u32_be() {
        Ok(v) => v,
        Err(e) => return Err(HuffmanError::IoError(e)),
    };
    if hlen != 0x10 {
        return Err(HuffmanError::InvalidCDICHeader);
    }
    let num_phrases = match r.read_u32_be() {
        Ok(v) => v,
        Err(e) => return Err(HuffmanError::IoError(e)),
    };
    let bits = match r.read_u32_be() {
        Ok(v) => v,
        Err(e) => return Err(HuffmanError::IoError(e)),
    };
    let a = shl1_wrapping(bits);
    let b = wrapping_sub32(num_phrases, dictionary.len() as u32);
    let n: u32 = if a <= b {
        a
    } else {
        b
    };
    assert(n as nat == cdic_count(num_phrases, bits, d0.len() as int));

    let mut offsets: Vec<u16> = Vec::new();
    let mut i: u32 = 0;
    while i < n
        invariant
            i <= n,
            r.bytes() == s,
            s == cdic@,
            read32(s, 0) == Some(0x43444943u32),
            read32(s, 4) == Some(0x10u32),
            read32(s, 8) == Some(num_phrases),
            read32(s, 12) == Some(bits),
            n as nat == cdic_count(num_phrases, bits, d0.len() as int),
            d0 == old(dictionary)@,
            r.pos() == 16 + 2 * i,
            read_offsets(s, i as nat) == Some(offsets@),
        decreases n - i,
    {
        proof {
            reveal(load_cdic_spec);
        }
        let v = match r.read_u16_be() {
            Ok(v) => v,
            Err(e) => {
                proof {
                    lemma_offsets_none_prop(s, (i + 1) as nat, n as nat);
                }
                return Err(HuffmanError::IoError(e));
            },
        };
        offsets.push(v);
        i += 1;
    }
    proof {
        lemma_offsets_len(s, n as nat);
    }
    let ghost offs = offsets@;
    let ghost start = 16 + 2 * (n as int);
    let ghost mut acc: Seq<(Seq<u8>, bool)> = Seq::empty();
    let mut j: usize = 0;
    assert(offs.skip(0) =~= offs);
    assert(acc + cdic_phrases(s, r.pos(), offs)->Some_0 =~= cdic_phrases(s, r.pos(), offs)->Some_0);
    assert(dict_view(d0) + phrase_slots(acc) =~= dict_view(d0));
    while j < offsets.len()
        invariant
            j <= offsets.len(),
            offs == offsets@,
            start == 16 + 2 * (n as int),
            read_offsets(s, n as nat) == Some(offs),
            r.bytes() == s,
            s == cdic@,
            read32(s, 0) == Some(0x43444943u32),
            read32(s, 4) == Some(0x10u32),
            read32(s, 8) == Some(num_phrases),
            read32(s, 12) == Some(bits),
            n as nat == cdic_count(num_phrases, bits, d0.len() as int),
            d0 == old(dictionary)@,
            cdic_phrases(s, start, offs) == match cdic_phrases(s, r.pos(), offs.skip(j as int)) {
                None => None,
                Some(rest) => Some(acc + rest),
            },
            dict_view(dictionary@) == dict_view(d0) + phrase_slots(acc),
            dictionary@.len() == d0.len() + acc.len(),
            dict_wf(dict_view(d0)) ==> dict_wf(dict_view(dictionary@)),
        decreases offsets.len() - j,
    {
        proof {
            reveal(load_cdic_spec);
        }
        let ghost pos_before = r.pos();
        let ghost tail = offs.skip(j as int);
        assert(tail[0] == offs[j as int]);
        assert(tail.drop_first() =~= offs.skip(j + 1));
        let _ = r.set_position(16 + offsets[j] as usize);
        let nb = match r.read_u16_be() {
            Ok(v) => v,
            Err(e) => return Err(HuffmanError::IoError(e)),
        };
        let len = (nb & 0x7FFF) as usize;
        let bytes = match r.read_vec_header(len) {
            Ok(v) => v,
            Err(e) => return Err(HuffmanError::IoError(e)),
        };
        let flag = (nb & 0x8000) == 0x8000;
        let ghost item = (bytes@, flag);
        let ghost dv_old = dict_view(dictionary@);
        dictionary.push(Some((bytes, flag)));
        assert(dict_view(dictionary@) =~= dv_old.push(Some(item)));
        proof {
            let ghost old_acc = acc;
            acc = acc.push(item);
            assert(seq![item] + cdic_phrases(s, r.pos(), offs.skip(j + 1))->Some_0 =~= seq![item]
                + cdic_phrases(s, r.pos(), offs.skip(j + 1))->Some_0);
            if cdic_phrases(s, r.pos(), offs.skip(j + 1)) is Some {
                let rest = cdic_phrases(s, r.pos(), offs.skip(j + 1))->Some_0;
                assert(old_acc + (seq![item] + rest) =~= acc + rest);
            }
            assert(phrase_slots(acc) =~= phrase_slots(old_acc).push(Some(item)));
            assert(dict_view(d0) + phrase_slots(acc) =~= (dict_view(d0) + phrase_slots(old_acc)).push(Some(item)));
        }
        j += 1;
    }
    proof {
        reveal(load_cdic_spec);
        assert(offs.skip(offs.len() as int) =~= Seq::<u16>::empty());
        assert(acc + Seq::<(Seq<u8>, bool)>::empty() =~= acc);
    }
    Ok(())
}

// ──────────────────────────────────────────────────────────────────────────
// Unpacking one compressed stream
// ──────────────────────────────────────────────────────────────────────────

/// Number of filled slots of a dictionary.
pub open spec fn count_some(d: Seq<Option<(Seq<u8>, bool)>>) -> nat
    decreases d.len(),
{
    if d.len() == 0 {
        0
    } else {
        count_some(d.drop_last()) + if d.last() is Some {
            1nat
        } else {
            0nat
        }
    }
}

/// Every phrase that is still compressed is short enough for its bit length
/// to fit a `usize`.
pub open spec fn dict_wf(d: Seq<Option<(Seq<u8>, bool)>>) -> bool {
    forall|i: int|
        0 <= i < d.len() && (#[trigger] d[i]) is Some && !d[i]->Some_0.1 ==> d[i]->Some_0.0.len()
            * 8 <= usize::MAX
}

/// Shifts the `m` bytes `s[p..p+m]` into the low end of the window `x`.
pub open spec fn shift_in(x: u64, s: Seq<u8>, p: int, m: nat) -> u64
    decreases m,
{
    if m == 0 {
        x
    } else {
        ((shift_in(x, s, p, (m - 1) as nat) << 8u64) | (s[p + m - 1] as u64)) as u64
    }
}

/// Refills the 64-bit window when its upper half is used up (`n <= 0`):
/// normally with the next 32 bits; near the end of the stream with the
/// remaining `bits_left / 8` bytes, padded with zero bits. `None` when the
/// record has too few bytes.
pub open spec fn refill(s: Seq<u8>, x: u64, n: int, bits_left: int, pos: int) -> Option<
    (u64, int, int),
> {
    if n > 0 {
        Some((x, n, pos))
    } else if bits_left < 32 {
        let m = bits_left / 8;
        if pos + m > s.len() {
            None
        } else {
            Some(
                (
                    (shift_in(x, s, pos, m as nat) << ((32 - bits_left) as u64)) as u64,
                    n + 32,
                    pos + m,
                ),
            )
        }
    } else {
        if pos + 4 > s.len() {
            None
        } else {
            Some((((x << 32u64) | (be32(s, pos) as u64)) as u64, n + 32, pos + 4))
        }
    }
}

/// The smallest `j >= from` with `code >= mins[j]`.
pub open spec fn first_min_at_most(mins: Seq<u32>, from: int, code: u32) -> Option<int>
    decreases mins.len() - from,
{
    if from < 0 || from >= mins.len() {
        None
    } else if code >= mins[from] {
        Some(from)
    } else {
        first_min_at_most(mins, from + 1, code)
    }
}

/// The code length and maximal code for a 32-bit window value `code`;
/// `None` when no code length fits.
pub open spec fn decode_step(t: HuffTables, code: u32) -> Option<(int, u32)> {
    let e = t.code_dict[(code >> 24u32) as int];
    if e.1 {
        Some((e.0 as int, e.2))
    } else {
        match first_min_at_most(t.min_codes, e.0 as int, code) {
            None => None,
            Some(cl) => Some((cl, t.max_codes[cl])),
        }
    }
}

/// The dictionary slot that a code of length `cl` with maximal code `maxc`
/// selects.
pub open spec fn code_index(maxc: u32, code: u32, cl: int) -> int {
    (wsub32(maxc, code) >> ((32 - cl) as u32)) as int
}

/// Expands one compressed stream with dictionary `d`, giving the bytes and
/// the dictionary afterwards (every phrase used is stored expanded, with its
/// flag set). A phrase that is still being expanded when it is used again
/// has an empty slot, which is an `InvalidDictionaryIndex` error.
pub open spec fn unpack_spec(s: Seq<u8>, d: Seq<Option<(Seq<u8>, bool)>>, t: HuffTables) -> Result<
    (Seq<u8>, Seq<Option<(Seq<u8>, bool)>>),
    HuffFault,
>
    decreases count_some(d), 8 * (s.len() as int), 1int,
    when tables_wf(t)
{
    if s.len() < 8 {
        Err(HuffFault::Io)
    } else {
        unpack_loop(s, d, t, be64(s, 0) as u64, 32, 8 * (s.len() as int), 8, Seq::empty())
    }
}

/// The decoding loop of [`unpack_spec`] from the state: window `x` with `n`
/// unused low bits above the current code, `bits_left` bits of the stream
/// still to decode, `pos` bytes of the record consumed, output `out`.
pub open spec fn unpack_loop(
    s: Seq<u8>,
    d: Seq<Option<(Seq<u8>, bool)>>,
    t: HuffTables,
    x: u64,
    n: int,
    bits_left: int,
    pos: int,
    out: Seq<u8>,
) -> Result<(Seq<u8>, Seq<Option<(Seq<u8>, bool)>>), HuffFault>
    decreases count_some(d), bits_left, 0int,
    when tables_wf(t) && bits_left >= 0
{
    match refill(s, x, n, bits_left, pos) {
        None => Err(HuffFault::Io),
        Some((x1, n1, pos1)) => {
            let code = (x1 >> (n1 as u64)) as u32;
            match decode_step(t, code) {
                None => Err(HuffFault::CodeLenOutOfBounds),
                Some((cl, maxc)) => {
                    let index = code_index(maxc, code, cl);
                    if index >= d.len() || d[index] is None {
                        Err(HuffFault::InvalidDictionaryIndex)
                    } else {
                        let slice = d[index]->Some_0.0;
                        let flag = d[index]->Some_0.1;
                        let taken = d.update(index, None);
                        proof {
                            lemma_count_update(d, index, None);
                        }
                        let expanded = if flag {
                            Ok((slice, taken))
                        } else {
                            unpack_spec(slice, taken, t)
                        };
                        match expanded {
                            Err(e) => Err(e),
                            Ok((bytes, d2)) => {
                                let d3 = d2.update(index, Some((bytes, true)));
                                let out2 = out + bytes;
                                if cl >= bits_left {
                                    Ok((out2, d3))
                                } else if d2.len() != d.len() || count_some(d3) > count_some(d) {
                                    Err(HuffFault::InvalidDictionaryIndex)
                                } else {
                                    proof {
                                        lemma_decode_step_len(t, code);
                                    }
                                    unpack_loop(s, d3, t, x1, n1 - cl, bits_left - cl, pos1, out2)
                                }
                            },
                        }
                    }
                },
            }
        },
    }
}

pub proof fn lemma_count_update(d: Seq<Option<(Seq<u8>, bool)>>, i: int, e: Option<(Seq<u8>, bool)>)
    requires
        0 <= i < d.len(),
    ensures
        count_some(d.update(i, e)) + (if d[i] is Some {
            1int
        } else {
            0int
        }) == count_some(d) + (if e is Some {
            1int
        } else {
            0int
        }),
    decreases d.len(),
{
    let u = d.update(i, e);
    if i == d.len() - 1 {
        assert(u.drop_last() =~= d.drop_last());
    } else {
        assert(u.drop_last() =~= d.drop_last().update(i, e));
        lemma_count_update(d.drop_last(), i, e);
    }
}

pub proof fn lemma_first_min(mins: Seq<u32>, from: int, code: u32)
    ensures
        first_min_at_most(mins, from, code) matches Some(j) ==> from <= j < mins.len() && 0 <= from
            && code >= mins[j],
    decreases mins.len() - from,
{
    if 0 <= from < mins.len() && code < mins[from] {
        lemma_first_min(mins, from + 1, code);
    }
}

pub proof fn lemma_decode_step_len(t: HuffTables, code: u32)
    requires
        tables_wf(t),
    ensures
        decode_step(t, code) matches Some(r) ==> 1 <= r.0 <= 32,
{
    assert((code >> 24u32) < 256) by (bit_vector);
    let e = t.code_dict[(code >> 24u32) as int];
    assert(1 <= e.0 <= 31);
    lemma_first_min(t.min_codes, e.0 as int, code);
}

proof fn lemma_shift_in_step(x: u64, s: Seq<u8>, p: int, m: nat)
    ensures
        shift_in(x, s, p, m + 1) == ((shift_in(x, s, p, m) << 8u64) | (s[p + m] as u64)) as u64,
{
}

/// The shape of a dictionary after a successful expansion: same length,
/// same number of filled slots, and every empty slot still empty.
pub open spec fn same_shape(d: Seq<Option<(Seq<u8>, bool)>>, d2: Seq<Option<(Seq<u8>, bool)>>) -> bool {
    &&& d2.len() == d.len()
    &&& count_some(d2) == count_some(d)
    &&& forall|i: int| 0 <= i < d.len() && d[i] is None ==> #[trigger] d2[i] is None
}

/// A successful expansion keeps the dictionary's shape, so the guard in
/// [`unpack_loop`] that refuses a changed dictionary is never taken.
pub proof fn lemma_unpack_shape(s: Seq<u8>, d: Seq<Option<(Seq<u8>, bool)>>, t: HuffTables)
    requires
        tables_wf(t),
    ensures
        unpack_spec(s, d, t) matches Ok(r) ==> same_shape(d, r.1),
    decreases count_some(d), 8 * (s.len() as int), 1int,
{
    if s.len() >= 8 {
        lemma_loop_shape(s, d, t, be64(s, 0) as u64, 32, 8 * (s.len() as int), 8, Seq::empty());
    }
}

/// See [`lemma_unpack_shape`]: in the loop, a nested expansion that
/// succeeds leaves the dictionary (with the used phrase stored back) the
/// same length and as full as before.
pub proof fn lemma_loop_shape(
    s: Seq<u8>,
    d: Seq<Option<(Seq<u8>, bool)>>,
    t: HuffTables,
    x: u64,
    n: int,
    bits_left: int,
    pos: int,
    out: Seq<u8>,
)
    requires
        tables_wf(t),
        bits_left >= 0,
    ensures
        unpack_loop(s, d, t, x, n, bits_left, pos, out) matches Ok(r) ==> same_shape(d, r.1),
    decreases count_some(d), bits_left, 0int,
{
    match refill(s, x, n, bits_left, pos) {
        None => {},
        Some((x1, n1, pos1)) => {
            let code = (x1 >> (n1 as u64)) as u32;
            match decode_step(t, code) {
                None => {},
                Some((cl, maxc)) => {
                    let index = code_index(maxc, code, cl);
                    if index >= d.len() || d[index] is None {
                    } else {
                        let slice = d[index]->Some_0.0;
                        let flag = d[index]->Some_0.1;
                        let taken = d.update(index, None);
                        lemma_count_update(d, index, None);
                        let expanded = if flag {
                            Ok::<(Seq<u8>, Seq<Option<(Seq<u8>, bool)>>), HuffFault>((slice, taken))
                        } else {
                            unpack_spec(slice, taken, t)
                        };
                        if !flag {
                            lemma_unpack_shape(slice, taken, t);
                        }
                        match expanded {
                            Err(e) => {},
                            Ok((bytes, d2)) => {
                                assert(same_shape(taken, d2));
                                assert(d2[index] is None);
                                let d3 = d2.update(index, Some((bytes, true)));
                                lemma_count_update(d2, index, Some((bytes, true)));
                                assert(count_some(d3) == count_some(d));
                                assert(d3.len() == d.len());
                                if cl < bits_left {
                                    lemma_decode_step_len(t, code);
                                    lemma_loop_shape(s, d3, t, x1, n1 - cl, bits_left - cl, pos1, out + bytes);
                                }
                                assert forall|i: int| 0 <= i < d.len() && d[i] is None implies #[trigger] d3[i] is None by {
                                    assert(taken[i] is None);
                                }
                            },
                        }
                    }
                },
            }
        },
    }
}

/// Expands one compressed stream (see [`unpack_spec`]).
#[verifier::rlimit(60)]
fn unpack(
    data: &[u8],
    dictionary: &mut Vec<DictEntry>,
    code_dict: &Vec<(u8, bool, u32)>,
    min_codes: &Vec<u32>,
    max_codes: &Vec<u32>,
) -> (r: Result<Vec<u8>, HuffmanError>)
    requires
        tables_wf(tables_of(code_dict@, min_codes@, max_codes@)),
        data@.len() * 8 <= usize::MAX,
        dict_wf(dict_view(old(dictionary)@)),
    ensures
        match r {
            Ok(v) => unpack_spec(
                data@,
                dict_view(old(dictionary)@),
                tables_of(code_dict@, min_codes@, max_codes@),
            ) == Ok::<(Seq<u8>, Seq<Option<(Seq<u8>, bool)>>), HuffFault>(
                (v@, dict_view(final(dictionary)@)),
            ) && final(dictionary)@.len() == old(dictionary)@.len() && count_some(
                dict_view(final(dictionary)@),
            ) == count_some(dict_view(old(dictionary)@)) && dict_wf(
                dict_view(final(dictionary)@),
            ) && (forall|i: int|
                0 <= i < old(dictionary)@.len() && dict_view(old(dictionary)@)[i] is None
                    ==> #[trigger] dict_view(final(dictionary)@)[i] is None),
            Err(e) => unpack_spec(
                data@,
                dict_view(old(dictionary)@),
                tables_of(code_dict@, min_codes@, max_codes@),
            ) == Err::<(Seq<u8>, Seq<Option<(Seq<u8>, bool)>>), HuffFault>(fault_of(e)),
        },
        data@.len() < 8 ==> r is Err && final(dictionary)@ == old(dictionary)@,
    decreases count_some(dict_view(old(dictionary)@)),
{
    let ghost s = data@;
    let ghost t = tables_of(code_dict@, min_codes@, max_codes@);
    let ghost d0 = dict_view(dictionary@);
    let ghost d0len = dictionary@.len();
    let mut bits_left: usize = data.len() * 8;
    let mut r = MobiHuffReader::new(data);
    let mut x: u64 = match r.read_u64_be() {
        Ok(v) => v,
        Err(e) => return Err(HuffmanError::IoError(e)),
    };
    let mut n: i8 = 32;
    let mut unpacked: Vec<u8> = Vec::new();
    assert(data@.len() >= 8);
    assert(bits_left >= 64);
    assert(unpack_spec(s, d0, t) == unpack_loop(
        s,
        d0,
        t,
        x,
        32,
        bits_left as int,
        8,
        unpacked@,
    ));
    assert(data@.len() >= 8);
    loop
        invariant
            s == data@,
            data@.len() >= 8,
            t == tables_of(code_dict@, min_codes@, max_codes@),
            tables_wf(t),
            r.bytes() == s,
            0 < bits_left,
            -32 < n <= 32,
            dictionary@.len() == d0len,
            count_some(dict_view(dictionary@)) == count_some(d0),
            dict_wf(dict_view(dictionary@)),
            d0 == dict_view(old(dictionary)@),
            d0len == old(dictionary)@.len(),
            r.pos() <= s.len(),
            forall|i: int|
                0 <= i < d0len && d0[i] is None ==> #[trigger] dict_view(dictionary@)[i] is None,
            unpack_spec(s, d0, t) == unpack_loop(
                s,
                dict_view(dictionary@),
                t,
                x,
                n as int,
                bits_left as int,
                r.pos(),
                unpacked@,
            ),
        decreases bits_left,
    {
        let ghost dv = dict_view(dictionary@);
        let ghost st_x = x;
        let ghost st_n = n as int;
        let ghost st_pos = r.pos();
        let ghost st_out = unpacked@;
        let ghost rf = refill(s, st_x, st_n, bits_left as int, st_pos);
        if n <= 0 {
            if bits_left < 32 {
                let m = bits_left / 8;
                let mut q: usize = 0;
                while q < m
                    invariant
                        q <= m,
                        m == bits_left / 8,
                        bits_left < 32,
                        r.bytes() == s,
                        r.pos() == st_pos + q,
                        x == shift_in(st_x, s, st_pos, q as nat),
                        rf == refill(s, st_x, st_n, bits_left as int, st_pos),
                        st_n <= 0,
                        st_pos <= s.len(),
                        r.pos() <= s.len(),
                        s == data@,
                        t == tables_of(code_dict@, min_codes@, max_codes@),
                        tables_wf(t),
                        d0 == dict_view(old(dictionary)@),
                        dv == dict_view(dictionary@),
                        unpack_spec(s, d0, t) == unpack_loop(s, dv, t, st_x, st_n, bits_left as int, st_pos, st_out),
                        data@.len() >= 8,
                    decreases m - q,
                {
                    let b = match r.read_u8() {
                        Ok(b) => b,
                        Err(e) => {
                            assert(rf is None);
                            return Err(HuffmanError::IoError(e));
                        },
                    };
                    proof {
                        lemma_shift_in_step(st_x, s, st_pos, q as nat);
                    }
                    x = (x << 8u64) | (b as u64);
                    q += 1;
                }
                x = x << ((32 - bits_left) as u64);
                assert(rf == Some((x, st_n + 32, r.pos())));
            } else {
                let w = match r.read_u32_be() {
                    Ok(w) => w,
                    Err(e) => return Err(HuffmanError::IoError(e)),
                };
                x = (x << 32u64) | (w as u64);
                assert(rf == Some((x, st_n + 32, r.pos())));
            }
            n = n + 32;
        }
        assert(rf == Some((x, n as int, r.pos())));
        let code: u32 = (x >> (n as u64)) as u32;
        assert((code >> 24u32) < 256) by (bit_vector);
        let e = code_dict[(code >> 24u32) as usize];
        assert(1 <= e.0 <= 31);
        let mut code_len: usize = e.0 as usize;
        let mut max_code: u32 = e.2;
        if !e.1 {
            let mut j: usize = code_len;
            while j < 33 && !(code >= min_codes[j])
                invariant
                    e.0 <= j <= 33,
                    min_codes@.len() == 33,
                    first_min_at_most(min_codes@, e.0 as int, code) == first_min_at_most(
                        min_codes@,
                        j as int,
                        code,
                    ),
                decreases 33 - j,
            {
                j += 1;
            }
            if j == 33 {
                assert(decode_step(t, code) is None);
                return Err(HuffmanError::CodeLenOutOfBounds);
            }
            code_len = j;
            max_code = max_codes[j];
        }
        proof {
            lemma_decode_step_len(t, code);
        }
        assert(decode_step(t, code) == Some((code_len as int, max_code)));
        let index = (wrapping_sub32(max_code, code) >> ((32 - code_len) as u32)) as usize;
        assert(index as int == code_index(max_code, code, code_len as int));
        if index >= dictionary.len() {
            return Err(HuffmanError::InvalidDictionaryIndex);
        }
        let mut slot: DictEntry = None;
        dictionary.set_and_swap(index, &mut slot);
        assert(dict_view(dictionary@) =~= dv.update(index as int, None));
        proof {
            lemma_count_update(dv, index as int, None);
        }
        let (mut slice, flag) = match slot {
            None => return Err(HuffmanError::InvalidDictionaryIndex),
            Some(p) => p,
        };
        assert(dv[index as int] == Some((slice@, flag)));
        let ghost taken = dv.update(index as int, None);
        assert(dict_wf(taken));
        if !flag {
            assert(slice@.len() * 8 <= usize::MAX);
            slice = match unpack(&slice, dictionary, code_dict, min_codes, max_codes) {
                Ok(v) => v,
                Err(e) => return Err(e),
            };
        }
        let ghost d2 = dict_view(dictionary@);
        assert(d2[index as int] is None);
        let mut k: usize = 0;
        while k < slice.len()
            invariant
                k <= slice.len(),
                unpacked@ == st_out + slice@.subrange(0, k as int),
            decreases slice.len() - k,
        {
            unpacked.push(slice[k]);
            k += 1;
            assert(unpacked@ =~= st_out + slice@.subrange(0, k as int));
        }
        assert(slice@.subrange(0, slice.len() as int) =~= slice@);
        let ghost bytes = slice@;
        dictionary.set(index, Some((slice, true)));
        assert(dict_view(dictionary@) =~= d2.update(index as int, Some((bytes, true))));
        proof {
            lemma_count_update(d2, index as int, Some((bytes, true)));
        }
        n = n - code_len as i8;
        if code_len >= bits_left {
            return Ok(unpacked);
        }
        bits_left = bits_left - code_len;
    }
}

// ──────────────────────────────────────────────────────────────────────────
// Whole-book decompression
// ──────────────────────────────────────────────────────────────────────────

/// The byte contents of a list of records.
pub open spec fn byte_seqs(v: Seq<&[u8]>) -> Seq<Seq<u8>> {
    v.map_values(|x: &[u8]| x@)
}

/// The byte contents of a list of buffers.
pub open spec fn vec_views(v: Seq<Vec<u8>>) -> Seq<Seq<u8>> {
    v.map_values(|x: Vec<u8>| x@)
}

/// The dictionary built from the CDIC records in order, starting from `d`.
pub open spec fn load_cdics(cdics: Seq<Seq<u8>>, d: Seq<Option<(Seq<u8>, bool)>>) -> Result<
    Seq<Option<(Seq<u8>, bool)>>,
    HuffFault,
>
    decreases cdics.len(),
{
    if cdics.len() == 0 {
        Ok(d)
    } else {
        match load_cdic_spec(cdics[0], d.len() as int) {
            Err(e) => Err(e),
            Ok(ph) => load_cdics(cdics.drop_first(), d + phrase_slots(ph)),
        }
    }
}

/// Each section unpacked in turn, the dictionary carried from one to the
/// next.
pub open spec fn unpack_all(
    secs: Seq<Seq<u8>>,
    d: Seq<Option<(Seq<u8>, bool)>>,
    t: HuffTables,
) -> Result<Seq<Seq<u8>>, HuffFault>
    decreases secs.len(),
{
    if secs.len() == 0 {
        Ok(Seq::empty())
    } else {
        match unpack_spec(secs[0], d, t) {
            Err(e) => Err(e),
            Ok((o, d2)) => match unpack_all(secs.drop_first(), d2, t) {
                Err(e) => Err(e),
                Ok(rest) => Ok(seq![o] + rest),
            },
        }
    }
}

/// What [`decompress`] computes: tables from `huffs[0]`, the dictionary from
/// the CDIC records `huffs[1..]`, then one output per section.
pub open spec fn decompress_spec(huffs: Seq<Seq<u8>>, sections: Seq<Seq<u8>>) -> Result<
    Seq<Seq<u8>>,
    HuffFault,
> {
    if huffs.len() == 0 {
        Err(HuffFault::InvalidHuffHeader)
    } else {
        match load_huff_spec(huffs[0]) {
            Err(e) => Err(e),
            Ok(t) => match load_cdics(huffs.drop_first(), Seq::empty()) {
                Err(e) => Err(e),
                Ok(d) => unpack_all(sections, d, t),
            },
        }
    }
}

proof fn lemma_load_cdics_ok(
    cdics: Seq<Seq<u8>>,
    d: Seq<Option<(Seq<u8>, bool)>>,
    ph: Seq<(Seq<u8>, bool)>,
)
    requires
        cdics.len() > 0,
        load_cdic_spec(cdics[0], d.len() as int) == Ok::<Seq<(Seq<u8>, bool)>, HuffFault>(ph),
    ensures
        load_cdics(cdics, d) == load_cdics(cdics.drop_first(), d + phrase_slots(ph)),
{
}

proof fn lemma_load_cdics_err(cdics: Seq<Seq<u8>>, d: Seq<Option<(Seq<u8>, bool)>>)
    requires
        cdics.len() > 0,
        load_cdic_spec(cdics[0], d.len() as int) is Err,
    ensures
        load_cdics(cdics, d) == Err::<Seq<Option<(Seq<u8>, bool)>>, HuffFault>(
            load_cdic_spec(cdics[0], d.len() as int)->Err_0,
        ),
{
}

/// Decompress HUFF/CDIC-compressed MOBI text records.
///
/// `huffs[0]` must be the HUFF record; `huffs[1..]` are the CDIC records in
/// order. Each element of `sections` is one compressed text record and gets
/// one decompressed output. Returns an error (never panics) on malformed
/// input.
#[verifier::rlimit(40)]
pub fn decompress(huffs: &[&[u8]], sections: &[&[u8]]) -> (r: Result<Vec<Vec<u8>>, HuffmanError>)
    requires
        forall|i: int| 0 <= i < sections@.len() ==> (#[trigger] sections@[i])@.len() * 8 <= usize::MAX,
    ensures
        match r {
            Ok(out) => decompress_spec(byte_seqs(huffs@), byte_seqs(sections@)) == Ok::<
                Seq<Seq<u8>>,
                HuffFault,
            >(vec_views(out@)),
            Err(e) => decompress_spec(byte_seqs(huffs@), byte_seqs(sections@)) == Err::<
                Seq<Seq<u8>>,
                HuffFault,
            >(fault_of(e)),
        },
{
    let ghost hs = byte_seqs(huffs@);
    let ghost ss = byte_seqs(sections@);
    if huffs.len() == 0 {
        return Err(HuffmanError::InvalidHuffHeader);
    }
    let (dict1, min_code, max_code) = load_huff(huffs[0])?;
    let ghost t = tables_of(dict1@, min_code@, max_code@);
    let mut dictionary: Vec<DictEntry> = Vec::new();
    let mut i: usize = 1;
    assert(hs.drop_first().skip(0) =~= hs.drop_first());
    assert(dict_view(dictionary@) =~= Seq::<Option<(Seq<u8>, bool)>>::empty());
    while i < huffs.len()
        invariant
            1 <= i <= huffs.len(),
            hs == byte_seqs(huffs@),
            ss == byte_seqs(sections@),
            t == tables_of(dict1@, min_code@, max_code@),
            load_huff_spec(hs[0]) == Ok::<HuffTables, HuffFault>(t),
            load_cdics(hs.drop_first(), Seq::empty()) == load_cdics(
                hs.drop_first().skip(i - 1),
                dict_view(dictionary@),
            ),
            dict_wf(dict_view(dictionary@)),
        decreases huffs.len() - i,
    {
        let ghost rest = hs.drop_first().skip(i - 1);
        assert(rest[0] == huffs@[i as int]@);
        assert(rest.drop_first() =~= hs.drop_first().skip(i as int));
        let ghost dv = dict_view(dictionary@);
        match load_cdic(huffs[i], &mut dictionary) {
            Ok(_) => {
                proof {
                    let ph = load_cdic_spec(rest[0], dv.len() as int)->Ok_0;
                    lemma_load_cdics_ok(rest, dv, ph);
                }
            },
            Err(e) => {
                proof {
                    lemma_load_cdics_err(rest, dv);
                }
                return Err(e);
            },
        }
        i += 1;
    }
    assert(hs.drop_first().skip(i - 1) =~= Seq::<Seq<u8>>::empty());
    let ghost d_start = dict_view(dictionary@);
    assert(decompress_spec(hs, ss) == unpack_all(ss, d_start, t));
    let mut output: Vec<Vec<u8>> = Vec::new();
    let mut j: usize = 0;
    assert(ss.skip(0) =~= ss);
    while j < sections.len()
        invariant
            j <= sections.len(),
            ss == byte_seqs(sections@),
            hs == byte_seqs(huffs@),
            decompress_spec(hs, ss) == unpack_all(ss, d_start, t),
            t == tables_of(dict1@, min_code@, max_code@),
            tables_wf(t),
            forall|k: int|
                0 <= k < sections@.len() ==> (#[trigger] sections@[k])@.len() * 8 <= usize::MAX,
            dict_wf(dict_view(dictionary@)),
            unpack_all(ss, d_start, t) == match unpack_all(ss.skip(j as int), dict_view(dictionary@), t) {
                Err(e) => Err(e),
                Ok(rest) => Ok(vec_views(output@) + rest),
            },
        decreases sections.len() - j,
    {
        let ghost rest = ss.skip(j as int);
        assert(rest[0] == sections@[j as int]@);
        assert(rest.drop_first() =~= ss.skip(j + 1));
        let out = unpack(sections[j], &mut dictionary, &dict1, &min_code, &max_code)?;
        let ghost prev = vec_views(output@);
        output.push(out);
        proof {
            assert(vec_views(output@) =~= prev.push(out@));
            match unpack_all(ss.skip(j + 1), dict_view(dictionary@), t) {
                Err(e) => {},
                Ok(r2) => {
                    assert(prev + (seq![out@] + r2) =~= vec_views(output@) + r2);
                },
            }
        }
        j += 1;
    }
    assert(ss.skip(j as int) =~= Seq::<Seq<u8>>::empty());
    assert(vec_views(output@) + Seq::<Seq<u8>>::empty() =~= vec_views(output@));
    Ok(output)
}

// ──────────────────────────────────────────────────────────────────────────
// Laws
// ──────────────────────────────────────────────────────────────────────────

proof fn lemma_unpack_all_len(secs: Seq<Seq<u8>>, d: Seq<Option<(Seq<u8>, bool)>>, t: HuffTables)
    requires
        unpack_all(secs, d, t) is Ok,
    ensures
        unpack_all(secs, d, t)->Ok_0.len() == secs.len(),
    decreases secs.len(),
{
    if secs.len() > 0 {
        let (o, d2) = unpack_spec(secs[0], d, t)->Ok_0;
        lemma_unpack_all_len(secs.drop_first(), d2, t);
    }
}

/// Each compressed section gets exactly one decompressed output.
pub proof fn law_one_output_per_section(huffs: Seq<Seq<u8>>, sections: Seq<Seq<u8>>)
    requires
        decompress_spec(huffs, sections) is Ok,
    ensures
        decompress_spec(huffs, sections)->Ok_0.len() == sections.len(),
{
    let t = load_huff_spec(huffs[0])->Ok_0;
    let d = load_cdics(huffs.drop_first(), Seq::empty())->Ok_0;
    lemma_unpack_all_len(sections, d, t);
}

/// Without a HUFF record, or with a first record that does not start with
/// the `HUFF` magic, decompression fails with `InvalidHuffHeader`.
pub proof fn law_huff_header_required(huffs: Seq<Seq<u8>>, sections: Seq<Seq<u8>>)
    requires
        huffs.len() == 0 || (huffs[0].len() >= 4 && be32(huffs[0], 0) != huff_magic()),
    ensures
        decompress_spec(huffs, sections) == Err::<Seq<Seq<u8>>, HuffFault>(
            HuffFault::InvalidHuffHeader,
        ),
{
}

/// With no sections, decompression succeeds with no output exactly when the
/// tables and the dictionary load.
pub proof fn law_no_sections(huffs: Seq<Seq<u8>>)
    requires
        huffs.len() > 0,
    ensures
        decompress_spec(huffs, Seq::empty()) is Ok <==> (load_huff_spec(huffs[0]) is Ok
            && load_cdics(huffs.drop_first(), Seq::empty()) is Ok),
        decompress_spec(huffs, Seq::empty()) is Ok ==> decompress_spec(huffs, Seq::empty())->Ok_0
            == Seq::<Seq<u8>>::empty(),
{
}

proof fn lemma_phrases_len(s: Seq<u8>, pos: int, offs: Seq<u16>)
    ensures
        cdic_phrases(s, pos, offs) matches Some(ph) ==> ph.len() == offs.len(),
    decreases offs.len(),
{
    if offs.len() > 0 {
        let p = max_int(pos, 16 + offs[0]);
        match read16(s, p) {
            None => {},
            Some(nb) => {
                let len = (nb & 0x7FFF) as int;
                lemma_phrases_len(s, p + 2 + len, offs.drop_first());
            },
        }
    }
}

/// A CDIC record contributes at most `2^bits` phrases (its offset table's
/// size, `bits` being the record's field at byte 12, taken modulo 32) and
/// no more than the phrases still missing from the dictionary
/// (`num_phrases` at byte 8 minus the slots already filled, wrapping); it
/// contributes exactly the smaller of the two.
pub proof fn law_cdic_phrase_count(s: Seq<u8>, dict_len: int)
    ensures
        load_cdic_spec(s, dict_len) matches Ok(ph) ==> ({
            let bits = be32(s, 12) as u32;
            let np = be32(s, 8) as u32;
            let table = (1u32 << (bits % 32)) as nat;
            let missing = ((np as int - dict_len as u32 as int) % 0x1_0000_0000) as nat;
            &&& ph.len() <= table
            &&& ph.len() <= missing
            &&& (ph.len() == table || ph.len() == missing)
        }),
{
    reveal(load_cdic_spec);
    if let Ok(ph) = load_cdic_spec(s, dict_len) {
        let np = read32(s, 8)->Some_0;
        let bits = read32(s, 12)->Some_0;
        let n = cdic_count(np, bits, dict_len);
        let offs = read_offsets(s, n)->Some_0;
        lemma_offsets_len(s, n);
        lemma_phrases_len(s, 16 + 2 * (n as int), offs);
        let w = wsub32(np, dict_len as u32);
        assert(w as int == (np as int - dict_len as u32 as int) % 0x1_0000_0000) by {
            reveal(wsub32);
        }
    }
}

} // verus!
