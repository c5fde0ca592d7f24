//! Huffman tables: derivation of the canonical codes and the per-length decoder tables.
use vstd::prelude::*;
use vstd::arithmetic::power2::{pow2, lemma_pow2_unfold, lemma2_to64};
use crate::error::JpegError;

verus! {

/// Number of codes of the lengths 1..=n.
pub open spec fn count_upto(l: Seq<u8>, n: nat) -> nat
    decreases n,
{
    if n == 0 {
        0
    } else {
        count_upto(l, (n - 1) as nat) + l[n - 1] as nat
    }
}

/// HUFFSIZE restricted to lengths 1..=n: the length `i` repeated `l[i - 1]` times, for each `i` in turn.
pub open spec fn sizes_upto(l: Seq<u8>, n: nat) -> Seq<u8>
    decreases n,
{
    if n == 0 {
        Seq::empty()
    } else {
        sizes_upto(l, (n - 1) as nat) + Seq::new(l[n - 1] as nat, |_j: int| n as u8)
    }
}

/// HUFFSIZE: the code length of each symbol, in the order of the symbol values.
pub open spec fn huffsize(l: Seq<u8>) -> Seq<u8> {
    sizes_upto(l, 16)
}

/// HUFFCODE: the canonical code of symbol `k`, for the code lengths `sizes`.
pub open spec fn huffcode(sizes: Seq<u8>, k: nat) -> nat
    decreases k,
{
    if k == 0 {
        0
    } else {
        (huffcode(sizes, (k - 1) as nat) + 1) * pow2((sizes[k as int] - sizes[k - 1]) as nat)
    }
}

/// Code lengths run from 1 to 16 and never decrease.
pub open spec fn sizes_ordered(sizes: Seq<u8>) -> bool {
    &&& forall|k: int| 0 <= k < sizes.len() ==> 1 <= #[trigger] sizes[k] <= 16
    &&& forall|j: int, k: int| 0 <= j <= k < sizes.len() ==> sizes[j] <= sizes[k]
}

/// Every canonical code fits in its length: the lengths describe a prefix code.
pub open spec fn codes_fit(sizes: Seq<u8>) -> bool {
    forall|k: int| 0 <= k < sizes.len() ==> huffcode(sizes, k as nat) < pow2(sizes[k] as nat)
}

pub proof fn lemma_pow2_le16(e: nat)
    requires
        e <= 16,
    ensures
        pow2(e) <= 65536,
{
    lemma2_to64();
    if e < 16 {
        vstd::arithmetic::power2::lemma_pow2_strictly_increases(e, 16);
    }
}

pub proof fn lemma_sizes_upto(l: Seq<u8>, n: nat)
    requires
        n <= l.len(),
        n <= 16,
    ensures
        sizes_upto(l, n).len() == count_upto(l, n),
        forall|k: int| 0 <= k < sizes_upto(l, n).len() ==> 1 <= #[trigger] sizes_upto(l, n)[k] <= n,
        forall|j: int, k: int|
            0 <= j <= k < sizes_upto(l, n).len() ==> sizes_upto(l, n)[j] <= sizes_upto(l, n)[k],
    decreases n,
{
    if n > 0 {
        lemma_sizes_upto(l, (n - 1) as nat);
        let s = sizes_upto(l, n);
        let p = sizes_upto(l, (n - 1) as nat);
        assert forall|k: int| 0 <= k < s.len() implies 1 <= #[trigger] s[k] <= n by {
            if k < p.len() {
                assert(s[k] == p[k]);
            } else {
                assert(s[k] == n as u8);
            }
        }
        assert forall|j: int, k: int| 0 <= j <= k < s.len() implies s[j] <= s[k] by {
            if k < p.len() {
                assert(s[k] == p[k] && s[j] == p[j]);
            } else if j < p.len() {
                assert(s[k] == n as u8 && s[j] == p[j]);
            } else {
                assert(s[k] == n as u8 && s[j] == n as u8);
            }
        }
    }
}

pub proof fn lemma_huffsize_ordered(l: Seq<u8>)
    requires
        l.len() == 16,
    ensures
        huffsize(l).len() == count_upto(l, 16),
        sizes_ordered(huffsize(l)),
{
    lemma_sizes_upto(l, 16);
}

pub proof fn lemma_count_upto_mono(l: Seq<u8>, m: nat, n: nat)
    requires
        m <= n <= l.len(),
    ensures
        count_upto(l, m) <= count_upto(l, n),
        count_upto(l, n) <= count_upto(l, m) + 255 * (n - m),
    decreases n - m,
{
    if m < n {
        lemma_count_upto_mono(l, m, (n - 1) as nat);
    }
}

/// The bytes of one table in a DHT segment describe a table that a baseline decoder can use.
pub open spec fn dht_table_valid(length: u16, data: Seq<u8>) -> bool {
    &&& data.len() == length
    &&& data.len() >= 17
    &&& data[0] / 16 <= 1
    &&& data[0] % 16 <= 3
    &&& count_upto(data.subrange(1, 17), 16) == data.len() - 17
    &&& data.len() - 17 <= 256
    &&& codes_fit(huffsize(data.subrange(1, 17)))
}

/// A Huffman table of a DHT segment, with the decoder tables derived from it.
#[derive(Debug)]
pub struct HuffmanTable {
    /// Length of the table's bytes in the segment.
    pub length: u16,
    /// Tc: 0 for DC, 1 for AC.
    pub class: u8,
    /// Th: the destination the table is installed at.
    pub destination_id: u8,
    /// L: the number of codes of each length 1..=16.
    pub huffman_size_lengths: [u8; 16],
    /// V: the symbol values, in order of increasing code length.
    pub huffman_values: Vec<u8>,
    /// Smallest code of each length.
    pub mincode: [u16; 16],
    /// Largest code of each length; `None` where no code has that length.
    pub maxcode: [Option<u16>; 16],
    /// Index in V of the first symbol of each length.
    pub valptr: [usize; 16],
}

impl HuffmanTable {
    /// The table with no codes.
    pub fn empty() -> (r: Self)
        ensures
            r.huffman_values@.len() == 0,
            forall|i: int| 0 <= i < 16 ==> r.huffman_size_lengths@[i] == 0,
    {
        HuffmanTable {
            length: 0,
            class: 0,
            destination_id: 0,
            huffman_size_lengths: [0u8; 16],
            huffman_values: Vec::new(),
            mincode: [0u16; 16],
            maxcode: [None; 16],
            valptr: [0usize; 16],
        }
    }

    /// HUFFSIZE of the table.
    pub open spec fn sizes(&self) -> Seq<u8> {
        huffsize(self.huffman_size_lengths@)
    }

    /// The decoder tables hold, for each length, the first and last code and where its
    /// symbols start.
    pub open spec fn decoder_tables_match(&self) -> bool {
        forall|i: int|
            0 <= i < 16 ==> {
                let n = #[trigger] self.huffman_size_lengths@[i];
                let first = count_upto(self.huffman_size_lengths@, i as nat);
                if n == 0 {
                    self.maxcode@[i] is None
                } else {
                    &&& self.valptr@[i] == first
                    &&& self.mincode@[i] == huffcode(self.sizes(), first)
                    &&& self.maxcode@[i] == Some(huffcode(self.sizes(), (first + n - 1) as nat) as u16)
                }
            }
    }

    /// A table that a DHT segment may define, with its decoder tables derived.
    pub open spec fn wf(&self) -> bool {
        &&& self.huffman_values@.len() == count_upto(self.huffman_size_lengths@, 16)
        &&& self.huffman_values@.len() <= 256
        &&& codes_fit(self.sizes())
        &&& self.decoder_tables_match()
    }

    /// Splits a byte into class (high nibble) and destination (low nibble).
    pub fn class_and_destination_id(&mut self, byte: u8)
        ensures
            final(self).class == byte / 16,
            final(self).destination_id == byte % 16,
            final(self).length == old(self).length,
            final(self).huffman_size_lengths == old(self).huffman_size_lengths,
            final(self).huffman_values == old(self).huffman_values,
            final(self).mincode == old(self).mincode,
            final(self).maxcode == old(self).maxcode,
            final(self).valptr == old(self).valptr,
    {
        self.class = byte / 16;
        self.destination_id = byte % 16;
    }

    /// HUFFSIZE: the code length of each symbol.
    pub fn generate_size_table(&self) -> (r: Vec<u8>)
        ensures
            r@ == self.sizes(),
    {
        let mut sizes: Vec<u8> = Vec::new();
        let mut size: usize = 0;
        while size < 16
            invariant
                size <= 16,
                sizes@ == sizes_upto(self.huffman_size_lengths@, size as nat),
            decreases 16 - size,
        {
            let count = self.huffman_size_lengths[size];
            let mut j: u8 = 0;
            while j < count
                invariant
                    size < 16,
                    j <= count,
                    count == self.huffman_size_lengths@[size as int],
                    sizes@ == sizes_upto(self.huffman_size_lengths@, size as nat) + Seq::new(
                        j as nat,
                        |_k: int| (size + 1) as u8,
                    ),
                decreases count - j,
            {
                sizes.push((size + 1) as u8);
                j = j + 1;
                assert(sizes@ =~= sizes_upto(self.huffman_size_lengths@, size as nat) + Seq::new(
                    j as nat,
                    |_k: int| (size + 1) as u8,
                ));
            }
            assert(sizes@ =~= sizes_upto(self.huffman_size_lengths@, (size + 1) as nat));
            size = size + 1;
        }
        sizes
    }

    /// HUFFCODE: the canonical code of each symbol; a `TableError` where a code does not
    /// fit in its length.
    #[verifier::rlimit(100)]
    pub fn generate_code_table(&self, huffman_sizes: &Vec<u8>) -> (r: Result<Vec<u16>, JpegError>)
        requires
            sizes_ordered(huffman_sizes@),
        ensures
            r is Ok <==> codes_fit(huffman_sizes@),
            r is Err ==> r == Err::<Vec<u16>, JpegError>(JpegError::TableError),
            r matches Ok(codes) ==> codes@.len() == huffman_sizes@.len() && forall|k: int|
                0 <= k < codes@.len() ==> codes@[k] == huffcode(huffman_sizes@, k as nat),
    {
        let ghost sizes = huffman_sizes@;
        let mut codes: Vec<u16> = Vec::new();
        let mut code: u32 = 0;
        let mut limit: u32 = 1;
        let mut prev: u8 = 0;
        let n = huffman_sizes.len();
        proof {
            lemma2_to64();
        }
        let mut k: usize = 0;
        while k < n
            invariant
                sizes == huffman_sizes@,
                sizes_ordered(sizes),
                n == sizes.len(),
                k <= n,
                codes@.len() == k,
                forall|m: int| 0 <= m < k ==> codes@[m] == huffcode(sizes, m as nat),
                forall|m: int| 0 <= m < k ==> huffcode(sizes, m as nat) < pow2(sizes[m] as nat),
                prev <= 16,
                limit == pow2(prev as nat),
                limit <= 65536,
                k == 0 ==> code == 0 && prev == 0,
                k > 0 ==> code == huffcode(sizes, (k - 1) as nat) && prev == sizes[k - 1],
                code < limit,
            decreases n - k,
        {
            let size = huffman_sizes[k];
            let ghost base: nat = if k == 0 { 0 } else { (code + 1) as nat };
            let ghost p0 = prev;
            if k > 0 {
                code = code + 1;
            }
            proof {
                lemma2_to64();
            }
            assert(code == base * pow2(0)) by (nonlinear_arith)
                requires
                    code == base,
                    pow2(0) == 1,
            ;
            assert(prev <= size) by {
                if k > 0 {
                    assert(sizes[k - 1] <= sizes[k as int]);
                }
            }
            while prev < size
                invariant
                    p0 <= prev <= size <= 16,
                    limit == pow2(prev as nat),
                    limit <= 65536,
                    code <= limit,
                    code == base * pow2((prev - p0) as nat),
                decreases size - prev,
            {
                proof {
                    lemma_pow2_unfold((prev + 1) as nat);
                    lemma_pow2_unfold((prev + 1 - p0) as nat);
                    lemma2_to64();
                    assert(base * pow2((prev + 1 - p0) as nat) == 2 * (base * pow2((prev - p0) as nat)))
                        by (nonlinear_arith)
                        requires
                            pow2((prev + 1 - p0) as nat) == 2 * pow2((prev - p0) as nat),
                    ;
                    lemma_pow2_le16((prev + 1) as nat);
                }
                code = code * 2;
                limit = limit * 2;
                prev = prev + 1;
            }
            assert(code == huffcode(sizes, k as nat)) by {
                if k == 0 {
                    assert(base == 0);
                    assert(code == 0) by (nonlinear_arith)
                        requires
                            code == base * pow2((prev - p0) as nat),
                            base == 0,
                    ;
                }
            }
            if code >= limit {
                assert(!codes_fit(sizes));
                return Err(JpegError::TableError);
            }
            codes.push(code as u16);
            k = k + 1;
        }
        Ok(codes)
    }

    /// Fills mincode, maxcode and valptr from the codes of HUFFCODE.
    #[verifier::rlimit(100)]
    pub fn decoder_tables(&mut self, huffman_codes: &Vec<u16>)
        requires
            huffman_codes@.len() == count_upto(old(self).huffman_size_lengths@, 16),
            forall|k: int|
                0 <= k < huffman_codes@.len() ==> huffman_codes@[k] == huffcode(
                    old(self).sizes(),
                    k as nat,
                ),
        ensures
            final(self).decoder_tables_match(),
            final(self).length == old(self).length,
            final(self).class == old(self).class,
            final(self).destination_id == old(self).destination_id,
            final(self).huffman_size_lengths == old(self).huffman_size_lengths,
            final(self).huffman_values == old(self).huffman_values,
    {
        let ghost l = self.huffman_size_lengths@;
        let mut j: usize = 0;
        let mut i: usize = 0;
        while i < 16
            invariant
                i <= 16,
                l == self.huffman_size_lengths@,
                self.length == old(self).length,
                self.class == old(self).class,
                self.destination_id == old(self).destination_id,
                self.huffman_size_lengths == old(self).huffman_size_lengths,
                self.huffman_values == old(self).huffman_values,
                j == count_upto(l, i as nat),
                j <= 255 * i,
                huffman_codes@.len() == count_upto(l, 16),
                forall|k: int|
                    0 <= k < huffman_codes@.len() ==> huffman_codes@[k] == huffcode(
                        huffsize(l),
                        k as nat,
                    ),
                forall|m: int|
                    0 <= m < i ==> {
                        let n = #[trigger] l[m];
                        let first = count_upto(l, m as nat);
                        if n == 0 {
                            self.maxcode@[m] is None
                        } else {
                            &&& self.valptr@[m] == first
                            &&& self.mincode@[m] == huffcode(huffsize(l), first)
                            &&& self.maxcode@[m] == Some(
                                huffcode(huffsize(l), (first + n - 1) as nat) as u16,
                            )
                        }
                    },
            decreases 16 - i,
        {
            proof {
                lemma_count_upto_mono(l, (i + 1) as nat, 16);
            }
            let n = self.huffman_size_lengths[i];
            if n == 0 {
                self.maxcode[i] = None;
            } else {
                self.valptr[i] = j;
                self.mincode[i] = huffman_codes[j];
                let last = j + (n - 1) as usize;
                self.maxcode[i] = Some(huffman_codes[last]);
            }
            j = j + n as usize;
            i = i + 1;
        }
    }

    /// Reads one table from the bytes of a DHT segment that belong to it: the class and
    /// destination byte, the 16 counts of codes per length, then the symbol values.
    pub fn build(&mut self, length: u16, data: &Vec<u8>) -> (r: Result<(), JpegError>)
        ensures
            r is Ok <==> dht_table_valid(length, data@),
            r is Err && (data@.len() != length || data@.len() < 17) ==> r == Err::<(), JpegError>(
                JpegError::FramingError,
            ),
            r is Err && data@.len() == length && data@.len() >= 17 ==> r == Err::<(), JpegError>(
                JpegError::TableError,
            ),
            r is Ok ==> {
                &&& final(self).wf()
                &&& final(self).length == length
                &&& final(self).class == data@[0] / 16
                &&& final(self).destination_id == data@[0] % 16
                &&& final(self).huffman_size_lengths@ == data@.subrange(1, 17)
                &&& final(self).huffman_values@ == data@.subrange(17, data@.len() as int)
            },
    {
        if data.len() != length as usize || data.len() < 17 {
            return Err(JpegError::FramingError);
        }
        self.length = length;
        self.class_and_destination_id(data[0]);
        if self.class > 1 || self.destination_id > 3 {
            return Err(JpegError::TableError);
        }
        let mut lengths: [u8; 16] = [0u8; 16];
        let mut total: usize = 0;
        let mut i: usize = 0;
        while i < 16
            invariant
                i <= 16,
                data@.len() >= 17,
                forall|m: int| 0 <= m < i ==> lengths@[m] == data@[m + 1],
                total == count_upto(data@.subrange(1, 17), i as nat),
                total <= 255 * i,
            decreases 16 - i,
        {
            proof {
                assert(data@.subrange(1, 17)[i as int] == data@[i + 1]);
            }
            lengths[i] = data[i + 1];
            total = total + data[i + 1] as usize;
            i = i + 1;
        }
        assert(lengths@ =~= data@.subrange(1, 17));
        if total != data.len() - 17 || total > 256 {
            return Err(JpegError::TableError);
        }
        let mut values: Vec<u8> = Vec::new();
        let mut k: usize = 17;
        while k < data.len()
            invariant
                17 <= k <= data@.len(),
                values@ == data@.subrange(17, k as int),
            decreases data@.len() - k,
        {
            values.push(data[k]);
            k = k + 1;
            assert(values@ =~= data@.subrange(17, k as int));
        }
        self.huffman_size_lengths = lengths;
        self.huffman_values = values;
        let sizes = self.generate_size_table();
        proof {
            lemma_huffsize_ordered(lengths@);
        }
        let codes = self.generate_code_table(&sizes);
        match codes {
            Ok(codes) => {
                self.decoder_tables(&codes);
                Ok(())
            },
            Err(e) => Err(e),
        }
    }
}

/// Symbol `k` has code length `i + 1` exactly when it lies among the codes of that length:
/// after the shorter ones and before the longer ones.
pub proof fn lemma_size_of_index(l: Seq<u8>, n: nat, i: nat, k: int)
    requires
        n <= l.len(),
        n <= 16,
        i < n,
        count_upto(l, i) <= k < count_upto(l, i + 1),
    ensures
        k < sizes_upto(l, n).len(),
        sizes_upto(l, n)[k] == i + 1,
    decreases n,
{
    lemma_sizes_upto(l, n);
    lemma_count_upto_mono(l, i + 1, n);
    if i + 1 < n {
        lemma_size_of_index(l, (n - 1) as nat, i, k);
        lemma_sizes_upto(l, (n - 1) as nat);
        lemma_count_upto_mono(l, i + 1, (n - 1) as nat);
        assert(sizes_upto(l, n)[k] == sizes_upto(l, (n - 1) as nat)[k]);
    } else {
        lemma_sizes_upto(l, (n - 1) as nat);
        assert(sizes_upto(l, n)[k] == n as u8);
    }
}

/// Within a run of equal lengths the canonical codes count up by one.
pub proof fn lemma_code_run(sizes: Seq<u8>, first: nat, t: nat)
    requires
        first + t < sizes.len(),
        forall|m: int| first <= m <= first + t ==> sizes[m] == sizes[first as int],
    ensures
        huffcode(sizes, first + t) == huffcode(sizes, first) + t,
    decreases t,
{
    if t > 0 {
        lemma_code_run(sizes, first, (t - 1) as nat);
        lemma2_to64();
        assert(sizes[(first + t) as int] == sizes[first + t - 1]);
        let k = first + t;
        assert(huffcode(sizes, k) == (huffcode(sizes, (k - 1) as nat) + 1) * pow2(
            (sizes[k as int] - sizes[k - 1]) as nat,
        ));
        assert(((sizes[k as int] - sizes[k - 1]) as nat) == 0);
        assert(huffcode(sizes, k) == huffcode(sizes, (k - 1) as nat) + 1);
    }
}

/// A later code is at least the successor of an earlier one, shifted to the later length.
pub proof fn lemma_code_grows(sizes: Seq<u8>, j: nat, k: nat)
    requires
        sizes_ordered(sizes),
        j < k < sizes.len(),
    ensures
        huffcode(sizes, k) >= (huffcode(sizes, j) + 1) * pow2((sizes[k as int] - sizes[j as int]) as nat),
    decreases k - j,
{
    let d = (sizes[k as int] - sizes[k - 1]) as nat;
    vstd::arithmetic::power2::lemma_pow2_pos(d);
    if k == j + 1 {
    } else {
        lemma_code_grows(sizes, j, (k - 1) as nat);
        let e = (sizes[k - 1] - sizes[j as int]) as nat;
        let a = huffcode(sizes, j) + 1;
        let hk1 = huffcode(sizes, (k - 1) as nat);
        vstd::arithmetic::power2::lemma_pow2_adds(e, d);
        vstd::arithmetic::power2::lemma_pow2_pos(e);
        assert(sizes[j as int] <= sizes[k - 1] <= sizes[k as int]);
        assert((hk1 + 1) * pow2(d) >= a * pow2(e) * pow2(d)) by (nonlinear_arith)
            requires
                hk1 >= a * pow2(e),
                pow2(d) > 0,
        ;
        assert(a * pow2(e) * pow2(d) == a * pow2(e + d)) by (nonlinear_arith)
            requires
                pow2(e + d) == pow2(e) * pow2(d),
        ;
    }
}

/// The canonical codes form a prefix code: no code is the first bits of another, so codes and
/// symbols correspond one to one.
pub proof fn lemma_codes_prefix_free(sizes: Seq<u8>, j1: nat, j2: nat)
    requires
        sizes_ordered(sizes),
        j1 < sizes.len(),
        j2 < sizes.len(),
        j1 != j2,
        sizes[j1 as int] <= sizes[j2 as int],
    ensures
        huffcode(sizes, j2) / pow2((sizes[j2 as int] - sizes[j1 as int]) as nat) != huffcode(sizes, j1),
{
    let d = pow2((sizes[j2 as int] - sizes[j1 as int]) as nat);
    vstd::arithmetic::power2::lemma_pow2_pos((sizes[j2 as int] - sizes[j1 as int]) as nat);
    let h1 = huffcode(sizes, j1);
    let h2 = huffcode(sizes, j2);
    if j1 < j2 {
        lemma_code_grows(sizes, j1, j2);
        let di: int = d as int;
        let h2i: int = h2 as int;
        vstd::arithmetic::div_mod::lemma_fundamental_div_mod(h2i, di);
        vstd::arithmetic::div_mod::lemma_mod_bound(h2i, di);
        let q = h2i / di;
        let r = h2i % di;
        assert(q >= h1 + 1) by (nonlinear_arith)
            requires
                h2i == di * q + r,
                r < di,
                h2i >= (h1 + 1) * di,
                di > 0,
        ;
    } else {
        assert(sizes[j2 as int] <= sizes[j1 as int]);
        lemma2_to64();
        lemma_code_grows(sizes, j2, j1);
        assert(d == 1);
    }
}

} // verus!
