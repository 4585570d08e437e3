//! The per-batch results collector: one record per processed file, with
//! aggregate totals over the batch.

use crate::bytes::{ascii_to_string, push_decimal, spec_ascii_chars, spec_u64_string};
use vstd::prelude::*;
use vstd::seq_lib::*;

verus! {

/// Result of processing a single file.
pub struct FileResult {
    pub path: String,
    pub original_size: u64,
    pub compressed_size: u64,
    pub skipped: bool,
    pub error: Option<String>,
}

/// Aggregate report for all processed files.
pub struct Report {
    pub results: Vec<FileResult>,
}

/// The sum of the original sizes of a result list.
pub open spec fn spec_sum_original(rs: Seq<FileResult>) -> int
    decreases rs.len(),
{
    if rs.len() == 0 {
        0
    } else {
        spec_sum_original(rs.drop_last()) + rs.last().original_size
    }
}

/// The sum of the compressed sizes of a result list.
pub open spec fn spec_sum_compressed(rs: Seq<FileResult>) -> int
    decreases rs.len(),
{
    if rs.len() == 0 {
        0
    } else {
        spec_sum_compressed(rs.drop_last()) + rs.last().compressed_size
    }
}

/// A file that was neither skipped nor failed.
pub open spec fn spec_is_success(r: FileResult) -> bool {
    r.error is None && !r.skipped
}

/// A file whose processing failed.
pub open spec fn spec_is_error(r: FileResult) -> bool {
    r.error is Some
}

impl Report {
    /// An empty report.
    pub fn new() -> (r: Report)
        ensures
            r.results@ == Seq::<FileResult>::empty(),
    {
        Report { results: Vec::new() }
    }

    /// Appends one file's result.
    pub fn add(&mut self, result: FileResult)
        ensures
            final (self).results@ == old(self).results@.push(result),
    {
        self.results.push(result);
    }

    /// The total of the original sizes, wrapping on 64-bit overflow.
    pub fn total_original(&self) -> (r: u64)
        ensures
            r == spec_sum_original(self.results@) % 0x10000000000000000,
    {
        let mut acc: u64 = 0;
        let mut i: usize = 0;
        while i < self.results.len()
            invariant
                i <= self.results@.len(),
                acc == spec_sum_original(self.results@.take(i as int)) % 0x10000000000000000,
            decreases self.results@.len() - i,
        {
            let ghost prev = self.results@.take(i as int);
            acc = acc.wrapping_add(self.results[i].original_size);
            i = i + 1;
            proof {
                let cur = self.results@.take(i as int);
                assert(cur.drop_last() =~= prev);
                assert(cur.last() == self.results@[i - 1]);
            }
        }
        proof {
            assert(self.results@.take(self.results@.len() as int) =~= self.results@);
        }
        acc
    }

    /// The total of the compressed sizes, wrapping on 64-bit overflow.
    pub fn total_compressed(&self) -> (r: u64)
        ensures
            r == spec_sum_compressed(self.results@) % 0x10000000000000000,
    {
        let mut acc: u64 = 0;
        let mut i: usize = 0;
        while i < self.results.len()
            invariant
                i <= self.results@.len(),
                acc == spec_sum_compressed(self.results@.take(i as int)) % 0x10000000000000000,
            decreases self.results@.len() - i,
        {
            let ghost prev = self.results@.take(i as int);
            acc = acc.wrapping_add(self.results[i].compressed_size);
            i = i + 1;
            proof {
                let cur = self.results@.take(i as int);
                assert(cur.drop_last() =~= prev);
                assert(cur.last() == self.results@[i - 1]);
            }
        }
        proof {
            assert(self.results@.take(self.results@.len() as int) =~= self.results@);
        }
        acc
    }

    /// How many files were processed without error and not skipped.
    pub fn success_count(&self) -> (r: usize)
        ensures
            r == self.results@.filter(|fr: FileResult| spec_is_success(fr)).len(),
    {
        let ghost pred = |fr: FileResult| spec_is_success(fr);
        let mut count: usize = 0;
        let mut i: usize = 0;
        while i < self.results.len()
            invariant
                i <= self.results@.len(),
                pred == (|fr: FileResult| spec_is_success(fr)),
                count == self.results@.take(i as int).filter(pred).len(),
                count <= i,
            decreases self.results@.len() - i,
        {
            let fr = &self.results[i];
            let ok = fr.error.is_none() && !fr.skipped;
            proof {
                assert(self.results@.take(i + 1) =~= self.results@.take(i as int).push(
                    self.results@[i as int],
                ));
                crate::bytes::lemma_filter_push(
                    self.results@.take(i as int),
                    pred,
                    self.results@[i as int],
                );
            }
            if ok {
                count = count + 1;
            }
            i = i + 1;
        }
        proof {
            assert(self.results@.take(self.results@.len() as int) =~= self.results@);
        }
        count
    }

    /// How many files failed.
    pub fn error_count(&self) -> (r: usize)
        ensures
            r == self.results@.filter(|fr: FileResult| spec_is_error(fr)).len(),
    {
        let ghost pred = |fr: FileResult| spec_is_error(fr);
        let mut count: usize = 0;
        let mut i: usize = 0;
        while i < self.results.len()
            invariant
                i <= self.results@.len(),
                pred == (|fr: FileResult| spec_is_error(fr)),
                count == self.results@.take(i as int).filter(pred).len(),
                count <= i,
            decreases self.results@.len() - i,
        {
            let fr = &self.results[i];
            let bad = fr.error.is_some();
            proof {
                assert(self.results@.take(i + 1) =~= self.results@.take(i as int).push(
                    self.results@[i as int],
                ));
                crate::bytes::lemma_filter_push(
                    self.results@.take(i as int),
                    pred,
                    self.results@[i as int],
                );
            }
            if bad {
                count = count + 1;
            }
            i = i + 1;
        }
        proof {
            assert(self.results@.take(self.results@.len() as int) =~= self.results@);
        }
        count
    }
}

/// The rendered form of a byte count: two rounded decimals of mebibytes at a
/// mebibyte and up, one rounded decimal of kibibytes at a kibibyte and up,
/// the plain count below that.
pub open spec fn spec_format_size_bytes(b: int) -> Seq<u8> {
    let kb: int = 1024;
    let mb: int = 0x100000;
    if b >= mb {
        let hundredths = (b * 100 + mb / 2) / mb;
        spec_u64_string(hundredths / 100) + seq![
            0x2eu8,
            (0x30 + (hundredths / 10) % 10) as u8,
            (0x30 + hundredths % 10) as u8,
            0x20u8,
            0x4du8,
            0x42u8,
        ]
    } else if b >= kb {
        let tenths = (b * 10 + kb / 2) / kb;
        spec_u64_string(tenths / 10) + seq![
            0x2eu8,
            (0x30 + tenths % 10) as u8,
            0x20u8,
            0x4bu8,
            0x42u8,
        ]
    } else {
        spec_u64_string(b) + seq![0x20u8, 0x42u8]
    }
}

/// Renders a byte count for the summary line.
pub fn format_size(bytes: u64) -> (r: String)
    ensures
        r@ == spec_ascii_chars(spec_format_size_bytes(bytes as int)),
{
    let kb: u64 = 1024;
    let mb: u64 = 1024 * 1024;
    let mut out: Vec<u8> = Vec::new();
    if bytes >= mb {
        let hundredths: u64 = (((bytes as u128) * 100 + 524288) / 1048576) as u64;
        proof {
            assert((bytes as int) * 100 + 524288 < 0x10000000000000000 * 1048576) by (nonlinear_arith)
                requires
                    bytes < 0x10000000000000000,
            ;
            assert(((bytes as int) * 100 + 524288) / 1048576 < 0x10000000000000000)
                by (nonlinear_arith)
                requires
                    (bytes as int) * 100 + 524288 < 0x10000000000000000 * 1048576,
            ;
        }
        push_decimal(&mut out, hundredths / 100);
        out.push(0x2e);
        out.push(0x30 + ((hundredths / 10) % 10) as u8);
        out.push(0x30 + (hundredths % 10) as u8);
        out.push(0x20);
        out.push(0x4d);
        out.push(0x42);
        proof {
            assert(out@ =~= spec_format_size_bytes(bytes as int));
            let p = spec_u64_string((hundredths / 100) as int);
            crate::bytes::lemma_u64_string_ascii((hundredths / 100) as int);
            assert forall|i: int| 0 <= i < out@.len() implies out@[i] < 0x80 by {
                if i < p.len() {
                    assert(out@[i] == p[i]);
                }
            }
        }
    } else if bytes >= kb {
        let tenths: u64 = (bytes * 10 + 512) / 1024;
        push_decimal(&mut out, tenths / 10);
        out.push(0x2e);
        out.push(0x30 + (tenths % 10) as u8);
        out.push(0x20);
        out.push(0x4b);
        out.push(0x42);
        proof {
            assert(out@ =~= spec_format_size_bytes(bytes as int));
            let p = spec_u64_string((tenths / 10) as int);
            crate::bytes::lemma_u64_string_ascii((tenths / 10) as int);
            assert forall|i: int| 0 <= i < out@.len() implies out@[i] < 0x80 by {
                if i < p.len() {
                    assert(out@[i] == p[i]);
                }
            }
        }
    } else {
        push_decimal(&mut out, bytes);
        out.push(0x20);
        out.push(0x42);
        proof {
            assert(out@ =~= spec_format_size_bytes(bytes as int));
            let p = spec_u64_string(bytes as int);
            crate::bytes::lemma_u64_string_ascii(bytes as int);
            assert forall|i: int| 0 <= i < out@.len() implies out@[i] < 0x80 by {
                if i < p.len() {
                    assert(out@[i] == p[i]);
                }
            }
        }
    }
    ascii_to_string(out)
}

} // verus!
