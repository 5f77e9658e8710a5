//! Figures about the index, and how sizes are written for a reader.

use crate::rag::store::StoreStats;
use crate::text::{decimal, digit, push_decimal, push_str, string_of};
use vstd::prelude::*;

verus! {

/// Figures about the index.
#[derive(Clone, Debug)]
pub struct RagStats {
    pub document_count: usize,
    pub docs_by_type: Vec<(String, usize)>,
    pub total_content_bytes: usize,
    pub embedding_dimensions: usize,
    pub file_size_bytes: u64,
    pub storage_path: String,
    pub store_type: String,
    pub embedding_model: String,
}

/// 1024 bytes.
pub const KIB: u64 = 1024;

/// 1024 times 1024 bytes.
pub const MIB: u64 = 1_048_576;

/// 1024 times 1024 times 1024 bytes.
pub const GIB: u64 = 1_073_741_824;

/// `bytes` divided by `unit`, in hundredths, rounded to the nearest hundredth;
/// a value half way between two hundredths goes to the even one.
pub open spec fn hundredths(bytes: nat, unit: nat) -> nat {
    let q = (bytes * 100) / unit;
    let r = (bytes * 100) % unit;
    if 2 * r > unit || (2 * r == unit && q % 2 == 1) {
        q + 1
    } else {
        q
    }
}

/// A number of hundredths written with two decimals.
pub open spec fn two_decimals(h: nat) -> Seq<char> {
    decimal(h / 100) + seq!['.', digit(((h / 10) % 10) as int), digit((h % 10) as int)]
}

/// A size as a reader sees it: in bytes below 1024, else in KB, MB or GB
/// with two decimals; `largest` is the largest unit used.
pub open spec fn size_text(bytes: nat, largest: nat) -> Seq<char> {
    if bytes < 1024 {
        decimal(bytes) + " B"@
    } else if bytes < 1_048_576 || largest <= 1024 {
        two_decimals(hundredths(bytes, 1024)) + " KB"@
    } else if bytes < 1_073_741_824 || largest <= 1_048_576 {
        two_decimals(hundredths(bytes, 1_048_576)) + " MB"@
    } else {
        two_decimals(hundredths(bytes, 1_073_741_824)) + " GB"@
    }
}

/// `bytes` divided by `unit`, in hundredths.
fn in_hundredths(bytes: u64, unit: u64) -> (h: u64)
    requires
        unit == 1024 || unit == 1_048_576 || unit == 1_073_741_824,
    ensures
        h == hundredths(bytes as nat, unit as nat),
{
    let wide: u128 = (bytes as u128) * 100;
    let u: u128 = unit as u128;
    let q: u128 = wide / u;
    let r: u128 = wide % u;
    assert(q <= wide);
    assert(q < 0x1_0000_0000_0000_0000u128 / 8) by {
        assert(wide <= 0xffff_ffff_ffff_ffffu128 * 100);
        assert(u >= 1024);
        assert(q <= wide / 1024) by (nonlinear_arith)
            requires
                q == wide / u,
                u >= 1024,
                wide >= 0,
        ;
    }
    if 2 * r > u || (2 * r == u && q % 2 == 1) {
        (q + 1) as u64
    } else {
        q as u64
    }
}

/// Appends a number of hundredths with two decimals.
fn push_two_decimals(out: &mut Vec<char>, h: u64)
    ensures
        final(out)@ == old(out)@ + two_decimals(h as nat),
{
    push_decimal(out, h / 100);
    out.push('.');
    let tens: u8 = ((h / 10) % 10) as u8;
    let ones: u8 = (h % 10) as u8;
    out.push((48u8 + tens) as char);
    out.push((48u8 + ones) as char);
    assert(out@ =~= old(out)@ + two_decimals(h as nat));
}

/// Writes a size for a reader.
fn format_size(bytes: u64, largest: u64) -> (r: String)
    requires
        largest == 1024 || largest == 1_048_576 || largest == 1_073_741_824,
    ensures
        r@ == size_text(bytes as nat, largest as nat),
{
    let mut out: Vec<char> = Vec::new();
    if bytes < KIB {
        push_decimal(&mut out, bytes);
        push_str(&mut out, " B");
        assert(out@ =~= decimal(bytes as nat) + " B"@);
    } else if bytes < MIB || largest <= KIB {
        push_two_decimals(&mut out, in_hundredths(bytes, KIB));
        push_str(&mut out, " KB");
        assert(out@ =~= two_decimals(hundredths(bytes as nat, 1024)) + " KB"@);
    } else if bytes < GIB || largest <= MIB {
        push_two_decimals(&mut out, in_hundredths(bytes, MIB));
        push_str(&mut out, " MB");
        assert(out@ =~= two_decimals(hundredths(bytes as nat, 1_048_576)) + " MB"@);
    } else {
        push_two_decimals(&mut out, in_hundredths(bytes, GIB));
        push_str(&mut out, " GB");
        assert(out@ =~= two_decimals(hundredths(bytes as nat, 1_073_741_824)) + " GB"@);
    }
    string_of(&out)
}

impl RagStats {
    /// The figures of a store, with where and how it is kept.
    pub fn from_store(
        stats: StoreStats,
        storage_path: String,
        store_type: String,
        embedding_model: String,
    ) -> (r: Self)
        ensures
            r.document_count == stats.document_count,
            r.docs_by_type == stats.docs_by_type,
            r.total_content_bytes == stats.total_content_bytes,
            r.embedding_dimensions == stats.embedding_dimensions,
            r.file_size_bytes == stats.file_size_bytes,
            r.storage_path == storage_path,
            r.store_type == store_type,
            r.embedding_model == embedding_model,
    {
        RagStats {
            document_count: stats.document_count,
            docs_by_type: stats.docs_by_type,
            total_content_bytes: stats.total_content_bytes,
            embedding_dimensions: stats.embedding_dimensions,
            file_size_bytes: stats.file_size_bytes,
            storage_path,
            store_type,
            embedding_model,
        }
    }

    /// The size of the index files for a reader: in B, KB, MB or GB.
    pub fn format_file_size(&self) -> (r: String)
        ensures
            r@ == size_text(self.file_size_bytes as nat, 1_073_741_824),
    {
        format_size(self.file_size_bytes, GIB)
    }

    /// The size of the contents for a reader: in B, KB or MB.
    pub fn format_content_size(&self) -> (r: String)
        ensures
            r@ == size_text(self.total_content_bytes as nat, 1_048_576),
    {
        format_size(self.total_content_bytes as u64, MIB)
    }
}

} // verus!
