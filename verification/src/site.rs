//! Decisions around an uploaded site: where its web root lies after
//! unpacking, and the timestamp name a fresh upload receives. Reading
//! directories and unpacking archives is I/O and stays with the embedding
//! binary, which hands the directory listing in as plain values.

use vstd::prelude::*;

use crate::text::dec_rep;
use crate::text::digit_str;
use crate::text::format_u64;
use crate::text::lemma_digit_char;
use crate::version::VersionName;

verus! {

/// What one directory entry is, as far as the web-root decision cares.
#[derive(Debug, Clone, Copy, PartialEq, Eq, Structural)]
pub enum DirEntryKind {
    Directory,
    File,
    Other,
}

/// How many of the first `n` entries are directories.
pub open spec fn dir_count(entries: Seq<DirEntryKind>, n: int) -> nat
    decreases n,
{
    if n <= 0 {
        0
    } else {
        dir_count(entries, n - 1) + if entries[n - 1] is Directory {
            1nat
        } else {
            0nat
        }
    }
}

/// How many of the first `n` entries are plain files.
pub open spec fn file_count(entries: Seq<DirEntryKind>, n: int) -> nat
    decreases n,
{
    if n <= 0 {
        0
    } else {
        file_count(entries, n - 1) + if entries[n - 1] is File {
            1nat
        } else {
            0nat
        }
    }
}

/// Counting more entries never lowers either count.
proof fn lemma_counts_monotone(entries: Seq<DirEntryKind>, a: int, b: int)
    requires
        0 <= a <= b <= entries.len(),
    ensures
        dir_count(entries, a) <= dir_count(entries, b),
        file_count(entries, a) <= file_count(entries, b),
    decreases b - a,
{
    if a < b {
        lemma_counts_monotone(entries, a, b - 1);
    }
}

/// Where an unpacked site's web root lies, given the kinds of the
/// entries in the unpack directory: the single directory's index when
/// that directory is all there is (besides entries that are neither
/// directories nor files), and the unpack directory itself otherwise.
pub fn find_web_root(entries: &Vec<DirEntryKind>) -> (r: Option<usize>)
    ensures
        ({
            let n = entries@.len() as int;
            match r {
                Some(i) => {
                    &&& dir_count(entries@, n) == 1
                    &&& file_count(entries@, n) == 0
                    &&& i < entries@.len()
                    &&& entries@[i as int] is Directory
                },
                None => dir_count(entries@, n) != 1 || file_count(entries@, n) != 0,
            }
        }),
{
    let n = entries.len();
    let mut dirs: usize = 0;
    let mut found: usize = 0;
    let mut i: usize = 0;
    while i < n
        invariant
            n == entries@.len(),
            i <= n,
            dirs == dir_count(entries@, i as int),
            file_count(entries@, i as int) == 0,
            dirs >= 1 ==> found < i && entries@[found as int] is Directory,
        decreases n - i,
    {
        match entries[i] {
            DirEntryKind::Directory => {
                if dirs >= 1 {
                    proof {
                        assert(dir_count(entries@, i + 1) >= 2);
                        lemma_counts_monotone(entries@, i + 1, n as int);
                    }
                    return None;
                }
                dirs += 1;
                found = i;
            },
            DirEntryKind::File => {
                proof {
                    assert(file_count(entries@, i + 1) >= 1);
                    lemma_counts_monotone(entries@, i + 1, n as int);
                }
                return None;
            },
            DirEntryKind::Other => {},
        }
        i += 1;
    }
    if dirs == 1 {
        Some(found)
    } else {
        None
    }
}

/// A number under one hundred, spelled with exactly two digits.
pub open spec fn two_digits(n: nat) -> Seq<char> {
    if n < 10 {
        "0"@ + dec_rep(n)
    } else {
        dec_rep(n)
    }
}

/// Spells a number under one hundred with exactly two digits.
fn format_two_digits(n: u64) -> (s: String)
    requires
        n < 100,
    ensures
        s@ == two_digits(n as nat),
{
    if n < 10 {
        let mut s = String::from_str("0");
        s.append(digit_str(n as u8));
        proof {
            lemma_digit_char(n as nat);
            assert(s@ =~= two_digits(n as nat));
        }
        s
    } else {
        format_u64(n)
    }
}

/// The name a fresh upload receives: the upload moment spelled as
/// `year_month_day__hour_minute_second`, every field but the year padded
/// to two digits.
pub open spec fn timestamp_name(y: nat, mo: nat, d: nat, h: nat, mi: nat, s: nat) -> Seq<char> {
    dec_rep(y) + "_"@ + two_digits(mo) + "_"@ + two_digits(d) + "__"@ + two_digits(h) + "_"@
        + two_digits(mi) + "_"@ + two_digits(s)
}

/// Builds the timestamp name of a fresh upload from the broken-down
/// upload time.
pub fn create_name(y: u64, mo: u64, d: u64, h: u64, mi: u64, s: u64) -> (r: VersionName)
    requires
        mo < 100,
        d < 100,
        h < 100,
        mi < 100,
        s < 100,
    ensures
        r@ == timestamp_name(y as nat, mo as nat, d as nat, h as nat, mi as nat, s as nat),
{
    let mut out = format_u64(y);
    out.append("_");
    let part = format_two_digits(mo);
    out.append(part.as_str());
    out.append("_");
    let part = format_two_digits(d);
    out.append(part.as_str());
    out.append("__");
    let part = format_two_digits(h);
    out.append(part.as_str());
    out.append("_");
    let part = format_two_digits(mi);
    out.append(part.as_str());
    out.append("_");
    let part = format_two_digits(s);
    out.append(part.as_str());
    proof {
        assert(out@ =~= timestamp_name(y as nat, mo as nat, d as nat, h as nat, mi as nat, s as nat));
    }
    VersionName::new(out)
}

} // verus!
