//! Names for the files of a run.
//!
//! A file name is a prefix, the time at which the run started, and a suffix.
//! The time is written as the clock gives it, made fit for a file name: its
//! colons become hyphens, and the zone's name is dropped.

use vstd::prelude::*;
use vstd::string::{StrSliceExecFns, StringExecFns};

verus! {

/// The text with every colon replaced by a hyphen.
pub open spec fn dashed(text: Seq<char>) -> Seq<char> {
    Seq::new(
        text.len(),
        |i: int|
            if text[i] == ':' {
                '-'
            } else {
                text[i]
            },
    )
}

/// Whether the text begins with the zone's name as a time stamp ends with
/// it: a blank and the letters UTC.
pub open spec fn begins_with_zone(text: Seq<char>) -> bool {
    text.len() >= 4 && text[0] == ' ' && text[1] == 'U' && text[2] == 'T' && text[3] == 'C'
}

/// The text without the zone's name, wherever it occurs, read from the left.
pub open spec fn without_zone(text: Seq<char>) -> Seq<char>
    decreases text.len(),
{
    if text.len() == 0 {
        text
    } else if begins_with_zone(text) {
        without_zone(text.skip(4))
    } else {
        seq![text[0]] + without_zone(text.skip(1))
    }
}

/// A time stamp made fit for a file name.
pub open spec fn file_stamp(stamp: Seq<char>) -> Seq<char> {
    without_zone(dashed(stamp))
}

/// Replaces every colon of the text by a hyphen.
pub fn replace_colons(text: &str) -> (r: String)
    ensures
        r@ == dashed(text@),
{
    let n = text.unicode_len();
    let mut out = String::from_str("");
    proof {
        reveal_strlit("");
    }
    let mut i: usize = 0;
    while i < n
        invariant
            n == text@.len(),
            i <= n,
            out@ == dashed(text@).take(i as int),
        decreases n - i,
    {
        if text.get_char(i) == ':' {
            proof {
                reveal_strlit("-");
            }
            out.append("-");
        } else {
            out.append(text.substring_char(i, i + 1));
        }
        proof {
            assert(out@ =~= dashed(text@).take(i + 1));
        }
        i += 1;
    }
    proof {
        assert(dashed(text@).take(n as int) =~= dashed(text@));
    }
    out
}

/// Drops the zone's name from the text, wherever it occurs.
pub fn strip_zone(text: &str) -> (r: String)
    ensures
        r@ == without_zone(text@),
{
    let n = text.unicode_len();
    let mut out = String::from_str("");
    proof {
        reveal_strlit("");
        assert(text@.skip(0) =~= text@);
    }
    let mut i: usize = 0;
    while i < n
        invariant
            n == text@.len(),
            i <= n,
            out@ + without_zone(text@.skip(i as int)) == without_zone(text@),
        decreases n - i,
    {
        let ghost rest = text@.skip(i as int);
        if n - i >= 4 && text.get_char(i) == ' ' && text.get_char(i + 1) == 'U' && text.get_char(
            i + 2,
        ) == 'T' && text.get_char(i + 3) == 'C' {
            proof {
                assert(begins_with_zone(rest));
                assert(rest.skip(4) =~= text@.skip(i + 4));
            }
            i += 4;
        } else {
            proof {
                assert(!begins_with_zone(rest));
                assert(rest.skip(1) =~= text@.skip(i + 1));
                assert(text@.subrange(i as int, i + 1) =~= seq![rest[0]]);
                assert((out@ + seq![rest[0]]) + without_zone(rest.skip(1)) =~= out@ + (seq![rest[0]]
                    + without_zone(rest.skip(1))));
            }
            out.append(text.substring_char(i, i + 1));
            i += 1;
        }
    }
    proof {
        assert(text@.skip(n as int) =~= Seq::<char>::empty());
        assert(out@ + Seq::<char>::empty() =~= out@);
    }
    out
}

/// The name of a file of the run that started at `stamp`.
pub fn file_name(prefix: &str, stamp: &str, suffix: &str) -> (name: String)
    ensures
        name@ == prefix@ + file_stamp(stamp@) + suffix@,
{
    let dashed = replace_colons(stamp);
    let clean = strip_zone(dashed.as_str());
    let mut name = String::from_str(prefix);
    name.append(clean.as_str());
    name.append(suffix);
    name
}

/// Reads the clock with `chrono::Utc::now` and writes the time out as
/// `chrono` displays it. Nothing is claimed of the text: it differs from
/// call to call. `chrono` gives up on a clock that is set before 1970.
#[verifier::external_body]
fn utc_now() -> (stamp: String) {
    chrono::Utc::now().to_string()
}

/// The name of a file of a run that starts now: the prefix, the current
/// time made fit for a file name, and the suffix.
pub fn construct_file_name(prefix: &str, suffix: &str) -> (name: String)
    ensures
        exists|stamp: Seq<char>| name@ == prefix@ + #[trigger] file_stamp(stamp) + suffix@,
{
    let now = utc_now();
    file_name(prefix, now.as_str(), suffix)
}

} // verus!
