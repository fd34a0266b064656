//! Crash-safe session log recovery: shard naming, recovery planning, and
//! replay concatenation.
//!
//! A session's durable log lives as a directory of shard files, one per
//! process run, named `<index>.abfts` with zero-based, contiguous indices.
//! On (re)start the shards found on disk are planned for replay: their
//! indices must be exactly `0, 1, ..., n-1` — any gap, duplicate or non-zero
//! start is a fatal [`BackupLoadError::BackupIncomplete`], since replaying a
//! gapped log would hand the session an inconsistent state. A valid set is
//! read in index order and concatenated into one replay buffer, and all new
//! log growth goes to a fresh shard at index `n`; existing shards are never
//! rewritten.

use vstd::prelude::*;

use vstd::relations::{sorted_by, total_ordering};
use vstd::seq_lib::lemma_sorted_unique;

verus! {

broadcast use vstd::seq_lib::group_to_multiset_ensures, vstd::std_specs::vec::group_vec_axioms;

/// Why a session backup could not be loaded.
#[derive(Clone, Debug, PartialEq, Eq)]
pub enum BackupLoadError {
    /// The shard indices found, sorted ascending; they are not exactly
    /// `0, 1, ..., n-1`, so the log cannot be replayed safely.
    BackupIncomplete(Vec<usize>),
    /// A filesystem operation failed; carries its description.
    IOError(String),
}

/// The plan for recovering one session's log: how many shards to replay, in
/// index order `0, 1, ..., segment_count - 1`. The fresh shard for this run
/// is created at index `segment_count`.
#[derive(Clone, Copy, Debug, PartialEq, Eq, Structural)]
pub struct RecoveryPlan {
    pub segment_count: usize,
}

/// Ascending order on shard indices.
pub open spec fn index_order() -> spec_fn(usize, usize) -> bool {
    |a: usize, b: usize| a <= b
}

/// The sequence `0, 1, ..., n-1`: what a complete set of shard indices must
/// be once sorted.
pub open spec fn contiguous_indices(n: nat) -> Seq<usize> {
    Seq::new(n, |i: int| i as usize)
}

/// Sorts shard indices ascending.
pub fn sort_indices(indices: &Vec<usize>) -> (r: Vec<usize>)
    ensures
        sorted_by(r@, index_order()),
        r@.to_multiset() == indices@.to_multiset(),
{
    let mut out: Vec<usize> = Vec::new();
    let mut i: usize = 0;
    while i < indices.len()
        invariant
            i <= indices@.len(),
            sorted_by(out@, index_order()),
            out@.to_multiset() == indices@.take(i as int).to_multiset(),
        decreases indices@.len() - i,
    {
        let x = indices[i];
        let ghost before = out@;
        // Find the insertion point: everything before it is at most `x`.
        let mut j: usize = 0;
        while j < out.len() && out[j] <= x
            invariant
                j <= out@.len(),
                out@ == before,
                forall|k: int| 0 <= k < j ==> out@[k] <= x,
            decreases out@.len() - j,
        {
            j += 1;
        }
        out.insert(j, x);
        proof {
            assert(out@ == before.insert(j as int, x));
            assert forall|p: int, q: int| 0 <= p < q < out@.len() implies index_order()(
                out@[p],
                out@[q],
            ) by {
                if p < j && q == j {
                    assert(out@[p] == before[p]);
                } else if p == j && q > j {
                    assert(out@[q] == before[q - 1]);
                    assert(j < before.len());
                    assert(!(before[j as int] <= x));
                    assert(index_order()(before[j as int], before[q - 1]) || q - 1 == j);
                } else if p < j && q > j {
                    assert(out@[p] == before[p] && out@[q] == before[q - 1]);
                    assert(p < q - 1 ==> index_order()(before[p], before[q - 1]));
                } else if q < j || (p > j && q > j) {
                    assert(out@[p] == if p < j {
                        before[p]
                    } else {
                        before[p - 1]
                    });
                    assert(out@[q] == if q < j {
                        before[q]
                    } else {
                        before[q - 1]
                    });
                }
            }
            assert(indices@.take(i + 1) =~= indices@.take(i as int).push(x));
            vstd::seq_lib::to_multiset_build(indices@.take(i as int), x);
            vstd::seq_lib::to_multiset_insert(before, j as int, x);
        }
        i += 1;
    }
    proof {
        assert(indices@.take(indices@.len() as int) =~= indices@);
    }
    out
}

/// Plans the recovery of one session's shards from the indices found on
/// disk, in any order. Succeeds exactly when the indices are, as a multiset,
/// `{0, 1, ..., n-1}` for their count `n`; otherwise fails with the sorted
/// indices, and no replay may be attempted.
pub fn plan_recovery(indices: &Vec<usize>) -> (r: Result<RecoveryPlan, BackupLoadError>)
    ensures
        match r {
            Ok(plan) => {
                &&& plan.segment_count == indices@.len()
                &&& indices@.to_multiset() == contiguous_indices(indices@.len()).to_multiset()
            },
            Err(e) => {
                &&& e matches BackupLoadError::BackupIncomplete(found)
                &&& sorted_by(found@, index_order())
                &&& found@.to_multiset() == indices@.to_multiset()
                &&& indices@.to_multiset() != contiguous_indices(indices@.len()).to_multiset()
            },
        },
{
    let sorted = sort_indices(indices);
    proof {
        assert(indices@.len() == vstd::std_specs::vec::spec_vec_len(indices));
        assert(indices@.len() <= usize::MAX);
        assert(total_ordering(index_order()));
        assert forall|p: int, q: int|
            0 <= p < q < contiguous_indices(indices@.len()).len() implies index_order()(
            contiguous_indices(indices@.len())[p],
            contiguous_indices(indices@.len())[q],
        ) by {
            assert(contiguous_indices(indices@.len())[p] == p as usize);
            assert(contiguous_indices(indices@.len())[q] == q as usize);
        }
        assert(sorted_by(contiguous_indices(indices@.len()), index_order()));
        assert(sorted@.len() == indices@.len()) by {
            vstd::seq_lib::to_multiset_len(sorted@);
            vstd::seq_lib::to_multiset_len(indices@);
        }
    }
    let mut i: usize = 0;
    while i < sorted.len()
        invariant
            i <= sorted@.len(),
            sorted@.len() == indices@.len(),
            sorted_by(sorted@, index_order()),
            sorted@.to_multiset() == indices@.to_multiset(),
            total_ordering(index_order()),
            forall|k: int| 0 <= k < i ==> sorted@[k] == k,
        decreases sorted@.len() - i,
    {
        if sorted[i] != i {
            proof {
                if indices@.to_multiset() == contiguous_indices(indices@.len()).to_multiset() {
                    lemma_sorted_unique(
                        sorted@,
                        contiguous_indices(indices@.len()),
                        index_order(),
                    );
                    assert(sorted@[i as int] == contiguous_indices(indices@.len())[i as int]);
                }
            }
            return Err(BackupLoadError::BackupIncomplete(sorted));
        }
        i += 1;
    }
    proof {
        assert(sorted@ =~= contiguous_indices(indices@.len()));
    }
    Ok(RecoveryPlan { segment_count: sorted.len() })
}

/// The file name suffix of a shard, `.abfts`, as bytes.
pub open spec fn shard_suffix() -> Seq<u8> {
    seq![46u8, 97u8, 98u8, 102u8, 116u8, 115u8]
}

/// An ASCII decimal digit.
pub open spec fn is_digit(b: u8) -> bool {
    48 <= b <= 57
}

/// The shortest decimal representation of `n`, in ASCII digits.
pub open spec fn decimal_rep(n: nat) -> Seq<u8>
    decreases n,
{
    if n < 10 {
        seq![(48 + n) as u8]
    } else {
        decimal_rep(n / 10).push((48 + n % 10) as u8)
    }
}

/// The file name of the shard at `index`: its decimal index followed by the
/// shard suffix.
pub open spec fn shard_name_spec(index: nat) -> Seq<u8> {
    decimal_rep(index) + shard_suffix()
}

/// The value of a string of ASCII digits, most significant first.
pub open spec fn digits_value(s: Seq<u8>) -> nat
    decreases s.len(),
{
    if s.len() == 0 {
        0
    } else {
        (digits_value(s.drop_last()) * 10 + (s.last() - 48)) as nat
    }
}

/// A file name this layer recognizes as a shard: one or more ASCII digits,
/// denoting a value that fits the index type, followed by the shard suffix.
/// Leading zeros are accepted.
pub open spec fn valid_shard_name(s: Seq<u8>) -> bool {
    &&& s.len() > 6
    &&& s.subrange(s.len() - 6, s.len() as int) == shard_suffix()
    &&& forall|i: int| 0 <= i < s.len() - 6 ==> is_digit(#[trigger] s[i])
    &&& digits_value(s.take(s.len() - 6)) <= usize::MAX
}

/// The index a file name denotes, where the name is a shard name at all.
/// Anything else in the session directory is not a shard and is ignored.
pub open spec fn parse_shard_name_spec(s: Seq<u8>) -> Option<usize> {
    if valid_shard_name(s) {
        Some(digits_value(s.take(s.len() - 6)) as usize)
    } else {
        None
    }
}

/// Appends the decimal representation of `n`.
fn push_decimal(n: usize, out: &mut Vec<u8>)
    ensures
        final(out)@ == old(out)@ + decimal_rep(n as nat),
    decreases n,
{
    if n < 10 {
        out.push(48 + (n as u8));
        proof {
            assert(out@ =~= old(out)@ + decimal_rep(n as nat));
        }
    } else {
        push_decimal(n / 10, out);
        out.push(48 + ((n % 10) as u8));
        proof {
            assert(out@ =~= old(out)@ + decimal_rep(n as nat));
        }
    }
}

/// The byte at position `j` of the shard suffix.
fn suffix_byte(j: usize) -> (r: u8)
    requires
        j < 6,
    ensures
        r == shard_suffix()[j as int],
{
    let r: u8 = if j == 0 {
        46
    } else if j == 1 {
        97
    } else if j == 2 {
        98
    } else if j == 3 {
        102
    } else if j == 4 {
        116
    } else {
        115
    };
    proof {
        assert(shard_suffix()[j as int] == r);
    }
    r
}

/// Builds the file name of the shard at `index`.
pub fn shard_file_name(index: usize) -> (r: Vec<u8>)
    ensures
        r@ == shard_name_spec(index as nat),
{
    let mut out: Vec<u8> = Vec::new();
    push_decimal(index, &mut out);
    let mut j: usize = 0;
    while j < 6
        invariant
            j <= 6,
            out@ == decimal_rep(index as nat) + shard_suffix().take(j as int),
        decreases 6 - j,
    {
        out.push(suffix_byte(j));
        proof {
            assert(out@ =~= decimal_rep(index as nat) + shard_suffix().take(j + 1));
        }
        j += 1;
    }
    proof {
        assert(shard_suffix().take(6) =~= shard_suffix());
    }
    out
}

/// Growing a digit string never shrinks its value.
proof fn lemma_digits_value_monotone(s: Seq<u8>, i: int, j: int)
    requires
        0 <= i <= j <= s.len(),
        forall|k: int| 0 <= k < j ==> is_digit(#[trigger] s[k]),
    ensures
        digits_value(s.take(i)) <= digits_value(s.take(j)),
    decreases j - i,
{
    if i < j {
        lemma_digits_value_monotone(s, i, j - 1);
        assert(s.take(j).drop_last() =~= s.take(j - 1));
        let prefix = digits_value(s.take(j - 1));
        assert(is_digit(s[j - 1]));
        assert(s.take(j).last() == s[j - 1]);
        assert(digits_value(s.take(j)) == prefix * 10 + (s[j - 1] - 48));
        assert(prefix * 10 >= prefix) by (nonlinear_arith);
    }
}

/// Parses a file name as a shard name; `None` for any name this layer does
/// not recognize as a shard.
pub fn parse_shard_file_name(name: &Vec<u8>) -> (r: Option<usize>)
    ensures
        r == parse_shard_name_spec(name@),
{
    proof {
        assert(name@.len() == vstd::std_specs::vec::spec_vec_len(name));
    }
    if name.len() < 7 {
        return None;
    }
    let digit_count = name.len() - 6;
    // The name must end in the shard suffix.
    let mut j: usize = 0;
    while j < 6
        invariant
            j <= 6,
            name@.len() >= 7,
            name@.len() <= usize::MAX,
            digit_count == name@.len() - 6,
            forall|k: int| 0 <= k < j ==> name@[digit_count + k] == shard_suffix()[k],
        decreases 6 - j,
    {
        if name[digit_count + j] != suffix_byte(j) {
            proof {
                assert(name@.subrange(name@.len() - 6, name@.len() as int)[j as int]
                    == name@[digit_count + j]);
                assert(name@.subrange(name@.len() - 6, name@.len() as int) != shard_suffix());
            }
            return None;
        }
        j += 1;
    }
    proof {
        assert(name@.subrange(name@.len() - 6, name@.len() as int) =~= shard_suffix());
    }
    // The rest must be digits whose value fits the index type.
    let ghost digits = name@.take(digit_count as int);
    let mut acc: usize = 0;
    let mut i: usize = 0;
    while i < digit_count
        invariant
            i <= digit_count,
            digit_count == name@.len() - 6,
            name@.len() >= 7,
            digits == name@.take(digit_count as int),
            forall|k: int| 0 <= k < i ==> is_digit(#[trigger] name@[k]),
            acc == digits_value(digits.take(i as int)),
        decreases digit_count - i,
    {
        let b = name[i];
        if b < 48 || b > 57 {
            proof {
                assert(!is_digit(name@[i as int]));
                assert(!valid_shard_name(name@));
            }
            return None;
        }
        let digit = (b - 48) as usize;
        proof {
            assert(digits.take(i + 1).drop_last() =~= digits.take(i as int));
            assert(digits.take(i + 1).last() == name@[i as int]);
        }
        if acc > (usize::MAX - digit) / 10 {
            proof {
                // The running value already overflows the index type, so the
                // full digit string cannot denote a valid index.
                let m = usize::MAX as int;
                assert(acc * 10 + digit > m) by (nonlinear_arith)
                    requires
                        acc > (m - digit) / 10,
                        0 <= digit < 10,
                        m >= 10,
                        acc >= 0,
                ;
                assert(digits_value(digits.take(i + 1)) == acc * 10 + digit);
                if valid_shard_name(name@) {
                    lemma_digits_value_monotone(digits, i + 1, digits.len() as int);
                    assert(digits.take(digits.len() as int) =~= digits);
                    assert(digits_value(digits) > usize::MAX);
                    assert(name@.take(name@.len() - 6) == digits);
                }
            }
            return None;
        }
        acc = acc * 10 + digit;
        i += 1;
    }
    proof {
        assert(digits.take(digit_count as int) =~= digits);
        assert(valid_shard_name(name@));
    }
    Some(acc)
}

/// A shard file name parses back to the index it was built from.
pub proof fn lemma_shard_name_round_trip(index: usize)
    ensures
        parse_shard_name_spec(shard_name_spec(index as nat)) == Some(index),
{
    let s = shard_name_spec(index as nat);
    lemma_decimal_rep_digits(index as nat);
    assert(s.subrange(s.len() - 6, s.len() as int) =~= shard_suffix());
    assert(s.take(s.len() - 6) =~= decimal_rep(index as nat));
    lemma_digits_value_decimal_rep(index as nat);
    assert forall|i: int| 0 <= i < s.len() - 6 implies is_digit(#[trigger] s[i]) by {
        assert(s[i] == decimal_rep(index as nat)[i]);
    }
}

/// Every byte of a decimal representation is a digit.
proof fn lemma_decimal_rep_digits(n: nat)
    ensures
        decimal_rep(n).len() >= 1,
        forall|i: int| 0 <= i < decimal_rep(n).len() ==> is_digit(#[trigger] decimal_rep(n)[i]),
    decreases n,
{
    if n >= 10 {
        lemma_decimal_rep_digits(n / 10);
        assert forall|i: int| 0 <= i < decimal_rep(n).len() implies is_digit(
            #[trigger] decimal_rep(n)[i],
        ) by {
            if i < decimal_rep(n / 10).len() {
                assert(decimal_rep(n)[i] == decimal_rep(n / 10)[i]);
            }
        }
    }
}

/// Reading the digits of a decimal representation gives back the number.
proof fn lemma_digits_value_decimal_rep(n: nat)
    ensures
        digits_value(decimal_rep(n)) == n,
    decreases n,
{
    if n < 10 {
        assert(decimal_rep(n) == seq![(48 + n) as u8]);
        assert(decimal_rep(n).drop_last() =~= Seq::<u8>::empty());
        assert(digits_value(Seq::<u8>::empty()) == 0);
        assert(decimal_rep(n).last() == (48 + n) as u8);
        assert((48 + n) as u8 == 48 + n);
        assert(digits_value(decimal_rep(n)) == (0 * 10 + ((48 + n) as u8 - 48)) as nat);
    } else {
        lemma_digits_value_decimal_rep(n / 10);
        assert(decimal_rep(n).drop_last() =~= decimal_rep(n / 10));
        vstd::arithmetic::div_mod::lemma_fundamental_div_mod(n as int, 10);
        assert(0 <= n % 10 < 10);
        assert(decimal_rep(n).last() == (48 + n % 10) as u8);
        assert((48 + n % 10) as u8 == 48 + n % 10);
        assert(digits_value(decimal_rep(n)) == ((n / 10) * 10 + ((48 + n % 10) as u8 - 48)) as nat);
    }
}

/// The contents of a sequence of segments, viewed as byte sequences.
pub open spec fn segment_views(segments: Seq<Vec<u8>>) -> Seq<Seq<u8>> {
    segments.map_values(|segment: Vec<u8>| segment@)
}

/// Concatenates the shard contents, in the given order, into the single
/// replay buffer handed to the session runner.
pub fn concat_segments(segments: &Vec<Vec<u8>>) -> (r: Vec<u8>)
    ensures
        r@ == segment_views(segments@).flatten(),
{
    let ghost views = segment_views(segments@);
    let mut out: Vec<u8> = Vec::new();
    let mut i: usize = 0;
    while i < segments.len()
        invariant
            i <= segments@.len(),
            views == segment_views(segments@),
            out@ == views.take(i as int).flatten_alt(),
        decreases segments@.len() - i,
    {
        let mut segment = segments[i].clone();
        out.append(&mut segment);
        proof {
            assert(views.take(i + 1).drop_last() =~= views.take(i as int));
            assert(views.take(i + 1).last() == segments@[i as int]@);
        }
        i += 1;
    }
    proof {
        assert(views.take(views.len() as int) =~= views);
        views.lemma_flatten_and_flatten_alt_are_equivalent();
    }
    out
}

} // verus!
