//! The arithmetic of the benchmark runner: how repetitions are split into
//! batches, how a case is labelled, and which proof size is reported.
use vstd::prelude::*;

verus! {

/// Number of batches of `batch_size` repetitions (at least one per batch)
/// that cover `total` repetitions.
pub fn num_batches(total: u32, batch_size: u32) -> (r: u32)
    ensures
        r == (total + effective_batch(batch_size) - 1) / effective_batch(batch_size),
{
    let bs = if batch_size > 1 { batch_size } else { 1 };
    let q = total / bs;
    let rem = total % bs;
    assert(total as int == q as int * bs as int + rem as int) by (nonlinear_arith)
        requires
            bs >= 1,
            q == total / bs,
            rem == total % bs,
    ;
    assert(rem != 0 ==> q < 0xffff_ffff) by (nonlinear_arith)
        requires
            total as int == q as int * bs as int + rem as int,
            0 <= rem < bs,
            total <= 0xffff_ffff,
    ;
    let r = if rem != 0 { q + 1 } else { q };
    assert(r as int == (total as int + bs as int - 1) / (bs as int)) by (nonlinear_arith)
        requires
            bs >= 1,
            total as int == q as int * bs as int + rem as int,
            0 <= rem < bs,
            rem != 0 ==> r == q + 1,
            rem == 0 ==> r == q,
    ;
    r
}

/// A batch holds at least one repetition.
pub open spec fn effective_batch(batch_size: u32) -> int {
    if batch_size > 1 {
        batch_size as int
    } else {
        1
    }
}

/// One past the last repetition of batch number `batch`.
pub fn batch_end(batch: u32, batch_size: u32, total: u32) -> (r: u32)
    ensures
        r == if (batch + 1) * effective_batch(batch_size) < total {
            (batch + 1) * effective_batch(batch_size)
        } else {
            total as int
        },
{
    let bs: u64 = if batch_size > 1 { batch_size as u64 } else { 1 };
    let b1 = batch as u64 + 1;
    assert(b1 * bs <= 0xffff_ffff_ffff_ffff) by (nonlinear_arith)
        requires
            b1 <= 0x1_0000_0000,
            bs <= 0xffff_ffff,
    ;
    let end = b1 * bs;
    assert(end == (batch + 1) * effective_batch(batch_size)) by (nonlinear_arith)
        requires
            bs == effective_batch(batch_size),
            end == b1 * bs,
            b1 == batch + 1,
    ;
    if end < total as u64 {
        end as u32
    } else {
        total
    }
}

/// The largest value of `s`, or zero for an empty sequence.
pub open spec fn max_or_zero(s: Seq<usize>) -> usize
    decreases s.len(),
{
    if s.len() == 0 {
        0
    } else {
        let m = max_or_zero(s.drop_last());
        if s.last() > m {
            s.last()
        } else {
            m
        }
    }
}

/// The proof size reported for a case: the largest of the repetitions.
pub fn max_proof_size(sizes: &Vec<usize>) -> (r: usize)
    ensures
        r == max_or_zero(sizes@),
{
    let mut m: usize = 0;
    let n = sizes.len();
    for i in 0..n
        invariant
            n == sizes.len(),
            m == max_or_zero(sizes@.take(i as int)),
    {
        assert(sizes@.take(i + 1).drop_last() == sizes@.take(i as int));
        if sizes[i] > m {
            m = sizes[i];
        }
    }
    assert(sizes@.take(n as int) == sizes@);
    m
}

/// The character of a decimal digit.
pub open spec fn digit_char(d: nat) -> char {
    if d == 0 {
        '0'
    } else if d == 1 {
        '1'
    } else if d == 2 {
        '2'
    } else if d == 3 {
        '3'
    } else if d == 4 {
        '4'
    } else if d == 5 {
        '5'
    } else if d == 6 {
        '6'
    } else if d == 7 {
        '7'
    } else if d == 8 {
        '8'
    } else {
        '9'
    }
}

/// The decimal representation of `k`.
pub open spec fn decimal(k: nat) -> Seq<char>
    decreases k,
{
    if k < 10 {
        seq![digit_char(k)]
    } else {
        decimal(k / 10).push(digit_char(k % 10))
    }
}

/// The digit `d` as a string.
fn digit_str(d: u64) -> (r: &'static str)
    requires
        d < 10,
    ensures
        r@ == seq![digit_char(d as nat)],
{
    if d == 0 {
        proof { reveal_strlit("0"); }
        "0"
    } else if d == 1 {
        proof { reveal_strlit("1"); }
        "1"
    } else if d == 2 {
        proof { reveal_strlit("2"); }
        "2"
    } else if d == 3 {
        proof { reveal_strlit("3"); }
        "3"
    } else if d == 4 {
        proof { reveal_strlit("4"); }
        "4"
    } else if d == 5 {
        proof { reveal_strlit("5"); }
        "5"
    } else if d == 6 {
        proof { reveal_strlit("6"); }
        "6"
    } else if d == 7 {
        proof { reveal_strlit("7"); }
        "7"
    } else if d == 8 {
        proof { reveal_strlit("8"); }
        "8"
    } else {
        proof { reveal_strlit("9"); }
        "9"
    }
}

/// The decimal representation of `k` as a string.
fn decimal_string(k: u64) -> (r: String)
    ensures
        r@ == decimal(k as nat),
    decreases k,
{
    if k < 10 {
        String::from_str(digit_str(k))
    } else {
        let mut s = decimal_string(k / 10);
        s.append(digit_str(k % 10));
        s
    }
}

/// The label of a benchmark case: its name, followed by `_k` and the batch
/// size for parametric cases.
pub open spec fn label_spec(name: Seq<char>, batch_k: Option<u64>) -> Seq<char> {
    match batch_k {
        Some(k) => name + seq!['_', 'k'] + decimal(k as nat),
        None => name,
    }
}

/// The label of a benchmark case, e.g. `witness_update_k4096`.
pub fn case_label(name: &str, batch_k: Option<u64>) -> (r: String)
    ensures
        r@ == label_spec(name@, batch_k),
{
    let mut s = String::from_str(name);
    match batch_k {
        Some(k) => {
            let suffix = "_k";
            proof {
                reveal_strlit("_k");
            }
            s.append(suffix);
            let digits = decimal_string(k);
            s.append(digits.as_str());
        },
        None => {},
    }
    s
}

} // verus!
