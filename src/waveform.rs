use vstd::prelude::*;

verus! {

/// Number of samples summarised by one waveform peak: 10 ms at 44.1 kHz.
pub const CHUNK_SIZE: usize = 441;

/// Magnitude of one sample, taken without overflow.
pub open spec fn magnitude(x: i32) -> nat {
    if x < 0 {
        (-(x as int)) as nat
    } else {
        x as nat
    }
}

/// Largest magnitude in `s`; zero for an empty sequence.
pub open spec fn max_magnitude(s: Seq<i32>) -> nat
    decreases s.len(),
{
    if s.len() == 0 {
        0
    } else {
        let m = max_magnitude(s.drop_last());
        let x = magnitude(s.last());
        if x > m {
            x
        } else {
            m
        }
    }
}

/// One peak for each complete chunk of `c` samples of `s`, in order.
pub open spec fn chunk_peaks(s: Seq<i32>, c: nat) -> Seq<u32>
    decreases s.len(),
{
    if c == 0 || s.len() < c {
        Seq::empty()
    } else {
        seq![max_magnitude(s.take(c as int)) as u32] + chunk_peaks(s.skip(c as int), c)
    }
}

/// The samples of `s` that are left over after its complete chunks of `c`.
pub open spec fn leftover(s: Seq<i32>, c: nat) -> Seq<i32>
    decreases s.len(),
{
    if c == 0 || s.len() < c {
        s
    } else {
        leftover(s.skip(c as int), c)
    }
}

/// What `reduce` computes from the carried samples and a new batch.
pub open spec fn reduce_spec(new_samples: Seq<i32>, carry: Seq<i32>, c: nat) -> (Seq<u32>, Seq<i32>) {
    (chunk_peaks(carry + new_samples, c), leftover(carry + new_samples, c))
}

/// Feeds `batches` one after another through `reduce`, starting from `carry`;
/// gives all peaks produced, in order, and the final carry.
pub open spec fn reduce_batches(batches: Seq<Seq<i32>>, carry: Seq<i32>, c: nat) -> (Seq<u32>, Seq<i32>)
    decreases batches.len(),
{
    if batches.len() == 0 {
        (Seq::empty(), carry)
    } else {
        let (first, next_carry) = reduce_spec(batches[0], carry, c);
        let (rest, last_carry) = reduce_batches(batches.skip(1), next_carry, c);
        (first + rest, last_carry)
    }
}

/// All samples of `batches`, in order.
pub open spec fn concat_batches(batches: Seq<Seq<i32>>) -> Seq<i32>
    decreases batches.len(),
{
    if batches.len() == 0 {
        Seq::empty()
    } else {
        batches[0] + concat_batches(batches.skip(1))
    }
}

/// A peak always fits the `u32` it is stored in.
pub proof fn lemma_max_magnitude_bound(s: Seq<i32>)
    ensures
        max_magnitude(s) <= 0x8000_0000,
    decreases s.len(),
{
    if s.len() > 0 {
        lemma_max_magnitude_bound(s.drop_last());
    }
}

/// Splitting a sequence at any point and reducing the two parts in turn,
/// handing the leftover of the first part on to the second, gives the same
/// peaks and the same leftover as reducing the whole sequence at once.
pub proof fn lemma_reduce_split(x: Seq<i32>, y: Seq<i32>, c: nat)
    requires
        c > 0,
    ensures
        chunk_peaks(x, c) + chunk_peaks(leftover(x, c) + y, c) == chunk_peaks(x + y, c),
        leftover(leftover(x, c) + y, c) == leftover(x + y, c),
    decreases x.len(),
{
    if x.len() < c {
        assert(chunk_peaks(x, c) =~= Seq::empty());
        assert(chunk_peaks(x, c) + chunk_peaks(x + y, c) =~= chunk_peaks(x + y, c));
    } else {
        let xs = x.skip(c as int);
        lemma_reduce_split(xs, y, c);
        assert((x + y).take(c as int) =~= x.take(c as int));
        assert((x + y).skip(c as int) =~= xs + y);
        assert(chunk_peaks(x + y, c) == seq![max_magnitude(x.take(c as int)) as u32]
            + chunk_peaks(xs + y, c));
        assert(chunk_peaks(x, c) == seq![max_magnitude(x.take(c as int)) as u32]
            + chunk_peaks(xs, c));
        assert(chunk_peaks(x, c) + chunk_peaks(leftover(x, c) + y, c) =~= seq![
            max_magnitude(x.take(c as int)) as u32,
        ] + (chunk_peaks(xs, c) + chunk_peaks(leftover(xs, c) + y, c)));
    }
}

/// Reducing a stream batch by batch, for any way of cutting it into batches,
/// gives the same peaks and final carry as one reduction of all its samples.
pub proof fn lemma_reduce_batches(batches: Seq<Seq<i32>>, carry: Seq<i32>, c: nat)
    requires
        c > 0,
        carry.len() < c,
    ensures
        reduce_batches(batches, carry, c) == reduce_spec(concat_batches(batches), carry, c),
    decreases batches.len(),
{
    if batches.len() == 0 {
        assert(carry + concat_batches(batches) =~= carry);
        lemma_leftover_short_or_empty(carry, c);
    } else {
        let b = batches[0];
        let rest = batches.skip(1);
        lemma_leftover_short(carry + b, c);
        lemma_reduce_batches(rest, leftover(carry + b, c), c);
        lemma_reduce_split(carry + b, concat_batches(rest), c);
        assert(carry + b + concat_batches(rest) =~= carry + concat_batches(batches));
    }
}

/// With an empty stream the reduction hands back the carry unchanged when it
/// is shorter than one chunk.
proof fn lemma_leftover_short_or_empty(carry: Seq<i32>, c: nat)
    requires
        c > 0,
    ensures
        carry.len() < c ==> chunk_peaks(carry, c) == Seq::<u32>::empty() && leftover(carry, c)
            == carry,
{
}

/// The leftover is always shorter than one chunk.
pub proof fn lemma_leftover_short(s: Seq<i32>, c: nat)
    requires
        c > 0,
    ensures
        leftover(s, c).len() < c,
    decreases s.len(),
{
    if s.len() >= c {
        lemma_leftover_short(s.skip(c as int), c);
    }
}

/// No sample is lost: the chunks cover `c` samples each, and together with the
/// leftover they account for every sample that was fed in.
pub proof fn lemma_no_sample_loss(s: Seq<i32>, c: nat)
    requires
        c > 0,
    ensures
        chunk_peaks(s, c).len() * c + leftover(s, c).len() == s.len(),
    decreases s.len(),
{
    if s.len() >= c {
        let t = s.skip(c as int);
        lemma_no_sample_loss(t, c);
        let k = chunk_peaks(t, c).len();
        assert((k + 1) * c == k * c + c) by (nonlinear_arith);
    }
}

/// The same accounting over a whole stream fed in batches.
pub proof fn lemma_no_sample_loss_batches(batches: Seq<Seq<i32>>, c: nat)
    requires
        c > 0,
    ensures
        reduce_batches(batches, Seq::empty(), c).0.len() * c + reduce_batches(
            batches,
            Seq::empty(),
            c,
        ).1.len() == concat_batches(batches).len(),
{
    lemma_reduce_batches(batches, Seq::empty(), c);
    assert(Seq::<i32>::empty() + concat_batches(batches) =~= concat_batches(batches));
    lemma_no_sample_loss(concat_batches(batches), c);
}

/// Magnitude of one sample as a `u32`, widened first so that the most
/// negative value does not overflow.
pub fn sample_magnitude(x: i32) -> (r: u32)
    ensures
        r as nat == magnitude(x),
{
    if x < 0 {
        (0i64 - x as i64) as u32
    } else {
        x as u32
    }
}

/// Largest magnitude among `s[start..start + len]`.
fn window_peak(s: &Vec<i32>, start: usize, len: usize) -> (r: u32)
    requires
        start + len <= s@.len(),
    ensures
        r as nat == max_magnitude(s@.subrange(start as int, start + len)),
{
    let mut m: u32 = 0;
    let mut i: usize = start;
    let total: usize = s.len();
    assert(start + len <= total);
    let end: usize = start + len;
    assert(s@.subrange(start as int, start as int) =~= Seq::<i32>::empty());
    while i < end
        invariant
            start <= i <= end,
            end == start + len,
            end <= s@.len(),
            m as nat == max_magnitude(s@.subrange(start as int, i as int)),
        decreases end - i,
    {
        let v = sample_magnitude(s[i]);
        assert(s@.subrange(start as int, i + 1).drop_last() =~= s@.subrange(
            start as int,
            i as int,
        ));
        if v > m {
            m = v;
        }
        i = i + 1;
    }
    m
}

/// Splits `carry` followed by `new_samples` into chunks of `chunk_size`,
/// giving the peak magnitude of each complete chunk, in order, and the
/// samples left over for the next call.
pub fn reduce(new_samples: &Vec<i32>, carry: &Vec<i32>, chunk_size: usize) -> (r: (
    Vec<u32>,
    Vec<i32>,
))
    requires
        chunk_size > 0,
        carry@.len() + new_samples@.len() <= usize::MAX,
    ensures
        (r.0@, r.1@) == reduce_spec(new_samples@, carry@, chunk_size as nat),
        r.1@.len() < chunk_size,
{
    let ghost c = chunk_size as nat;
    let mut all: Vec<i32> = Vec::new();
    let mut i: usize = 0;
    while i < carry.len()
        invariant
            i <= carry@.len(),
            all@ == carry@.subrange(0, i as int),
        decreases carry@.len() - i,
    {
        all.push(carry[i]);
        i = i + 1;
        assert(all@ =~= carry@.subrange(0, i as int));
    }
    let mut j: usize = 0;
    while j < new_samples.len()
        invariant
            j <= new_samples@.len(),
            carry@.len() + new_samples@.len() <= usize::MAX,
            all@ == carry@ + new_samples@.subrange(0, j as int),
        decreases new_samples@.len() - j,
    {
        all.push(new_samples[j]);
        j = j + 1;
        assert(all@ =~= carry@ + new_samples@.subrange(0, j as int));
    }
    assert(new_samples@.subrange(0, new_samples@.len() as int) =~= new_samples@);
    let ghost whole = all@;
    let mut peaks: Vec<u32> = Vec::new();
    let mut pos: usize = 0;
    assert(whole.skip(0) =~= whole);
    while all.len() - pos >= chunk_size
        invariant
            all@ == whole,
            pos <= whole.len(),
            c == chunk_size as nat,
            c > 0,
            peaks@ + chunk_peaks(whole.skip(pos as int), c) == chunk_peaks(whole, c),
            leftover(whole.skip(pos as int), c) == leftover(whole, c),
        decreases whole.len() - pos,
    {
        let ghost rest = whole.skip(pos as int);
        let p = window_peak(&all, pos, chunk_size);
        assert(rest.take(c as int) =~= whole.subrange(pos as int, pos + chunk_size));
        assert(rest.skip(c as int) =~= whole.skip(pos + chunk_size));
        proof {
            lemma_max_magnitude_bound(rest.take(c as int));
        }
        let ghost before = peaks@;
        peaks.push(p);
        assert(peaks@ + chunk_peaks(whole.skip(pos + chunk_size), c) =~= before + chunk_peaks(rest, c)) by {
            assert(chunk_peaks(rest, c) == seq![max_magnitude(rest.take(c as int)) as u32]
                + chunk_peaks(rest.skip(c as int), c));
        }
        pos = pos + chunk_size;
    }
    let mut left: Vec<i32> = Vec::new();
    let mut k: usize = pos;
    while k < all.len()
        invariant
            all@ == whole,
            pos <= k <= whole.len(),
            left@ == whole.subrange(pos as int, k as int),
        decreases whole.len() - k,
    {
        left.push(all[k]);
        k = k + 1;
        assert(left@ =~= whole.subrange(pos as int, k as int));
    }
    let ghost rest = whole.skip(pos as int);
    assert(left@ =~= rest);
    assert(chunk_peaks(rest, c) =~= Seq::<u32>::empty());
    assert(peaks@ + chunk_peaks(rest, c) =~= peaks@);
    proof {
        lemma_leftover_short(whole, c);
    }
    (peaks, left)
}

} // verus!
