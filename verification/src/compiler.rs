//! The options of a decompilation run, and how a batch of works is split
//! into rounds that run side by side.

use vstd::prelude::*;

use std::path::PathBuf;

verus! {

/// A path of the file system, carried through unread.
#[verifier::external_type_specification]
#[verifier::external_body]
pub struct ExPathBuf(PathBuf);

/// How a decompilation runs.
#[derive(Debug, Clone)]
pub struct DecompileOptions {
    /// Where results go; the default directory when absent.
    pub output_dir: Option<PathBuf>,
    /// Whether the raw data is saved too.
    pub save_raw: bool,
    /// How many works of a batch run at once, at least 1.
    pub batch_concurrency: usize,
}

impl Default for DecompileOptions {
    /// The options of [`DecompileOptions::new`].
    fn default() -> (r: DecompileOptions)
        ensures
            r.output_dir.is_none(),
            r.save_raw,
            r.batch_concurrency == 1,
    {
        DecompileOptions::new()
    }
}

impl DecompileOptions {
    /// No output directory, raw data saved, one work at a time.
    pub fn new() -> (r: DecompileOptions)
        ensures
            r.output_dir.is_none(),
            r.save_raw,
            r.batch_concurrency == 1,
    {
        DecompileOptions { output_dir: None, save_raw: true, batch_concurrency: 1 }
    }

    /// Sets the output directory.
    pub fn output_dir(self, dir: PathBuf) -> (r: DecompileOptions)
        ensures
            r.output_dir == Some(dir),
            r.save_raw == self.save_raw,
            r.batch_concurrency == self.batch_concurrency,
    {
        DecompileOptions { output_dir: Some(dir), ..self }
    }

    /// Sets whether the raw data is saved.
    pub fn save_raw(self, on: bool) -> (r: DecompileOptions)
        ensures
            r.save_raw == on,
            r.output_dir == self.output_dir,
            r.batch_concurrency == self.batch_concurrency,
    {
        DecompileOptions { save_raw: on, ..self }
    }

    /// Sets how many works run at once; 0 counts as 1.
    pub fn batch_concurrency(self, n: usize) -> (r: DecompileOptions)
        ensures
            r.batch_concurrency == (if n < 1 {
                1
            } else {
                n
            }),
            r.output_dir == self.output_dir,
            r.save_raw == self.save_raw,
    {
        let c = if n < 1 {
            1
        } else {
            n
        };
        DecompileOptions { batch_concurrency: c, ..self }
    }
}

/// The rounds of a batch of `len` works: one work per round when one runs
/// at a time or there is at most one work, else consecutive runs of
/// `concurrency` works, the last one possibly shorter. Each round is a
/// range of positions `[start, end)`.
pub open spec fn batch_rounds_spec(len: nat, concurrency: nat) -> Seq<(int, int)> {
    let size = round_size(len, concurrency);
    Seq::new(
        ((len + size - 1) / (size as int)) as nat,
        |k: int| (k * size, if (k + 1) * size < len { (k + 1) * size } else { len as int }),
    )
}

/// How many works one round holds.
pub open spec fn round_size(len: nat, concurrency: nat) -> nat {
    let c = if concurrency < 1 {
        1nat
    } else {
        concurrency
    };
    if c == 1 || len <= 1 {
        1
    } else {
        c
    }
}

/// Splits a batch of `len` works into rounds.
pub fn batch_rounds(len: usize, concurrency: usize) -> (r: Vec<(usize, usize)>)
    ensures
        r@.len() == batch_rounds_spec(len as nat, concurrency as nat).len(),
        forall|k: int|
            0 <= k < r@.len() ==> (#[trigger] r@[k]).0 == batch_rounds_spec(len as nat, concurrency as nat)[k].0
                && r@[k].1 == batch_rounds_spec(len as nat, concurrency as nat)[k].1,
{
    let c = if concurrency < 1 {
        1
    } else {
        concurrency
    };
    let size: usize = if c == 1 || len <= 1 {
        1
    } else {
        c
    };
    let ghost spec = batch_rounds_spec(len as nat, concurrency as nat);
    let mut out: Vec<(usize, usize)> = Vec::new();
    let mut start: usize = 0;
    let mut k: usize = 0;
    proof {
        if len > 0 {
            lemma_rounds_count(len as int, size as int, 0);
        } else {
            assert((len + size - 1) / (size as int) == 0) by (nonlinear_arith)
                requires
                    size >= 1,
                    len == 0,
            ;
        }
    }
    while start < len
        invariant
            size >= 1,
            size == round_size(len as nat, concurrency as nat),
            spec == batch_rounds_spec(len as nat, concurrency as nat),
            spec.len() == (len + size - 1) / (size as int),
            start <= len,
            out@.len() == k,
            start < len ==> (start == k * size && k < spec.len()),
            start == len ==> k == spec.len(),
            forall|j: int| 0 <= j < k ==> (#[trigger] out@[j]).0 == spec[j].0 && out@[j].1 == spec[j].1,
        decreases len - start,
    {
        assert(k <= k * size) by (nonlinear_arith)
            requires
                size >= 1,
        ;
        let end = if len - start > size {
            start + size
        } else {
            len
        };
        out.push((start, end));
        proof {
            lemma_rounds_count(len as int, size as int, k as int);
            assert((k + 1) * size == k * size + size) by (nonlinear_arith);
            assert(out@[k as int].0 == spec[k as int].0);
            assert(out@[k as int].1 == spec[k as int].1);
        }
        start = end;
        k = k + 1;
    }
    out
}

proof fn lemma_rounds_count(len: int, size: int, k: int)
    requires
        size >= 1,
        0 <= k * size < len,
    ensures
        k < (len + size - 1) / size,
        (k + 1) * size < len ==> k + 1 < (len + size - 1) / size,
        (k + 1) * size >= len ==> k + 1 == (len + size - 1) / size,
{
    assert((k + 1) * size == k * size + size) by (nonlinear_arith);
    assert(k < (len + size - 1) / size) by (nonlinear_arith)
        requires
            size >= 1,
            k * size < len,
    ;
    assert((k + 1) * size < len ==> k + 1 < (len + size - 1) / size) by (nonlinear_arith)
        requires
            size >= 1,
    ;
    assert((k + 1) * size >= len ==> k + 1 == (len + size - 1) / size) by (nonlinear_arith)
        requires
            size >= 1,
            k * size < len,
            (k + 1) * size == k * size + size,
    ;
}

/// The rounds of a non-empty batch cover every work exactly once, in order:
/// the first starts at the first work, each starts where the one before
/// ended, the last ends after the last work, and no round is empty or holds
/// more works than the allowed concurrency (at least one).
pub proof fn law_rounds_partition(len: nat, concurrency: nat)
    requires
        len > 0,
    ensures
        ({
            let r = batch_rounds_spec(len, concurrency);
            let m: int = if concurrency < 1 {
                1
            } else {
                concurrency as int
            };
            &&& r.len() >= 1
            &&& r[0].0 == 0
            &&& r[r.len() - 1].1 == len
            &&& forall|k: int| 0 <= k < r.len() - 1 ==> (#[trigger] r[k]).1 == r[k + 1].0
            &&& forall|k: int| 0 <= k < r.len() ==> (#[trigger] r[k]).0 < r[k].1 <= r[k].0 + m
        }),
{
    let r = batch_rounds_spec(len, concurrency);
    let size = round_size(len, concurrency) as int;
    let n = (len + size - 1) / size;
    assert(size >= 1);
    lemma_rounds_count(len as int, size, 0);
    assert(n >= 1);
    assert((n - 1) * size < len && n * size >= len) by (nonlinear_arith)
        requires
            size >= 1,
            n == (len + size - 1) / size,
            len >= 1,
    ;
    assert forall|k: int| 0 <= k < r.len() - 1 implies (#[trigger] r[k]).1 == r[k + 1].0 by {
        assert((k + 1) * size <= (n - 1) * size) by (nonlinear_arith)
            requires
                size >= 1,
                k + 1 <= n - 1,
        ;
    }
    assert forall|k: int| 0 <= k < r.len() implies (#[trigger] r[k]).0 < r[k].1 <= r[k].0 + (if concurrency
        < 1 {
        1
    } else {
        concurrency as int
    }) by {
        assert(k * size <= (n - 1) * size) by (nonlinear_arith)
            requires
                size >= 1,
                k <= n - 1,
        ;
        assert((k + 1) * size == k * size + size) by (nonlinear_arith);
    }
    assert(r[n - 1].1 == len) by {
        assert((n - 1 + 1) * size == n * size);
    }
    assert(r[0].0 == 0) by {
        assert(0 * size == 0);
    }
}

} // verus!
