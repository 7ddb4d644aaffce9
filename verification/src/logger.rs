//! The bookkeeping of an append-only logger: the name of its file and the
//! budget that bounds how many capped lines it writes. Opening and writing the
//! file is the caller's part; this module decides what is written where.

use vstd::prelude::*;

verus! {

/// The counter after one more capped line was asked for: it goes up by one and
/// wraps to 0 past `usize::MAX`, as an atomic `fetch_add` does.
pub open spec fn next_count(n: usize) -> usize {
    if n == usize::MAX {
        0
    } else {
        (n + 1) as usize
    }
}

/// Whether a capped line is granted when `count` lines were asked for before:
/// only while that is below the cap.
pub open spec fn grants_line(count: usize, cap: usize) -> bool {
    count < cap
}

/// The counter after `k` capped lines were asked for, starting from `n0`.
pub open spec fn count_after(n0: usize, k: nat) -> usize
    decreases k,
{
    if k == 0 {
        n0
    } else {
        next_count(count_after(n0, (k - 1) as nat))
    }
}

/// How many of `k` capped lines, asked for one after another from the counter
/// `n0`, are granted under the cap `cap`.
pub open spec fn granted(n0: usize, cap: usize, k: nat) -> nat
    decreases k,
{
    if k == 0 {
        0
    } else {
        granted(n0, cap, (k - 1) as nat) + if grants_line(count_after(n0, (k - 1) as nat), cap) {
            1nat
        } else {
            0nat
        }
    }
}

/// An append-only logger's state: the name of its file and how many capped
/// lines were asked for against the cap.
pub struct Logger {
    file_name: String,
    cap: usize,
    count: usize,
}

impl Logger {
    /// The name of the file the logger appends to.
    pub closed spec fn file_name_view(&self) -> Seq<char> {
        self.file_name@
    }

    /// The bound on capped lines.
    pub closed spec fn cap_view(&self) -> usize {
        self.cap
    }

    /// How many capped lines were asked for so far (wrapping).
    pub closed spec fn count_view(&self) -> usize {
        self.count
    }

    /// A logger writing to `<file_stem>.log`; `cap` bounds its capped lines.
    pub fn new(file_stem: &str, cap: usize) -> (r: Logger)
        ensures
            r.file_name_view() == file_stem@ + ".log"@,
            r.cap_view() == cap,
            r.count_view() == 0,
    {
        let mut file_name = String::new();
        file_name.append(file_stem);
        file_name.append(".log");
        Logger { file_name, cap, count: 0 }
    }

    /// Asks for one more capped line: it is granted while fewer than `cap`
    /// were asked for before, and the request is counted either way.
    pub fn request_line(&mut self) -> (r: bool)
        ensures
            r == grants_line(old(self).count_view(), old(self).cap_view()),
            final(self).count_view() == next_count(old(self).count_view()),
            final(self).cap_view() == old(self).cap_view(),
            final(self).file_name_view() == old(self).file_name_view(),
    {
        let under = self.count < self.cap;
        self.count = if self.count == usize::MAX {
            0
        } else {
            self.count + 1
        };
        under
    }

    /// The name of the file the logger appends to.
    pub fn file_name(&self) -> (r: &str)
        ensures
            r@ == self.file_name_view(),
    {
        self.file_name.as_str()
    }

    /// The bound on capped lines.
    pub fn cap(&self) -> (r: usize)
        ensures
            r == self.cap_view(),
    {
        self.cap
    }

    /// How many capped lines were asked for so far.
    pub fn count(&self) -> (r: usize)
        ensures
            r == self.count_view(),
    {
        self.count
    }
}

proof fn lemma_count_after_from_zero(k: nat)
    requires
        k <= usize::MAX,
    ensures
        count_after(0, k) == k,
    decreases k,
{
    if k > 0 {
        lemma_count_after_from_zero((k - 1) as nat);
    }
}

/// Of the first `k` capped lines that a fresh logger is asked for, exactly
/// `min(k, cap)` are granted, as long as the counter has not wrapped.
pub proof fn lemma_cap_bounds_lines(cap: usize, k: nat)
    requires
        k <= usize::MAX + 1,
    ensures
        granted(0, cap, k) == if k < cap {
            k
        } else {
            cap as nat
        },
    decreases k,
{
    if k > 0 {
        lemma_cap_bounds_lines(cap, (k - 1) as nat);
        lemma_count_after_from_zero((k - 1) as nat);
    }
}

/// The counter wraps as an atomic `fetch_add` does: after `usize::MAX + 1`
/// requests a fresh logger's counter is back at 0, so with a cap above 0 the
/// next capped line is granted again.
pub proof fn lemma_counter_wraps(cap: usize)
    ensures
        count_after(0, usize::MAX as nat + 1) == 0,
        cap > 0 ==> grants_line(count_after(0, usize::MAX as nat + 1), cap),
{
    lemma_count_after_from_zero(usize::MAX as nat);
}

/// Once a capped line is refused, the next one is refused too, unless the
/// counter wraps around.
pub proof fn lemma_refusal_persists(count: usize, cap: usize)
    requires
        !grants_line(count, cap),
        count < usize::MAX,
    ensures
        !grants_line(next_count(count), cap),
        next_count(count) == count + 1,
{
}

} // verus!
