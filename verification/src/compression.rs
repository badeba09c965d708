//! How far compression pointers in a name can lead: reading a name returns
//! exactly when it does so within one pointer more than the buffer has bytes.

use vstd::prelude::*;

use crate::domain::{labels_terminate, lemma_walk_labels_depth, spec_decode_labels, walk_labels};
use crate::proto::decoder::Decoder;

verus! {

/// The pointer target that the walk at `pos` follows once it has read the labels
/// of its own level; `None` where the level ends otherwise.
pub open spec fn level_jump(data: Seq<u8>, pos: int) -> Option<int>
    decreases data.len() - pos,
{
    if pos < 0 || pos >= data.len() {
        None
    } else {
        let l = data[pos] as int;
        if l == 0 {
            None
        } else if l >= 0xc0 {
            if pos + 1 >= data.len() {
                None
            } else {
                let target = (l - 0xc0) * 0x100 + data[pos + 1] as int;
                if target > data.len() {
                    None
                } else {
                    Some(target)
                }
            }
        } else if l <= 63 {
            let start = pos + 1;
            if start + l > usize::MAX || start + l > data.len() {
                None
            } else {
                level_jump(data, start + l)
            }
        } else {
            None
        }
    }
}

/// The level at `pos` ends in an addition that overflows `usize`.
pub open spec fn level_overflows(data: Seq<u8>, pos: int) -> bool
    decreases data.len() - pos,
{
    if pos < 0 || pos >= data.len() {
        false
    } else {
        let l = data[pos] as int;
        if 1 <= l <= 63 {
            let start = pos + 1;
            if start + l > usize::MAX {
                true
            } else if start + l > data.len() {
                false
            } else {
                level_overflows(data, start + l)
            }
        } else {
            false
        }
    }
}

/// The level reached from `pos` after following `k` pointers.
pub open spec fn jump_iter(data: Seq<u8>, pos: int, k: nat) -> Option<int>
    decreases k,
{
    if k == 0 {
        Some(pos)
    } else {
        match level_jump(data, pos) {
            None => None,
            Some(t) => jump_iter(data, t, (k - 1) as nat),
        }
    }
}

/// The walk from `pos` ends after `k` pointers, at a level that returns.
pub open spec fn ends_after(data: Seq<u8>, pos: int, k: nat) -> bool {
    match jump_iter(data, pos, k) {
        Some(q) => level_jump(data, q) is None && !level_overflows(data, q),
        None => false,
    }
}

proof fn lemma_walk_step(data: Seq<u8>, pos: int, depth: nat)
    ensures
        (walk_labels(data, pos, depth) is Some) == match level_jump(data, pos) {
            None => !level_overflows(data, pos),
            Some(t) => depth > 0 && walk_labels(data, t, (depth - 1) as nat) is Some,
        },
    decreases data.len() - pos,
{
    if 0 <= pos < data.len() {
        let l = data[pos] as int;
        if 1 <= l <= 63 {
            let start = pos + 1;
            if start + l <= usize::MAX && start + l <= data.len() {
                lemma_walk_step(data, start + l, depth);
            }
        }
    }
}

proof fn lemma_walk_some_iff(data: Seq<u8>, pos: int, depth: nat)
    ensures
        (walk_labels(data, pos, depth) is Some) <==> exists|k: nat|
            k <= depth && #[trigger] ends_after(data, pos, k),
    decreases depth,
{
    lemma_walk_step(data, pos, depth);
    assert(jump_iter(data, pos, 0) == Some(pos));
    match level_jump(data, pos) {
        None => {
            if walk_labels(data, pos, depth) is Some {
                assert(ends_after(data, pos, 0));
            } else {
                assert forall|k: nat| k <= depth implies !#[trigger] ends_after(data, pos, k) by {
                    if k > 0 {
                        assert(jump_iter(data, pos, k) is None);
                    }
                }
            }
        },
        Some(t) => {
            assert(!ends_after(data, pos, 0));
            if depth > 0 {
                lemma_walk_some_iff(data, t, (depth - 1) as nat);
                if walk_labels(data, pos, depth) is Some {
                    let k = choose|k: nat| k <= depth - 1 && #[trigger] ends_after(data, t, k);
                    assert(jump_iter(data, pos, k + 1) == jump_iter(data, t, k));
                    assert(ends_after(data, pos, k + 1));
                } else {
                    assert forall|k: nat| k <= depth implies !#[trigger] ends_after(data, pos, k) by {
                        if k > 0 {
                            assert(jump_iter(data, pos, k) == jump_iter(data, t, (k - 1) as nat));
                            assert(!ends_after(data, t, (k - 1) as nat));
                        }
                    }
                }
            } else {
                assert forall|k: nat| k <= depth implies !#[trigger] ends_after(data, pos, k) by {
                    assert(k == 0);
                }
            }
        },
    }
}

/// Following one more pointer continues from where `k` pointers led.
proof fn lemma_jump_iter_back(data: Seq<u8>, pos: int, k: nat)
    ensures
        jump_iter(data, pos, k + 1) == match jump_iter(data, pos, k) {
            None => None,
            Some(q) => level_jump(data, q),
        },
    decreases k,
{
    if let Some(t) = level_jump(data, pos) {
        assert(jump_iter(data, pos, k + 1) == jump_iter(data, t, k));
        if k > 0 {
            lemma_jump_iter_back(data, t, (k - 1) as nat);
            assert(jump_iter(data, pos, k) == jump_iter(data, t, (k - 1) as nat));
        } else {
            assert(jump_iter(data, t, 0) == Some(t));
        }
    } else {
        if k > 0 {
            assert(jump_iter(data, pos, k) is None);
        }
    }
}

/// Where `k` pointers lead somewhere, fewer pointers do too.
proof fn lemma_jump_iter_prefix(data: Seq<u8>, pos: int, i: nat, k: nat)
    requires
        i <= k,
        jump_iter(data, pos, k) is Some,
    ensures
        jump_iter(data, pos, i) is Some,
    decreases k,
{
    if i < k {
        lemma_jump_iter_back(data, pos, (k - 1) as nat);
        lemma_jump_iter_prefix(data, pos, i, (k - 1) as nat);
    }
}

/// Two equal levels on the way are followed by equal levels.
proof fn lemma_jump_iter_periodic(data: Seq<u8>, pos: int, a: nat, b: nat, m: nat)
    requires
        jump_iter(data, pos, a) is Some,
        jump_iter(data, pos, a) == jump_iter(data, pos, b),
    ensures
        jump_iter(data, pos, a + m) == jump_iter(data, pos, b + m),
    decreases m,
{
    if m > 0 {
        lemma_jump_iter_periodic(data, pos, a, b, (m - 1) as nat);
        lemma_jump_iter_back(data, pos, (a + m - 1) as nat);
        lemma_jump_iter_back(data, pos, (b + m - 1) as nat);
    }
}

/// A sequence of distinct integers in `0..n` has at most `n` items.
proof fn lemma_distinct_in_range(s: Seq<int>, n: int)
    requires
        0 <= n,
        s.no_duplicates(),
        forall|i: int| 0 <= i < s.len() ==> 0 <= #[trigger] s[i] < n,
    ensures
        s.len() <= n,
{
    s.unique_seq_to_set();
    vstd::set_lib::lemma_int_range(0, n);
    assert(s.to_set().subset_of(vstd::set_lib::set_int_range(0, n)));
    vstd::set_lib::lemma_len_subset(s.to_set(), vstd::set_lib::set_int_range(0, n));
}

/// Reading the labels at `pos` returns exactly when it returns following at
/// most `data.len() + 1` pointers: no bound on the pointers can do better.
pub proof fn lemma_labels_terminate_bound(data: Seq<u8>, pos: int)
    ensures
        labels_terminate(data, pos) <==> walk_labels(data, pos, (data.len() + 1) as nat) is Some,
{
    let n = (data.len() + 1) as nat;
    if labels_terminate(data, pos) {
        let d = choose|d: nat| walk_labels(data, pos, d) is Some;
        if d <= n {
            lemma_walk_labels_depth(data, pos, d, n);
        } else {
            lemma_walk_some_iff(data, pos, d);
            let k = choose|k: nat| k <= d && #[trigger] ends_after(data, pos, k);
            let q = jump_iter(data, pos, k).unwrap();
            // The levels reached after 1 to k pointers are pointer targets, so
            // they lie in 0..=data.len(); they are distinct, so there are at most n.
            let s = Seq::new(k, |i: int| jump_iter(data, pos, (i + 1) as nat).unwrap());
            assert forall|i: int| 0 <= i < s.len() implies 0 <= #[trigger] s[i] < n by {
                lemma_jump_iter_back(data, pos, i as nat);
                lemma_jump_iter_prefix(data, pos, i as nat, k);
                lemma_jump_iter_prefix(data, pos, (i + 1) as nat, k);
                lemma_level_jump_range(data, jump_iter(data, pos, i as nat).unwrap());
            }
            assert(s.no_duplicates()) by {
                assert forall|i: int, j: int|
                    0 <= i < s.len() && 0 <= j < s.len() && i != j implies s[i] != s[j] by {
                    if s[i] == s[j] {
                        let (a, b) = if i < j {
                            ((i + 1) as nat, (j + 1) as nat)
                        } else {
                            ((j + 1) as nat, (i + 1) as nat)
                        };
                        let m = (k - b) as nat;
                        lemma_jump_iter_prefix(data, pos, a, k);
                        lemma_jump_iter_prefix(data, pos, b, k);
                        lemma_jump_iter_back(data, pos, (a + m) as nat);
                        lemma_jump_iter_prefix(data, pos, (a + m + 1) as nat, k);
                        lemma_jump_iter_periodic(data, pos, a, b, m);
                        assert(jump_iter(data, pos, (a + m) as nat) == Some(q));
                        assert(level_jump(data, jump_iter(data, pos, (a + m) as nat).unwrap())
                            is Some);
                    }
                }
            }
            lemma_distinct_in_range(s, n as int);
            lemma_walk_some_iff(data, pos, n);
            assert(ends_after(data, pos, k));
        }
    }
}

/// Whether the walk from `pos` returns when it may follow at most `depth` pointers.
fn walk_returns(data: &[u8], start_pos: usize, max_depth: u128) -> (r: bool)
    requires
        start_pos <= data@.len(),
    ensures
        r == (walk_labels(data@, start_pos as int, max_depth as nat) is Some),
{
    let mut pos = start_pos;
    let mut depth = max_depth;
    let ghost p0 = pos;
    let ghost d0 = depth;
    loop
        invariant
            pos <= data@.len(),
            p0 == start_pos,
            d0 == max_depth,
            (walk_labels(data@, p0 as int, d0 as nat) is Some) == (walk_labels(
                data@,
                pos as int,
                depth as nat,
            ) is Some),
        decreases depth, data@.len() - pos,
    {
        if pos >= data.len() {
            return true;
        }
        let l = data[pos];
        if l == 0 {
            return true;
        } else if l >= 0xc0 {
            if pos + 1 >= data.len() {
                return true;
            }
            let target = ((l - 0xc0) as usize) * 0x100 + data[pos + 1] as usize;
            if target > data.len() {
                return true;
            }
            if depth == 0 {
                return false;
            }
            depth = depth - 1;
            pos = target;
        } else if l <= 63 {
            let start = pos + 1;
            if start > usize::MAX - (l as usize) {
                return false;
            }
            if start + l as usize > data.len() {
                return true;
            }
            pos = start + l as usize;
        } else {
            return true;
        }
    }
}

impl<'a> Decoder<'a> {
    /// Whether reading the name at the cursor returns: it does exactly when its
    /// compression pointers lead to no cycle (and no label's end overflows).
    pub fn name_returns(&self) -> (r: bool)
        requires
            self.wf(),
        ensures
            r == (spec_decode_labels(self.data(), self.cursor()) is Some),
    {
        proof {
            lemma_labels_terminate_bound(self.data(), self.cursor());
        }
        let bytes = self.bytes();
        walk_returns(bytes, self.position(), bytes.len() as u128 + 1)
    }
}

proof fn lemma_level_jump_range(data: Seq<u8>, pos: int)
    ensures
        level_jump(data, pos) matches Some(t) ==> 0 <= t <= data.len(),
    decreases data.len() - pos,
{
    if 0 <= pos < data.len() {
        let l = data[pos] as int;
        if 1 <= l <= 63 {
            let start = pos + 1;
            if start + l <= usize::MAX && start + l <= data.len() {
                lemma_level_jump_range(data, start + l);
            }
        }
    }
}

} // verus!
