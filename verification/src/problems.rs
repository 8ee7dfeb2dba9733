//! Standalone algorithm exercises: digit-list addition, longest substring
//! without repeated characters, and two-sum.

use vstd::prelude::*;
use vstd::string::StrSliceExecFns;

verus! {

/// One node of a singly linked list of 32-bit values.
pub struct ListNode {
    pub value: i32,
    pub next: Option<Box<ListNode>>,
}

/// The values held by a list, front first.
pub open spec fn list_view(node: Option<Box<ListNode>>) -> Seq<i32>
    decreases node,
{
    match node {
        None => Seq::empty(),
        Some(n) => seq![n.value] + list_view(n.next),
    }
}

impl ListNode {
    /// A node holding one value and no successor.
    pub fn new(value: i32) -> (r: Self)
        ensures
            r.value == value,
            r.next is None,
    {
        ListNode { value, next: None }
    }

    /// The list holding exactly the given values, front first.
    pub fn from_vec(values: &[i32]) -> (r: Option<Box<ListNode>>)
        ensures
            list_view(r) == values@,
        decreases values@.len(),
    {
        if values.len() == 0 {
            proof {
                assert(values@ =~= Seq::<i32>::empty());
            }
            None
        } else {
            let rest = ListNode::from_vec(&values[1..values.len()]);
            proof {
                assert(values@.subrange(1, values@.len() as int) =~= values@.drop_first());
                assert(seq![values@[0]] + values@.drop_first() =~= values@);
            }
            Some(Box::new(ListNode { value: values[0], next: rest }))
        }
    }
}

/// Every entry is a decimal digit.
pub open spec fn all_digits(s: Seq<i32>) -> bool {
    forall|i: int| 0 <= i < s.len() ==> 0 <= #[trigger] s[i] < 10
}

/// The tail of a sequence, or the sequence itself when it is empty.
pub open spec fn seq_tail(s: Seq<i32>) -> Seq<i32> {
    if s.len() > 0 {
        s.drop_first()
    } else {
        s
    }
}

/// Schoolbook addition of two little-endian digit sequences with a carry:
/// the digit sequence of their sum.
pub open spec fn add_digit_seqs(a: Seq<i32>, b: Seq<i32>, carry: int) -> Seq<i32>
    recommends
        0 <= carry <= 1,
    decreases a.len() + b.len(),
{
    if a.len() == 0 && b.len() == 0 {
        if carry == 0 {
            Seq::empty()
        } else {
            seq![carry as i32]
        }
    } else {
        let va: int = if a.len() > 0 {
            a[0] as int
        } else {
            0
        };
        let vb: int = if b.len() > 0 {
            b[0] as int
        } else {
            0
        };
        let sum = va + vb + carry;
        seq![(sum % 10) as i32] + add_digit_seqs(seq_tail(a), seq_tail(b), sum / 10)
    }
}

/// The number a little-endian digit sequence denotes.
pub open spec fn digits_value(s: Seq<i32>) -> int
    decreases s.len(),
{
    if s.len() == 0 {
        0
    } else {
        s[0] + 10 * digits_value(s.drop_first())
    }
}

/// Schoolbook addition is addition: the digit list it produces denotes the
/// sum of what its operands denote, plus the carry, for all digit lists.
pub proof fn lemma_add_digit_seqs_value(a: Seq<i32>, b: Seq<i32>, carry: int)
    requires
        all_digits(a),
        all_digits(b),
        0 <= carry <= 1,
    ensures
        digits_value(add_digit_seqs(a, b, carry)) == digits_value(a) + digits_value(b) + carry,
    decreases a.len() + b.len(),
{
    if a.len() == 0 && b.len() == 0 {
        if carry != 0 {
            let out = seq![carry as i32];
            assert(add_digit_seqs(a, b, carry) == out);
            assert(out.drop_first() =~= Seq::<i32>::empty());
            assert(digits_value(out) == carry + 10 * digits_value(out.drop_first()));
            assert(digits_value(out.drop_first()) == 0);
        } else {
            assert(add_digit_seqs(a, b, carry) == Seq::<i32>::empty());
            assert(digits_value(Seq::<i32>::empty()) == 0);
        }
        assert(digits_value(a) == 0);
        assert(digits_value(b) == 0);
    } else {
        let va: int = if a.len() > 0 {
            a[0] as int
        } else {
            0
        };
        let vb: int = if b.len() > 0 {
            b[0] as int
        } else {
            0
        };
        let sum = va + vb + carry;
        assert(0 <= va < 10 && 0 <= vb < 10);
        assert(all_digits(seq_tail(a)));
        assert(all_digits(seq_tail(b)));
        lemma_add_digit_seqs_value(seq_tail(a), seq_tail(b), sum / 10);
        let rec = add_digit_seqs(seq_tail(a), seq_tail(b), sum / 10);
        let out = seq![(sum % 10) as i32] + rec;
        assert(add_digit_seqs(a, b, carry) == out);
        assert(out[0] == (sum % 10) as i32);
        assert(out.drop_first() =~= rec);
        assert(digits_value(out) == sum % 10 + 10 * digits_value(rec));
        assert(digits_value(rec) == digits_value(seq_tail(a)) + digits_value(seq_tail(b)) + sum
            / 10);
        assert(sum == 10 * (sum / 10) + sum % 10);
        if a.len() > 0 {
            assert(digits_value(a) == va + 10 * digits_value(seq_tail(a)));
        }
        if b.len() > 0 {
            assert(digits_value(b) == vb + 10 * digits_value(seq_tail(b)));
        }
        assert(digits_value(out) == digits_value(a) + digits_value(b) + carry);
    }
}

/// Add two numbers given as little-endian digit lists: the digit list of
/// their sum, as schoolbook addition with carry produces it, so that the
/// result denotes the sum of what the two lists denote.
pub fn _add_two_numbers(list1: Option<Box<ListNode>>, list2: Option<Box<ListNode>>) -> (r: Vec<
    i32,
>)
    requires
        all_digits(list_view(list1)),
        all_digits(list_view(list2)),
    ensures
        r@ == add_digit_seqs(list_view(list1), list_view(list2), 0),
        digits_value(r@) == digits_value(list_view(list1)) + digits_value(list_view(list2)),
{
    let ghost a0 = list_view(list1);
    let ghost b0 = list_view(list2);
    let mut l1 = list1;
    let mut l2 = list2;
    let mut carry: i32 = 0;
    let mut out: Vec<i32> = Vec::new();
    proof {
        assert(out@ + add_digit_seqs(a0, b0, 0) =~= add_digit_seqs(a0, b0, 0));
    }
    loop
        invariant
            0 <= carry <= 1,
            a0 == list_view(list1),
            b0 == list_view(list2),
            all_digits(a0),
            all_digits(b0),
            all_digits(list_view(l1)),
            all_digits(list_view(l2)),
            add_digit_seqs(a0, b0, 0) == out@ + add_digit_seqs(
                list_view(l1),
                list_view(l2),
                carry as int,
            ),
        decreases list_view(l1).len() + list_view(l2).len() + (if carry != 0 {
            1int
        } else {
            0int
        }),
    {
        if l1.is_none() && l2.is_none() && carry == 0 {
            proof {
                assert(out@ + add_digit_seqs(list_view(l1), list_view(l2), 0) =~= out@);
                lemma_add_digit_seqs_value(a0, b0, 0);
            }
            return out;
        }
        let ghost av = list_view(l1);
        let ghost bv = list_view(l2);
        let va: i32 = match l1 {
            Some(n) => {
                proof {
                    assert(av[0] == n.value);
                    assert(av.drop_first() =~= list_view(n.next));
                }
                l1 = n.next;
                n.value
            },
            None => {
                l1 = None;
                0
            },
        };
        let vb: i32 = match l2 {
            Some(n) => {
                proof {
                    assert(bv[0] == n.value);
                    assert(bv.drop_first() =~= list_view(n.next));
                }
                l2 = n.next;
                n.value
            },
            None => {
                l2 = None;
                0
            },
        };
        let sum = va + vb + carry;
        proof {
            assert(seq_tail(av) == list_view(l1));
            assert(seq_tail(bv) == list_view(l2));
            assert(add_digit_seqs(av, bv, carry as int) == seq![((sum as int) % 10) as i32]
                + add_digit_seqs(list_view(l1), list_view(l2), (sum as int) / 10));
            assert((out@ + seq![sum % 10]) + add_digit_seqs(
                list_view(l1),
                list_view(l2),
                (sum as int) / 10,
            ) =~= out@ + (seq![sum % 10] + add_digit_seqs(
                list_view(l1),
                list_view(l2),
                (sum as int) / 10,
            )));
        }
        out.push(sum % 10);
        carry = sum / 10;
    }
}

/// No two positions in the half-open range hold the same character.
pub open spec fn distinct_range(s: Seq<char>, from: int, to: int) -> bool {
    forall|a: int, b: int| from <= a < b < to ==> s[a] != s[b]
}

/// Whether a character occurs in the half-open range.
fn contains_char(s: &str, from: usize, to: usize, c: char) -> (r: bool)
    requires
        from <= to <= s@.len(),
    ensures
        r <==> exists|k: int| from <= k < to && s@[k] == c,
{
    let mut k = from;
    while k < to
        invariant
            from <= k <= to <= s@.len(),
            forall|m: int| from <= m < k ==> s@[m] != c,
        decreases to - k,
    {
        if s.get_char(k) == c {
            return true;
        }
        k = k + 1;
    }
    false
}

/// The length of the longest substring without repeating characters: some
/// window of that length has pairwise distinct characters, and no longer
/// window does.
pub fn _length_of_longest_substring(s: &str) -> (r: i32)
    requires
        s@.len() <= 0x7FFF_FFFF,
    ensures
        0 <= r <= s@.len(),
        exists|i: int| 0 <= i && i + r <= s@.len() && #[trigger] distinct_range(s@, i, i + r),
        forall|i: int, j: int| 0 <= i <= j <= s@.len() && distinct_range(s@, i, j) ==> j - i <= r,
{
    let n = s.unicode_len();
    let mut best: usize = 0;
    let mut start: usize = 0;
    proof {
        assert(distinct_range(s@, 0, 0 + best as int));
    }
    while start < n
        invariant
            start <= n == s@.len() <= 0x7FFF_FFFF,
            best <= n,
            exists|i: int| 0 <= i && i + best <= s@.len() && #[trigger] distinct_range(s@, i, i + best),
            forall|i: int, j: int|
                0 <= i < start && i <= j <= s@.len() && distinct_range(s@, i, j) ==> j - i
                    <= best,
        decreases n - start,
    {
        let mut end: usize = start;
        while end < n && !contains_char(s, start, end, s.get_char(end))
            invariant
                start <= end <= n == s@.len(),
                distinct_range(s@, start as int, end as int),
            decreases n - end,
        {
            proof {
                assert(forall|a: int|
                    start <= a < end ==> s@[a] != s@[end as int]);
                assert(distinct_range(s@, start as int, end as int + 1));
            }
            end = end + 1;
        }
        proof {
            if end < n {
                let k = choose|k: int| start <= k < end && s@[k] == s@[end as int];
                assert(forall|j: int|
                    end < j <= s@.len() ==> !distinct_range(s@, start as int, j)) by {
                    assert forall|j: int|
                        end < j <= s@.len() implies !distinct_range(s@, start as int, j) by {
                        assert(start <= k < end < j && s@[k] == s@[end as int]);
                    }
                }
            }
            assert(forall|j: int|
                start <= j <= s@.len() && distinct_range(s@, start as int, j) ==> j - start
                    <= end - start);
        }
        if end - start > best {
            best = end - start;
            proof {
                assert(distinct_range(s@, start as int, start as int + best));
            }
        }
        start = start + 1;
    }
    proof {
        assert(forall|i: int, j: int|
            0 <= i <= j <= s@.len() && distinct_range(s@, i, j) ==> j - i <= best);
    }
    best as i32
}

/// No pair of positions below the bound sums to the target.
pub open spec fn no_pair_below(nums: Seq<i32>, target: int, hi: int) -> bool {
    forall|a: int, b: int| 0 <= a < b < hi ==> nums[a] + nums[b] != target
}

/// Two distinct positions whose values sum to the target: the pair with
/// the smallest later position, and for it the greatest earlier position,
/// as a scan that remembers the last position of each value finds it;
/// empty when no pair sums to the target.
pub fn _two_sum(nums: &[i32], target: i32) -> (r: Vec<usize>)
    ensures
        r@.len() == 2 || r@.len() == 0,
        r@.len() == 2 ==> r@[0] < r@[1] < nums@.len() && nums@[r@[0] as int] + nums@[r@[1] as int]
            == target && no_pair_below(nums@, target as int, r@[1] as int) && (forall|a: int|
            r@[0] < a < r@[1] ==> #[trigger] nums@[a] + nums@[r@[1] as int] != target),
        r@.len() == 0 ==> no_pair_below(nums@, target as int, nums@.len() as int),
{
    let mut i: usize = 0;
    while i < nums.len()
        invariant
            i <= nums@.len(),
            no_pair_below(nums@, target as int, i as int),
        decreases nums@.len() - i,
    {
        let mut j: usize = i;
        while j > 0
            invariant
                j <= i < nums@.len(),
                no_pair_below(nums@, target as int, i as int),
                forall|a: int| j <= a < i ==> nums@[a] + nums@[i as int] != target,
            decreases j,
        {
            j = j - 1;
            if nums[j] as i64 + nums[i] as i64 == target as i64 {
                let mut r: Vec<usize> = Vec::new();
                r.push(j);
                r.push(i);
                return r;
            }
        }
        i = i + 1;
    }
    Vec::new()
}

} // verus!
