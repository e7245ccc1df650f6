use vstd::prelude::*;
use vstd::utf8::encode_utf8;

verus! {

/// The approvals of one token as (delegate, approval id) pairs of mathematical values.
pub open spec fn approvals_view(s: Seq<(String, u64)>) -> Seq<(Seq<char>, u64)> {
    s.map_values(|e: (String, u64)| (e.0@, e.1))
}

/// The approval id that `delegate` currently holds; 0 when it holds none.
/// A later entry for the same delegate overrides an earlier one.
pub open spec fn approval_id_of(s: Seq<(Seq<char>, u64)>, delegate: Seq<char>) -> u64
    decreases s.len(),
{
    if s.len() == 0 {
        0
    } else if s.last().0 == delegate {
        s.last().1
    } else {
        approval_id_of(s.drop_last(), delegate)
    }
}

/// Every recorded approval id is at least 1 and below `next`.
pub open spec fn ids_below(s: Seq<(Seq<char>, u64)>, next: u64) -> bool {
    forall|k: int| 0 <= k < s.len() ==> 1 <= #[trigger] s[k].1 < next
}

/// No delegate has two entries.
pub open spec fn delegates_unique(s: Seq<(Seq<char>, u64)>) -> bool {
    forall|i: int, j: int| 0 <= i < j < s.len() ==> #[trigger] s[i].0 != #[trigger] s[j].0
}

pub proof fn lemma_approval_id_push(s: Seq<(Seq<char>, u64)>, e: (Seq<char>, u64), d: Seq<char>)
    ensures
        approval_id_of(s.push(e), d) == if e.0 == d {
            e.1
        } else {
            approval_id_of(s, d)
        },
{
    assert(s.push(e).drop_last() =~= s);
}

/// An approval id held under `ids_below(s, next)` is itself below `next`.
pub proof fn lemma_approval_id_below(s: Seq<(Seq<char>, u64)>, next: u64, d: Seq<char>)
    requires
        ids_below(s, next),
        next >= 1,
    ensures
        approval_id_of(s, d) < next,
    decreases s.len(),
{
    if s.len() > 0 {
        assert(s[s.len() - 1].1 < next);
        assert(ids_below(s.drop_last(), next)) by {
            assert forall|k: int| 0 <= k < s.drop_last().len() implies 1 <= #[trigger] s.drop_last()[k].1 < next by {
                assert(s[k].1 == s.drop_last()[k].1);
            }
        }
        lemma_approval_id_below(s.drop_last(), next, d);
    }
}

/// A copy of `s` without any entry for `delegate`.
pub(crate) fn without_delegate(s: &Vec<(String, u64)>, delegate: &String, next: Ghost<u64>) -> (r: Vec<
    (String, u64),
>)
    requires
        ids_below(approvals_view(s@), next@),
        delegates_unique(approvals_view(s@)),
    ensures
        ids_below(approvals_view(r@), next@),
        delegates_unique(approvals_view(r@)),
        forall|k: int| 0 <= k < r@.len() ==> (#[trigger] r@[k]).0@ != delegate@,
        forall|d: Seq<char>|
            #[trigger] approval_id_of(approvals_view(r@), d) == if d == delegate@ {
                0
            } else {
                approval_id_of(approvals_view(s@), d)
            },
{
    let mut r: Vec<(String, u64)> = Vec::new();
    let mut i: usize = 0;
    let ghost mut from: Seq<int> = Seq::empty();
    while i < s.len()
        invariant
            i <= s.len(),
            ids_below(approvals_view(s@), next@),
            delegates_unique(approvals_view(s@)),
            ids_below(approvals_view(r@), next@),
            delegates_unique(approvals_view(r@)),
            from.len() == r@.len(),
            forall|k: int|
                0 <= k < r@.len() ==> 0 <= #[trigger] from[k] < i && r@[k].0@ == s@[from[k]].0@
                    && r@[k].0@ != delegate@,
            forall|d: Seq<char>|
                #[trigger] approval_id_of(approvals_view(r@), d) == if d == delegate@ {
                    0
                } else {
                    approval_id_of(approvals_view(s@.take(i as int)), d)
                },
        decreases s.len() - i,
    {
        let ghost prev = r@;
        assert(approvals_view(s@.take(i + 1)) =~= approvals_view(s@.take(i as int)).push(
            (s@[i as int].0@, s@[i as int].1),
        ));
        assert(approvals_view(s@)[i as int] == (s@[i as int].0@, s@[i as int].1));
        if s[i].0 != *delegate {
            r.push((s[i].0.clone(), s[i].1));
            proof {
                let v = approvals_view(r@);
                let sv = approvals_view(s@);
                assert(v =~= approvals_view(prev).push((s@[i as int].0@, s@[i as int].1)));
                assert forall|k: int| 0 <= k < prev.len() implies #[trigger] v[k].0 != v[prev.len() as int].0 by {
                    assert(sv[from[k]].0 != sv[i as int].0);
                }
                from = from.push(i as int);
            }
        }
        assert forall|d: Seq<char>|
            #[trigger] approval_id_of(approvals_view(r@), d) == if d == delegate@ {
                0
            } else {
                approval_id_of(approvals_view(s@.take(i + 1)), d)
            } by {
            lemma_approval_id_push(
                approvals_view(s@.take(i as int)),
                (s@[i as int].0@, s@[i as int].1),
                d,
            );
            lemma_approval_id_push(approvals_view(prev), (s@[i as int].0@, s@[i as int].1), d);
        }
        i = i + 1;
    }
    assert(s@.take(s.len() as int) =~= s@);
    assert forall|k: int| 0 <= k < r@.len() implies (#[trigger] r@[k]).0@ != delegate@ by {
        assert(0 <= from[k] < i);
    }
    r
}

/// The approval id that `delegate` holds in `s`; 0 when it holds none.
pub fn find_approval(s: &Vec<(String, u64)>, delegate: &String) -> (r: u64)
    ensures
        r == approval_id_of(approvals_view(s@), delegate@),
{
    let mut r: u64 = 0;
    let mut i: usize = 0;
    while i < s.len()
        invariant
            i <= s.len(),
            r == approval_id_of(approvals_view(s@.take(i as int)), delegate@),
        decreases s.len() - i,
    {
        assert(approvals_view(s@.take(i + 1)) =~= approvals_view(s@.take(i as int)).push(
            (s@[i as int].0@, s@[i as int].1),
        ));
        proof {
            lemma_approval_id_push(
                approvals_view(s@.take(i as int)),
                (s@[i as int].0@, s@[i as int].1),
                delegate@,
            );
        }
        if s[i].0 == *delegate {
            r = s[i].1;
        }
        i = i + 1;
    }
    assert(s@.take(s.len() as int) =~= s@);
    r
}

/// An entry-by-entry copy of `s`.
pub fn copy_approvals(s: &Vec<(String, u64)>) -> (r: Vec<(String, u64)>)
    ensures
        approvals_view(r@) == approvals_view(s@),
{
    let mut r: Vec<(String, u64)> = Vec::new();
    let mut i: usize = 0;
    while i < s.len()
        invariant
            i <= s.len(),
            approvals_view(r@) == approvals_view(s@.take(i as int)),
        decreases s.len() - i,
    {
        let ghost prev = r@;
        r.push((s[i].0.clone(), s[i].1));
        assert(approvals_view(r@) =~= approvals_view(prev).push((s@[i as int].0@, s@[i as int].1)));
        assert(approvals_view(s@.take(i + 1)) =~= approvals_view(s@.take(i as int)).push(
            (s@[i as int].0@, s@[i as int].1),
        ));
        i = i + 1;
    }
    assert(s@.take(s.len() as int) =~= s@);
    r
}

/// Bytes one approval entry for `account_id` takes in storage: the id's UTF-8
/// bytes, their 4-byte length prefix and the 8-byte approval id.
pub open spec fn approval_entry_bytes(account_id: Seq<char>) -> int {
    (encode_utf8(account_id).len() as usize) as int + 12
}

/// Bytes taken by all the approval entries of `s`.
pub open spec fn approvals_bytes(s: Seq<(String, u64)>) -> int
    decreases s.len(),
{
    if s.len() == 0 {
        0
    } else {
        approvals_bytes(s.drop_last()) + approval_entry_bytes(s.last().0@)
    }
}

/// Storage taken by one approval entry for `account_id`.
pub fn bytes_for_approved_account_id(account_id: &String) -> (r: u64)
    requires
        approval_entry_bytes(account_id@) <= u64::MAX,
    ensures
        r == approval_entry_bytes(account_id@),
{
    let id: &str = account_id.as_str();
    id.len() as u64 + 12
}

/// Storage released when the approval entries `s` are dropped; `None` when the
/// total does not fit in a `u64`.
pub fn released_storage_bytes(s: &Vec<(String, u64)>) -> (r: Option<u64>)
    ensures
        approvals_bytes(s@) <= u64::MAX ==> r == Some(approvals_bytes(s@) as u64),
        approvals_bytes(s@) > u64::MAX ==> r is None,
{
    let mut total: u64 = 0;
    let mut i: usize = 0;
    while i < s.len()
        invariant
            i <= s.len(),
            total == approvals_bytes(s@.take(i as int)),
        decreases s.len() - i,
    {
        assert(s@.take(i + 1).drop_last() =~= s@.take(i as int));
        proof {
            lemma_approvals_bytes_prefix(s@, i + 1);
        }
        let id: &str = s[i].0.as_str();
        let n: usize = id.len();
        if total > u64::MAX - 12 || n as u64 > u64::MAX - 12 - total {
            return None;
        }
        total = total + bytes_for_approved_account_id(&s[i].0);
        i = i + 1;
    }
    assert(s@.take(s.len() as int) =~= s@);
    Some(total)
}

proof fn lemma_approvals_bytes_prefix(s: Seq<(String, u64)>, i: int)
    requires
        0 <= i <= s.len(),
    ensures
        approvals_bytes(s.take(i)) <= approvals_bytes(s),
    decreases s.len(),
{
    if i == s.len() {
        assert(s.take(i) =~= s);
    } else {
        assert(s.take(i) =~= s.drop_last().take(i));
        lemma_approvals_bytes_prefix(s.drop_last(), i);
    }
}

} // verus!
