//! Pages of a list, counted from 1.
use vstd::prelude::*;

use crate::envelope::Envelope;

verus! {

/// A page number; no page is page 1, and so is page 0.
pub open spec fn page_number(page: Option<u32>) -> int {
    match page {
        Some(n) => if n == 0 {
            1
        } else {
            n as int
        },
        None => 1,
    }
}

/// Where a page begins in its list.
pub open spec fn page_start(page: Option<u32>, page_size: Option<u32>) -> int {
    match page_size {
        Some(size) => (page_number(page) - 1) * size,
        None => 0,
    }
}

/// One page of a list, in the order of the list; without a page size, the
/// whole list.
pub open spec fn page_of<T>(list: Seq<T>, page: Option<u32>, page_size: Option<u32>) -> Seq<T> {
    let start = page_start(page, page_size);
    if start >= list.len() {
        seq![]
    } else {
        match page_size {
            Some(size) => if start + size < list.len() {
                list.subrange(start, start + size)
            } else {
                list.subrange(start, list.len() as int)
            },
            None => list.subrange(start, list.len() as int),
        }
    }
}

/// The bounds of a page in a list of `total` items; the same number twice
/// for a page with nothing on it.
pub fn page_bounds(total: usize, page: Option<u32>, page_size: Option<u32>) -> (r: (usize, usize))
    ensures
        r.0 <= r.1 <= total,
        page_start(page, page_size) >= total ==> r.0 == r.1,
        page_start(page, page_size) < total ==> r.0 == page_start(page, page_size) && r.1 == (
        match page_size {
            Some(size) => if r.0 + size < total {
                r.0 + size
            } else {
                total as int
            },
            None => total as int,
        }),
{
    let number: u32 = match page {
        Some(n) if n > 0 => n,
        _ => 1,
    };
    let size: u32 = match page_size {
        Some(size) => size,
        None => 0,
    };
    proof {
        assert(0 <= (number - 1) * size <= 0xffff_ffff * 0xffff_ffff) by (nonlinear_arith)
            requires
                0 <= number - 1 <= 0xffff_ffff,
                0 <= size <= 0xffff_ffff,
        ;
        assert(page_start(page, page_size) == (number - 1) * size);
    }
    let start: u64 = (number as u64 - 1) * (size as u64);
    if start >= total as u64 {
        return (total, total);
    }
    let start: usize = start as usize;
    let end: usize = match page_size {
        Some(n) => if (n as u64) < (total - start) as u64 {
            start + n as usize
        } else {
            total
        },
        None => total,
    };
    (start, end)
}

/// Slices `uids` for `(page, page_size)`, preserving their order.
pub fn paginate_uids(uids: &[u32], page: Option<u32>, page_size: Option<u32>) -> (r: Vec<u32>)
    ensures
        r@ == page_of(uids@, page, page_size),
{
    let (start, end) = page_bounds(uids.len(), page, page_size);
    let mut out: Vec<u32> = Vec::new();
    let mut i: usize = start;
    while i < end
        invariant
            start <= i <= end <= uids@.len(),
            out@ == uids@.subrange(start as int, i as int),
        decreases end - i,
    {
        proof {
            assert(uids@.subrange(start as int, i + 1) =~= uids@.subrange(
                start as int,
                i as int,
            ).push(uids@[i as int]));
        }
        out.push(uids[i]);
        i = i + 1;
    }
    proof {
        assert(out@ =~= page_of(uids@, page, page_size));
    }
    out
}

/// The pages of one size up to a page, put together, are the beginning of
/// the list: nothing is left out, nothing comes twice, and the order stays.
pub proof fn law_pages_cover<T>(list: Seq<T>, size: u32, n: u32)
    requires
        size > 0,
    ensures
        pages_up_to(list, size, n as nat) == list.subrange(
            0,
            if n * size < list.len() {
                n * size
            } else {
                list.len() as int
            },
        ),
    decreases n,
{
    if n == 0 {
        assert(list.subrange(0, 0) =~= seq![]);
    } else {
        let m = (n - 1) as u32;
        law_pages_cover(list, size, m);
        assert(n * size == m * size + size) by (nonlinear_arith)
            requires
                m == n - 1,
        ;
        assert(m * size >= 0) by (nonlinear_arith)
            requires
                m >= 0,
                size >= 0,
        ;
        let page = page_of(list, Some(n), Some(size));
        assert(page_start(Some(n), Some(size)) == m * size);
        assert(pages_up_to(list, size, n as nat) =~= list.subrange(
            0,
            if n * size < list.len() {
                n * size
            } else {
                list.len() as int
            },
        ));
    }
}

/// The pages 1 to `n`, one after the other.
pub open spec fn pages_up_to<T>(list: Seq<T>, size: u32, n: nat) -> Seq<T>
    decreases n,
{
    if n == 0 {
        seq![]
    } else {
        pages_up_to(list, size, (n - 1) as nat) + page_of(list, Some(n as u32), Some(size))
    }
}

/// One page of envelopes.
pub fn paginate(envelopes: &Vec<Envelope>, page: Option<u32>, page_size: Option<u32>) -> (r: Vec<Envelope>)
    ensures
        r.deep_view() == page_of(envelopes.deep_view(), page, page_size),
{
    let (start, end) = page_bounds(envelopes.len(), page, page_size);
    let ghost all = envelopes.deep_view();
    let mut out: Vec<Envelope> = Vec::new();
    let mut i: usize = start;
    while i < end
        invariant
            start <= i <= end <= envelopes@.len(),
            all == envelopes.deep_view(),
            out@.len() == i - start,
            forall|j: int| 0 <= j < i - start ==> (#[trigger] out@[j]).deep_view() == all[start + j],
        decreases end - i,
    {
        out.push(envelopes[i].clone());
        i = i + 1;
    }
    proof {
        assert(out.deep_view() =~= page_of(all, page, page_size));
    }
    out
}

/// No page number, and the number zero, stand for the first page; without a
/// page size there is one page, which is the whole list.
pub proof fn law_first_page_by_default<T>(list: Seq<T>, page_size: Option<u32>)
    ensures
        page_of(list, None, page_size) == page_of(list, Some(1), page_size),
        page_of(list, Some(0), page_size) == page_of(list, Some(1), page_size),
        forall|page: Option<u32>| #[trigger] page_of(list, page, None) == list,
{
    assert(list.subrange(0, list.len() as int) =~= list);
    assert forall|page: Option<u32>| #[trigger] page_of(list, page, None) == list by {
        if list.len() == 0 {
            assert(list =~= seq![]);
        }
    }
}

/// An item of the list stands on exactly one page, and there in the place
/// that is left over by the pages before.
pub proof fn law_item_stands_on_its_page<T>(list: Seq<T>, size: u32, page: u32, k: int)
    requires
        size > 0,
        page >= 1,
        0 <= k < list.len(),
        k / (size as int) == page - 1,
    ensures
        page_of(list, Some(page), Some(size)).len() > k % (size as int),
        page_of(list, Some(page), Some(size))[k % (size as int)] == list[k],
        page_of(list, Some(page), Some(size)).len() <= size,
{
    let s = size as int;
    let start = page_start(Some(page), Some(size));
    assert(k == (page - 1) * s + k % s && 0 <= k % s < s) by (nonlinear_arith)
        requires
            s > 0,
            k / s == page - 1,
            k >= 0,
    ;
    assert((page - 1) * s >= 0) by (nonlinear_arith)
        requires
            page >= 1,
            s > 0,
    ;
    assert(start == (page - 1) * s);
}

} // verus!
