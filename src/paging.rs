use vstd::prelude::*;

verus! {

/// Where page `current` (counted from 1) of size `page_size` starts in a
/// listing of `len` entries.
pub open spec fn page_start(len: int, current: int, page_size: int) -> int {
    let off = (current - 1) * page_size;
    if off < len {
        off
    } else {
        len
    }
}

/// Where that page ends.
pub open spec fn page_end(len: int, current: int, page_size: int) -> int {
    let s = page_start(len, current, page_size);
    if s + page_size < len {
        s + page_size
    } else {
        len
    }
}

/// The entries of page `current`: those after the first
/// `(current - 1) * page_size`, at most `page_size` of them.
pub open spec fn page_spec(entries: Seq<String>, current: int, page_size: int) -> Seq<String> {
    entries.subrange(
        page_start(entries.len() as int, current, page_size),
        page_end(entries.len() as int, current, page_size),
    )
}

/// Pages `1..=n` one after the other.
pub open spec fn pages_concat(entries: Seq<String>, page_size: int, n: nat) -> Seq<String>
    decreases n,
{
    if n == 0 {
        Seq::empty()
    } else {
        pages_concat(entries, page_size, (n - 1) as nat) + page_spec(entries, n as int, page_size)
    }
}

/// The number of pages that a listing of `len` entries fills.
pub open spec fn page_count(len: nat, page_size: nat) -> nat
    recommends
        page_size >= 1,
{
    ((len + page_size - 1) / page_size as int) as nat
}

proof fn lemma_pages_prefix(entries: Seq<String>, page_size: int, n: nat)
    requires
        page_size >= 1,
    ensures
        pages_concat(entries, page_size, n) == entries.subrange(
            0,
            if n * page_size < entries.len() {
                n * page_size
            } else {
                entries.len() as int
            },
        ),
    decreases n,
{
    let len = entries.len() as int;
    if n == 0 {
        assert(entries.subrange(0, 0) =~= Seq::<String>::empty());
    } else {
        lemma_pages_prefix(entries, page_size, (n - 1) as nat);
        assert((n - 1) * page_size + page_size == n * page_size) by (nonlinear_arith);
        assert(((n - 1) as nat) * page_size == (n - 1) * page_size);
        let prev = if (n - 1) * page_size < len {
            (n - 1) * page_size
        } else {
            len
        };
        assert(page_start(len, n as int, page_size) == prev);
        assert(pages_concat(entries, page_size, n) =~= entries.subrange(0, prev)
            + entries.subrange(prev, page_end(len, n as int, page_size)));
        assert(pages_concat(entries, page_size, n) =~= entries.subrange(
            0,
            if n * page_size < len {
                n * page_size
            } else {
                len
            },
        ));
    }
}

/// Reading pages `1..=ceil(M / page_size)` of a listing of `M` entries, one
/// after the other, gives back every entry once, in listing order.
pub proof fn lemma_pages_cover_listing(entries: Seq<String>, page_size: nat)
    requires
        page_size >= 1,
    ensures
        pages_concat(entries, page_size as int, page_count(entries.len(), page_size)) == entries,
{
    let len = entries.len();
    let n = page_count(len, page_size);
    lemma_pages_prefix(entries, page_size as int, n);
    assert(n * page_size >= len) by (nonlinear_arith)
        requires
            n == ((len + page_size - 1) / page_size as int) as nat,
            page_size >= 1,
    ;
    assert(entries.subrange(0, len as int) =~= entries);
}

/// A page that starts at or past the end of the listing is empty.
pub proof fn lemma_page_past_end(entries: Seq<String>, current: int, page_size: int)
    requires
        current >= 1,
        page_size >= 0,
        (current - 1) * page_size >= entries.len(),
    ensures
        page_spec(entries, current, page_size) == Seq::<String>::empty(),
{
    assert(page_spec(entries, current, page_size) =~= Seq::<String>::empty());
}

/// The entries of page `current` of `entries`, copied in listing order.
pub fn page_entries(entries: &Vec<String>, current: usize, page_size: usize) -> (r: Vec<String>)
    requires
        current >= 1,
    ensures
        r@ == page_spec(entries@, current as int, page_size as int),
{
    let len = entries.len();
    let a: u128 = (current - 1) as u128;
    let b: u128 = page_size as u128;
    assert(a * b <= u64::MAX as u128 * u64::MAX as u128) by (nonlinear_arith)
        requires
            a <= u64::MAX,
            b <= u64::MAX,
    ;
    let off: u128 = a * b;
    let start: usize = if off < len as u128 {
        off as usize
    } else {
        len
    };
    let end: usize = if (start as u128) + (page_size as u128) < len as u128 {
        start + page_size
    } else {
        len
    };
    let mut r: Vec<String> = Vec::new();
    let mut i: usize = start;
    while i < end
        invariant
            start <= i <= end,
            end <= entries@.len(),
            r@ == entries@.subrange(start as int, i as int),
        decreases end - i,
    {
        r.push(entries[i].clone());
        assert(r@ =~= entries@.subrange(start as int, i + 1));
        i += 1;
    }
    assert(start == page_start(len as int, current as int, page_size as int));
    assert(end == page_end(len as int, current as int, page_size as int));
    r
}

} // verus!
