//! Searching, splitting and slicing of byte strings.
use vstd::prelude::*;

verus! {

/// `m` occurs in `h` starting at index `i`.
pub open spec fn occurs_at(h: Seq<u8>, m: Seq<u8>, i: int) -> bool {
    0 <= i && i + m.len() <= h.len() && h.subrange(i, i + m.len()) == m
}

/// The first index at or after `i` where `m` occurs in `h`.
pub open spec fn find_from(h: Seq<u8>, m: Seq<u8>, i: int) -> Option<int>
    decreases h.len() + 1 - i,
{
    if i < 0 || i + m.len() > h.len() {
        None
    } else if occurs_at(h, m, i) {
        Some(i)
    } else {
        find_from(h, m, i + 1)
    }
}

/// The pieces of `h` between the occurrences of a non-empty marker `m`,
/// taken from left to right without overlap.
pub open spec fn split_spec(h: Seq<u8>, m: Seq<u8>) -> Seq<Seq<u8>>
    decreases h.len(),
{
    if m.len() == 0 {
        seq![h]
    } else {
        match find_from(h, m, 0) {
            None => seq![h],
            Some(i) => if 0 <= i && i + m.len() <= h.len() {
                seq![h.subrange(0, i)] + split_spec(h.subrange(i + m.len(), h.len() as int), m)
            } else {
                seq![h]
            },
        }
    }
}

pub proof fn lemma_find_from_bounds(h: Seq<u8>, m: Seq<u8>, i: int)
    requires
        0 <= i,
    ensures
        match find_from(h, m, i) {
            Some(j) => i <= j && occurs_at(h, m, j)
                && forall|k: int| i <= k < j ==> !occurs_at(h, m, k),
            None => forall|k: int| i <= k ==> !occurs_at(h, m, k),
        },
    decreases h.len() + 1 - i,
{
    if i < 0 || i + m.len() > h.len() {
    } else if occurs_at(h, m, i) {
    } else {
        lemma_find_from_bounds(h, m, i + 1);
    }
}

/// Skipping positions where `m` does not occur leaves the search result unchanged.
pub proof fn lemma_find_from_skip(h: Seq<u8>, m: Seq<u8>, i: int, j: int)
    requires
        0 <= i <= j,
        forall|k: int| i <= k < j ==> !occurs_at(h, m, k),
    ensures
        find_from(h, m, i) == find_from(h, m, j),
    decreases j - i,
{
    if i < j {
        if i + m.len() > h.len() {
            lemma_find_from_bounds(h, m, j);
        } else {
            lemma_find_from_skip(h, m, i + 1, j);
        }
    }
}

/// Index of the first occurrence of `m` in `h` at or after `from`.
pub fn find(h: &[u8], m: &[u8], from: usize) -> (r: Option<usize>)
    ensures
        match r {
            Some(j) => find_from(h@, m@, from as int) == Some(j as int),
            None => find_from(h@, m@, from as int) is None,
        },
{
    if m.len() > h.len() {
        proof { lemma_find_from_bounds(h@, m@, from as int); }
        proof {
            assert(find_from(h@, m@, from as int) is None) by {
                assert(from as int + m@.len() > h@.len());
            }
        }
        return None;
    }
    let last: usize = h.len() - m.len();
    let mut i: usize = from;
    while i <= last
        invariant
            from <= i,
            last == h.len() - m.len(),
            m.len() <= h.len(),
            forall|k: int| from <= k < i ==> !occurs_at(h@, m@, k),
        decreases last + 1 - i,
    {
        let mut j: usize = 0;
        let mut same = true;
        while j < m.len()
            invariant
                i <= last,
                last == h.len() - m.len(),
                0 <= j <= m.len(),
                same == (forall|t: int| 0 <= t < j ==> h@[i + t] == m@[t]),
            decreases m.len() - j,
        {
            if h[i + j] != m[j] {
                same = false;
            }
            j = j + 1;
        }
        proof {
            if same {
                assert(h@.subrange(i as int, i + m.len()) =~= m@);
            } else {
                assert(!occurs_at(h@, m@, i as int)) by {
                    if occurs_at(h@, m@, i as int) {
                        assert forall|t: int| 0 <= t < m.len() implies h@[i + t] == m@[t] by {
                            assert(h@.subrange(i as int, i + m.len())[t] == h@[i + t]);
                        }
                    }
                }
            }
        }
        if same {
            proof { lemma_find_from_skip(h@, m@, from as int, i as int); }
            return Some(i);
        }
        i = i + 1;
    }
    proof {
        lemma_find_from_skip(h@, m@, from as int, i as int);
    }
    None
}

/// The bytes of `h` from `start` up to, not including, `end`.
pub fn slice_of(h: &[u8], start: usize, end: usize) -> (r: Vec<u8>)
    requires
        start <= end <= h.len(),
    ensures
        r@ == h@.subrange(start as int, end as int),
{
    let mut r: Vec<u8> = Vec::new();
    let mut i: usize = start;
    while i < end
        invariant
            start <= i <= end <= h.len(),
            r@ == h@.subrange(start as int, i as int),
        decreases end - i,
    {
        r.push(h[i]);
        proof { assert(r@ =~= h@.subrange(start as int, i + 1)); }
        i = i + 1;
    }
    r
}

/// The byte strings that a vector of vectors holds.
pub open spec fn views(v: Seq<Vec<u8>>) -> Seq<Seq<u8>> {
    v.map_values(|x: Vec<u8>| x@)
}

/// Splits `h` on every occurrence of the non-empty marker `m`.
pub fn split(h: &[u8], m: &[u8]) -> (r: Vec<Vec<u8>>)
    requires
        m@.len() > 0,
    ensures
        views(r@) == split_spec(h@, m@),
{
    let mut pieces: Vec<Vec<u8>> = Vec::new();
    let mut rest: Vec<u8> = slice_of(h, 0, h.len());
    proof { assert(h@.subrange(0, h@.len() as int) =~= h@); }
    loop
        invariant
            m@.len() > 0,
            views(pieces@) + split_spec(rest@, m@) == split_spec(h@, m@),
        decreases rest@.len(),
    {
        let found = find(rest.as_slice(), m, 0);
        proof { lemma_find_from_bounds(rest@, m@, 0); }
        match found {
            None => {
                let ghost before = views(pieces@);
                let ghost last = rest@;
                assert(split_spec(rest@, m@) == seq![last]);
                pieces.push(rest);
                proof { assert(views(pieces@) =~= before.push(last)); assert(before + seq![last] =~= before.push(last)); }
                return pieces;
            },
            Some(j) => {
                let piece = slice_of(rest.as_slice(), 0, j);
                let next = slice_of(rest.as_slice(), j + m.len(), rest.len());
                let ghost before = views(pieces@);
                assert(occurs_at(rest@, m@, j as int));
                let ghost tail = split_spec(next@, m@);
                assert(split_spec(rest@, m@) == seq![piece@] + tail);
                pieces.push(piece);
                proof {
                    assert(views(pieces@) =~= before.push(piece@));
                    assert(before + (seq![piece@] + tail) =~= before.push(piece@) + tail);
                }
                rest = next;
            },
        }
    }
}

/// The part of `h` before its first byte `c`, and the part after it.
pub open spec fn split_once_spec(h: Seq<u8>, c: u8) -> Option<(Seq<u8>, Seq<u8>)> {
    match find_from(h, seq![c], 0) {
        Some(i) => Some((h.subrange(0, i), h.subrange(i + 1, h.len() as int))),
        None => None,
    }
}

/// Splits `h` once, at its first byte `c`.
pub fn split_once(h: &[u8], c: u8) -> (r: Option<(Vec<u8>, Vec<u8>)>)
    ensures
        match (r, split_once_spec(h@, c)) {
            (Some((a, b)), Some((sa, sb))) => a@ == sa && b@ == sb,
            (None, None) => true,
            _ => false,
        },
{
    let sep: Vec<u8> = vec![c];
    proof { assert(sep@ =~= seq![c]); }
    let found = find(h, sep.as_slice(), 0);
    proof { lemma_find_from_bounds(h@, sep@, 0); }
    match found {
        Some(i) => {
            assert(occurs_at(h@, sep@, i as int));
            let n: usize = h.len();
            assert(i + 1 <= n);
            Some((slice_of(h, 0, i), slice_of(h, i + 1, n)))
        },
        None => None,
    }
}

/// `h` without its first and last byte, where it has at least two.
pub open spec fn unquote_spec(h: Seq<u8>) -> Option<Seq<u8>> {
    if h.len() >= 2 {
        Some(h.subrange(1, h.len() - 1))
    } else {
        None
    }
}

/// Drops the wrapping quote characters of `h`.
pub fn unquote(h: &[u8]) -> (r: Option<Vec<u8>>)
    ensures
        r.is_some() == unquote_spec(h@).is_some(),
        r.is_some() ==> r.unwrap()@ == unquote_spec(h@).unwrap(),
{
    if h.len() >= 2 {
        Some(slice_of(h, 1, h.len() - 1))
    } else {
        None
    }
}

/// The value of a field: what follows the first occurrence of `key` in `h`,
/// up to the first `stop` after it.
pub open spec fn field_spec(h: Seq<u8>, key: Seq<u8>, stop: Seq<u8>) -> Option<Seq<u8>> {
    match find_from(h, key, 0) {
        Some(i) => match find_from(h, stop, i + key.len()) {
            Some(e) => Some(h.subrange(i + key.len(), e)),
            None => None,
        },
        None => None,
    }
}

/// Reads the field that `key` opens and `stop` closes.
pub fn field(h: &[u8], key: &[u8], stop: &[u8]) -> (r: Option<Vec<u8>>)
    ensures
        r.is_some() == field_spec(h@, key@, stop@).is_some(),
        r.is_some() ==> r.unwrap()@ == field_spec(h@, key@, stop@).unwrap(),
{
    let found = find(h, key, 0);
    proof { lemma_find_from_bounds(h@, key@, 0); }
    match found {
        None => None,
        Some(i) => {
            assert(occurs_at(h@, key@, i as int));
            let n: usize = h.len();
            assert(i + key@.len() <= n);
            let s: usize = i + key.len();
            let e = find(h, stop, s);
            proof { lemma_find_from_bounds(h@, stop@, s as int); }
            match e {
                None => None,
                Some(e) => Some(slice_of(h, s, e)),
            }
        },
    }
}

} // verus!
