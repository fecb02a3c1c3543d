use crate::error::{lemma_ok_unit, Error, ErrorKind};
use crate::traits::{
    emplaced, lemma_splice, splice, write_bytes, Emplacer, Flat, FlatBase, FlatDefault, FlatLen, FlatSized,
    FlatUnsized, FlatValidate,
};
use crate::utils::{
    ceil_mul, floor_mul, lemma_ceil_mul, lemma_floor_mul, lemma_max_pow2, lemma_pow2_divides,
    lemma_mod_sum, lemma_mod_trans, lemma_rounding_laws, max, min, spec_ceil_mul, spec_floor_mul,
};
use crate::vec::{spec_max, spec_min};
use core::marker::PhantomData;
use vstd::arithmetic::div_mod::{lemma_div_pos_is_pos, lemma_fundamental_div_mod};
use vstd::arithmetic::mul::{lemma_mul_inequality, lemma_mul_is_commutative};
use vstd::arithmetic::power2::is_pow2;
use vstd::prelude::*;
use vstd::slice::slice_subrange;

verus! {

/// Error of removing an item from an empty collection.
#[derive(Clone, Copy, Debug, PartialEq, Eq, Structural)]
pub struct EmptyError;

/// Growable flat vector of possibly unsized items.
///
/// Each item is preceded by a link of type `L`, [`FlexVec::offset_size`] bytes wide, that
/// tells how far the next link is. A zero link ends the vector; the largest value of `L`
/// marks the last item, which extends to the end of the memory.
///
/// ```text
///    +-----------------+                 +---------------+
///    |                 v                 |               v
/// [next0][data0][..][next1][data1][..][next2][data2][..][0]
/// ```
pub struct FlexVec<T: FlatUnsized, L: FlatLen = u32> {
    mem: Vec<u8>,
    _phantom: PhantomData<(T, L)>,
}

/// One link of the chain, read at some position: no item (the chain ends there), an error,
/// or the bounds of an item and whether it is the last one.
pub open spec fn spec_link_of(r: Option<Result<(usize, usize, bool), Error>>) -> Option<
    Result<(int, int, bool), Error>,
> {
    match r {
        None => None,
        Some(Err(e)) => Some(Err(e)),
        Some(Ok((s, e, last))) => Some(Ok((s as int, e as int, last))),
    }
}

/// `items` put in front of the items of a scan result.
pub open spec fn spec_prepend(
    items: Seq<(int, int)>,
    r: Result<(Seq<(int, int)>, Option<int>), Error>,
) -> Result<(Seq<(int, int)>, Option<int>), Error> {
    match r {
        Ok((rest, end)) => Ok((items + rest, end)),
        Err(e) => Err(e),
    }
}

impl<T: FlatUnsized, L: FlatLen> FlexVec<T, L> {
    /// Width of a link: room for an `L`, aligned for the items.
    pub open spec fn spec_offset_size() -> nat {
        spec_max(L::spec_size_of(), T::spec_align())
    }

    /// Alignment of the vector: that of the links and of the items.
    pub open spec fn spec_flex_align() -> nat {
        spec_max(L::spec_align(), T::spec_align())
    }

    /// What reading the link at `pos` gives.
    pub open spec fn spec_step(mem: Seq<u8>, pos: int) -> Option<Result<(int, int, bool), Error>> {
        let ls = L::spec_size_of() as int;
        let os = Self::spec_offset_size() as int;
        if pos % (L::spec_align() as int) != 0 {
            Some(Err(Error { kind: ErrorKind::BadAlign, pos: pos as usize }))
        } else if pos + ls > mem.len() {
            Some(Err(Error { kind: ErrorKind::InsufficientSize, pos: pos as usize }))
        } else {
            let lb = mem.subrange(pos, pos + ls);
            match L::spec_validate(lb) {
                Err(e) => Some(Err(e.spec_offset(pos))),
                Ok(_) => {
                    let off = L::spec_from_bytes(lb).spec_value() as int;
                    if off == 0 {
                        None
                    } else if os > off {
                        Some(Err(Error { kind: ErrorKind::InsufficientSize, pos: (pos + os) as usize }))
                    } else if off == L::spec_max() {
                        if pos + os > mem.len() {
                            Some(Err(Error { kind: ErrorKind::InsufficientSize, pos: pos as usize }))
                        } else {
                            Some(Ok((pos + os, mem.len() as int, true)))
                        }
                    } else if pos + off > mem.len() {
                        Some(Err(Error { kind: ErrorKind::InsufficientSize, pos: pos as usize }))
                    } else {
                        Some(Ok((pos + os, pos + off, false)))
                    }
                },
            }
        }
    }

    /// Whether `mem[s..e]` holds a valid item (aligned, large enough, valid contents); an
    /// error is placed in the memory of the vector, from the start of the item on.
    pub open spec fn spec_check_item(mem: Seq<u8>, s: int, e: int) -> Result<(), Error> {
        if s % (T::spec_align() as int) != 0 {
            Err(Error { kind: ErrorKind::BadAlign, pos: s as usize })
        } else if e - s < T::spec_min_size() {
            Err(Error { kind: ErrorKind::InsufficientSize, pos: s as usize })
        } else {
            match T::spec_validate(mem.subrange(s, e)) {
                Ok(()) => Ok(()),
                Err(x) => Err(x.spec_offset(s)),
            }
        }
    }

    /// Follow the chain from `pos`: the bounds of each item and where the ending zero link
    /// is (none when the last item is marked as such), or the first error.
    pub open spec fn spec_scan(mem: Seq<u8>, pos: int) -> Result<(Seq<(int, int)>, Option<int>), Error>
        decreases mem.len() - pos,
    {
        match Self::spec_step(mem, pos) {
            None => Ok((Seq::empty(), Some(pos))),
            Some(Err(e)) => Err(e),
            Some(Ok((s, e, last))) => match Self::spec_check_item(mem, s, e) {
                Err(x) => Err(x),
                Ok(_) => if last {
                    Ok((seq![(s, e)], None))
                } else {
                    spec_prepend(seq![(s, e)], Self::spec_scan(mem, e))
                },
            },
        }
    }

    /// The regular (not last) items met following the chain from `pos` to `p`, if it gets
    /// there.
    pub open spec fn spec_walk(mem: Seq<u8>, pos: int, p: int) -> Option<Seq<(int, int)>>
        decreases mem.len() - pos,
    {
        if pos == p {
            Some(Seq::empty())
        } else {
            match Self::spec_step(mem, pos) {
                Some(Ok((s, e, last))) => if !last && pos < e <= p && Self::spec_check_item(
                    mem,
                    s,
                    e,
                ) is Ok {
                    match Self::spec_walk(mem, e, p) {
                        Some(items) => Some(seq![(s, e)] + items),
                        None => None,
                    }
                } else {
                    None
                },
                _ => None,
            }
        }
    }

    /// The prefix of `bytes` that the vector occupies.
    pub open spec fn spec_used(bytes: Seq<u8>) -> Seq<u8> {
        bytes.take(spec_floor_mul(bytes.len() as int, Self::spec_flex_align() as int))
    }

    /// Bytes of item `(s, e)` that the item uses.
    pub open spec fn spec_content(mem: Seq<u8>, item: (int, int)) -> Seq<u8> {
        let r = mem.subrange(item.0, item.1);
        r.take(T::spec_size(r) as int)
    }

    /// Memory that an instance made from item `i` occupies.
    pub open spec fn spec_item_mem(&self, i: int) -> Seq<u8> {
        let it = self.spec_items()[i];
        self.spec_bytes().subrange(it.0, it.1).take(T::spec_mem_len((it.1 - it.0) as nat) as int)
    }

    /// Memory of the vector.
    pub closed spec fn spec_bytes(&self) -> Seq<u8> {
        self.mem@
    }

    /// Bounds of the items of the vector.
    pub open spec fn spec_items(&self) -> Seq<(int, int)> {
        Self::spec_scan(self.spec_bytes(), 0)->Ok_0.0
    }

    /// The used bytes of each item.
    pub open spec fn view(&self) -> Seq<Seq<u8>> {
        Self::spec_contents(self.spec_bytes())
    }

    /// The used bytes of each item of the vector that `mem` holds.
    pub open spec fn spec_contents(mem: Seq<u8>) -> Seq<Seq<u8>> {
        Self::spec_scan(mem, 0)->Ok_0.0.map_values(|it: (int, int)| Self::spec_content(mem, it))
    }

    /// `mem` is the memory of a valid vector.
    pub open spec fn spec_valid_mem(mem: Seq<u8>) -> bool {
        &&& T::spec_layout_ok()
        &&& L::spec_layout_ok()
        &&& Self::spec_offset_size() <= mem.len() <= isize::MAX
        &&& mem.len() % Self::spec_flex_align() == 0
        &&& Self::spec_scan(mem, 0) is Ok
    }

    /// Position of the link that ends the chain of `mem`: the ending zero link, or the link
    /// of the last item.
    pub open spec fn spec_end_link(mem: Seq<u8>) -> int {
        let (items, t) = Self::spec_scan(mem, 0)->Ok_0;
        match t {
            Some(q) => q,
            None => items.last().0 - Self::spec_offset_size(),
        }
    }

    /// Where the link of a pushed item goes: at the ending link, or past the used bytes of
    /// the last item, aligned.
    pub open spec fn spec_push_pos(mem: Seq<u8>) -> int {
        let (items, t) = Self::spec_scan(mem, 0)->Ok_0;
        match t {
            Some(q) => q,
            None => items.last().0 + spec_ceil_mul(
                T::spec_size(mem.subrange(items.last().0, items.last().1)) as int,
                Self::spec_flex_align() as int,
            ),
        }
    }

    /// Whether an item can be pushed onto the vector that `mem` holds, before its emplacer
    /// runs: the length type must count one more item and link to it, and the rest of the
    /// memory must be aligned and hold a link and the smallest item.
    pub open spec fn spec_push_check(mem: Seq<u8>) -> Result<(), Error> {
        let (items, t) = Self::spec_scan(mem, 0)->Ok_0;
        let p = Self::spec_end_link(mem);
        let q = Self::spec_push_pos(mem);
        let os = Self::spec_offset_size() as int;
        if items.len() >= L::spec_max() {
            Err(Error { kind: ErrorKind::InsufficientSize, pos: p as usize })
        } else if os > L::spec_max() {
            Err(Error { kind: ErrorKind::InsufficientSize, pos: p as usize })
        } else if t is None && q - p >= L::spec_max() {
            Err(Error { kind: ErrorKind::InsufficientSize, pos: p as usize })
        } else if q % (Self::spec_flex_align() as int) != 0 {
            Err(Error { kind: ErrorKind::BadAlign, pos: q as usize })
        } else if q + os + T::spec_min_size() > mem.len() {
            Err(Error { kind: ErrorKind::InsufficientSize, pos: q as usize })
        } else {
            Ok(())
        }
    }

    /// `mem` with the vector that it holds cut down to its first `n` items: a zero link
    /// replaces the link of item `n`, if there is such an item.
    pub open spec fn spec_truncate_bytes(mem: Seq<u8>, n: nat) -> Seq<u8> {
        let items = Self::spec_scan(mem, 0)->Ok_0.0;
        if n < items.len() {
            let p = items[n as int].0 - Self::spec_offset_size();
            splice(mem, p, p + L::spec_size_of(), L::spec_from_value(0).spec_to_bytes())
        } else {
            mem
        }
    }

    /// The memory that a pushed item is emplaced into.
    pub open spec fn spec_free_region(mem: Seq<u8>) -> Seq<u8> {
        mem.subrange(Self::spec_push_pos(mem) + Self::spec_offset_size(), mem.len() as int)
    }

    /// `mem` after an item whose emplacer turned the free region into `region` is pushed:
    /// the item is linked as the last one and the former last item gets a regular link.
    pub open spec fn spec_push_bytes(mem: Seq<u8>, region: Seq<u8>) -> Seq<u8> {
        let t = Self::spec_scan(mem, 0)->Ok_0.1;
        let p = Self::spec_end_link(mem);
        let q = Self::spec_push_pos(mem);
        let os = Self::spec_offset_size() as int;
        let ls = L::spec_size_of() as int;
        let m_e = splice(mem, q + os, mem.len() as int, region);
        let m_q = splice(m_e, q, q + ls, L::spec_from_value(L::spec_max()).spec_to_bytes());
        match t {
            Some(_) => m_q,
            None => splice(m_q, p, p + ls, L::spec_from_value((q - p) as nat).spec_to_bytes()),
        }
    }

    /// A walk only moves forward, and stays in the memory.
    proof fn lemma_walk_bounds(mem: Seq<u8>, pos: int, p: int)
        requires
            Self::spec_walk(mem, pos, p) is Some,
        ensures
            pos <= p,
            pos < p ==> p <= mem.len(),
            Self::spec_walk(mem, pos, p)->0.len() <= p - pos,
            ({
                let w = Self::spec_walk(mem, pos, p)->0;
                forall|k: int|
                    0 <= k < w.len() ==> {
                        &&& pos < w[k].1 <= p
                        &&& pos <= w[k].0 <= w[k].1
                        &&& Self::spec_check_item(mem, w[k].0, w[k].1) is Ok
                    }
            }),
        decreases mem.len() - pos,
    {
        if pos != p {
            let (s, e, last) = Self::spec_step(mem, pos)->0->Ok_0;
            Self::lemma_walk_bounds(mem, e, p);
            let w = Self::spec_walk(mem, pos, p)->0;
            let w2 = Self::spec_walk(mem, e, p)->0;
            assert(w == seq![(s, e)] + w2);
            assert forall|k: int| 0 <= k < w.len() implies {
                &&& pos < w[k].1 <= p
                &&& pos <= w[k].0 <= w[k].1
                &&& Self::spec_check_item(mem, w[k].0, w[k].1) is Ok
            } by {
                if k > 0 {
                    assert(w[k] == w2[k - 1]);
                } else {
                    assert(w[k] == (s, e));
                }
            }
        }
    }

    /// Following the chain from `pos` is following it to `p`, then from `p` on.
    proof fn lemma_walk_scan(mem: Seq<u8>, pos: int, p: int)
        requires
            Self::spec_walk(mem, pos, p) is Some,
        ensures
            Self::spec_scan(mem, pos) == spec_prepend(
                Self::spec_walk(mem, pos, p)->0,
                Self::spec_scan(mem, p),
            ),
        decreases mem.len() - pos,
    {
        let w = Self::spec_walk(mem, pos, p)->0;
        if pos == p {
            match Self::spec_scan(mem, p) {
                Ok((rest, t)) => {
                    assert(w + rest =~= rest);
                },
                Err(_) => {},
            }
        } else {
            let (s, e, last) = Self::spec_step(mem, pos)->0->Ok_0;
            Self::lemma_walk_scan(mem, e, p);
            let w2 = Self::spec_walk(mem, e, p)->0;
            match Self::spec_scan(mem, p) {
                Ok((rest, t)) => {
                    assert(seq![(s, e)] + (w2 + rest) =~= (seq![(s, e)] + w2) + rest);
                },
                Err(_) => {},
            }
        }
    }

    /// A walk to `p` goes on over the regular item at `p`.
    proof fn lemma_walk_extend(mem: Seq<u8>, pos: int, p: int)
        requires
            Self::spec_walk(mem, pos, p) is Some,
            Self::spec_step(mem, p) matches Some(Ok((s, e, last))) && !last && p < e
                && Self::spec_check_item(mem, s, e) is Ok,
        ensures
            ({
                let (s, e, last) = Self::spec_step(mem, p)->0->Ok_0;
                Self::spec_walk(mem, pos, e) == Some(Self::spec_walk(mem, pos, p)->0.push((s, e)))
            }),
        decreases mem.len() - pos,
    {
        let (s, e, last) = Self::spec_step(mem, p)->0->Ok_0;
        Self::lemma_walk_bounds(mem, pos, p);
        if pos == p {
            assert(Self::spec_walk(mem, e, e) == Some(Seq::<(int, int)>::empty()));
            assert(seq![(s, e)] + Seq::<(int, int)>::empty() =~= Seq::<(int, int)>::empty().push(
                (s, e),
            ));
        } else {
            let (s1, e1, last1) = Self::spec_step(mem, pos)->0->Ok_0;
            Self::lemma_walk_extend(mem, e1, p);
            Self::lemma_walk_bounds(mem, e1, p);
            let w2 = Self::spec_walk(mem, e1, p)->0;
            assert(seq![(s1, e1)] + w2.push((s, e)) =~= (seq![(s1, e1)] + w2).push((s, e)));
        }
    }

    /// A walk to `p` only depends on the bytes before `p`.
    proof fn lemma_walk_frame(m1: Seq<u8>, m2: Seq<u8>, pos: int, p: int)
        requires
            Self::spec_walk(m1, pos, p) is Some,
            0 <= pos,
            p <= m2.len(),
            forall|i: int| 0 <= i < p ==> m1[i] == m2[i],
        ensures
            Self::spec_walk(m2, pos, p) == Self::spec_walk(m1, pos, p),
        decreases m1.len() - pos,
    {
        Self::lemma_walk_bounds(m1, pos, p);
        if pos != p {
            let (s, e, last) = Self::spec_step(m1, pos)->0->Ok_0;
            let ls = L::spec_size_of() as int;
            assert(ls <= Self::spec_offset_size());
            assert(pos + ls <= e <= p);
            assert(m1.subrange(pos, pos + ls) =~= m2.subrange(pos, pos + ls));
            assert(Self::spec_step(m2, pos) == Self::spec_step(m1, pos));
            assert(m1.subrange(s, e) =~= m2.subrange(s, e));
            assert(Self::spec_check_item(m2, s, e) == Self::spec_check_item(m1, s, e));
            Self::lemma_walk_frame(m1, m2, e, p);
        }
    }

    /// A successful scan is a walk to its ending link (or to the link of the last item).
    proof fn lemma_scan_walk(mem: Seq<u8>, pos: int)
        requires
            0 <= pos,
            Self::spec_scan(mem, pos) is Ok,
        ensures
            ({
                let (w, t) = Self::spec_scan(mem, pos)->Ok_0;
                match t {
                    Some(q) => {
                        &&& Self::spec_walk(mem, pos, q) == Some(w)
                        &&& Self::spec_step(mem, q) is None
                        &&& pos <= q
                        &&& q + L::spec_size_of() <= mem.len()
                    },
                    None => {
                        let p = w.last().0 - Self::spec_offset_size();
                        &&& w.len() > 0
                        &&& Self::spec_walk(mem, pos, p) == Some(w.drop_last())
                        &&& Self::spec_step(mem, p) == Some(
                            Ok::<(int, int, bool), Error>((w.last().0, w.last().1, true)),
                        )
                        &&& Self::spec_check_item(mem, w.last().0, w.last().1) is Ok
                        &&& pos <= p
                    },
                }
            }),
        decreases mem.len() - pos,
    {
        match Self::spec_step(mem, pos) {
            None => {},
            Some(Err(_)) => {},
            Some(Ok((s, e, last))) => {
                if last {
                    let w = Self::spec_scan(mem, pos)->Ok_0.0;
                    assert(w.drop_last() =~= Seq::<(int, int)>::empty());
                } else {
                    Self::lemma_scan_walk(mem, e);
                    let (w2, t2) = Self::spec_scan(mem, e)->Ok_0;
                    let w = Self::spec_scan(mem, pos)->Ok_0.0;
                    assert(w == seq![(s, e)] + w2);
                    match t2 {
                        Some(q) => {},
                        None => {
                            assert(w.drop_last() =~= seq![(s, e)] + w2.drop_last());
                            assert(w.last() == w2.last());
                        },
                    }
                }
            },
        }
    }

    /// Errors of a scan point no further than the length of the memory past its end.
    proof fn lemma_scan_err(mem: Seq<u8>, pos: int)
        requires
            T::spec_layout_ok(),
            L::spec_layout_ok(),
            0 <= pos <= mem.len() <= isize::MAX,
            Self::spec_offset_size() <= mem.len(),
        ensures
            Self::spec_scan(mem, pos) matches Err(e) ==> e.pos <= 2 * mem.len(),
        decreases mem.len() - pos,
    {
        Self::lemma_flex_layout();
        let ls = L::spec_size_of() as int;
        if pos % (L::spec_align() as int) == 0 && pos + ls <= mem.len() {
            let lb = mem.subrange(pos, pos + ls);
            L::lemma_sized_layout(lb);
            L::lemma_error_pos(lb);
        }
        match Self::spec_step(mem, pos) {
            Some(Ok((s, e, last))) => {
                if s % (T::spec_align() as int) == 0 && e - s >= T::spec_min_size() {
                    T::lemma_error_pos(mem.subrange(s, e));
                }
                if !last {
                    Self::lemma_scan_err(mem, e);
                }
            },
            _ => {},
        }
    }

    /// A link of the largest value at `q`, followed by a valid item up to the end of the
    /// memory, is the last item.
    proof fn lemma_last_link(m: Seq<u8>, q: int)
        requires
            T::spec_layout_ok(),
            L::spec_layout_ok(),
            m.len() <= isize::MAX,
            0 <= q,
            q % (Self::spec_flex_align() as int) == 0,
            q + Self::spec_offset_size() + T::spec_min_size() <= m.len(),
            0 < L::spec_max(),
            Self::spec_offset_size() <= L::spec_max(),
            m.subrange(q, q + L::spec_size_of()) == L::spec_from_value(L::spec_max()).spec_to_bytes(),
            T::spec_validate(m.subrange(q + Self::spec_offset_size(), m.len() as int)) is Ok,
        ensures
            Self::spec_scan(m, q) == Ok::<(Seq<(int, int)>, Option<int>), Error>(
                (seq![(q + Self::spec_offset_size(), m.len() as int)], None),
            ),
    {
        Self::lemma_flex_layout();
        let v = L::spec_from_value(L::spec_max());
        L::lemma_sized_value(v);
        L::lemma_len(v);
        let os = Self::spec_offset_size() as int;
        lemma_mod_trans(q, L::spec_align() as int, Self::spec_flex_align() as int);
        lemma_mod_trans(q, T::spec_align() as int, Self::spec_flex_align() as int);
        lemma_mod_sum(q, os, T::spec_align() as int);
        assert(Self::spec_step(m, q) == Some(Ok::<(int, int, bool), Error>((q + os, m.len() as int, true))));
    }

    /// A link of value `q - p` at `p` leads to the item `[p + os, q)`, valid when it is an
    /// aligned prefix of a valid item that holds its used bytes.
    proof fn lemma_sealed_link(m: Seq<u8>, p: int, q: int, r0: Seq<u8>)
        requires
            T::spec_layout_ok(),
            L::spec_layout_ok(),
            m.len() <= isize::MAX,
            0 <= p,
            p % (L::spec_align() as int) == 0,
            Self::spec_offset_size() <= q - p < L::spec_max(),
            q <= m.len(),
            (p + Self::spec_offset_size()) % (T::spec_align() as int) == 0,
            (q - p - Self::spec_offset_size()) % (T::spec_align() as int) == 0,
            T::spec_min_size() <= r0.len() <= isize::MAX,
            T::spec_validate(r0) is Ok,
            T::spec_size(r0) <= q - p - Self::spec_offset_size() <= r0.len(),
            m.subrange(p, p + L::spec_size_of()) == L::spec_from_value((q - p) as nat).spec_to_bytes(),
            m.subrange(p + Self::spec_offset_size(), q) == r0.take(q - p - Self::spec_offset_size()),
        ensures
            Self::spec_step(m, p) == Some(
                Ok::<(int, int, bool), Error>((p + Self::spec_offset_size(), q, false)),
            ),
            Self::spec_check_item(m, p + Self::spec_offset_size(), q) is Ok,
            T::spec_size(m.subrange(p + Self::spec_offset_size(), q)) == T::spec_size(r0),
    {
        Self::lemma_flex_layout();
        let v = L::spec_from_value((q - p) as nat);
        L::lemma_sized_value(v);
        L::lemma_len(v);
        T::lemma_valid_size(r0);
        T::lemma_valid_prefix(r0, (q - p - Self::spec_offset_size()) as nat);
    }

    /// The items met on a walk to `p` keep their used bytes when nothing before `p` changes.
    proof fn lemma_contents_frame(m1: Seq<u8>, m2: Seq<u8>, p: int)
        requires
            Self::spec_walk(m1, 0, p) is Some,
            p <= m2.len(),
            forall|i: int| 0 <= i < p ==> m1[i] == m2[i],
        ensures
            ({
                let w = Self::spec_walk(m1, 0, p)->0;
                forall|j: int|
                    0 <= j < w.len() ==> Self::spec_content(m2, #[trigger] w[j])
                        == Self::spec_content(m1, w[j])
            }),
    {
        Self::lemma_walk_bounds(m1, 0, p);
        let w = Self::spec_walk(m1, 0, p)->0;
        assert forall|j: int| 0 <= j < w.len() implies Self::spec_content(m2, #[trigger] w[j])
            == Self::spec_content(m1, w[j]) by {
            assert(m2.subrange(w[j].0, w[j].1) =~= m1.subrange(w[j].0, w[j].1));
        }
    }

    /// Pushing keeps the vector valid and appends the new item's used bytes.
    #[verifier::rlimit(40)]
    proof fn lemma_push(mem: Seq<u8>, region: Seq<u8>)
        requires
            Self::spec_valid_mem(mem),
            Self::spec_push_check(mem) is Ok,
            region.len() == Self::spec_free_region(mem).len(),
            T::spec_validate(region) is Ok,
        ensures
            Self::spec_valid_mem(Self::spec_push_bytes(mem, region)),
            Self::spec_push_bytes(mem, region).len() == mem.len(),
            Self::spec_scan(Self::spec_push_bytes(mem, region), 0)->Ok_0.1 is None,
            Self::spec_contents(Self::spec_push_bytes(mem, region)) == Self::spec_contents(mem).push(
                region.take(T::spec_size(region) as int),
            ),
    {
        Self::lemma_flex_layout();
        Self::lemma_scan_walk(mem, 0);
        let (items, t) = Self::spec_scan(mem, 0)->Ok_0;
        let p = Self::spec_end_link(mem);
        let q = Self::spec_push_pos(mem);
        let os = Self::spec_offset_size() as int;
        let ls = L::spec_size_of() as int;
        let fa = Self::spec_flex_align() as int;
        let len = mem.len() as int;
        let maxb = L::spec_from_value(L::spec_max()).spec_to_bytes();
        L::lemma_sized_value(L::spec_from_value(L::spec_max()));
        let w = match t {
            Some(_) => items,
            None => items.drop_last(),
        };
        Self::lemma_walk_bounds(mem, 0, p);
        if t is None {
            let r0 = mem.subrange(items.last().0, items.last().1);
            T::lemma_valid_size(r0);
            lemma_ceil_mul(T::spec_size(r0) as int, fa);
        }
        let m_e = splice(mem, q + os, len, region);
        lemma_splice(mem, q + os, len, region);
        let m_q = splice(m_e, q, q + ls, maxb);
        lemma_splice(m_e, q, q + ls, maxb);
        let m2 = Self::spec_push_bytes(mem, region);
        let vo = L::spec_from_value((q - p) as nat);
        if t is None {
            L::lemma_sized_value(vo);
            lemma_splice(m_q, p, p + ls, vo.spec_to_bytes());
        }
        assert(m2.len() == len);
        assert forall|i: int| 0 <= i < p implies m2[i] == mem[i] by {}
        Self::lemma_walk_frame(mem, m2, 0, p);
        Self::lemma_contents_frame(mem, m2, p);
        assert(m2.subrange(q, q + ls) =~= maxb);
        assert(m2.subrange(q + os, len) =~= region);
        Self::lemma_last_link(m2, q);
        let ni = q + os;
        if t is None {
            let (s, e) = items.last();
            let r0 = mem.subrange(s, e);
            let k = q - s;
            lemma_mod_trans(k, T::spec_align() as int, fa);
            assert(m2.subrange(p, p + ls) =~= vo.spec_to_bytes());
            assert(m2.subrange(s, q) =~= r0.take(k));
            Self::lemma_sealed_link(m2, p, q, r0);
            Self::lemma_walk_extend(m2, 0, p);
            Self::lemma_walk_scan(m2, 0, q);
            assert(Self::spec_scan(m2, 0)->Ok_0.0 == w.push((s, q)) + seq![(ni, len)]);
            assert(r0.take(k).take(T::spec_size(r0) as int) =~= r0.take(T::spec_size(r0) as int));
            assert(items == w.push((s, e)));
            assert(Self::spec_contents(m2) =~= Self::spec_contents(mem).push(
                region.take(T::spec_size(region) as int),
            ));
        } else {
            Self::lemma_walk_scan(m2, 0, q);
            assert(Self::spec_scan(m2, 0)->Ok_0.0 == w + seq![(ni, len)]);
            assert(Self::spec_contents(m2) =~= Self::spec_contents(mem).push(
                region.take(T::spec_size(region) as int),
            ));
        }
    }

    /// A scan from `pos` only reads the bytes from `pos` on.
    proof fn lemma_scan_suffix(m1: Seq<u8>, m2: Seq<u8>, pos: int)
        requires
            0 <= pos,
            m1.len() == m2.len(),
            forall|i: int| pos <= i < m1.len() ==> m1[i] == m2[i],
        ensures
            Self::spec_scan(m1, pos) == Self::spec_scan(m2, pos),
        decreases m1.len() - pos,
    {
        let ls = L::spec_size_of() as int;
        if pos + ls <= m1.len() {
            assert(m1.subrange(pos, pos + ls) =~= m2.subrange(pos, pos + ls));
        }
        assert(Self::spec_step(m1, pos) == Self::spec_step(m2, pos));
        match Self::spec_step(m1, pos) {
            Some(Ok((s, e, last))) => {
                if 0 <= s <= e <= m1.len() {
                    assert(m1.subrange(s, e) =~= m2.subrange(s, e));
                }
                if !last {
                    Self::lemma_scan_suffix(m1, m2, e);
                }
            },
            _ => {},
        }
    }

    /// The items of a scan from `pos` lie between `pos` and the end of the memory.
    proof fn lemma_scan_bounds(m: Seq<u8>, pos: int)
        requires
            0 <= pos,
            Self::spec_scan(m, pos) is Ok,
        ensures
            ({
                let items = Self::spec_scan(m, pos)->Ok_0.0;
                forall|k: int|
                    0 <= k < items.len() ==> pos <= #[trigger] items[k].0 <= items[k].1 <= m.len()
            }),
        decreases m.len() - pos,
    {
        match Self::spec_step(m, pos) {
            Some(Ok((s, e, last))) => {
                if !last {
                    Self::lemma_scan_bounds(m, e);
                    let items = Self::spec_scan(m, pos)->Ok_0.0;
                    let rest = Self::spec_scan(m, e)->Ok_0.0;
                    assert(items == seq![(s, e)] + rest);
                    assert forall|k: int| 0 <= k < items.len() implies pos <= #[trigger] items[k].0
                        <= items[k].1 <= m.len() by {
                        if k > 0 {
                            assert(items[k] == rest[k - 1]);
                        }
                    }
                }
            },
            _ => {},
        }
    }

    /// Writing a zero link at the link of an item ends the vector before that item.
    proof fn lemma_truncate(mem: Seq<u8>, p: int)
        requires
            Self::spec_valid_mem(mem),
            Self::spec_walk(mem, 0, p) is Some,
            Self::spec_step(mem, p) matches Some(Ok(_)),
        ensures
            ({
                let m2 = splice(
                    mem,
                    p,
                    p + L::spec_size_of(),
                    L::spec_from_value(0).spec_to_bytes(),
                );
                &&& Self::spec_valid_mem(m2)
                &&& Self::spec_contents(m2) == Self::spec_contents(mem).take(
                    Self::spec_walk(mem, 0, p)->0.len() as int,
                )
            }),
    {
        Self::lemma_flex_layout();
        let ls = L::spec_size_of() as int;
        let z = L::spec_from_value(0);
        L::lemma_sized_value(z);
        L::lemma_len(z);
        Self::lemma_walk_bounds(mem, 0, p);
        let m2 = splice(mem, p, p + ls, z.spec_to_bytes());
        lemma_splice(mem, p, p + ls, z.spec_to_bytes());
        assert forall|i: int| 0 <= i < p implies m2[i] == mem[i] by {}
        Self::lemma_walk_frame(mem, m2, 0, p);
        Self::lemma_contents_frame(mem, m2, p);
        Self::lemma_walk_scan(mem, 0, p);
        Self::lemma_walk_scan(m2, 0, p);
        assert(m2.subrange(p, p + ls) =~= z.spec_to_bytes());
        assert(Self::spec_step(m2, p) is None);
        let w = Self::spec_walk(mem, 0, p)->0;
        assert(w + Seq::<(int, int)>::empty() =~= w);
        let items = Self::spec_scan(mem, 0)->Ok_0.0;
        assert(items.take(w.len() as int) =~= w);
        assert(Self::spec_contents(m2) =~= Self::spec_contents(mem).take(w.len() as int));
    }

    /// Writing an instance over the start of an item, as long as the instance occupies as
    /// much of the item as an instance made from it would, replaces that item's used bytes.
    #[verifier::rlimit(30)]
    proof fn lemma_set(mem: Seq<u8>, p: int, item: Seq<u8>)
        requires
            Self::spec_valid_mem(mem),
            Self::spec_walk(mem, 0, p) is Some,
            Self::spec_step(mem, p) matches Some(Ok((s, e, last))) && item.len()
                == T::spec_mem_len((e - s) as nat) && T::spec_validate(item) is Ok,
        ensures
            ({
                let (s, e, last) = Self::spec_step(mem, p)->0->Ok_0;
                let m2 = splice(mem, s, s + item.len(), item);
                &&& Self::spec_valid_mem(m2)
                &&& Self::spec_scan(m2, 0)->Ok_0.0 == Self::spec_scan(mem, 0)->Ok_0.0
                &&& Self::spec_contents(m2) == Self::spec_contents(mem).update(
                    Self::spec_walk(mem, 0, p)->0.len() as int,
                    item.take(T::spec_size(item) as int),
                )
            }),
    {
        Self::lemma_flex_layout();
        let ls = L::spec_size_of() as int;
        let (s, e, last) = Self::spec_step(mem, p)->0->Ok_0;
        let w = Self::spec_walk(mem, 0, p)->0;
        Self::lemma_walk_bounds(mem, 0, p);
        Self::lemma_walk_scan(mem, 0, p);
        let r1 = mem.subrange(s, e);
        T::lemma_mem_len(r1);
        let ml = item.len() as int;
        let m2 = splice(mem, s, s + ml, item);
        lemma_splice(mem, s, s + ml, item);
        assert forall|i: int| 0 <= i < p implies m2[i] == mem[i] by {}
        Self::lemma_walk_frame(mem, m2, 0, p);
        Self::lemma_contents_frame(mem, m2, p);
        Self::lemma_walk_scan(m2, 0, p);
        assert(m2.subrange(p, p + ls) =~= mem.subrange(p, p + ls));
        assert(Self::spec_step(m2, p) == Self::spec_step(mem, p));
        let r2 = m2.subrange(s, e);
        T::lemma_mem_len(r2);
        assert(r2.take(ml) =~= item);
        T::lemma_valid_size(item);
        assert(Self::spec_check_item(m2, s, e) is Ok);
        assert(r2.take(T::spec_size(item) as int) =~= item.take(T::spec_size(item) as int));
        let items = Self::spec_scan(mem, 0)->Ok_0.0;
        if !last {
            assert forall|i: int| e <= i < mem.len() implies mem[i] == m2[i] by {}
            Self::lemma_scan_suffix(mem, m2, e);
            Self::lemma_scan_bounds(mem, e);
            let rest = Self::spec_scan(mem, e)->Ok_0.0;
            assert(items == w + (seq![(s, e)] + rest));
            assert forall|k: int| 0 <= k < rest.len() implies Self::spec_content(m2, #[trigger] rest[k])
                == Self::spec_content(mem, rest[k]) by {
                assert(m2.subrange(rest[k].0, rest[k].1) =~= mem.subrange(rest[k].0, rest[k].1));
            }
            assert(Self::spec_contents(m2) =~= Self::spec_contents(mem).update(
                w.len() as int,
                item.take(T::spec_size(item) as int),
            )) by {
                assert forall|k: int| 0 <= k < items.len() implies #[trigger] Self::spec_contents(m2)[k]
                    == Self::spec_contents(mem).update(
                    w.len() as int,
                    item.take(T::spec_size(item) as int),
                )[k] by {
                    if k > w.len() {
                        assert(items[k] == rest[k - w.len() - 1]);
                    }
                }
            }
        } else {
            assert(items == w + seq![(s, e)]);
            assert(Self::spec_contents(m2) =~= Self::spec_contents(mem).update(
                w.len() as int,
                item.take(T::spec_size(item) as int),
            ));
        }
    }


    /// Pushing an item appends its used bytes; cutting the vector back to its former length
    /// right after leaves the items from before.
    pub proof fn law_push_pop(mem: Seq<u8>, region: Seq<u8>)
        requires
            Self::spec_valid_mem(mem),
            Self::spec_push_check(mem) is Ok,
            region.len() == Self::spec_free_region(mem).len(),
            T::spec_validate(region) is Ok,
        ensures
            ({
                let n = Self::spec_contents(mem).len();
                let pushed = Self::spec_push_bytes(mem, region);
                let popped = Self::spec_truncate_bytes(pushed, n);
                &&& Self::spec_valid_mem(pushed)
                &&& Self::spec_contents(pushed) == Self::spec_contents(mem).push(
                    region.take(T::spec_size(region) as int),
                )
                &&& Self::spec_valid_mem(popped)
                &&& Self::spec_contents(popped) == Self::spec_contents(mem)
            }),
    {
        Self::lemma_push(mem, region);
        let pushed = Self::spec_push_bytes(mem, region);
        let n = Self::spec_contents(mem).len();
        Self::lemma_scan_walk(pushed, 0);
        let (items, t) = Self::spec_scan(pushed, 0)->Ok_0;
        assert(Self::spec_contents(pushed).len() == items.len());
        assert(Self::spec_contents(mem).len() == Self::spec_scan(mem, 0)->Ok_0.0.len());
        assert(items.len() == n + 1);
        let p = items.last().0 - Self::spec_offset_size();
        assert(items[n as int] == items.last());
        Self::lemma_truncate(pushed, p);
        assert(Self::spec_contents(mem).push(region.take(T::spec_size(region) as int)).take(
            n as int,
        ) =~= Self::spec_contents(mem));
    }

    /// Sum of the link values of the regular items `items`: each link reaches from where it
    /// is to the next link.
    pub open spec fn spec_link_sum(items: Seq<(int, int)>) -> int
        decreases items.len(),
    {
        if items.len() == 0 {
            0
        } else {
            (items[0].1 - items[0].0 + Self::spec_offset_size()) + Self::spec_link_sum(items.skip(1))
        }
    }

    /// Following a chain from `pos` that ends in a zero link: each item starts a link width
    /// after the end of the one before (the first one a link width after `pos`), and the zero
    /// link lies the sum of the links past `pos`.
    proof fn lemma_scan_links(mem: Seq<u8>, pos: int)
        requires
            T::spec_layout_ok(),
            L::spec_layout_ok(),
            0 <= pos,
            Self::spec_scan(mem, pos) is Ok,
            Self::spec_scan(mem, pos)->Ok_0.1 is Some,
        ensures
            ({
                let (items, t) = Self::spec_scan(mem, pos)->Ok_0;
                &&& t->0 - pos == Self::spec_link_sum(items)
                &&& items.len() > 0 ==> items[0].0 == pos + Self::spec_offset_size()
                &&& forall|i: int|
                    0 < i < items.len() ==> #[trigger] items[i].0 == items[i - 1].1
                        + Self::spec_offset_size()
            }),
        decreases mem.len() - pos,
    {
        Self::lemma_flex_layout();
        match Self::spec_step(mem, pos) {
            Some(Ok((s, e, last))) => {
                let rest = Self::spec_scan(mem, e)->Ok_0;
                Self::lemma_scan_links(mem, e);
                let items = Self::spec_scan(mem, pos)->Ok_0.0;
                assert(items == seq![(s, e)] + rest.0);
                assert(items.skip(1) =~= rest.0);
                assert forall|i: int| 0 < i < items.len() implies #[trigger] items[i].0 == items[i
                    - 1].1 + Self::spec_offset_size() by {
                    if i > 1 {
                        assert(items[i] == rest.0[i - 1]);
                        assert(items[i - 1] == rest.0[i - 2]);
                    }
                }
            },
            _ => {},
        }
    }

    /// The size of a vector whose chain ends in a zero link: the position of that link, which
    /// is the sum of the links before it, plus the link width (no more than the memory); items
    /// follow one another a link width apart. An empty vector takes one link width.
    pub proof fn law_size(mem: Seq<u8>)
        requires
            Self::spec_valid_mem(mem),
            Self::spec_scan(mem, 0)->Ok_0.1 is Some,
        ensures
            ({
                let (items, t) = Self::spec_scan(mem, 0)->Ok_0;
                let os = Self::spec_offset_size();
                &&& t->0 == Self::spec_link_sum(items)
                &&& items.len() > 0 ==> items[0].0 == os
                &&& forall|i: int|
                    0 < i < items.len() ==> #[trigger] items[i].0 == items[i - 1].1 + os
                &&& Self::spec_size(mem) == spec_min((t->0 + os) as nat, mem.len())
                &&& os <= Self::spec_size(mem) <= mem.len()
                &&& items.len() == 0 ==> Self::spec_size(mem) == os
            }),
    {
        Self::lemma_flex_layout();
        Self::lemma_scan_links(mem, 0);
        Self::lemma_used(mem);
        lemma_rounding_laws(mem.len() as int, Self::spec_flex_align() as int);
        assert(Self::spec_used(mem) =~= mem);
        Self::lemma_scan_walk(mem, 0);
    }

    /// Clearing a vector leaves a valid empty one, and clearing that again changes nothing.
    pub proof fn law_clear(mem: Seq<u8>)
        requires
            Self::spec_valid_mem(mem),
        ensures
            ({
                let cleared = Self::spec_truncate_bytes(mem, 0);
                &&& Self::spec_valid_mem(cleared)
                &&& Self::spec_contents(cleared).len() == 0
                &&& Self::spec_truncate_bytes(cleared, 0) == cleared
            }),
    {
        let items = Self::spec_scan(mem, 0)->Ok_0.0;
        if items.len() > 0 {
            Self::lemma_flex_layout();
            assert(Self::spec_step(mem, 0) matches Some(Ok(_)));
            assert(items[0].0 == Self::spec_offset_size());
            assert(Self::spec_walk(mem, 0, 0) == Some(Seq::<(int, int)>::empty()));
            Self::lemma_truncate(mem, 0);
        }
        let cleared = Self::spec_truncate_bytes(mem, 0);
        assert(Self::spec_contents(cleared).len() == Self::spec_scan(cleared, 0)->Ok_0.0.len());
    }

    /// The memory of a valid vector is all used: reading a vector back from it gives the
    /// same memory, and so the same items.
    pub proof fn law_round_trip(mem: Seq<u8>)
        requires
            Self::spec_valid_mem(mem),
        ensures
            Self::spec_validate(mem) is Ok,
            mem.take(Self::spec_mem_len(mem.len()) as int) == mem,
            Self::spec_contents(mem.take(Self::spec_mem_len(mem.len()) as int)) == Self::spec_contents(mem),
    {
        Self::lemma_flex_layout();
        Self::lemma_used(mem);
        lemma_rounding_laws(mem.len() as int, Self::spec_flex_align() as int);
        assert(mem.take(Self::spec_mem_len(mem.len()) as int) =~= mem);
    }

    /// Layout facts the vector's arithmetic rests on.
    proof fn lemma_flex_layout()
        requires
            T::spec_layout_ok(),
            L::spec_layout_ok(),
        ensures
            is_pow2(Self::spec_flex_align() as int),
            0 < Self::spec_flex_align() <= isize::MAX + 1,
            is_pow2(T::spec_align() as int),
            0 < T::spec_align(),
            0 < L::spec_align(),
            0 < L::spec_size_of() <= Self::spec_offset_size() <= isize::MAX,
            Self::spec_flex_align() <= Self::spec_offset_size(),
            Self::spec_offset_size() % Self::spec_flex_align() == 0,
            Self::spec_offset_size() % T::spec_align() == 0,
            Self::spec_flex_align() % T::spec_align() == 0,
            Self::spec_flex_align() % L::spec_align() == 0,
            L::spec_max() <= usize::MAX,
            L::spec_size_of() == L::spec_min_size(),
            T::spec_min_size() <= isize::MAX,
    {
        T::lemma_layout();
        L::lemma_layout();
        T::lemma_layout();
        L::lemma_sized_layout(Seq::empty());
        L::lemma_len(L::spec_from_bytes(Seq::empty()));
        lemma_max_pow2(L::spec_align() as int, T::spec_align() as int);
        lemma_fundamental_div_mod(L::spec_size_of() as int, L::spec_align() as int);
        let ls = L::spec_size_of() as int;
        let la = L::spec_align() as int;
        let ta = T::spec_align() as int;
        let fa = Self::spec_flex_align() as int;
        assert(la <= ls) by {
            let q = ls / la;
            lemma_mul_is_commutative(la, q);
            lemma_div_pos_is_pos(ls, la);
            if q == 0 {
                vstd::arithmetic::mul::lemma_mul_by_zero_is_zero(la);
                assert(ls == 0);
            } else {
                lemma_mul_inequality(1, q, la);
            }
        }
        if ls >= ta {
            lemma_pow2_divides(ta, ls);
            lemma_pow2_divides(la, ls);
        } else {
            lemma_pow2_divides(la, ta);
            lemma_pow2_divides(ta, ta);
        }
    }
}

impl<T: FlatUnsized, L: FlatLen> FlexVec<T, L> {
    /// Width of a link: room for an `L`, aligned for the items.
    pub fn offset_size() -> (r: usize)
        ensures
            r == Self::spec_offset_size(),
            T::spec_layout_ok(),
            L::spec_layout_ok(),
    {
        let ls = L::size_of();
        let ta = T::align();
        max(ls, ta)
    }

    /// Alignment of the vector.
    fn flex_align() -> (r: usize)
        ensures
            r == Self::spec_flex_align(),
            T::spec_layout_ok(),
            L::spec_layout_ok(),
    {
        let la = L::align();
        let ta = T::align();
        max(la, ta)
    }

    /// Read the link at `pos`.
    fn link_at(mem: &[u8], pos: usize) -> (r: Option<Result<(usize, usize, bool), Error>>)
        requires
            T::spec_layout_ok(),
            L::spec_layout_ok(),
            pos <= mem@.len() <= isize::MAX,
        ensures
            spec_link_of(r) == Self::spec_step(mem@, pos as int),
    {
        proof {
            Self::lemma_flex_layout();
        }
        let la = L::align();
        let ls = L::size_of();
        let os = Self::offset_size();
        if pos % la != 0 {
            return Some(Err(Error { kind: ErrorKind::BadAlign, pos }));
        }
        if ls > mem.len() - pos {
            return Some(Err(Error { kind: ErrorKind::InsufficientSize, pos }));
        }
        let lb = slice_subrange(mem, pos, pos + ls);
        proof {
            L::lemma_sized_layout(lb@);
            L::lemma_error_pos(lb@);
        }
        match L::validate_unchecked(lb) {
            Err(e) => {
                return Some(Err(e.offset(pos)));
            },
            Ok(()) => {},
        }
        let off = L::read_at(mem, pos).into_usize();
        if off == 0 {
            return None;
        }
        if os > off {
            return Some(Err(Error { kind: ErrorKind::InsufficientSize, pos: pos + os }));
        }
        if off == L::max_usize() {
            if os > mem.len() - pos {
                Some(Err(Error { kind: ErrorKind::InsufficientSize, pos }))
            } else {
                Some(Ok((pos + os, mem.len(), true)))
            }
        } else if off > mem.len() - pos {
            Some(Err(Error { kind: ErrorKind::InsufficientSize, pos }))
        } else {
            Some(Ok((pos + os, pos + off, false)))
        }
    }

    /// Check that `mem[s..e]` holds a valid item.
    fn check_item(mem: &[u8], s: usize, e: usize) -> (r: Result<(), Error>)
        requires
            T::spec_layout_ok(),
            s <= e <= mem@.len() <= isize::MAX,
        ensures
            r == Self::spec_check_item(mem@, s as int, e as int),
    {
        proof {
            T::lemma_layout();
        }
        if s % T::align() != 0 {
            return Err(Error { kind: ErrorKind::BadAlign, pos: s });
        }
        if e - s < T::min_size() {
            return Err(Error { kind: ErrorKind::InsufficientSize, pos: s });
        }
        proof {
            T::lemma_error_pos(mem@.subrange(s as int, e as int));
        }
        match T::validate_unchecked(slice_subrange(mem, s, e)) {
            Ok(()) => Ok(()),
            Err(x) => Err(x.offset(s)),
        }
    }
}

/// Goes over the links of a vector's memory, one item at a time.
pub struct DataIter<T: FlatUnsized, L: FlatLen> {
    pos: usize,
    done: bool,
    _phantom: PhantomData<(T, L)>,
}

impl<T: FlatUnsized, L: FlatLen> DataIter<T, L> {
    /// Position of the next link.
    pub closed spec fn spec_pos(&self) -> usize {
        self.pos
    }

    /// Whether the chain has ended (or broken).
    pub closed spec fn spec_done(&self) -> bool {
        self.done
    }

    /// Iterator at the first link.
    pub fn new() -> (r: Self)
        ensures
            r.spec_pos() == 0,
            !r.spec_done(),
    {
        DataIter { pos: 0, done: false, _phantom: PhantomData }
    }

    /// Bounds of the next item of the chain in `mem`, or the error that breaks the chain;
    /// `None` once the chain has ended.
    pub fn next(&mut self, mem: &[u8]) -> (r: Option<Result<(usize, usize), Error>>)
        requires
            T::spec_layout_ok(),
            L::spec_layout_ok(),
            old(self).spec_pos() <= mem@.len() <= isize::MAX,
        ensures
            old(self).spec_done() ==> r is None && *final(self) == *old(self),
            !old(self).spec_done() ==> match FlexVec::<T, L>::spec_step(
                mem@,
                old(self).spec_pos() as int,
            ) {
                None => r is None && final(self).spec_done() && final(self).spec_pos() == old(
                    self,
                ).spec_pos(),
                Some(Err(e)) => r == Some(Err::<(usize, usize), Error>(e)) && final(self).spec_done()
                    && final(self).spec_pos() == old(self).spec_pos(),
                Some(Ok((s, e, last))) => r matches Some(Ok((a, b))) && a == s && b == e
                    && final(self).spec_done() == last && (last ==> final(self).spec_pos() == old(
                    self,
                ).spec_pos()) && (!last ==> final(self).spec_pos() == e),
            },
            final(self).spec_pos() <= mem@.len(),
    {
        if self.done {
            return None;
        }
        match FlexVec::<T, L>::link_at(mem, self.pos) {
            None => {
                self.done = true;
                None
            },
            Some(Err(e)) => {
                self.done = true;
                Some(Err(e))
            },
            Some(Ok((s, e, last))) => {
                if last {
                    self.done = true;
                } else {
                    self.pos = e;
                }
                Some(Ok((s, e)))
            },
        }
    }
}

impl<T: FlatUnsized, L: FlatLen> FlatBase for FlexVec<T, L> {
    open spec fn spec_align() -> nat {
        Self::spec_flex_align()
    }

    open spec fn spec_min_size() -> nat {
        Self::spec_offset_size()
    }

    open spec fn spec_layout_ok() -> bool {
        T::spec_layout_ok() && L::spec_layout_ok()
    }

    proof fn lemma_layout() {
        Self::lemma_flex_layout();
    }

    fn align() -> (r: usize) {
        Self::flex_align()
    }

    fn min_size() -> (r: usize) {
        Self::offset_size()
    }
}

impl<T: FlatUnsized, L: FlatLen> FlatValidate for FlexVec<T, L> {
    open spec fn spec_validate(bytes: Seq<u8>) -> Result<(), Error> {
        match Self::spec_scan(Self::spec_used(bytes), 0) {
            Ok(_) => Ok(()),
            Err(e) => Err(e),
        }
    }

    open spec fn spec_size(bytes: Seq<u8>) -> nat {
        let m = Self::spec_used(bytes);
        match Self::spec_scan(m, 0) {
            Ok((_, Some(q))) => spec_min((q + Self::spec_offset_size()) as nat, m.len()),
            _ => m.len(),
        }
    }

    proof fn lemma_valid_size(bytes: Seq<u8>) {
        Self::lemma_used(bytes);
        let m = Self::spec_used(bytes);
        Self::lemma_scan_walk(m, 0);
    }

    proof fn lemma_valid_prefix(bytes: Seq<u8>, k: nat) {
        Self::lemma_used(bytes);
        Self::lemma_flex_layout();
        let fa = Self::spec_flex_align() as int;
        let m = Self::spec_used(bytes);
        let f = m.len() as int;
        let pk = bytes.take(k as int);
        lemma_rounding_laws(k as int, fa);
        lemma_floor_mul(bytes.len() as int, fa);
        lemma_floor_mul(k as int, fa);
        let m2 = Self::spec_used(pk);
        assert(m2 =~= pk);
        assert(k <= f);
        if k == f {
            assert(m2 =~= m);
        } else {
            Self::lemma_scan_walk(m, 0);
            let (w, t) = Self::spec_scan(m, 0)->Ok_0;
            let q = t->0;
            Self::lemma_walk_frame(m, m2, 0, q);
            Self::lemma_walk_scan(m, 0, q);
            Self::lemma_walk_scan(m2, 0, q);
            let ls = L::spec_size_of() as int;
            assert(m.subrange(q, q + ls) =~= m2.subrange(q, q + ls));
            assert(Self::spec_step(m2, q) == Self::spec_step(m, q));
            assert(w + Seq::<(int, int)>::empty() =~= w);
        }
    }

    proof fn lemma_error_pos(bytes: Seq<u8>) {
        Self::lemma_used(bytes);
        Self::lemma_scan_err(Self::spec_used(bytes), 0);
    }

    fn validate_unchecked(bytes: &[u8]) -> (r: Result<(), Error>) {
        proof {
            Self::lemma_used(bytes@);
            Self::lemma_flex_layout();
        }
        let fa = Self::flex_align();
        let f = floor_mul(bytes.len(), fa);
        let m = slice_subrange(bytes, 0, f);
        assert(m@ =~= Self::spec_used(bytes@));
        let mut it = DataIter::<T, L>::new();
        let ghost mut done: Seq<(int, int)> = Seq::empty();
        assert(spec_prepend(done, Self::spec_scan(m@, 0)) == Self::spec_scan(m@, 0)) by {
            match Self::spec_scan(m@, 0) {
                Ok((rest, t)) => {
                    assert(done + rest =~= rest);
                },
                Err(_) => {},
            }
        }
        loop
            invariant
                T::spec_layout_ok(),
                L::spec_layout_ok(),
                m@.len() <= isize::MAX,
                m@ == Self::spec_used(bytes@),
                !it.spec_done(),
                it.spec_pos() <= m@.len(),
                Self::spec_scan(m@, 0) == spec_prepend(done, Self::spec_scan(m@, it.spec_pos() as int)),
            decreases m@.len() - it.spec_pos(),
        {
            let ghost p = it.spec_pos() as int;
            proof {
                Self::lemma_flex_layout();
            }
            match it.next(m) {
                None => {
                    return Ok(());
                },
                Some(Err(e)) => {
                    return Err(e);
                },
                Some(Ok((s, e))) => {
                    let c = Self::check_item(m, s, e);
                    match c {
                        Err(x) => {
                            return Err(x);
                        },
                        Ok(()) => {},
                    }
                    if it.done {
                        return Ok(());
                    }
                    proof {
                        match Self::spec_scan(m@, e as int) {
                            Ok((rest, t)) => {
                                assert(done + (seq![(s as int, e as int)] + rest) =~= done.push(
                                    (s as int, e as int),
                                ) + rest);
                            },
                            Err(_) => {},
                        }
                        done = done.push((s as int, e as int));
                    }
                },
            }
        }
    }
}

impl<T: FlatUnsized, L: FlatLen> FlexVec<T, L> {
    /// Facts about the used prefix of `bytes` that holds at least a link.
    proof fn lemma_used(bytes: Seq<u8>)
        requires
            T::spec_layout_ok(),
            L::spec_layout_ok(),
            Self::spec_offset_size() <= bytes.len() <= isize::MAX,
        ensures
            Self::spec_offset_size() <= Self::spec_used(bytes).len() <= bytes.len(),
            Self::spec_used(bytes).len() == spec_floor_mul(bytes.len() as int, Self::spec_flex_align() as int),
            Self::spec_used(bytes).len() % Self::spec_flex_align() == 0,
            Self::spec_used(Self::spec_used(bytes)) == Self::spec_used(bytes),
    {
        Self::lemma_flex_layout();
        let fa = Self::spec_flex_align() as int;
        lemma_floor_mul(bytes.len() as int, fa);
        lemma_rounding_laws(bytes.len() as int, fa);
        let m = Self::spec_used(bytes);
        assert(Self::spec_used(m) =~= m);
    }

    /// Follow the chain of memory that holds a valid vector over at most `n` items: how many
    /// were passed and where the chain was left.
    fn seek(mem: &[u8], n: usize) -> (r: (usize, usize))
        requires
            T::spec_layout_ok(),
            L::spec_layout_ok(),
            mem@.len() <= isize::MAX,
            Self::spec_scan(mem@, 0) is Ok,
        ensures
            r.1 <= mem@.len(),
            Self::spec_walk(mem@, 0, r.1 as int) is Some,
            Self::spec_walk(mem@, 0, r.1 as int)->0.len() == r.0,
            r.0 <= n,
            r.0 < n ==> (Self::spec_step(mem@, r.1 as int) is None || Self::spec_step(
                mem@,
                r.1 as int,
            ) matches Some(Ok((_, _, true)))),
    {
        let mut pos: usize = 0;
        let mut k: usize = 0;
        proof {
            Self::lemma_flex_layout();
        }
        loop
            invariant
                T::spec_layout_ok(),
                L::spec_layout_ok(),
                mem@.len() <= isize::MAX,
                Self::spec_scan(mem@, 0) is Ok,
                pos <= mem@.len(),
                k <= n,
                Self::spec_walk(mem@, 0, pos as int) is Some,
                Self::spec_walk(mem@, 0, pos as int)->0.len() == k,
            ensures
                k == n || Self::spec_step(mem@, pos as int) is None || Self::spec_step(
                    mem@,
                    pos as int,
                ) matches Some(Ok((_, _, true))),
            decreases n - k,
        {
            if k == n {
                break;
            }
            proof {
                Self::lemma_walk_scan(mem@, 0, pos as int);
            }
            match Self::link_at(mem, pos) {
                Some(Ok((s, e, last))) => {
                    if last {
                        break;
                    }
                    proof {
                        Self::lemma_flex_layout();
                        Self::lemma_walk_extend(mem@, 0, pos as int);
                    }
                    pos = e;
                    k = k + 1;
                },
                _ => {
                    break;
                },
            }
        }
        (k, pos)
    }
}

impl<T: FlatUnsized, L: FlatLen> FlatUnsized for FlexVec<T, L> {
    open spec fn wf(&self) -> bool {
        &&& Self::spec_layout_ok()
        &&& Self::spec_min_size() <= self.spec_bytes().len() <= isize::MAX
        &&& self.spec_bytes().len() % Self::spec_flex_align() == 0
        &&& Self::spec_validate(self.spec_bytes()) is Ok
    }

    open spec fn spec_mem(&self) -> Seq<u8> {
        self.spec_bytes()
    }

    open spec fn spec_mem_len(len: nat) -> nat {
        spec_floor_mul(len as int, Self::spec_flex_align() as int) as nat
    }

    proof fn lemma_wf(&self) {
    }

    proof fn lemma_mem_len(bytes: Seq<u8>) {
        Self::lemma_used(bytes);
        let m = Self::spec_used(bytes);
        assert(bytes.take(Self::spec_mem_len(bytes.len()) as int) == m);
    }

    fn from_bytes_unchecked(bytes: &[u8]) -> (r: Self) {
        proof {
            Self::lemma_used(bytes@);
            Self::lemma_flex_layout();
        }
        let fa = Self::flex_align();
        let f = floor_mul(bytes.len(), fa);
        let m = slice_subrange(bytes, 0, f);
        let mem = vstd::slice::slice_to_vec(m);
        proof {
            assert(mem@ =~= bytes@.take(Self::spec_mem_len(bytes@.len()) as int));
        }
        FlexVec { mem, _phantom: PhantomData }
    }

    fn as_bytes(&self) -> (r: Vec<u8>) {
        self.mem.clone()
    }

    fn size_of_bytes(bytes: &[u8]) -> (r: usize) {
        proof {
            Self::lemma_used(bytes@);
            Self::lemma_flex_layout();
        }
        let fa = Self::flex_align();
        let f = floor_mul(bytes.len(), fa);
        let m = slice_subrange(bytes, 0, f);
        assert(m@ =~= Self::spec_used(bytes@));
        let (k, p) = Self::seek(m, usize::MAX);
        proof {
            Self::lemma_walk_bounds(m@, 0, p as int);
            Self::lemma_walk_scan(m@, 0, p as int);
        }
        let os = Self::offset_size();
        match Self::link_at(m, p) {
            None => {
                proof {
                    let w = Self::spec_walk(m@, 0, p as int)->0;
                    assert(w + Seq::<(int, int)>::empty() =~= w);
                }
                min(p + os, f)
            },
            _ => f,
        }
    }
}

impl<T: FlatUnsized, L: FlatLen> Flat for FlexVec<T, L> {

}

impl<T: FlatUnsized, L: FlatLen> FlexVec<T, L> {
    /// Memory of a well-formed vector is the memory of a valid vector.
    proof fn lemma_wf_valid(&self)
        requires
            self.wf(),
        ensures
            Self::spec_valid_mem(self.spec_bytes()),
            self.spec_bytes().len() <= isize::MAX,
    {
        Self::lemma_used(self.spec_bytes());
        Self::lemma_flex_layout();
        let fa = Self::spec_flex_align() as int;
        lemma_rounding_laws(self.spec_bytes().len() as int, fa);
        assert(Self::spec_used(self.spec_bytes()) =~= self.spec_bytes());
    }

    /// Push an item initialized by `emplacer` onto the vector held by `mem`.
    #[verifier::rlimit(40)]
    fn push_mem<E: Emplacer<T>>(mem: &mut Vec<u8>, emplacer: E) -> (r: Result<(), Error>)
        requires
            Self::spec_valid_mem(old(mem)@),
        ensures
            Self::spec_valid_mem(final(mem)@),
            final(mem)@.len() == old(mem)@.len(),
            match Self::spec_push_check(old(mem)@) {
                Err(e) => r == Err::<(), Error>(e) && final(mem)@ == old(mem)@,
                Ok(()) => match emplacer.spec_emplace(Self::spec_free_region(old(mem)@)) {
                    Err(e) => r == Err::<(), Error>(e) && final(mem)@ == old(mem)@,
                    Ok(region) => r is Ok && final(mem)@ == Self::spec_push_bytes(old(mem)@, region)
                        && Self::spec_contents(final(mem)@) == Self::spec_contents(old(mem)@).push(
                        region.take(T::spec_size(region) as int),
                    ),
                },
            },
    {
        let ghost m = mem@;
        let ghost em = emplacer;
        proof {
            Self::lemma_flex_layout();
            Self::lemma_scan_walk(m, 0);
        }
        let os = Self::offset_size();
        let fa = Self::flex_align();
        let len = mem.len();
        let (k, p) = Self::seek(mem.as_slice(), usize::MAX);
        proof {
            Self::lemma_walk_bounds(m, 0, p as int);
            Self::lemma_walk_scan(m, 0, p as int);
        }
        let link = Self::link_at(mem.as_slice(), p);
        let mut is_last = false;
        let mut s: usize = 0;
        match link {
            Some(Ok((a, _b, _l))) => {
                is_last = true;
                s = a;
            },
            _ => {},
        }
        proof {
            let w = Self::spec_walk(m, 0, p as int)->0;
            let (items, t) = Self::spec_scan(m, 0)->Ok_0;
            if is_last {
                assert(items == w + seq![(s as int, len as int)]);
                assert(items.drop_last() =~= w);
            } else {
                assert(items =~= w);
            }
        }
        let n = if is_last {
            k + 1
        } else {
            k
        };
        if n >= L::max_usize() {
            return Err(Error { kind: ErrorKind::InsufficientSize, pos: p });
        }
        if os > L::max_usize() {
            return Err(Error { kind: ErrorKind::InsufficientSize, pos: p });
        }
        let mut q = p;
        if is_last {
            proof {
                let r0 = m.subrange(s as int, len as int);
                T::lemma_valid_size(r0);
            }
            let sz = T::size_of_bytes(slice_subrange(mem.as_slice(), s, len));
            let c = ceil_mul(sz, fa);
            if os + c >= L::max_usize() {
                return Err(Error { kind: ErrorKind::InsufficientSize, pos: p });
            }
            q = s + c;
        }
        assert(q == Self::spec_push_pos(m));
        if q % fa != 0 {
            return Err(Error { kind: ErrorKind::BadAlign, pos: q });
        }
        if q > len || len - q < os || len - q - os < T::min_size() {
            return Err(Error { kind: ErrorKind::InsufficientSize, pos: q });
        }
        assert(Self::spec_push_check(m) is Ok);
        let ghost free = Self::spec_free_region(m);
        assert(m.subrange((q + os) as int, len as int) == free);
        proof {
            em.lemma_emplace(free);
        }
        let saved = vstd::slice::slice_to_vec(slice_subrange(mem.as_slice(), q + os, len));
        let r = emplacer.emplace_unchecked(mem, q + os, len);
        match r {
            Err(e) => {
                write_bytes(mem, q + os, saved.as_slice());
                proof {
                    assert(mem@ =~= m);
                }
                return Err(e);
            },
            Ok(()) => {},
        }
        let ghost region = em.spec_emplace(free)->Ok_0;
        proof {
            L::lemma_sized_value(L::spec_from_value(L::spec_max()));
        }
        let vmax = L::from_usize(L::max_usize()).unwrap();
        let mb = vmax.to_bytes();
        write_bytes(mem, q, mb.as_slice());
        if is_last {
            let vo = L::from_usize(q - p).unwrap();
            proof {
                L::lemma_sized_value(vo);
            }
            let ob = vo.to_bytes();
            write_bytes(mem, p, ob.as_slice());
        }
        proof {
            assert(mem@ =~= Self::spec_push_bytes(m, region));
            Self::lemma_push(m, region);
        }
        Ok(())
    }
}

impl<T: FlatUnsized, L: FlatLen> FlexVec<T, L> {
    /// Number of items.
    pub fn len(&self) -> (r: usize)
        requires
            self.wf(),
        ensures
            r == self@.len(),
    {
        proof {
            self.lemma_wf_valid();
        }
        let mem = self.mem.as_slice();
        let (k, p) = Self::seek(mem, usize::MAX);
        proof {
            Self::lemma_walk_bounds(mem@, 0, p as int);
            Self::lemma_walk_scan(mem@, 0, p as int);
        }
        match Self::link_at(mem, p) {
            Some(Ok(_)) => k + 1,
            _ => k,
        }
    }

    /// Whether the vector has no items.
    pub fn is_empty(&self) -> (r: bool)
        requires
            self.wf(),
        ensures
            r == (self@.len() == 0),
    {
        proof {
            self.lemma_wf_valid();
            Self::lemma_flex_layout();
        }
        match Self::link_at(self.mem.as_slice(), 0) {
            None => true,
            _ => false,
        }
    }

    /// The link of item `index` and the bounds of the item, if there is such an item.
    fn locate(&self, index: usize) -> (r: Option<(usize, usize, usize)>)
        requires
            self.wf(),
        ensures
            index < self@.len() ==> (r matches Some((p, s, e)) && {
                &&& Self::spec_walk(self.spec_bytes(), 0, p as int) is Some
                &&& Self::spec_walk(self.spec_bytes(), 0, p as int)->0.len() == index
                &&& (Self::spec_step(self.spec_bytes(), p as int) matches Some(Ok((a, b, _))) && a
                    == s && b == e)
                &&& self.spec_items()[index as int] == (s as int, e as int)
                &&& s <= e <= self.spec_bytes().len()
            }),
            index >= self@.len() ==> r is None,
    {
        proof {
            self.lemma_wf_valid();
        }
        let mem = self.mem.as_slice();
        let (k, p) = Self::seek(mem, index);
        proof {
            Self::lemma_walk_bounds(mem@, 0, p as int);
            Self::lemma_walk_scan(mem@, 0, p as int);
        }
        if k < index {
            return None;
        }
        match Self::link_at(mem, p) {
            Some(Ok((s, e, _))) => {
                proof {
                    let w = Self::spec_walk(mem@, 0, p as int)->0;
                    let rest = Self::spec_scan(mem@, p as int)->Ok_0.0;
                    assert(self.spec_items() == w + rest);
                    assert(rest[0] == (s as int, e as int));
                }
                Some((p, s, e))
            },
            _ => None,
        }
    }

    /// Instance made from item `index`, if there is such an item.
    pub fn get(&self, index: usize) -> (r: Option<T>)
        requires
            self.wf(),
        ensures
            index < self@.len() ==> (r matches Some(x) && x.wf() && x.spec_mem()
                == self.spec_item_mem(index as int) && x.spec_mem().take(
                T::spec_size(x.spec_mem()) as int,
            ) == self@[index as int]),
            index >= self@.len() ==> r is None,
    {
        proof {
            self.lemma_wf_valid();
            Self::lemma_flex_layout();
        }
        match self.locate(index) {
            None => None,
            Some((p, s, e)) => {
                let region = slice_subrange(self.mem.as_slice(), s, e);
                proof {
                    Self::lemma_walk_scan(self.spec_bytes(), 0, p as int);
                    T::lemma_mem_len(region@);
                    let ml = T::spec_mem_len(region@.len()) as int;
                    T::lemma_valid_size(region@.take(ml));
                    assert(region@.take(ml).take(T::spec_size(region@) as int) =~= region@.take(
                        T::spec_size(region@) as int,
                    ));
                }
                Some(T::from_bytes_unchecked(region))
            },
        }
    }

    /// Instances made from each item, in order.
    pub fn iter(&self) -> (r: Vec<T>)
        requires
            self.wf(),
        ensures
            r@.len() == self@.len(),
            forall|j: int|
                0 <= j < r@.len() ==> (#[trigger] r@[j]).wf() && r@[j].spec_mem()
                    == self.spec_item_mem(j),
    {
        let n = self.len();
        let mut v: Vec<T> = Vec::new();
        let mut i: usize = 0;
        while i < n
            invariant
                self.wf(),
                n == self@.len(),
                i <= n,
                v@.len() == i,
                forall|j: int|
                    0 <= j < i ==> (#[trigger] v@[j]).wf() && v@[j].spec_mem() == self.spec_item_mem(j),
            decreases n - i,
        {
            let x = self.get(i).unwrap();
            v.push(x);
            i = i + 1;
        }
        v
    }

    /// Write `item` over item `index`; `item` must occupy as much memory as an instance made
    /// from that item (as one that [`FlexVec::get`] gives does).
    pub fn set(&mut self, index: usize, item: &T)
        requires
            old(self).wf(),
            index < old(self)@.len(),
            item.wf(),
            item.spec_mem().len() == old(self).spec_item_mem(index as int).len(),
        ensures
            final(self).wf(),
            final(self)@ == old(self)@.update(
                index as int,
                item.spec_mem().take(T::spec_size(item.spec_mem()) as int),
            ),
    {
        proof {
            self.lemma_wf_valid();
            Self::lemma_flex_layout();
        }
        let ghost m = self.spec_bytes();
        let (p, s, e) = self.locate(index).unwrap();
        let b = item.as_bytes();
        proof {
            item.lemma_wf();
            Self::lemma_walk_scan(m, 0, p as int);
            T::lemma_mem_len(m.subrange(s as int, e as int));
            Self::lemma_set(m, p as int, b@);
        }
        write_bytes(&mut self.mem, s, b.as_slice());
        proof {
            Self::lemma_used(self.spec_bytes());
            assert(Self::spec_used(self.spec_bytes()) =~= self.spec_bytes()) by {
                lemma_rounding_laws(self.spec_bytes().len() as int, Self::spec_flex_align() as int);
            }
        }
    }

    /// Keep the first `len` items; nothing changes when there are no more.
    pub fn truncate(&mut self, len: usize)
        requires
            old(self).wf(),
        ensures
            final(self).wf(),
            final(self)@ == if len < old(self)@.len() {
                old(self)@.take(len as int)
            } else {
                old(self)@
            },
            final(self).spec_bytes() == Self::spec_truncate_bytes(old(self).spec_bytes(), len as nat),
    {
        proof {
            self.lemma_wf_valid();
            Self::lemma_flex_layout();
        }
        let ghost m = self.spec_bytes();
        match self.locate(len) {
            None => {},
            Some((p, _s, _e)) => {
                proof {
                    Self::lemma_truncate(m, p as int);
                    L::lemma_sized_value(L::spec_from_value(0));
                }
                let z = L::from_usize(0).unwrap();
                let zb = z.to_bytes();
                write_bytes(&mut self.mem, p, zb.as_slice());
                proof {
                    Self::lemma_used(self.spec_bytes());
                    assert(Self::spec_used(self.spec_bytes()) =~= self.spec_bytes()) by {
                        lemma_rounding_laws(
                            self.spec_bytes().len() as int,
                            Self::spec_flex_align() as int,
                        );
                    }
                }
            },
        }
    }

    /// Remove the last item.
    pub fn pop(&mut self) -> (r: Result<(), EmptyError>)
        requires
            old(self).wf(),
        ensures
            final(self).wf(),
            old(self)@.len() > 0 ==> r is Ok && final(self)@ == old(self)@.drop_last()
                && final(self).spec_bytes() == Self::spec_truncate_bytes(
                old(self).spec_bytes(),
                (old(self)@.len() - 1) as nat,
            ),
            old(self)@.len() == 0 ==> r == Err::<(), EmptyError>(EmptyError) && *final(self) == *old(
                self,
            ),
    {
        let n = self.len();
        if n > 0 {
            self.truncate(n - 1);
            Ok(())
        } else {
            Err(EmptyError)
        }
    }

    /// Remove all items.
    pub fn clear(&mut self)
        requires
            old(self).wf(),
        ensures
            final(self).wf(),
            final(self)@.len() == 0,
            final(self).spec_bytes() == Self::spec_truncate_bytes(old(self).spec_bytes(), 0),
    {
        self.truncate(0);
    }

    /// Push an item initialized by `emplacer`.
    ///
    /// The item goes right after the used bytes of the last item; it gets the rest of the
    /// memory, which `emplacer` initializes.
    pub fn push<E: Emplacer<T>>(&mut self, emplacer: E) -> (r: Result<(), Error>)
        requires
            old(self).wf(),
        ensures
            final(self).wf(),
            match Self::spec_push_check(old(self).spec_bytes()) {
                Err(e) => r == Err::<(), Error>(e) && final(self).spec_bytes() == old(self).spec_bytes()
                    && final(self)@ == old(self)@,
                Ok(()) => match emplacer.spec_emplace(Self::spec_free_region(old(self).spec_bytes())) {
                    Err(e) => r == Err::<(), Error>(e) && final(self).spec_bytes() == old(
                        self,
                    ).spec_bytes() && final(self)@ == old(self)@,
                    Ok(region) => r is Ok && final(self)@ == old(self)@.push(
                        region.take(T::spec_size(region) as int),
                    ) && final(self).spec_bytes() == Self::spec_push_bytes(
                        old(self).spec_bytes(),
                        region,
                    ),
                },
            },
    {
        proof {
            self.lemma_wf_valid();
        }
        let r = Self::push_mem(&mut self.mem, emplacer);
        proof {
            Self::lemma_used(self.spec_bytes());
            assert(Self::spec_used(self.spec_bytes()) =~= self.spec_bytes()) by {
                Self::lemma_flex_layout();
                lemma_rounding_laws(self.spec_bytes().len() as int, Self::spec_flex_align() as int);
            }
        }
        r
    }

    /// Push an item in its default state: the same as [`FlexVec::push`] with the emplacer that
    /// `T::default_emplacer` gives; its contract is that of `push` with that emplacer.
    pub fn push_default(&mut self) -> (r: Result<(), Error>)
        where T: FlatDefault,
        requires
            old(self).wf(),
        ensures
            final(self).wf(),
            match Self::spec_push_check(old(self).spec_bytes()) {
                Err(e) => r == Err::<(), Error>(e) && final(self).spec_bytes() == old(self).spec_bytes()
                    && final(self)@ == old(self)@,
                Ok(()) => match T::spec_default_emplacer().spec_emplace(
                    Self::spec_free_region(old(self).spec_bytes()),
                ) {
                    Err(e) => r == Err::<(), Error>(e) && final(self).spec_bytes() == old(
                        self,
                    ).spec_bytes() && final(self)@ == old(self)@,
                    Ok(region) => r is Ok && final(self)@ == old(self)@.push(
                        region.take(T::spec_size(region) as int),
                    ) && final(self).spec_bytes() == Self::spec_push_bytes(
                        old(self).spec_bytes(),
                        region,
                    ),
                },
            },
    {
        self.push(T::default_emplacer())
    }

    /// The memory of the vector.
    pub fn into_bytes(self) -> (r: Vec<u8>)
        ensures
            r@ == self.spec_bytes(),
    {
        self.mem
    }
}

impl<T: FlatUnsized, L: FlatLen> FlexVec<T, L> {
    /// `mem` with a zero link at the start.
    pub open spec fn spec_write_zero(mem: Seq<u8>) -> Seq<u8> {
        splice(mem, 0, L::spec_size_of() as int, L::spec_from_value(0).spec_to_bytes())
    }

    /// `mem` after an item is pushed with each of `es` in turn, or the first error.
    pub open spec fn spec_fill<E: Emplacer<T>>(mem: Seq<u8>, es: Seq<E>) -> Result<Seq<u8>, Error>
        decreases es.len(),
    {
        if es.len() == 0 {
            Ok(mem)
        } else {
            match Self::spec_fill(mem, es.drop_last()) {
                Err(e) => Err(e),
                Ok(m) => match Self::spec_push_check(m) {
                    Err(e) => Err(e),
                    Ok(_) => match es.last().spec_emplace(Self::spec_free_region(m)) {
                        Err(e) => Err(e),
                        Ok(r) => Ok(Self::spec_push_bytes(m, r)),
                    },
                },
            }
        }
    }

    /// What pushing the items of `es` in turn leaves when one of them fails: the vector of
    /// the items before it.
    pub open spec fn spec_fill_until_err<E: Emplacer<T>>(mem: Seq<u8>, es: Seq<E>) -> Seq<u8>
        decreases es.len(),
    {
        if es.len() == 0 {
            mem
        } else {
            match Self::spec_fill(mem, es.drop_last()) {
                Ok(m) => m,
                Err(_) => Self::spec_fill_until_err(mem, es.drop_last()),
            }
        }
    }

    /// What is left when the item after the first `k` fails is the vector of those `k`.
    proof fn lemma_fill_until_err<E: Emplacer<T>>(mem: Seq<u8>, es: Seq<E>, k: int)
        requires
            0 <= k < es.len(),
            Self::spec_fill(mem, es.take(k)) is Ok,
            Self::spec_fill(mem, es.take(k + 1)) is Err,
        ensures
            Self::spec_fill_until_err(mem, es) == Self::spec_fill(mem, es.take(k))->Ok_0,
        decreases es.len() - k,
    {
        if k + 1 == es.len() {
            assert(es.drop_last() =~= es.take(k));
        } else {
            let d = es.drop_last();
            assert(d.take(k) =~= es.take(k));
            assert(d.take(k + 1) =~= es.take(k + 1));
            Self::lemma_fill_until_err(mem, d, k);
            Self::lemma_fill_err(mem, d, k + 1);
        }
    }

    /// Pushing until an item fails keeps the length of valid memory.
    proof fn lemma_fill_until_err_len<E: Emplacer<T>>(mem: Seq<u8>, es: Seq<E>)
        requires
            Self::spec_valid_mem(mem),
        ensures
            Self::spec_fill_until_err(mem, es).len() == mem.len(),
        decreases es.len(),
    {
        if es.len() > 0 {
            Self::lemma_fill(mem, es.drop_last());
            Self::lemma_fill_until_err_len(mem, es.drop_last());
        }
    }

    /// A zero link at the start of memory large enough for it makes an empty vector.
    pub proof fn lemma_empty(region: Seq<u8>)
        requires
            T::spec_layout_ok(),
            L::spec_layout_ok(),
            Self::spec_offset_size() <= region.len() <= isize::MAX,
        ensures
            Self::spec_write_zero(region).len() == region.len(),
            Self::spec_valid_mem(Self::spec_used(Self::spec_write_zero(region))),
            Self::spec_contents(Self::spec_used(Self::spec_write_zero(region))).len() == 0,
            Self::spec_validate(Self::spec_write_zero(region)) is Ok,
    {
        Self::lemma_flex_layout();
        let z = L::spec_from_value(0);
        L::lemma_sized_value(z);
        L::lemma_len(z);
        let ls = L::spec_size_of() as int;
        let m = Self::spec_write_zero(region);
        lemma_splice(region, 0, ls, z.spec_to_bytes());
        Self::lemma_used(m);
        let u = Self::spec_used(m);
        assert(u.subrange(0, ls) =~= z.spec_to_bytes());
        L::lemma_sized_layout(z.spec_to_bytes());
        assert(Self::spec_step(u, 0) is None);
    }

    /// Filling a valid vector keeps it valid, and keeps its length.
    proof fn lemma_fill<E: Emplacer<T>>(mem: Seq<u8>, es: Seq<E>)
        requires
            Self::spec_valid_mem(mem),
        ensures
            Self::spec_fill(mem, es) matches Ok(m) ==> Self::spec_valid_mem(m) && m.len() == mem.len(),
        decreases es.len(),
    {
        if es.len() > 0 {
            Self::lemma_fill(mem, es.drop_last());
            match Self::spec_fill(mem, es.drop_last()) {
                Ok(m) => {
                    if Self::spec_push_check(m) is Ok {
                        Self::lemma_flex_layout();
                        let free = Self::spec_free_region(m);
                        Self::lemma_scan_walk(m, 0);
                        es.last().lemma_emplace(free);
                        match es.last().spec_emplace(free) {
                            Ok(r) => {
                                Self::lemma_push(m, r);
                            },
                            Err(_) => {},
                        }
                    }
                },
                Err(_) => {},
            }
        }
    }

    /// Once filling with the first `k` emplacers fails, filling with all of them fails alike.
    proof fn lemma_fill_err<E: Emplacer<T>>(mem: Seq<u8>, es: Seq<E>, k: int)
        requires
            0 <= k <= es.len(),
            Self::spec_fill(mem, es.take(k)) is Err,
        ensures
            Self::spec_fill(mem, es) == Self::spec_fill(mem, es.take(k)),
        decreases es.len() - k,
    {
        if k < es.len() {
            assert(es.take(k + 1).drop_last() =~= es.take(k));
            Self::lemma_fill_err(mem, es, k + 1);
        } else {
            assert(es.take(k) =~= es);
        }
    }
}

/// Emplacer of an empty vector: it writes a zero link at the start.
pub struct Empty;

impl<T: FlatUnsized, L: FlatLen> Emplacer<FlexVec<T, L>> for Empty {
    open spec fn spec_emplace(self, region: Seq<u8>) -> Result<Seq<u8>, Error> {
        Ok(FlexVec::<T, L>::spec_write_zero(region))
    }

    open spec fn spec_emplace_failed(self, region: Seq<u8>) -> Seq<u8> {
        region
    }

    proof fn lemma_emplace(self, region: Seq<u8>) {
        FlexVec::<T, L>::lemma_empty(region);
    }

    fn emplace_unchecked(self, mem: &mut Vec<u8>, start: usize, end: usize) -> (r: Result<(), Error>) {
        proof {
            FlexVec::<T, L>::lemma_flex_layout();
            L::lemma_len(L::spec_from_value(0));
            L::lemma_sized_value(L::spec_from_value(0));
        }
        let ghost old_mem = mem@;
        let z = L::from_usize(0).unwrap();
        let bytes = z.to_bytes();
        write_bytes(mem, start, bytes.as_slice());
        proof {
            let region = old_mem.subrange(start as int, end as int);
            assert(splice(old_mem, start as int, start + bytes@.len(), bytes@) =~= splice(
                old_mem,
                start as int,
                end as int,
                FlexVec::<T, L>::spec_write_zero(region),
            ));
        }
        Ok(())
    }
}

/// Emplacer of a vector whose items are initialized by each of a sequence of emplacers, in
/// order, as [`FlexVec::push`] does. When one of them fails, the vector of the items before
/// it is left.
pub struct FromIterator<E>(pub Vec<E>);

impl<E> FromIterator<E> {
    /// Emplacer pushing an item with each of `items`.
    pub fn new(items: Vec<E>) -> (r: Self)
        ensures
            r.0@ == items@,
    {
        FromIterator(items)
    }
}

impl<T: FlatUnsized, L: FlatLen, E: Emplacer<T>> Emplacer<FlexVec<T, L>> for FromIterator<E> {
    open spec fn spec_emplace(self, region: Seq<u8>) -> Result<Seq<u8>, Error> {
        let z = FlexVec::<T, L>::spec_write_zero(region);
        let u = FlexVec::<T, L>::spec_used(z);
        match FlexVec::<T, L>::spec_fill(u, self.0@) {
            Ok(m) => Ok(m + z.skip(u.len() as int)),
            Err(e) => Err(e),
        }
    }

    open spec fn spec_emplace_failed(self, region: Seq<u8>) -> Seq<u8> {
        let z = FlexVec::<T, L>::spec_write_zero(region);
        let u = FlexVec::<T, L>::spec_used(z);
        FlexVec::<T, L>::spec_fill_until_err(u, self.0@) + z.skip(u.len() as int)
    }

    proof fn lemma_emplace(self, region: Seq<u8>) {
        FlexVec::<T, L>::lemma_empty(region);
        let z = FlexVec::<T, L>::spec_write_zero(region);
        let u = FlexVec::<T, L>::spec_used(z);
        FlexVec::<T, L>::lemma_used(z);
        FlexVec::<T, L>::lemma_fill(u, self.0@);
        FlexVec::<T, L>::lemma_fill_until_err_len(u, self.0@);
        match FlexVec::<T, L>::spec_fill(u, self.0@) {
            Ok(m) => {
                let new = m + z.skip(u.len() as int);
                assert(FlexVec::<T, L>::spec_used(new) =~= m);
                assert(FlexVec::<T, L>::spec_used(m) =~= m) by {
                    FlexVec::<T, L>::lemma_used(m);
                    FlexVec::<T, L>::lemma_flex_layout();
                    lemma_rounding_laws(m.len() as int, FlexVec::<T, L>::spec_flex_align() as int);
                }
            },
            Err(_) => {},
        }
    }

    fn emplace_unchecked(self, mem: &mut Vec<u8>, start: usize, end: usize) -> (r: Result<(), Error>) {
        let ghost old_mem = mem@;
        let ghost region = old_mem.subrange(start as int, end as int);
        proof {
            FlexVec::<T, L>::lemma_flex_layout();
            FlexVec::<T, L>::lemma_empty(region);
            FlexVec::<T, L>::lemma_used(FlexVec::<T, L>::spec_write_zero(region));
            L::lemma_len(L::spec_from_value(0));
            L::lemma_sized_value(L::spec_from_value(0));
        }
        let fa = FlexVec::<T, L>::flex_align();
        let f = floor_mul(end - start, fa);
        let mut buf = vstd::slice::slice_to_vec(slice_subrange(mem.as_slice(), start, start + f));
        let z = L::from_usize(0).unwrap();
        let zb = z.to_bytes();
        write_bytes(&mut buf, 0, zb.as_slice());
        let ghost z0 = FlexVec::<T, L>::spec_write_zero(region);
        let ghost u0 = FlexVec::<T, L>::spec_used(z0);
        assert(buf@ =~= u0);
        let ghost sr = <Self as Emplacer<FlexVec<T, L>>>::spec_emplace(self, region);
        assert(sr == match FlexVec::<T, L>::spec_fill(u0, self.0@) {
            Ok(m) => Ok(m + z0.skip(u0.len() as int)),
            Err(e) => Err(e),
        });
        let mut es = self.0;
        let ghost all = es@;
        assert(all == self.0@);
        let ghost mut i: int = 0;
        assert(all.take(0) =~= Seq::<E>::empty());
        while es.len() > 0
            invariant
                T::spec_layout_ok(),
                L::spec_layout_ok(),
                FlexVec::<T, L>::spec_valid_mem(buf@),
                buf@.len() == f,
                0 <= i <= all.len(),
                es@ == all.skip(i),
                FlexVec::<T, L>::spec_fill(u0, all.take(i)) == Ok::<Seq<u8>, Error>(buf@),
                mem@ == old_mem,
                region == old_mem.subrange(start as int, end as int),
                sr == <Self as Emplacer<FlexVec<T, L>>>::spec_emplace(self, region),
                sr == match FlexVec::<T, L>::spec_fill(u0, all) {
                    Ok(m) => Ok(m + z0.skip(u0.len() as int)),
                    Err(e) => Err(e),
                },
                u0.len() == f,
                z0 == FlexVec::<T, L>::spec_write_zero(region),
                all == self.0@,
                old_mem == old(mem)@,
                u0 == FlexVec::<T, L>::spec_used(z0),
                z0.len() == end - start,
                start + f <= end <= old_mem.len() <= isize::MAX,
            decreases es@.len(),
        {
            let e = es.remove(0);
            proof {
                assert(all.take(i + 1).drop_last() =~= all.take(i));
                assert(all.take(i + 1).last() == e);
            }
            let r = FlexVec::<T, L>::push_mem(&mut buf, e);
            match r {
                Err(x) => {
                    proof {
                        assert(FlexVec::<T, L>::spec_fill(u0, all.take(i + 1)) == Err::<Seq<u8>, Error>(x));
                        FlexVec::<T, L>::lemma_fill_err(u0, all, i + 1);
                        FlexVec::<T, L>::lemma_fill_until_err(u0, all, i);
                        assert(<Self as Emplacer<FlexVec<T, L>>>::spec_emplace_failed(self, region)
                            == buf@ + z0.skip(u0.len() as int));
                    }
                    write_bytes(mem, start, buf.as_slice());
                    proof {
                        assert(splice(old_mem, start as int, start + buf@.len(), buf@) =~= splice(
                            old_mem,
                            start as int,
                            end as int,
                            buf@ + z0.skip(u0.len() as int),
                        ));
                    }
                    return Err(x);
                },
                Ok(()) => {},
            }
            proof {
                i = i + 1;
                assert(es@ =~= all.skip(i));
            }
        }
        proof {
            assert(all.take(i) =~= all);
        }
        write_bytes(mem, start, buf.as_slice());
        proof {
            assert(splice(old_mem, start as int, start + buf@.len(), buf@) =~= splice(
                old_mem,
                start as int,
                end as int,
                buf@ + z0.skip(u0.len() as int),
            ));
        }
        Ok(())
    }
}

impl<T: FlatUnsized, L: FlatLen> FlatDefault for FlexVec<T, L> {
    type DefaultEmplacer = Empty;

    open spec fn spec_default_emplacer() -> Empty {
        Empty
    }

    fn default_emplacer() -> (r: Empty) {
        Empty
    }
}

} // verus!
