use crate::error::{Error, ErrorKind};
use crate::mem::AlignedBytes;
use crate::traits::{
    new_in_place, spec_checked, spec_placed, spec_same_verdict, splice, write_bytes, Emplacer,
    FlatDefault, FlatUnsized,
};
use vstd::prelude::*;

verus! {

/// Owner of bytes whose contents stay put between reads and writes.
pub trait TrustedDeref: Sized {
    /// The owner is in a state where its bytes can be read.
    spec fn inv(&self) -> bool;

    /// The bytes.
    spec fn spec_deref(&self) -> Seq<u8>;

    /// The bytes.
    fn deref_bytes(&self) -> (r: &[u8])
        requires
            self.inv(),
        ensures
            r@ == self.spec_deref(),
    ;

    /// Overwrite the start of the bytes with `src`.
    fn write_prefix(&mut self, src: &[u8])
        requires
            old(self).inv(),
            src@.len() <= old(self).spec_deref().len(),
        ensures
            final(self).inv(),
            final(self).spec_deref() == splice(old(self).spec_deref(), 0, src@.len() as int, src@),
    ;
}

/// Owner of bytes that can be read as a whole and overwritten from the start, whose contents
/// stay put in between; the guarantees are those of [`TrustedDeref`].
pub trait TrustedRef: TrustedDeref {

}

impl TrustedRef for Vec<u8> {

}

impl TrustedRef for AlignedBytes {

}

impl TrustedDeref for Vec<u8> {
    open spec fn inv(&self) -> bool {
        true
    }

    open spec fn spec_deref(&self) -> Seq<u8> {
        self@
    }

    fn deref_bytes(&self) -> (r: &[u8]) {
        self.as_slice()
    }

    fn write_prefix(&mut self, src: &[u8]) {
        write_bytes(self, 0, src);
    }
}

impl TrustedDeref for AlignedBytes {
    open spec fn inv(&self) -> bool {
        self.wf()
    }

    open spec fn spec_deref(&self) -> Seq<u8> {
        self@
    }

    fn deref_bytes(&self) -> (r: &[u8]) {
        self.as_slice()
    }

    fn write_prefix(&mut self, src: &[u8]) {
        let ghost old_bytes = self@;
        let n = src.len();
        let mut i: usize = 0;
        while i < n
            invariant
                self.wf(),
                n == src@.len(),
                n <= old_bytes.len(),
                self@.len() == old_bytes.len(),
                i <= n,
                forall|j: int| 0 <= j < i ==> self@[j] == src@[j],
                forall|j: int| i <= j < old_bytes.len() ==> self@[j] == old_bytes[j],
            decreases n - i,
        {
            self.set(i, src[i]);
            i = i + 1;
        }
        assert(self@ =~= splice(old_bytes, 0, n as int, src@));
    }
}

/// A flat value kept together with the owner of its bytes, which gets them back in the end.
pub struct FlatWrap<F: FlatUnsized, P: TrustedDeref> {
    pointer: P,
    flat: F,
}

impl<F: FlatUnsized, P: TrustedDeref> FlatWrap<F, P> {
    /// The owner of the bytes, as it was handed over.
    pub closed spec fn spec_pointer(&self) -> P {
        self.pointer
    }

    /// The flat value.
    pub closed spec fn spec_flat(&self) -> F {
        self.flat
    }

    /// The value is well formed and its memory fits in the owner's bytes.
    pub open spec fn wf(&self) -> bool {
        &&& self.spec_pointer().inv()
        &&& self.spec_flat().wf()
        &&& self.spec_flat().spec_mem().len() <= self.spec_pointer().spec_deref().len()
    }

    /// Take the value of `F` that the owner's bytes hold, which are taken to be aligned and
    /// valid for `F`.
    pub fn from_wrapped_bytes_unchecked(pointer: P) -> (r: Self)
        requires
            pointer.inv(),
            F::spec_layout_ok(),
            F::spec_min_size() <= pointer.spec_deref().len() <= isize::MAX,
            F::spec_validate(pointer.spec_deref()) is Ok,
        ensures
            r.wf(),
            r.spec_pointer() == pointer,
            r.spec_flat().spec_mem() == pointer.spec_deref().take(
                F::spec_mem_len(pointer.spec_deref().len()) as int,
            ),
    {
        let flat = F::from_bytes_unchecked(pointer.deref_bytes());
        proof {
            F::lemma_mem_len(pointer.spec_deref());
        }
        FlatWrap { pointer, flat }
    }

    /// Take the value of `F` that the owner's bytes hold.
    ///
    /// Error returned if the bytes are misaligned, too short or invalid for `F`.
    pub fn from_wrapped_bytes(pointer: P) -> (r: Result<Self, Error>)
        requires
            pointer.inv(),
            pointer.spec_deref().len() <= isize::MAX,
        ensures
            r matches Ok(w) ==> w.wf() && w.spec_pointer() == pointer && w.spec_flat().spec_mem()
                == pointer.spec_deref().take(F::spec_mem_len(pointer.spec_deref().len()) as int),
            pointer.spec_deref().len() < F::spec_min_size() ==> r is Err,
            pointer.spec_deref().len() >= F::spec_min_size() && F::spec_validate(
                pointer.spec_deref(),
            ) is Err ==> r is Err,
            r matches Err(e) ==> (e.pos == 0 && e.kind == ErrorKind::BadAlign) || (
            pointer.spec_deref().len() < F::spec_min_size() && e == Error {
                kind: ErrorKind::InsufficientSize,
                pos: 0,
            }) || (pointer.spec_deref().len() >= F::spec_min_size() && F::spec_validate(
                pointer.spec_deref(),
            ) == Err::<(), Error>(e)),
            F::spec_align() == 1 ==> spec_same_verdict(
                r,
                spec_checked(
                    pointer.spec_deref().len(),
                    F::spec_min_size(),
                    F::spec_validate(pointer.spec_deref()),
                ),
            ),
    {
        let flat = F::from_bytes(pointer.deref_bytes())?;
        proof {
            flat.lemma_wf();
            F::lemma_mem_len(pointer.spec_deref());
        }
        Ok(FlatWrap { pointer, flat })
    }

    /// What a result of building a wrapper gives of its flat value.
    pub open spec fn spec_flat_result(r: Result<Self, Error>) -> Result<F, Error> {
        match r {
            Ok(w) => Ok(w.spec_flat()),
            Err(e) => Err(e),
        }
    }

    /// Initialize the owner's bytes with `emplacer` and keep the value they hold.
    ///
    /// Error returned if the bytes are misaligned or too short for `F`, or if the emplacer
    /// fails; the owner is dropped then.
    pub fn new_in_place<E: Emplacer<F>>(pointer: P, emplacer: E) -> (r: Result<Self, Error>)
        requires
            pointer.inv(),
            pointer.spec_deref().len() <= isize::MAX,
        ensures
            exists|bytes: Seq<u8>|
                #[trigger] spec_placed(emplacer, pointer.spec_deref(), bytes, Self::spec_flat_result(r))
                    && (r matches Ok(w) ==> w.wf() && w.spec_pointer().spec_deref() == bytes),
    {
        let mut mem = vstd::slice::slice_to_vec(pointer.deref_bytes());
        let ghost old_bytes = mem@;
        let placed = new_in_place(mem.as_mut_slice(), emplacer);
        let ghost new_bytes = mem@;
        match placed {
            Err(e) => {
                let res: Result<Self, Error> = Err(e);
                assert(spec_placed(emplacer, pointer.spec_deref(), new_bytes, Self::spec_flat_result(res)));
                res
            },
            Ok(flat) => {
                let mut owner = pointer;
                owner.write_prefix(mem.as_slice());
                proof {
                    assert(splice(old_bytes, 0, new_bytes.len() as int, new_bytes) =~= new_bytes);
                    flat.lemma_wf();
                    F::lemma_mem_len(new_bytes);
                }
                let w = FlatWrap { pointer: owner, flat };
                assert(spec_placed(emplacer, old_bytes, new_bytes, Self::spec_flat_result(Ok(w))));
                Ok(w)
            },
        }
    }

    /// Initialize the owner's bytes into the default state of `F` and keep that value.
    pub fn default_in_place(pointer: P) -> (r: Result<Self, Error>)
        where F: FlatDefault,
        requires
            pointer.inv(),
            pointer.spec_deref().len() <= isize::MAX,
        ensures
            exists|bytes: Seq<u8>|
                #[trigger] spec_placed(
                    F::spec_default_emplacer(),
                    pointer.spec_deref(),
                    bytes,
                    Self::spec_flat_result(r),
                ) && (r matches Ok(w) ==> w.wf() && w.spec_pointer().spec_deref() == bytes),
    {
        Self::new_in_place(pointer, F::default_emplacer())
    }

    /// The flat value.
    pub fn as_flat(&self) -> (r: &F)
        ensures
            *r == self.spec_flat(),
    {
        &self.flat
    }

    /// The flat value, to change it.
    pub fn as_flat_mut(&mut self) -> (r: &mut F)
        ensures
            *r == old(self).spec_flat(),
            final(self).spec_pointer() == old(self).spec_pointer(),
            final(self).spec_flat() == *final(r),
    {
        &mut self.flat
    }

    /// The owner, with the flat value's memory written back over the start of its bytes.
    pub fn into_inner(self) -> (r: P)
        requires
            self.wf(),
        ensures
            r.inv(),
            r.spec_deref() == splice(
                self.spec_pointer().spec_deref(),
                0,
                self.spec_flat().spec_mem().len() as int,
                self.spec_flat().spec_mem(),
            ),
    {
        let mut pointer = self.pointer;
        let bytes = self.flat.as_bytes();
        pointer.write_prefix(bytes.as_slice());
        pointer
    }
}

} // verus!
