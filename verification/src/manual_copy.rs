use vstd::prelude::*;

verus! {

/// Shorthand for the deep (mathematical) value of a type.
pub type Dv<T> = <T as DeepView>::V;

/// The merge protocol: how one replica's content is propagated into
/// another in place. Implementers fix the meaning of a merge through the
/// three spec functions, and the executable operations are then proved
/// against them.
///
/// Plain value types overwrite the destination and leave the source
/// alone; aggregate types may instead reconcile incrementally, and
/// one-shot queues drain the source into the destination.
pub trait ManualCopy: DeepView + Sized {
    /// Value of the destination replica after a merge.
    spec fn merge_dst(dst: Dv<Self>, src: Dv<Self>) -> Dv<Self>;

    /// Value of the source replica after a merge.
    spec fn merge_src(dst: Dv<Self>, src: Dv<Self>) -> Dv<Self>;

    /// Value of a replica after the post-notification cleanup pass.
    spec fn cleared(v: Dv<Self>) -> Dv<Self>;

    /// Propagates `other`'s content into `self` in place.
    fn copy_from(&mut self, other: &mut Self)
        ensures
            final(self).deep_view() == Self::merge_dst(
                old(self).deep_view(),
                old(other).deep_view(),
            ),
            final(other).deep_view() == Self::merge_src(
                old(self).deep_view(),
                old(other).deep_view(),
            ),
    ;

    /// Type-specific cleanup, run on a replica once its notifications
    /// have fired. A no-op for plain values; a one-shot queue drains.
    fn clear(&mut self)
        ensures
            final(self).deep_view() == Self::cleared(old(self).deep_view()),
    ;

    /// An exact copy: used to seed the replicas of a fresh tracked value.
    fn duplicate(&self) -> (r: Self)
        ensures
            r.deep_view() == self.deep_view(),
    ;
}

impl ManualCopy for u8 {
    open spec fn merge_dst(dst: u8, src: u8) -> u8 {
        src
    }

    open spec fn merge_src(dst: u8, src: u8) -> u8 {
        src
    }

    open spec fn cleared(v: u8) -> u8 {
        v
    }

    fn copy_from(&mut self, other: &mut u8) {
        *self = *other;
    }

    fn clear(&mut self) {
    }

    fn duplicate(&self) -> u8 {
        *self
    }
}

impl ManualCopy for u64 {
    open spec fn merge_dst(dst: u64, src: u64) -> u64 {
        src
    }

    open spec fn merge_src(dst: u64, src: u64) -> u64 {
        src
    }

    open spec fn cleared(v: u64) -> u64 {
        v
    }

    fn copy_from(&mut self, other: &mut u64) {
        *self = *other;
    }

    fn clear(&mut self) {
    }

    fn duplicate(&self) -> u64 {
        *self
    }
}

impl ManualCopy for usize {
    open spec fn merge_dst(dst: usize, src: usize) -> usize {
        src
    }

    open spec fn merge_src(dst: usize, src: usize) -> usize {
        src
    }

    open spec fn cleared(v: usize) -> usize {
        v
    }

    fn copy_from(&mut self, other: &mut usize) {
        *self = *other;
    }

    fn clear(&mut self) {
    }

    fn duplicate(&self) -> usize {
        *self
    }
}

impl ManualCopy for isize {
    open spec fn merge_dst(dst: isize, src: isize) -> isize {
        src
    }

    open spec fn merge_src(dst: isize, src: isize) -> isize {
        src
    }

    open spec fn cleared(v: isize) -> isize {
        v
    }

    fn copy_from(&mut self, other: &mut isize) {
        *self = *other;
    }

    fn clear(&mut self) {
    }

    fn duplicate(&self) -> isize {
        *self
    }
}

impl ManualCopy for String {
    open spec fn merge_dst(dst: Seq<char>, src: Seq<char>) -> Seq<char> {
        src
    }

    open spec fn merge_src(dst: Seq<char>, src: Seq<char>) -> Seq<char> {
        src
    }

    open spec fn cleared(v: Seq<char>) -> Seq<char> {
        v
    }

    fn copy_from(&mut self, other: &mut String) {
        *self = other.clone();
    }

    fn clear(&mut self) {
    }

    fn duplicate(&self) -> String {
        self.clone()
    }
}

impl<U: ManualCopy> ManualCopy for Option<U> {
    open spec fn merge_dst(dst: Option<Dv<U>>, src: Option<Dv<U>>) -> Option<Dv<U>> {
        src
    }

    open spec fn merge_src(dst: Option<Dv<U>>, src: Option<Dv<U>>) -> Option<Dv<U>> {
        src
    }

    open spec fn cleared(v: Option<Dv<U>>) -> Option<Dv<U>> {
        v
    }

    fn copy_from(&mut self, other: &mut Option<U>) {
        *self = match other {
            None => None,
            Some(v) => Some(v.duplicate()),
        };
    }

    fn clear(&mut self) {
    }

    fn duplicate(&self) -> Option<U> {
        match self {
            None => None,
            Some(v) => Some(v.duplicate()),
        }
    }
}

impl<U1: ManualCopy, U2: ManualCopy> ManualCopy for (U1, U2) {
    open spec fn merge_dst(dst: (Dv<U1>, Dv<U2>), src: (Dv<U1>, Dv<U2>)) -> (Dv<U1>, Dv<U2>) {
        src
    }

    open spec fn merge_src(dst: (Dv<U1>, Dv<U2>), src: (Dv<U1>, Dv<U2>)) -> (Dv<U1>, Dv<U2>) {
        src
    }

    open spec fn cleared(v: (Dv<U1>, Dv<U2>)) -> (Dv<U1>, Dv<U2>) {
        v
    }

    fn copy_from(&mut self, other: &mut (U1, U2)) {
        self.0 = other.0.duplicate();
        self.1 = other.1.duplicate();
    }

    fn clear(&mut self) {
    }

    fn duplicate(&self) -> (U1, U2) {
        (self.0.duplicate(), self.1.duplicate())
    }
}

impl<U: ManualCopy> ManualCopy for Vec<U> {
    open spec fn merge_dst(dst: Seq<Dv<U>>, src: Seq<Dv<U>>) -> Seq<Dv<U>> {
        src
    }

    open spec fn merge_src(dst: Seq<Dv<U>>, src: Seq<Dv<U>>) -> Seq<Dv<U>> {
        src
    }

    open spec fn cleared(v: Seq<Dv<U>>) -> Seq<Dv<U>> {
        v
    }

    /// Resizes to the source length, then assigns elementwise, so that an
    /// already-sized destination is reconciled without a fresh allocation.
    fn copy_from(&mut self, other: &mut Vec<U>) {
        let slen = self.len();
        let olen = other.len();

        if slen < olen {
            let mut i = slen;
            while i < olen
                invariant
                    slen <= i <= olen,
                    olen == other@.len(),
                    self@.len() == i,
                    forall|k: int|
                        0 <= k < slen ==> #[trigger] self@[k].deep_view()
                            == old(self)@[k].deep_view(),
                    forall|k: int|
                        slen <= k < i ==> #[trigger] self@[k].deep_view()
                            == other@[k].deep_view(),
                    other@ == old(other)@,
                decreases olen - i,
            {
                self.push(other[i].duplicate());
                i = i + 1;
            }
        } else if slen > olen {
            self.truncate(olen);
        }

        let min_len = if slen < olen {
            slen
        } else {
            olen
        };
        let mut i: usize = 0;
        while i < min_len
            invariant
                0 <= i <= min_len,
                min_len <= self@.len(),
                min_len <= other@.len(),
                self@.len() == olen,
                olen == other@.len(),
                forall|k: int|
                    0 <= k < i ==> #[trigger] self@[k].deep_view() == other@[k].deep_view(),
                forall|k: int|
                    min_len <= k < self@.len() ==> #[trigger] self@[k].deep_view()
                        == other@[k].deep_view(),
                other@ == old(other)@,
            decreases min_len - i,
        {
            let d = other[i].duplicate();
            let slot = &mut self[i];
            *slot = d;
            i = i + 1;
        }

        assert(self.deep_view() =~= old(other).deep_view());
        assert(other.deep_view() =~= old(other).deep_view());
    }

    fn clear(&mut self) {
    }

    fn duplicate(&self) -> Vec<U> {
        let mut r: Vec<U> = Vec::new();
        let mut i: usize = 0;
        while i < self.len()
            invariant
                0 <= i <= self@.len(),
                r@.len() == i,
                forall|k: int|
                    0 <= k < i ==> #[trigger] r@[k].deep_view() == self@[k].deep_view(),
            decreases self@.len() - i,
        {
            r.push(self[i].duplicate());
            i = i + 1;
        }
        assert(r.deep_view() =~= self.deep_view());
        r
    }
}

} // verus!
