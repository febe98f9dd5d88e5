//! Paths of files in a repository.

use vstd::prelude::*;
use vstd::std_specs::cmp::PartialEqSpecImpl;

verus! {

/// The byte that separates the elements of a path in its textual form.
pub const SEPARATOR: u8 = 47;

/// Whether `e` can be one element of a path: it is not empty and holds no
/// separator.
pub open spec fn valid_element(e: Seq<u8>) -> bool {
    e.len() > 0 && forall|i: int| 0 <= i < e.len() ==> e[i] != SEPARATOR
}

/// Whether `p` can be a path: it has an element, and each one is valid.
pub open spec fn valid_path(p: Seq<Seq<u8>>) -> bool {
    p.len() > 0 && forall|i: int| 0 <= i < p.len() ==> valid_element(#[trigger] p[i])
}

/// Whether the bytes of `e` are a valid element.
pub fn is_valid_element(e: &Vec<u8>) -> (r: bool)
    ensures
        r == valid_element(e@),
{
    if e.len() == 0 {
        return false;
    }
    let mut i: usize = 0;
    while i < e.len()
        invariant
            0 <= i <= e.len(),
            forall|j: int| 0 <= j < i ==> e@[j] != SEPARATOR,
        decreases e.len() - i,
    {
        if e[i] == SEPARATOR {
            return false;
        }
        i += 1;
    }
    true
}

/// Whether `a` and `b` hold the same bytes.
pub fn bytes_eq(a: &Vec<u8>, b: &Vec<u8>) -> (r: bool)
    ensures
        r == (a@ == b@),
{
    if a.len() != b.len() {
        return false;
    }
    let mut i: usize = 0;
    while i < a.len()
        invariant
            0 <= i <= a.len(),
            a@.len() == b@.len(),
            forall|j: int| 0 <= j < i ==> a@[j] == b@[j],
        decreases a.len() - i,
    {
        if a[i] != b[i] {
            return false;
        }
        i += 1;
    }
    assert(a@ =~= b@);
    true
}

/// A copy of `a`.
pub fn bytes_clone(a: &Vec<u8>) -> (r: Vec<u8>)
    ensures
        r@ == a@,
{
    let mut out: Vec<u8> = Vec::new();
    let mut i: usize = 0;
    while i < a.len()
        invariant
            0 <= i <= a.len(),
            out@ == a@.take(i as int),
        decreases a.len() - i,
    {
        out.push(a[i]);
        assert(a@.take(i + 1) =~= a@.take(i as int).push(a@[i as int]));
        i += 1;
    }
    assert(a@.take(a@.len() as int) =~= a@);
    out
}

/// What a scan of `bytes` from the left has seen: the elements that are
/// complete, and the bytes since the last separator.
pub open spec fn scan_path(bytes: Seq<u8>) -> (Seq<Seq<u8>>, Seq<u8>)
    decreases bytes.len(),
{
    if bytes.len() == 0 {
        (Seq::empty(), Seq::empty())
    } else {
        let (done, current) = scan_path(bytes.drop_last());
        if bytes.last() == SEPARATOR {
            if current.len() > 0 {
                (done.push(current), Seq::empty())
            } else {
                (done, Seq::empty())
            }
        } else {
            (done, current.push(bytes.last()))
        }
    }
}

/// The elements of the textual form `bytes` of a path: the pieces between
/// separators that are not empty.
pub open spec fn split_path(bytes: Seq<u8>) -> Seq<Seq<u8>> {
    let (done, current) = scan_path(bytes);
    if current.len() > 0 {
        done.push(current)
    } else {
        done
    }
}

/// Every piece that a scan finds is a valid element.
pub proof fn lemma_scan_path_valid(bytes: Seq<u8>)
    ensures
        forall|i: int|
            0 <= i < scan_path(bytes).0.len() ==> valid_element(#[trigger] scan_path(bytes).0[i]),
        forall|i: int| 0 <= i < scan_path(bytes).1.len() ==> scan_path(bytes).1[i] != SEPARATOR,
        forall|i: int|
            0 <= i < split_path(bytes).len() ==> valid_element(#[trigger] split_path(bytes)[i]),
    decreases bytes.len(),
{
    let (done, current) = scan_path(bytes);
    if bytes.len() > 0 {
        let rest = bytes.drop_last();
        lemma_scan_path_valid(rest);
        let (d0, c0) = scan_path(rest);
        assert forall|i: int| 0 <= i < done.len() implies valid_element(#[trigger] done[i]) by {
            if i < d0.len() {
                assert(done[i] == d0[i]);
            } else {
                assert(done[i] == c0);
            }
        }
        assert forall|i: int| 0 <= i < current.len() implies current[i] != SEPARATOR by {
            if i < c0.len() {
                assert(current[i] == c0[i]);
            }
        }
    }
    let all = split_path(bytes);
    assert forall|i: int| 0 <= i < all.len() implies valid_element(#[trigger] all[i]) by {
        if i < done.len() {
            assert(all[i] == done[i]);
        } else {
            assert(all[i] == current);
        }
    }
}

/// One element of a path: the name of a file or of a directory.
#[derive(Debug)]
pub struct MPathElement {
    bytes: Vec<u8>,
}

impl View for MPathElement {
    type V = Seq<u8>;

    closed spec fn view(&self) -> Seq<u8> {
        self.bytes@
    }
}

impl MPathElement {
    #[verifier::type_invariant]
    spec fn inv(self) -> bool {
        valid_element(self.bytes@)
    }

    /// The element with the given bytes, if they make up one.
    pub fn new(bytes: Vec<u8>) -> (r: Option<MPathElement>)
        ensures
            match r {
                Some(e) => e@ == bytes@ && valid_element(e@),
                None => !valid_element(bytes@),
            },
    {
        if is_valid_element(&bytes) {
            Some(MPathElement { bytes })
        } else {
            None
        }
    }

    /// The bytes of the element.
    pub fn as_bytes(&self) -> (r: &Vec<u8>)
        ensures
            r@ == self@,
            valid_element(self@),
    {
        proof {
            use_type_invariant(self);
        }
        &self.bytes
    }
}

impl Clone for MPathElement {
    fn clone(&self) -> (r: Self)
        ensures
            r@ == self@,
    {
        proof {
            use_type_invariant(self);
        }
        MPathElement { bytes: bytes_clone(&self.bytes) }
    }
}

impl PartialEq for MPathElement {
    fn eq(&self, other: &Self) -> (r: bool) {
        bytes_eq(&self.bytes, &other.bytes)
    }
}

impl Eq for MPathElement {

}

impl PartialEqSpecImpl for MPathElement {
    open spec fn obeys_eq_spec() -> bool {
        true
    }

    open spec fn eq_spec(&self, other: &Self) -> bool {
        self@ == other@
    }
}

/// The path of a file or directory below the root of a repository: a
/// non-empty list of elements, none of them empty.
#[derive(Debug)]
pub struct MPath {
    elements: Vec<Vec<u8>>,
}

impl View for MPath {
    type V = Seq<Seq<u8>>;

    closed spec fn view(&self) -> Seq<Seq<u8>> {
        self.elements.deep_view()
    }
}

impl MPath {
    #[verifier::type_invariant]
    spec fn inv(self) -> bool {
        valid_path(self.elements.deep_view())
    }

    /// The path with the textual form `bytes`: its elements are the pieces
    /// between separators that are not empty. `None` where there is no such
    /// piece.
    pub fn new(bytes: &[u8]) -> (r: Option<MPath>)
        ensures
            match r {
                Some(p) => p@ == split_path(bytes@) && valid_path(p@),
                None => split_path(bytes@).len() == 0,
            },
    {
        let mut elements: Vec<Vec<u8>> = Vec::new();
        let mut current: Vec<u8> = Vec::new();
        let mut i: usize = 0;
        proof {
            assert(bytes@.take(0) =~= Seq::empty());
            assert(elements.deep_view() =~~= Seq::<Seq<u8>>::empty());
        }
        while i < bytes.len()
            invariant
                0 <= i <= bytes.len(),
                (elements.deep_view(), current@) == scan_path(bytes@.take(i as int)),
            decreases bytes.len() - i,
        {
            proof {
                assert(bytes@.take(i + 1).drop_last() =~= bytes@.take(i as int));
                assert(bytes@.take(i + 1).last() == bytes@[i as int]);
            }
            let b = bytes[i];
            if b == SEPARATOR {
                if current.len() > 0 {
                    let ghost before = elements.deep_view();
                    let ghost piece = current@;
                    let mut complete: Vec<u8> = Vec::new();
                    std::mem::swap(&mut complete, &mut current);
                    elements.push(complete);
                    proof {
                        assert(elements.deep_view() =~~= before.push(piece));
                        assert(current@ =~= Seq::<u8>::empty());
                    }
                }
            } else {
                current.push(b);
            }
            i += 1;
        }
        proof {
            assert(bytes@.take(bytes@.len() as int) =~= bytes@);
            lemma_scan_path_valid(bytes@);
        }
        if current.len() > 0 {
            let ghost before = elements.deep_view();
            let ghost piece = current@;
            elements.push(current);
            proof {
                assert(elements.deep_view() =~~= before.push(piece));
            }
        }
        if elements.len() == 0 {
            None
        } else {
            proof {
                assert(elements.deep_view() == split_path(bytes@));
            }
            Some(MPath { elements })
        }
    }

    /// The path with the given elements, if they make up a path.
    pub fn from_elements(elements: Vec<Vec<u8>>) -> (r: Option<MPath>)
        ensures
            match r {
                Some(p) => p@ == elements.deep_view() && valid_path(p@),
                None => !valid_path(elements.deep_view()),
            },
    {
        if elements.len() == 0 {
            return None;
        }
        let mut i: usize = 0;
        while i < elements.len()
            invariant
                0 <= i <= elements.len(),
                forall|j: int| 0 <= j < i ==> valid_element(#[trigger] elements.deep_view()[j]),
            decreases elements.len() - i,
        {
            if !is_valid_element(&elements[i]) {
                assert(elements.deep_view()[i as int] == elements@[i as int]@);
                return None;
            }
            assert(elements.deep_view()[i as int] == elements@[i as int]@);
            i += 1;
        }
        Some(MPath { elements })
    }

    /// The path of one element.
    pub fn from_element(element: Vec<u8>) -> (r: Option<MPath>)
        ensures
            match r {
                Some(p) => p@ == seq![element@],
                None => !valid_element(element@),
            },
    {
        if !is_valid_element(&element) {
            return None;
        }
        let mut elements: Vec<Vec<u8>> = Vec::new();
        elements.push(element);
        assert(elements.deep_view() =~~= seq![element@]);
        Some(MPath { elements })
    }

    /// Number of elements; never zero.
    pub fn num_components(&self) -> (r: usize)
        ensures
            r == self@.len(),
            r > 0,
            valid_path(self@),
    {
        proof {
            use_type_invariant(self);
        }
        self.elements.len()
    }

    /// The element at position `i`.
    pub fn element(&self, i: usize) -> (r: &Vec<u8>)
        requires
            i < self@.len(),
        ensures
            r@ == self@[i as int],
            valid_element(r@),
    {
        proof {
            use_type_invariant(self);
            assert(self.elements.deep_view()[i as int] == self.elements@[i as int]@);
        }
        &self.elements[i]
    }

    /// The last element: the name of the file or directory itself.
    pub fn basename(&self) -> (r: &Vec<u8>)
        ensures
            self@.len() > 0,
            r@ == self@.last(),
            valid_element(r@),
    {
        proof {
            use_type_invariant(self);
        }
        let n = self.elements.len();
        proof {
            assert(self.elements.deep_view()[n - 1] == self.elements@[n - 1]@);
        }
        &self.elements[n - 1]
    }

    /// The directory made of the first `n` elements; `None` for the root,
    /// where `n` is zero, and where the path has fewer elements.
    pub fn take_prefix(&self, n: usize) -> (r: Option<MPath>)
        ensures
            match r {
                Some(p) => 0 < n <= self@.len() && p@ == self@.take(n as int),
                None => n == 0 || n > self@.len(),
            },
    {
        proof {
            use_type_invariant(self);
        }
        if n == 0 || n > self.elements.len() {
            return None;
        }
        let mut elements: Vec<Vec<u8>> = Vec::new();
        let mut i: usize = 0;
        while i < n
            invariant
                0 <= i <= n,
                n <= self.elements@.len(),
                elements.deep_view() == self.elements.deep_view().take(i as int),
            decreases n - i,
        {
            let e = bytes_clone(&self.elements[i]);
            let ghost before = elements.deep_view();
            elements.push(e);
            proof {
                assert(self.elements.deep_view()[i as int] == self.elements@[i as int]@);
                assert(elements.deep_view() =~~= before.push(e@));
                assert(self.elements.deep_view().take(i + 1) =~= self.elements.deep_view().take(
                    i as int,
                ).push(self.elements.deep_view()[i as int]));
            }
            i += 1;
        }
        proof {
            assert forall|k: int| 0 <= k < elements.deep_view().len() implies valid_element(
                #[trigger] elements.deep_view()[k],
            ) by {
                assert(elements.deep_view()[k] == self.elements.deep_view()[k]);
            }
        }
        Some(MPath { elements })
    }

    /// A copy of the path.
    pub fn duplicate(&self) -> (r: MPath)
        ensures
            r@ == self@,
    {
        proof {
            use_type_invariant(self);
        }
        let mut elements: Vec<Vec<u8>> = Vec::new();
        let mut i: usize = 0;
        while i < self.elements.len()
            invariant
                0 <= i <= self.elements.len(),
                elements.deep_view() == self.elements.deep_view().take(i as int),
            decreases self.elements.len() - i,
        {
            let e = bytes_clone(&self.elements[i]);
            let ghost before = elements.deep_view();
            elements.push(e);
            proof {
                assert(self.elements.deep_view()[i as int] == self.elements@[i as int]@);
                assert(elements.deep_view() =~~= before.push(e@));
                assert(self.elements.deep_view().take(i + 1) =~= self.elements.deep_view().take(
                    i as int,
                ).push(self.elements.deep_view()[i as int]));
            }
            i += 1;
        }
        proof {
            assert(self.elements.deep_view().take(self.elements@.len() as int)
                =~= self.elements.deep_view());
        }
        MPath { elements }
    }

    /// The path that `element` names inside the directory `dir`, or at the
    /// root when `dir` is `None`.
    pub fn join_opt_element(dir: Option<&MPath>, element: &MPathElement) -> (r: MPath)
        ensures
            r@ == match dir {
                Some(d) => d@.push(element@),
                None => seq![element@],
            },
    {
        let element = element.as_bytes();
        match dir {
            Some(d) => {
                proof {
                    use_type_invariant(d);
                }
                let MPath { elements: mut elements } = d.duplicate();
                let ghost before = elements.deep_view();
                elements.push(bytes_clone(element));
                proof {
                    assert(elements.deep_view() =~~= before.push(element@));
                    assert forall|i: int| 0 <= i < elements.deep_view().len() implies valid_element(
                        #[trigger] elements.deep_view()[i],
                    ) by {
                        if i < before.len() {
                            assert(elements.deep_view()[i] == before[i]);
                        }
                    }
                }
                MPath { elements }
            },
            None => {
                let mut elements: Vec<Vec<u8>> = Vec::new();
                elements.push(bytes_clone(element));
                assert(elements.deep_view() =~~= seq![element@]);
                MPath { elements }
            },
        }
    }
}

impl Clone for MPath {
    fn clone(&self) -> (r: Self)
        ensures
            r@ == self@,
    {
        self.duplicate()
    }
}

impl PartialEq for MPath {
    fn eq(&self, other: &Self) -> (r: bool) {
        if self.elements.len() != other.elements.len() {
            assert(self.elements.deep_view().len() != other.elements.deep_view().len());
            return false;
        }
        let mut i: usize = 0;
        while i < self.elements.len()
            invariant
                0 <= i <= self.elements.len(),
                self.elements@.len() == other.elements@.len(),
                forall|j: int|
                    0 <= j < i ==> self.elements.deep_view()[j] == other.elements.deep_view()[j],
            decreases self.elements.len() - i,
        {
            proof {
                assert(self.elements.deep_view()[i as int] == self.elements@[i as int]@);
                assert(other.elements.deep_view()[i as int] == other.elements@[i as int]@);
            }
            if !bytes_eq(&self.elements[i], &other.elements[i]) {
                return false;
            }
            i += 1;
        }
        assert(self.elements.deep_view() =~= other.elements.deep_view());
        true
    }
}

impl Eq for MPath {

}

impl PartialEqSpecImpl for MPath {
    open spec fn obeys_eq_spec() -> bool {
        true
    }

    open spec fn eq_spec(&self, other: &Self) -> bool {
        self@ == other@
    }
}

/// The mathematical value of a list of paths.
pub open spec fn paths_view(paths: Seq<MPath>) -> Seq<Seq<Seq<u8>>> {
    Seq::new(paths.len(), |i: int| paths[i]@)
}

} // verus!
