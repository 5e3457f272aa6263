//! Keys of the ordered collections: values with a mathematical model and a
//! strict total order on that model.
use vstd::prelude::*;
use vstd::utf8::encode_utf8;

verus! {

/// A value that an ordered collection can be keyed by.
pub trait Key: Sized {
    /// What the key is, mathematically. Two keys are the same key exactly when
    /// their models are equal.
    type Model;

    spec fn model(&self) -> Self::Model;

    /// The strict order that the collections keep.
    spec fn before(a: Self::Model, b: Self::Model) -> bool;

    proof fn order_irreflexive(a: Self::Model)
        ensures
            !Self::before(a, a),
    ;

    proof fn order_transitive(a: Self::Model, b: Self::Model, c: Self::Model)
        ensures
            Self::before(a, b) && Self::before(b, c) ==> Self::before(a, c),
    ;

    proof fn order_total(a: Self::Model, b: Self::Model)
        ensures
            Self::before(a, b) || a == b || Self::before(b, a),
    ;

    fn precedes(&self, other: &Self) -> (r: bool)
        ensures
            r == Self::before(self.model(), other.model()),
    ;

    fn same(&self, other: &Self) -> (r: bool)
        ensures
            r == (self.model() == other.model()),
    ;

    fn duplicate(&self) -> (r: Self)
        ensures
            r == *self,
    ;
}

/// `i` is where `a` and `b` part, and `a` is the smaller there.
pub open spec fn parts_below(a: Seq<u8>, b: Seq<u8>, i: int) -> bool {
    &&& 0 <= i < b.len()
    &&& i <= a.len()
    &&& forall|j: int| 0 <= j < i ==> a[j] == b[j]
    &&& i == a.len() || a[i] < b[i]
}

/// Lexicographic order of byte strings.
#[verifier::opaque]
pub open spec fn bytes_before(a: Seq<u8>, b: Seq<u8>) -> bool {
    exists|i: int| parts_below(a, b, i)
}

/// The order of strings: that of their UTF-8 bytes.
pub open spec fn text_before(a: Seq<char>, b: Seq<char>) -> bool {
    bytes_before(encode_utf8(a), encode_utf8(b))
}

proof fn lemma_bytes_total_from(a: Seq<u8>, b: Seq<u8>, k: int)
    requires
        0 <= k <= a.len(),
        k <= b.len(),
        forall|j: int| 0 <= j < k ==> a[j] == b[j],
    ensures
        bytes_before(a, b) || a == b || bytes_before(b, a),
    decreases a.len() - k,
{
    reveal(bytes_before);
    if k == a.len() && k == b.len() {
        assert(a =~= b);
    } else if k == a.len() {
        assert(parts_below(a, b, k));
    } else if k == b.len() {
        assert(parts_below(b, a, k));
    } else if a[k] < b[k] {
        assert(parts_below(a, b, k));
    } else if b[k] < a[k] {
        assert(parts_below(b, a, k));
    } else {
        lemma_bytes_total_from(a, b, k + 1);
    }
}

proof fn lemma_bytes_transitive(a: Seq<u8>, b: Seq<u8>, c: Seq<u8>)
    requires
        bytes_before(a, b),
        bytes_before(b, c),
    ensures
        bytes_before(a, c),
{
    reveal(bytes_before);
    let i = choose|i: int| parts_below(a, b, i);
    let j = choose|j: int| parts_below(b, c, j);
    if i <= j {
        assert(parts_below(a, c, i));
    } else {
        assert(parts_below(a, c, j));
    }
}

/// Strings are equal when their UTF-8 bytes are.
pub proof fn lemma_utf8_injective(a: Seq<char>, b: Seq<char>)
    requires
        encode_utf8(a) == encode_utf8(b),
    ensures
        a == b,
{
    vstd::utf8::encode_utf8_decode_utf8(a);
    vstd::utf8::encode_utf8_decode_utf8(b);
}

pub proof fn lemma_text_irreflexive(a: Seq<char>)
    ensures
        !text_before(a, a),
{
    reveal(bytes_before);
}

pub proof fn lemma_text_transitive(a: Seq<char>, b: Seq<char>, c: Seq<char>)
    requires
        text_before(a, b),
        text_before(b, c),
    ensures
        text_before(a, c),
{
    lemma_bytes_transitive(encode_utf8(a), encode_utf8(b), encode_utf8(c));
}

pub proof fn lemma_text_total(a: Seq<char>, b: Seq<char>)
    ensures
        text_before(a, b) || a == b || text_before(b, a),
{
    lemma_bytes_total_from(encode_utf8(a), encode_utf8(b), 0);
    if encode_utf8(a) == encode_utf8(b) {
        lemma_utf8_injective(a, b);
    }
}

/// Whether the bytes of `a` come before those of `b`.
pub fn str_precedes(a: &str, b: &str) -> (r: bool)
    ensures
        r == text_before(a@, b@),
{
    proof {
        reveal(bytes_before);
    }
    let x: &[u8] = a.as_bytes();
    let y: &[u8] = b.as_bytes();
    let mut i: usize = 0;
    while i < x.len() && i < y.len() && x[i] == y[i]
        invariant
            0 <= i <= x@.len(),
            i <= y@.len(),
            forall|j: int| 0 <= j < i ==> x@[j] == y@[j],
        decreases x@.len() - i,
    {
        i = i + 1;
    }
    if i < y.len() && (i == x.len() || x[i] < y[i]) {
        assert(parts_below(x@, y@, i as int));
        true
    } else {
        assert forall|k: int| !parts_below(x@, y@, k) by {
            if parts_below(x@, y@, k) {
                assert(k == i);
            }
        }
        false
    }
}

/// Whether two string slices hold the same characters.
pub fn str_same(a: &str, b: &str) -> (r: bool)
    ensures
        r == (a@ == b@),
{
    let x: &[u8] = a.as_bytes();
    let y: &[u8] = b.as_bytes();
    if x.len() != y.len() {
        return false;
    }
    let mut i: usize = 0;
    while i < x.len()
        invariant
            0 <= i <= x@.len(),
            x@.len() == y@.len(),
            x@ == encode_utf8(a@),
            y@ == encode_utf8(b@),
            forall|j: int| 0 <= j < i ==> x@[j] == y@[j],
        decreases x@.len() - i,
    {
        if x[i] != y[i] {
            return false;
        }
        i = i + 1;
    }
    proof {
        assert(x@ =~= y@);
        lemma_utf8_injective(a@, b@);
    }
    true
}

impl Key for String {
    type Model = Seq<char>;

    open spec fn model(&self) -> Seq<char> {
        self@
    }

    open spec fn before(a: Seq<char>, b: Seq<char>) -> bool {
        text_before(a, b)
    }

    proof fn order_irreflexive(a: Seq<char>) {
        lemma_text_irreflexive(a);
    }

    proof fn order_transitive(a: Seq<char>, b: Seq<char>, c: Seq<char>) {
        if text_before(a, b) && text_before(b, c) {
            lemma_text_transitive(a, b, c);
        }
    }

    proof fn order_total(a: Seq<char>, b: Seq<char>) {
        lemma_text_total(a, b);
    }

    fn precedes(&self, other: &Self) -> (r: bool) {
        str_precedes(self.as_str(), other.as_str())
    }

    fn same(&self, other: &Self) -> (r: bool) {
        str_same(self.as_str(), other.as_str())
    }

    fn duplicate(&self) -> (r: Self) {
        self.clone()
    }
}

impl Key for i64 {
    type Model = int;

    open spec fn model(&self) -> int {
        *self as int
    }

    open spec fn before(a: int, b: int) -> bool {
        a < b
    }

    proof fn order_irreflexive(a: int) {
    }

    proof fn order_transitive(a: int, b: int, c: int) {
    }

    proof fn order_total(a: int, b: int) {
    }

    fn precedes(&self, other: &Self) -> (r: bool) {
        *self < *other
    }

    fn same(&self, other: &Self) -> (r: bool) {
        *self == *other
    }

    fn duplicate(&self) -> (r: Self) {
        *self
    }
}

impl Key for i32 {
    type Model = int;

    open spec fn model(&self) -> int {
        *self as int
    }

    open spec fn before(a: int, b: int) -> bool {
        a < b
    }

    proof fn order_irreflexive(a: int) {
    }

    proof fn order_transitive(a: int, b: int, c: int) {
    }

    proof fn order_total(a: int, b: int) {
    }

    fn precedes(&self, other: &Self) -> (r: bool) {
        *self < *other
    }

    fn same(&self, other: &Self) -> (r: bool) {
        *self == *other
    }

    fn duplicate(&self) -> (r: Self) {
        *self
    }
}

impl Key for u128 {
    type Model = int;

    open spec fn model(&self) -> int {
        *self as int
    }

    open spec fn before(a: int, b: int) -> bool {
        a < b
    }

    proof fn order_irreflexive(a: int) {
    }

    proof fn order_transitive(a: int, b: int, c: int) {
    }

    proof fn order_total(a: int, b: int) {
    }

    fn precedes(&self, other: &Self) -> (r: bool) {
        *self < *other
    }

    fn same(&self, other: &Self) -> (r: bool) {
        *self == *other
    }

    fn duplicate(&self) -> (r: Self) {
        *self
    }
}

/// A hash of thirty-two bytes, in the order of its bytes.
impl Key for [u8; 32] {
    type Model = Seq<u8>;

    open spec fn model(&self) -> Seq<u8> {
        self@
    }

    open spec fn before(a: Seq<u8>, b: Seq<u8>) -> bool {
        bytes_before(a, b)
    }

    proof fn order_irreflexive(a: Seq<u8>) {
        reveal(bytes_before);
    }

    proof fn order_transitive(a: Seq<u8>, b: Seq<u8>, c: Seq<u8>) {
        if bytes_before(a, b) && bytes_before(b, c) {
            lemma_bytes_transitive(a, b, c);
        }
    }

    proof fn order_total(a: Seq<u8>, b: Seq<u8>) {
        lemma_bytes_total_from(a, b, 0);
    }

    fn precedes(&self, other: &Self) -> (r: bool) {
        proof {
            reveal(bytes_before);
        }
        let mut i: usize = 0;
        while i < 32 && self[i] == other[i]
            invariant
                0 <= i <= 32,
                forall|j: int| 0 <= j < i ==> self@[j] == other@[j],
            decreases 32 - i,
        {
            i = i + 1;
        }
        if i < 32 && self[i] < other[i] {
            assert(parts_below(self@, other@, i as int));
            true
        } else {
            assert forall|k: int| !parts_below(self@, other@, k) by {
                if parts_below(self@, other@, k) {
                    assert(k == i);
                }
            }
            false
        }
    }

    fn same(&self, other: &Self) -> (r: bool) {
        let mut i: usize = 0;
        while i < 32
            invariant
                0 <= i <= 32,
                forall|j: int| 0 <= j < i ==> self@[j] == other@[j],
            decreases 32 - i,
        {
            if self[i] != other[i] {
                return false;
            }
            i = i + 1;
        }
        assert(self@ =~= other@);
        true
    }

    fn duplicate(&self) -> (r: Self) {
        *self
    }
}

impl<A: Key, B: Key> Key for (A, B) {
    type Model = (A::Model, B::Model);

    open spec fn model(&self) -> (A::Model, B::Model) {
        (self.0.model(), self.1.model())
    }

    open spec fn before(a: (A::Model, B::Model), b: (A::Model, B::Model)) -> bool {
        A::before(a.0, b.0) || (a.0 == b.0 && B::before(a.1, b.1))
    }

    proof fn order_irreflexive(a: (A::Model, B::Model)) {
        A::order_irreflexive(a.0);
        B::order_irreflexive(a.1);
    }

    proof fn order_transitive(a: (A::Model, B::Model), b: (A::Model, B::Model), c: (A::Model, B::Model)) {
        if A::before(a.0, b.0) && A::before(b.0, c.0) {
            A::order_transitive(a.0, b.0, c.0);
        }
        if B::before(a.1, b.1) && B::before(b.1, c.1) {
            B::order_transitive(a.1, b.1, c.1);
        }
    }

    proof fn order_total(a: (A::Model, B::Model), b: (A::Model, B::Model)) {
        A::order_total(a.0, b.0);
        B::order_total(a.1, b.1);
    }

    fn precedes(&self, other: &Self) -> (r: bool) {
        self.0.precedes(&other.0) || (self.0.same(&other.0) && self.1.precedes(&other.1))
    }

    fn same(&self, other: &Self) -> (r: bool) {
        self.0.same(&other.0) && self.1.same(&other.1)
    }

    fn duplicate(&self) -> (r: Self) {
        (self.0.duplicate(), self.1.duplicate())
    }
}

} // verus!
