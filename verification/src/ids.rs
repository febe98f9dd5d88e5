//! Identifiers of the objects a repository holds.
//!
//! Every identifier is the digest of the object it names. The digests are
//! computed where the objects are serialised; here they are fixed-width byte
//! strings that can be compared, copied and printed.

use vstd::prelude::*;
use vstd::std_specs::cmp::PartialEqSpecImpl;

verus! {

/// Width in bytes of the digest that names changesets and file contents.
pub const BLAKE2_LEN: usize = 32;

/// Width in bytes of the digest that names objects of the tree-manifest format.
pub const SHA1_LEN: usize = 20;

/// The sixteen lower-case hexadecimal digits.
pub open spec fn hex_digit(nibble: u8) -> char {
    if nibble == 0 {
        '0'
    } else if nibble == 1 {
        '1'
    } else if nibble == 2 {
        '2'
    } else if nibble == 3 {
        '3'
    } else if nibble == 4 {
        '4'
    } else if nibble == 5 {
        '5'
    } else if nibble == 6 {
        '6'
    } else if nibble == 7 {
        '7'
    } else if nibble == 8 {
        '8'
    } else if nibble == 9 {
        '9'
    } else if nibble == 10 {
        'a'
    } else if nibble == 11 {
        'b'
    } else if nibble == 12 {
        'c'
    } else if nibble == 13 {
        'd'
    } else if nibble == 14 {
        'e'
    } else {
        'f'
    }
}

/// Lower-case hexadecimal text of a byte string: two digits for each byte,
/// the high nibble first.
pub open spec fn hex_of(bytes: Seq<u8>) -> Seq<char>
    decreases bytes.len(),
{
    if bytes.len() == 0 {
        Seq::<char>::empty()
    } else {
        hex_of(bytes.drop_last()).push(hex_digit(bytes.last() / 16)).push(
            hex_digit(bytes.last() % 16),
        )
    }
}

/// The hexadecimal text has two characters for each byte.
pub proof fn lemma_hex_len(bytes: Seq<u8>)
    ensures
        hex_of(bytes).len() == 2 * bytes.len(),
    decreases bytes.len(),
{
    if bytes.len() > 0 {
        lemma_hex_len(bytes.drop_last());
    }
}

/// Distinct nibbles have distinct digits.
pub proof fn lemma_hex_digit_injective(a: u8, b: u8)
    requires
        a < 16,
        b < 16,
        hex_digit(a) == hex_digit(b),
    ensures
        a == b,
{
}

/// Byte strings of one length with the same hexadecimal text are equal.
pub proof fn lemma_hex_injective(a: Seq<u8>, b: Seq<u8>)
    requires
        a.len() == b.len(),
        hex_of(a) == hex_of(b),
    ensures
        a == b,
    decreases a.len(),
{
    if a.len() > 0 {
        lemma_hex_len(a.drop_last());
        lemma_hex_len(b.drop_last());
        let ha = hex_of(a.drop_last());
        let hb = hex_of(b.drop_last());
        let xa = ha.push(hex_digit(a.last() / 16)).push(hex_digit(a.last() % 16));
        let xb = hb.push(hex_digit(b.last() / 16)).push(hex_digit(b.last() % 16));
        assert(xa == xb);
        let n = ha.len() as int;
        assert(xa[n] == hex_digit(a.last() / 16));
        assert(xb[n] == hex_digit(b.last() / 16));
        assert(xa[n + 1] == hex_digit(a.last() % 16));
        assert(xb[n + 1] == hex_digit(b.last() % 16));
        lemma_hex_digit_injective(a.last() / 16, b.last() / 16);
        lemma_hex_digit_injective(a.last() % 16, b.last() % 16);
        assert(a.last() == b.last());
        assert(ha =~= xa.subrange(0, n));
        assert(hb =~= xb.subrange(0, n));
        lemma_hex_injective(a.drop_last(), b.drop_last());
        assert(a =~= a.drop_last().push(a.last()));
        assert(b =~= b.drop_last().push(b.last()));
    } else {
        assert(a =~= b);
    }
}

pub(crate) fn hex_digit_str(nibble: u8) -> (r: &'static str)
    requires
        nibble < 16,
    ensures
        r@ == seq![hex_digit(nibble)],
{
    proof {
        reveal_strlit("0");
        reveal_strlit("1");
        reveal_strlit("2");
        reveal_strlit("3");
        reveal_strlit("4");
        reveal_strlit("5");
        reveal_strlit("6");
        reveal_strlit("7");
        reveal_strlit("8");
        reveal_strlit("9");
        reveal_strlit("a");
        reveal_strlit("b");
        reveal_strlit("c");
        reveal_strlit("d");
        reveal_strlit("e");
        reveal_strlit("f");
    }
    let r = match nibble {
        0 => "0",
        1 => "1",
        2 => "2",
        3 => "3",
        4 => "4",
        5 => "5",
        6 => "6",
        7 => "7",
        8 => "8",
        9 => "9",
        10 => "a",
        11 => "b",
        12 => "c",
        13 => "d",
        14 => "e",
        _ => "f",
    };
    assert(r@ =~= seq![hex_digit(nibble)]);
    r
}

/// Appends the hexadecimal text of `bytes` to `out`.
pub fn push_hex(out: &mut String, bytes: &[u8])
    ensures
        final(out)@ == old(out)@ + hex_of(bytes@),
{
    let mut i: usize = 0;
    assert(bytes@.take(0) =~= Seq::<u8>::empty());
    assert(out@ =~= old(out)@ + hex_of(bytes@.take(0)));
    while i < bytes.len()
        invariant
            0 <= i <= bytes.len(),
            out@ == old(out)@ + hex_of(bytes@.take(i as int)),
        decreases bytes.len() - i,
    {
        let b = bytes[i];
        let ghost before = out@;
        out.append(hex_digit_str(b / 16));
        out.append(hex_digit_str(b % 16));
        proof {
            let next = bytes@.take(i + 1);
            assert(next.drop_last() =~= bytes@.take(i as int));
            assert(next.last() == b);
            assert(out@ =~= old(out)@ + hex_of(next));
        }
        i += 1;
    }
    assert(bytes@.take(bytes.len() as int) =~= bytes@);
}

/// The value of a hexadecimal digit, in either case, given as a byte of
/// text.
pub open spec fn hex_value(digit: u8) -> Option<u8> {
    if 48 <= digit <= 57 {
        Some((digit - 48) as u8)
    } else if 97 <= digit <= 102 {
        Some((digit - 87) as u8)
    } else if 65 <= digit <= 70 {
        Some((digit - 55) as u8)
    } else {
        None
    }
}

/// The bytes that the hexadecimal text `digits` stands for: two digits for
/// each byte, the high nibble first. `None` where the number of digits is
/// odd or one of them is no digit.
pub open spec fn unhex(digits: Seq<u8>) -> Option<Seq<u8>>
    decreases digits.len(),
{
    if digits.len() == 0 {
        Some(Seq::empty())
    } else if digits.len() == 1 {
        None
    } else {
        let n = digits.len() - 2;
        match (unhex(digits.take(n)), hex_value(digits[n]), hex_value(digits[n + 1])) {
            (Some(rest), Some(high), Some(low)) => Some(rest.push((16 * high + low) as u8)),
            _ => None,
        }
    }
}

/// The text of `chars` as bytes, one for each character.
pub open spec fn as_ascii(chars: Seq<char>) -> Seq<u8> {
    Seq::new(chars.len(), |i: int| chars[i] as u8)
}

/// Reading the hexadecimal text of a byte string gives the byte string
/// back.
pub proof fn lemma_unhex_of_hex(bytes: Seq<u8>)
    ensures
        unhex(as_ascii(hex_of(bytes))) == Some(bytes),
    decreases bytes.len(),
{
    let text = as_ascii(hex_of(bytes));
    lemma_hex_len(bytes);
    if bytes.len() > 0 {
        let rest = bytes.drop_last();
        let b = bytes.last();
        lemma_unhex_of_hex(rest);
        lemma_hex_len(rest);
        let n = text.len() - 2;
        assert(text.take(n) =~= as_ascii(hex_of(rest)));
        assert(text[n] == hex_digit(b / 16) as u8);
        assert(text[n + 1] == hex_digit(b % 16) as u8);
        assert(hex_value(hex_digit(b / 16) as u8) == Some((b / 16) as u8));
        assert(hex_value(hex_digit(b % 16) as u8) == Some((b % 16) as u8));
        assert(16 * (b / 16) + b % 16 == b);
        assert(rest.push(b) =~= bytes);
    } else {
        assert(text =~= Seq::<u8>::empty());
        assert(bytes =~= Seq::<u8>::empty());
    }
}

fn digit_value(digit: u8) -> (r: Option<u8>)
    ensures
        r == hex_value(digit),
        r matches Some(v) ==> v < 16,
{
    if 48 <= digit && digit <= 57 {
        Some(digit - 48)
    } else if 97 <= digit && digit <= 102 {
        Some(digit - 87)
    } else if 65 <= digit && digit <= 70 {
        Some(digit - 55)
    } else {
        None
    }
}

/// The bytes that the hexadecimal text `digits` stands for.
pub fn parse_hex(digits: &[u8]) -> (r: Option<Vec<u8>>)
    ensures
        match r {
            Some(bytes) => unhex(digits@) == Some(bytes@),
            None => unhex(digits@) is None,
        },
{
    let n = digits.len();
    if n % 2 != 0 {
        proof {
            lemma_unhex_odd(digits@);
        }
        return None;
    }
    let mut out: Vec<u8> = Vec::new();
    let mut i: usize = 0;
    assert(digits@.take(0) =~= Seq::<u8>::empty());
    while i < n
        invariant
            0 <= i <= n,
            n == digits@.len(),
            i % 2 == 0,
            n % 2 == 0,
            unhex(digits@.take(i as int)) == Some(out@),
        decreases n - i,
    {
        let ghost next = digits@.take(i + 2);
        proof {
            assert(next.take(i as int) =~= digits@.take(i as int));
            assert(next[i as int] == digits@[i as int]);
            assert(next[i + 1] == digits@[i + 1]);
        }
        let high = digit_value(digits[i]);
        let low = digit_value(digits[i + 1]);
        match (high, low) {
            (Some(h), Some(l)) => {
                out.push(16 * h + l);
            },
            _ => {
                proof {
                    assert(unhex(next) is None);
                    lemma_unhex_prefix(digits@, i + 2);
                }
                return None;
            },
        }
        i += 2;
    }
    proof {
        assert(digits@.take(n as int) =~= digits@);
    }
    Some(out)
}

/// Text with an odd number of digits stands for nothing.
proof fn lemma_unhex_odd(digits: Seq<u8>)
    requires
        digits.len() % 2 == 1,
    ensures
        unhex(digits) is None,
    decreases digits.len(),
{
    if digits.len() > 1 {
        lemma_unhex_odd(digits.take(digits.len() - 2));
    }
}

/// Text stands for nothing where a part of it at the front, of an even
/// number of digits, stands for nothing.
proof fn lemma_unhex_prefix(digits: Seq<u8>, k: int)
    requires
        0 <= k <= digits.len(),
        k % 2 == 0,
        digits.len() % 2 == 0,
        unhex(digits.take(k)) is None,
    ensures
        unhex(digits) is None,
    decreases digits.len() - k,
{
    if k < digits.len() {
        let n = digits.len() - 2;
        assert(digits.take(n).take(k) =~= digits.take(k));
        lemma_unhex_prefix(digits.take(n), k);
    } else {
        assert(digits.take(k) =~= digits);
    }
}

/// Whether two byte arrays of the 32-byte digest hold the same bytes.
fn blake2_eq(a: &[u8; 32], b: &[u8; 32]) -> (r: bool)
    ensures
        r == (*a == *b),
{
    let mut i: usize = 0;
    while i < 32
        invariant
            0 <= i <= 32,
            forall|j: int| 0 <= j < i ==> a@[j] == b@[j],
        decreases 32 - i,
    {
        if a[i] != b[i] {
            return false;
        }
        i += 1;
    }
    assert(*a =~= *b);
    true
}

/// Whether two byte arrays of the 20-byte digest hold the same bytes.
fn sha1_eq(a: &[u8; 20], b: &[u8; 20]) -> (r: bool)
    ensures
        r == (*a == *b),
{
    let mut i: usize = 0;
    while i < 20
        invariant
            0 <= i <= 20,
            forall|j: int| 0 <= j < i ==> a@[j] == b@[j],
        decreases 20 - i,
    {
        if a[i] != b[i] {
            return false;
        }
        i += 1;
    }
    assert(*a =~= *b);
    true
}

/// Identifier of a changeset in the content-addressed graph: the digest of
/// its serialised content.
#[derive(Clone, Copy, Debug, Hash)]
pub struct ChangesetId(pub [u8; 32]);

impl PartialEq for ChangesetId {
    fn eq(&self, other: &Self) -> (r: bool) {
        blake2_eq(&self.0, &other.0)
    }
}

impl Eq for ChangesetId {

}

impl PartialEqSpecImpl for ChangesetId {
    open spec fn obeys_eq_spec() -> bool {
        true
    }

    open spec fn eq_spec(&self, other: &Self) -> bool {
        *self == *other
    }
}

impl ChangesetId {
    /// The identifier with the given digest.
    pub fn new(bytes: [u8; 32]) -> (r: Self)
        ensures
            r.0 == bytes,
    {
        ChangesetId(bytes)
    }

    /// The 64 hexadecimal digits of the digest.
    pub fn to_hex(&self) -> (r: String)
        ensures
            r@ == hex_of(self.0@),
    {
        let mut out = String::new();
        push_hex(&mut out, self.0.as_slice());
        assert(out@ =~= hex_of(self.0@));
        out
    }
}

/// Identifier of the content of a file.
#[derive(Clone, Copy, Debug, Hash)]
pub struct ContentId(pub [u8; 32]);

impl PartialEq for ContentId {
    fn eq(&self, other: &Self) -> (r: bool) {
        blake2_eq(&self.0, &other.0)
    }
}

impl Eq for ContentId {

}

impl PartialEqSpecImpl for ContentId {
    open spec fn obeys_eq_spec() -> bool {
        true
    }

    open spec fn eq_spec(&self, other: &Self) -> bool {
        *self == *other
    }
}

impl ContentId {
    /// The identifier with the given digest.
    pub fn new(bytes: [u8; 32]) -> (r: Self)
        ensures
            r.0 == bytes,
    {
        ContentId(bytes)
    }
}

/// Digest that names an object of the tree-manifest format.
#[derive(Clone, Copy, Debug, Hash)]
pub struct HgNodeHash(pub [u8; 20]);

impl PartialEq for HgNodeHash {
    fn eq(&self, other: &Self) -> (r: bool) {
        sha1_eq(&self.0, &other.0)
    }
}

impl Eq for HgNodeHash {

}

impl PartialEqSpecImpl for HgNodeHash {
    open spec fn obeys_eq_spec() -> bool {
        true
    }

    open spec fn eq_spec(&self, other: &Self) -> bool {
        *self == *other
    }
}

impl HgNodeHash {
    /// The digest with the given bytes.
    pub fn new(bytes: [u8; 20]) -> (r: Self)
        ensures
            r.0 == bytes,
    {
        HgNodeHash(bytes)
    }

    /// The digest that the 40 hexadecimal digits `digits` stand for; `None`
    /// where `digits` is no such text.
    pub fn from_hex(digits: &[u8]) -> (r: Option<Self>)
        ensures
            match r {
                Some(hash) => unhex(digits@) == Some(hash.0@),
                None => !(unhex(digits@) matches Some(bytes) && bytes.len() == 20),
            },
    {
        match parse_hex(digits) {
            Some(bytes) => {
                if bytes.len() != 20 {
                    return None;
                }
                let mut out = [0u8; 20];
                let mut i: usize = 0;
                while i < 20
                    invariant
                        0 <= i <= 20,
                        bytes@.len() == 20,
                        forall|k: int| 0 <= k < i ==> out@[k] == bytes@[k],
                    decreases 20 - i,
                {
                    out[i] = bytes[i];
                    i += 1;
                }
                assert(out@ =~= bytes@);
                Some(HgNodeHash(out))
            },
            None => None,
        }
    }

    /// The 40 hexadecimal digits of the digest.
    pub fn to_hex(&self) -> (r: String)
        ensures
            r@ == hex_of(self.0@),
    {
        let mut out = String::new();
        push_hex(&mut out, self.0.as_slice());
        assert(out@ =~= hex_of(self.0@));
        out
    }
}

/// Identifier of a changeset in the tree-manifest format.
#[derive(Clone, Copy, Debug, Hash)]
pub struct HgChangesetId(pub HgNodeHash);

impl PartialEq for HgChangesetId {
    fn eq(&self, other: &Self) -> (r: bool) {
        sha1_eq(&self.0.0, &other.0.0)
    }
}

impl Eq for HgChangesetId {

}

impl PartialEqSpecImpl for HgChangesetId {
    open spec fn obeys_eq_spec() -> bool {
        true
    }

    open spec fn eq_spec(&self, other: &Self) -> bool {
        *self == *other
    }
}

impl HgChangesetId {
    /// The changeset identifier with the given digest.
    pub fn new(hash: HgNodeHash) -> (r: Self)
        ensures
            r.0 == hash,
    {
        HgChangesetId(hash)
    }

    /// The digest behind the identifier.
    pub fn into_nodehash(self) -> (r: HgNodeHash)
        ensures
            r == self.0,
    {
        self.0
    }
}

/// Identifier of the root of a manifest.
#[derive(Clone, Copy, Debug, Hash)]
pub struct HgManifestId(pub HgNodeHash);

impl PartialEq for HgManifestId {
    fn eq(&self, other: &Self) -> (r: bool) {
        sha1_eq(&self.0.0, &other.0.0)
    }
}

impl Eq for HgManifestId {

}

impl PartialEqSpecImpl for HgManifestId {
    open spec fn obeys_eq_spec() -> bool {
        true
    }

    open spec fn eq_spec(&self, other: &Self) -> bool {
        *self == *other
    }
}

impl HgManifestId {
    /// The manifest identifier with the given digest.
    pub fn new(hash: HgNodeHash) -> (r: Self)
        ensures
            r.0 == hash,
    {
        HgManifestId(hash)
    }

    /// The digest behind the identifier.
    pub fn into_nodehash(self) -> (r: HgNodeHash)
        ensures
            r == self.0,
    {
        self.0
    }
}

/// Identifier of one revision of one file in the tree-manifest format.
#[derive(Clone, Copy, Debug, Hash)]
pub struct HgFileNodeId(pub HgNodeHash);

impl PartialEq for HgFileNodeId {
    fn eq(&self, other: &Self) -> (r: bool) {
        sha1_eq(&self.0.0, &other.0.0)
    }
}

impl Eq for HgFileNodeId {

}

impl PartialEqSpecImpl for HgFileNodeId {
    open spec fn obeys_eq_spec() -> bool {
        true
    }

    open spec fn eq_spec(&self, other: &Self) -> bool {
        *self == *other
    }
}

impl HgFileNodeId {
    /// The file-node identifier with the given digest.
    pub fn new(hash: HgNodeHash) -> (r: Self)
        ensures
            r.0 == hash,
    {
        HgFileNodeId(hash)
    }

    /// The digest behind the identifier.
    pub fn into_nodehash(self) -> (r: HgNodeHash)
        ensures
            r == self.0,
    {
        self.0
    }
}

/// Number of a repository among those that share the stores.
#[derive(Clone, Copy, Debug, Hash, PartialEq, Eq, Structural)]
pub struct RepositoryId(pub i32);

impl RepositoryId {
    /// The repository with the given number.
    pub fn new(id: i32) -> (r: Self)
        ensures
            r.0 == id,
    {
        RepositoryId(id)
    }

    /// The number of the repository.
    pub fn id(&self) -> (r: i32)
        ensures
            r == self.0,
    {
        self.0
    }
}

} // verus!
