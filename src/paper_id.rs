use vstd::prelude::*;
use vstd::string::StringSliceAdditionalSpecFns;
use crate::text::push_char;

verus! {

/// Number of bytes in a paper identifier.
pub const ID_LEN: usize = 12;

/// Errors surfaced by the library.
#[derive(Debug, Clone, Copy, PartialEq, Eq, Structural)]
pub enum CiteError {
    /// An identifier whose UTF-8 encoding is not exactly twelve bytes.
    MalformedId,
    /// An index that names no node of the graph.
    NoSuchParent,
    /// A node without a cited-by URL was asked to expand.
    ParentNotExpandable,
    /// A seed was added to a graph that already has one.
    AlreadySeeded,
}

/// An opaque twelve-byte paper identifier.
#[derive(Debug, Clone, Copy)]
pub struct PaperID {
    value: [u8; 12],
}

/// Key of an identifier for hashing: its bytes read as a big-endian number.
pub open spec fn id_key(s: Seq<u8>) -> nat
    decreases s.len(),
{
    if s.len() == 0 {
        0
    } else {
        id_key(s.drop_last()) * 256 + s.last() as nat
    }
}

pub open spec fn pow256(n: nat) -> nat
    decreases n,
{
    if n == 0 {
        1
    } else {
        pow256((n - 1) as nat) * 256
    }
}

/// Distinct identifiers of one length have distinct keys.
pub proof fn lemma_id_key_injective(a: Seq<u8>, b: Seq<u8>)
    requires
        a.len() == b.len(),
        id_key(a) == id_key(b),
    ensures
        a == b,
    decreases a.len(),
{
    if a.len() > 0 {
        let x = id_key(a.drop_last());
        let y = id_key(b.drop_last());
        let p = a.last() as int;
        let q = b.last() as int;
        assert(x * 256 + p == y * 256 + q);
        assert(x == y && p == q) by (nonlinear_arith)
            requires
                x * 256 + p == y * 256 + q,
                0 <= p < 256,
                0 <= q < 256,
                x >= 0,
                y >= 0,
        ;
        lemma_id_key_injective(a.drop_last(), b.drop_last());
        assert(a =~= a.drop_last().push(a.last()));
        assert(b =~= b.drop_last().push(b.last()));
    }
}

/// The hash key of an identifier.
pub open spec fn key_of(s: Seq<u8>) -> u128 {
    id_key(s) as u128
}

pub proof fn lemma_id_key_bound(s: Seq<u8>)
    ensures
        id_key(s) < pow256(s.len()),
    decreases s.len(),
{
    if s.len() > 0 {
        lemma_id_key_bound(s.drop_last());
        let x = id_key(s.drop_last()) as int;
        let p = pow256((s.len() - 1) as nat) as int;
        let b = s.last() as int;
        assert(x * 256 + b < p * 256) by (nonlinear_arith)
            requires
                x < p,
                0 <= b < 256,
        ;
    }
}

/// Twelve-byte identifiers with one hash key are equal.
pub proof fn lemma_key_of_injective(a: Seq<u8>, b: Seq<u8>)
    requires
        a.len() == ID_LEN,
        b.len() == ID_LEN,
        key_of(a) == key_of(b),
    ensures
        a == b,
{
    reveal_with_fuel(pow256, 13);
    lemma_id_key_bound(a);
    lemma_id_key_bound(b);
    lemma_id_key_injective(a, b);
}

pub proof fn lemma_pow256_mono(a: nat, b: nat)
    requires
        a <= b,
    ensures
        pow256(a) <= pow256(b),
    decreases b,
{
    if a < b {
        lemma_pow256_mono(a, (b - 1) as nat);
    }
}

impl View for PaperID {
    type V = Seq<u8>;

    closed spec fn view(&self) -> Seq<u8> {
        self.value@
    }
}

/// Every identifier has exactly twelve bytes.
pub broadcast proof fn lemma_id_len(id: PaperID)
    ensures
        #[trigger] id@.len() == ID_LEN,
{
}

/// The bytes of an identifier read as characters.
pub open spec fn id_text(id: Seq<u8>) -> Seq<char> {
    id.map_values(|b: u8| b as char)
}

impl PaperID {
    /// The identifier's bytes read as characters.
    pub fn as_text(&self) -> (r: String)
        ensures
            r@ == id_text(self@),
    {
        let mut r = String::new();
        let mut i: usize = 0;
        while i < ID_LEN
            invariant
                i <= ID_LEN,
                self@.len() == ID_LEN,
                r@ =~= id_text(self@.subrange(0, i as int)),
            decreases ID_LEN - i,
        {
            push_char(&mut r, self.value[i] as char);
            i = i + 1;
        }
        assert(self@.subrange(0, 12) =~= self@);
        r
    }

    /// Builds an identifier from text whose UTF-8 encoding is exactly twelve
    /// bytes; those bytes become the identifier.
    pub fn new_from_str(s: &str) -> (r: Result<PaperID, CiteError>)
        ensures
            match r {
                Ok(id) => s.spec_bytes().len() == ID_LEN && id@ == s.spec_bytes(),
                Err(e) => s.spec_bytes().len() != ID_LEN && e == CiteError::MalformedId,
            },
    {
        let b: &[u8] = s.as_bytes();
        if b.len() != ID_LEN {
            return Err(CiteError::MalformedId);
        }
        let mut value: [u8; 12] = [0u8; 12];
        let mut i: usize = 0;
        while i < ID_LEN
            invariant
                i <= ID_LEN,
                b@ == s.spec_bytes(),
                b@.len() == ID_LEN,
                value@.len() == ID_LEN,
                forall|j: int| 0 <= j < i ==> value@[j] == b@[j],
            decreases ID_LEN - i,
        {
            value[i] = b[i];
            i = i + 1;
        }
        let id = PaperID { value };
        assert(id@ =~= s.spec_bytes());
        Ok(id)
    }

    /// The identifier's bytes.
    pub fn bytes(&self) -> (r: Vec<u8>)
        ensures
            r@ == self@,
    {
        let mut r: Vec<u8> = Vec::new();
        let mut i: usize = 0;
        while i < ID_LEN
            invariant
                i <= ID_LEN,
                self@.len() == ID_LEN,
                r@ =~= self@.subrange(0, i as int),
            decreases ID_LEN - i,
        {
            r.push(self.value[i]);
            i = i + 1;
        }
        r
    }

    /// Byte-wise equality of two identifiers.
    pub fn same_as(&self, other: &PaperID) -> (r: bool)
        ensures
            r == (self@ == other@),
    {
        let mut i: usize = 0;
        while i < ID_LEN
            invariant
                i <= ID_LEN,
                self@.len() == ID_LEN,
                other@.len() == ID_LEN,
                forall|j: int| 0 <= j < i ==> self@[j] == other@[j],
            decreases ID_LEN - i,
        {
            if self.value[i] != other.value[i] {
                return false;
            }
            i = i + 1;
        }
        assert(self@ =~= other@);
        true
    }

    /// The key under which the graph indexes this identifier.
    pub fn key(&self) -> (r: u128)
        ensures
            r as nat == id_key(self@),
            r == key_of(self@),
    {
        let mut k: u128 = 0;
        let mut i: usize = 0;
        proof {
            reveal_with_fuel(pow256, 13);
        }
        assert(pow256(12) == 79228162514264337593543950336nat);
        while i < ID_LEN
            invariant
                i <= ID_LEN,
                self@.len() == ID_LEN,
                k as nat == id_key(self@.subrange(0, i as int)),
                k < pow256(i as nat),
                pow256(12) == 79228162514264337593543950336nat,
            decreases ID_LEN - i,
        {
            let b: u8 = self.value[i];
            proof {
                lemma_pow256_mono((i + 1) as nat, 12);
                let kk = k as int;
                let pp = pow256(i as nat) as int;
                assert(kk * 256 + b < pp * 256) by (nonlinear_arith)
                    requires
                        kk < pp,
                        0 <= b < 256,
                ;
                assert(self@.subrange(0, i + 1).drop_last() =~= self@.subrange(0, i as int));
            }
            k = k * 256 + b as u128;
            i = i + 1;
        }
        assert(self@.subrange(0, 12) =~= self@);
        k
    }
}

} // verus!
