use vstd::prelude::*;

verus! {

/// The mathematical value of a payment: token identifier bytes, token nonce,
/// and the big-endian magnitude of the amount.
pub type PaymentView = (Seq<u8>, u64, Seq<u8>);

/// An item descriptor: which token, which nonce, and how much of it.
/// The amount is held as the big-endian bytes of an unsigned integer.
#[derive(Clone, Debug)]
pub struct Payment {
    pub token_identifier: Vec<u8>,
    pub token_nonce: u64,
    pub amount: Vec<u8>,
}

impl View for Payment {
    type V = PaymentView;

    open spec fn view(&self) -> PaymentView {
        (self.token_identifier@, self.token_nonce, self.amount@)
    }
}

/// A fresh vector with the same bytes.
pub fn copy_bytes(b: &Vec<u8>) -> (r: Vec<u8>)
    ensures
        r@ == b@,
{
    let mut r: Vec<u8> = Vec::new();
    let mut i: usize = 0;
    while i < b.len()
        invariant
            i <= b.len(),
            r@ == b@.take(i as int),
        decreases b.len() - i,
    {
        r.push(b[i]);
        i = i + 1;
        assert(r@ =~= b@.take(i as int));
    }
    assert(b@.take(b.len() as int) =~= b@);
    r
}

/// Whether two byte vectors hold the same bytes.
pub fn same_bytes(a: &Vec<u8>, b: &Vec<u8>) -> (r: bool)
    ensures
        r == (a@ == b@),
{
    if a.len() != b.len() {
        return false;
    }
    let mut i: usize = 0;
    while i < a.len()
        invariant
            i <= a.len(),
            a.len() == b.len(),
            a@.take(i as int) == b@.take(i as int),
        decreases a.len() - i,
    {
        if a[i] != b[i] {
            assert(a@[i as int] != b@[i as int]);
            return false;
        }
        assert(a@.take(i + 1) =~= a@.take(i as int).push(a@[i as int]));
        assert(b@.take(i + 1) =~= b@.take(i as int).push(b@[i as int]));
        i = i + 1;
    }
    assert(a@.take(a.len() as int) =~= a@);
    assert(b@.take(b.len() as int) =~= b@);
    true
}

impl Payment {
    pub fn new(token_identifier: Vec<u8>, token_nonce: u64, amount: Vec<u8>) -> (r: Payment)
        ensures
            r.token_identifier == token_identifier,
            r.token_nonce == token_nonce,
            r.amount == amount,
    {
        Payment { token_identifier, token_nonce, amount }
    }

    /// A copy with the same view.
    pub fn duplicate(&self) -> (r: Payment)
        ensures
            r@ == self@,
    {
        Payment {
            token_identifier: copy_bytes(&self.token_identifier),
            token_nonce: self.token_nonce,
            amount: copy_bytes(&self.amount),
        }
    }

    /// Whether both descriptors name the same token, nonce and amount.
    pub fn same_as(&self, other: &Payment) -> (r: bool)
        ensures
            r == (self@ == other@),
    {
        self.token_nonce == other.token_nonce && same_bytes(
            &self.token_identifier,
            &other.token_identifier,
        ) && same_bytes(&self.amount, &other.amount)
    }

    /// The same token and nonce with the amount replaced.
    pub fn with_amount(&self, amount: Vec<u8>) -> (r: Payment)
        ensures
            r@ == (self.token_identifier@, self.token_nonce, amount@),
    {
        Payment {
            token_identifier: copy_bytes(&self.token_identifier),
            token_nonce: self.token_nonce,
            amount,
        }
    }
}

impl PartialEq for Payment {
    fn eq(&self, other: &Payment) -> (r: bool) {
        self.same_as(other)
    }
}

impl vstd::std_specs::cmp::PartialEqSpecImpl for Payment {
    open spec fn obeys_eq_spec() -> bool {
        true
    }

    open spec fn eq_spec(&self, other: &Payment) -> bool {
        self@ == other@
    }
}

} // verus!
