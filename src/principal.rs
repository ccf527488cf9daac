use vstd::prelude::*;
use crate::error::MessagingError;

verus! {

/// The textual form of the principal with the given bytes, as ASCII bytes.
pub uninterp spec fn principal_text_of(bytes: Seq<u8>) -> Seq<u8>;

/// Relies on candid::Principal::from_slice (which accepts up to 29 bytes) and
/// Principal::to_text: the textual form of that principal.
#[verifier::external_body]
fn principal_text_bytes(bytes: &[u8]) -> (r: Vec<u8>)
    requires
        bytes@.len() <= 29,
    ensures
        r@ == principal_text_of(bytes@),
{
    candid::Principal::from_slice(bytes).to_text().into_bytes()
}

/// An externally authenticated identity: at most 29 raw bytes.
#[derive(Debug)]
pub struct Principal {
    bytes: Vec<u8>,
}

impl View for Principal {
    type V = Seq<u8>;

    closed spec fn view(&self) -> Seq<u8> {
        self.bytes@
    }
}

/// The bytes of the anonymous identity.
pub open spec fn anonymous_bytes() -> Seq<u8> {
    seq![4u8]
}

/// Accepted identities: not anonymous, and a textual form of at least five characters.
pub open spec fn valid_principal(p: Seq<u8>) -> bool {
    p != anonymous_bytes() && principal_text_of(p).len() >= 5
}

/// Whether `p` occurs in `ps`.
pub open spec fn member(ps: Seq<Principal>, p: Seq<u8>) -> bool {
    exists|i: int| 0 <= i < ps.len() && (#[trigger] ps[i])@ == p
}

/// The contents of each principal, in order.
pub open spec fn principal_views(ps: Seq<Principal>) -> Seq<Seq<u8>> {
    ps.map_values(|p: Principal| p@)
}

impl Principal {
    #[verifier::type_invariant]
    spec fn inv(self) -> bool {
        self.bytes@.len() <= 29
    }

    /// The identity with these bytes, if there are at most 29 of them.
    pub fn from_slice(b: &[u8]) -> (r: Option<Principal>)
        ensures
            r is Some <==> b@.len() <= 29,
            r matches Some(p) ==> p@ == b@,
    {
        if b.len() > 29 {
            return None;
        }
        let mut bytes: Vec<u8> = Vec::new();
        let mut i: usize = 0;
        while i < b.len()
            invariant
                i <= b.len(),
                bytes@ == b@.take(i as int),
            decreases b.len() - i,
        {
            bytes.push(b[i]);
            i = i + 1;
        }
        assert(b@.take(b.len() as int) =~= b@);
        Some(Principal { bytes })
    }

    /// The anonymous identity.
    pub fn anonymous() -> (r: Principal)
        ensures
            r@ == anonymous_bytes(),
    {
        let mut bytes: Vec<u8> = Vec::new();
        bytes.push(4u8);
        assert(bytes@ =~= anonymous_bytes());
        Principal { bytes }
    }

    /// The raw bytes.
    pub fn as_slice(&self) -> (r: &[u8])
        ensures
            r@ == self@,
    {
        self.bytes.as_slice()
    }

    /// A copy of the raw bytes.
    pub fn to_bytes(&self) -> (r: Vec<u8>)
        ensures
            r@ == self@,
    {
        let mut out: Vec<u8> = Vec::new();
        let mut i: usize = 0;
        while i < self.bytes.len()
            invariant
                i <= self.bytes.len(),
                out@ == self.bytes@.take(i as int),
            decreases self.bytes.len() - i,
        {
            out.push(self.bytes[i]);
            i = i + 1;
        }
        assert(self.bytes@.take(self.bytes.len() as int) =~= self.bytes@);
        out
    }

    /// A copy of this identity.
    pub fn duplicate(&self) -> (r: Principal)
        ensures
            r@ == self@,
    {
        proof {
            use_type_invariant(self);
        }
        Principal { bytes: self.to_bytes() }
    }

    /// The textual form, as ASCII bytes.
    pub fn to_text_bytes(&self) -> (r: Vec<u8>)
        ensures
            r@ == principal_text_of(self@),
    {
        proof {
            use_type_invariant(self);
        }
        principal_text_bytes(self.bytes.as_slice())
    }

    /// Whether two identities are the same.
    pub fn same_as(&self, other: &Principal) -> (r: bool)
        ensures
            r == (self@ == other@),
    {
        if self.bytes.len() != other.bytes.len() {
            return false;
        }
        let mut i: usize = 0;
        while i < self.bytes.len()
            invariant
                i <= self.bytes.len(),
                self.bytes.len() == other.bytes.len(),
                self.bytes@.take(i as int) == other.bytes@.take(i as int),
            decreases self.bytes.len() - i,
        {
            if self.bytes[i] != other.bytes[i] {
                assert(self.bytes@[i as int] != other.bytes@[i as int]);
                return false;
            }
            assert(self.bytes@.take(i + 1) =~= self.bytes@.take(i as int).push(self.bytes@[i as int]));
            assert(other.bytes@.take(i + 1) =~= other.bytes@.take(i as int).push(other.bytes@[i as int]));
            i = i + 1;
        }
        assert(self.bytes@.take(i as int) =~= self.bytes@);
        assert(other.bytes@.take(i as int) =~= other.bytes@);
        true
    }
}

impl PartialEq for Principal {
    fn eq(&self, other: &Principal) -> (r: bool) {
        self.same_as(other)
    }
}

impl vstd::std_specs::cmp::PartialEqSpecImpl for Principal {
    open spec fn obeys_eq_spec() -> bool {
        true
    }

    open spec fn eq_spec(&self, other: &Principal) -> bool {
        self@ == other@
    }
}

/// Rejects the anonymous identity and identities whose textual form is shorter than five characters.
pub fn validate_principal(principal: &Principal) -> (r: Result<(), MessagingError>)
    ensures
        r is Ok <==> valid_principal(principal@),
        r is Err ==> r == Err::<(), MessagingError>(MessagingError::Validation),
{
    let anon = Principal::anonymous();
    if principal.same_as(&anon) {
        return Err(MessagingError::Validation);
    }
    let text = principal.to_text_bytes();
    if text.len() == 0 || text.len() < 5 {
        return Err(MessagingError::Validation);
    }
    Ok(())
}

/// Applies `validate_principal` to every member.
pub fn validate_principals(principals: &[Principal]) -> (r: Result<(), MessagingError>)
    ensures
        r is Ok <==> forall|i: int| 0 <= i < principals@.len() ==> valid_principal(#[trigger] principals@[i]@),
        r is Err ==> r == Err::<(), MessagingError>(MessagingError::Validation),
{
    let mut i: usize = 0;
    while i < principals.len()
        invariant
            i <= principals.len(),
            forall|k: int| 0 <= k < i ==> valid_principal(#[trigger] principals@[k]@),
        decreases principals.len() - i,
    {
        if validate_principal(&principals[i]).is_err() {
            return Err(MessagingError::Validation);
        }
        i = i + 1;
    }
    Ok(())
}

/// Whether `user_id` is one of `participants`.
pub fn is_participant(participants: &[Principal], user_id: &Principal) -> (r: bool)
    ensures
        r == member(participants@, user_id@),
        r == principal_views(participants@).contains(user_id@),
{
    let mut i: usize = 0;
    while i < participants.len()
        invariant
            i <= participants.len(),
            forall|k: int| 0 <= k < i ==> (#[trigger] participants@[k])@ != user_id@,
        decreases participants.len() - i,
    {
        if participants[i].same_as(user_id) {
            assert(principal_views(participants@)[i as int] == user_id@);
            return true;
        }
        i = i + 1;
    }
    assert forall|k: int| 0 <= k < principal_views(participants@).len() implies principal_views(
        participants@,
    )[k] != user_id@ by {
        assert(principal_views(participants@)[k] == participants@[k]@);
    }
    false
}

} // verus!
