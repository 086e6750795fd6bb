//! The oracle: the authorized key, the set of consumed nonces, and the
//! operations that check attestations and rotate the key.
use vstd::prelude::*;
use std::collections::HashSet;
use crate::codec::{
    parse_batch, parse_message, parse_price_batch, parse_price_message, records_of,
    PriceMessage, PriceRecord,
};
use crate::signature::{
    bls12381_v1_verifies, check_signature, decode_public_key, hex_decode, is_hex_of_len,
    signature_accepted,
};
use vstd::utf8::encode_utf8;

verus! {

broadcast use vstd::std_specs::hash::group_hash_axioms;

/// Why a request was refused.
#[derive(Debug, Clone, Copy, PartialEq, Eq, Structural)]
pub enum OracleError {
    /// A public key is not the hexadecimal text of 48 bytes.
    InvalidKeyEncoding,
    /// The signature does not verify under the authorized key.
    InvalidSignature,
    /// The message does not follow the wire format.
    MalformedMessage,
    /// The nonce was consumed before.
    NonceReused,
}

/// The nonces of a sequence of records, in order.
pub open spec fn nonces_of(rs: Seq<PriceRecord>) -> Seq<u64> {
    rs.map_values(|r: PriceRecord| r.nonce)
}

/// Consumes `nonces` in order, starting from `used`: the set reached, and
/// whether every nonce was fresh. Consumption stops at the first nonce that
/// is already used (before, or earlier in `nonces`); those consumed before it
/// stay consumed.
pub open spec fn commit_nonces(used: Set<u64>, nonces: Seq<u64>) -> (Set<u64>, bool)
    decreases nonces.len(),
{
    if nonces.len() == 0 {
        (used, true)
    } else {
        let (u, ok) = commit_nonces(used, nonces.drop_last());
        if !ok || u.contains(nonces.last()) {
            (u, false)
        } else {
            (u.insert(nonces.last()), true)
        }
    }
}

/// The set of nonces that were consumed so far. It only ever grows.
pub struct NonceRegistry {
    used: HashSet<u64>,
}

impl View for NonceRegistry {
    type V = Set<u64>;

    closed spec fn view(&self) -> Set<u64> {
        self.used@
    }
}

impl NonceRegistry {
    /// A registry in which no nonce was consumed.
    pub fn new() -> (r: NonceRegistry)
        ensures
            r@ == Set::<u64>::empty(),
    {
        NonceRegistry { used: HashSet::new() }
    }

    /// Whether `nonce` was consumed.
    pub fn contains(&self, nonce: u64) -> (r: bool)
        ensures
            r == self@.contains(nonce),
    {
        self.used.contains(&nonce)
    }

    /// Consumes `nonce`; false, with nothing changed, when it was consumed
    /// before.
    pub fn consume(&mut self, nonce: u64) -> (r: bool)
        ensures
            r == !old(self)@.contains(nonce),
            final(self)@ == old(self)@.insert(nonce),
    {
        self.used.insert(nonce)
    }

    /// Consumes the nonces of `messages` in order, as [`commit_nonces`] says:
    /// on the first one already used it stops and returns false, keeping the
    /// nonces consumed before it.
    pub fn consume_all(&mut self, messages: &Vec<PriceMessage>) -> (r: bool)
        ensures
            (final(self)@, r) == commit_nonces(old(self)@, nonces_of(records_of(messages@))),
    {
        let ghost start = self@;
        let ghost all = nonces_of(records_of(messages@));
        let mut i: usize = 0;
        while i < messages.len()
            invariant
                start == old(self)@,
                all == nonces_of(records_of(messages@)),
                i <= messages@.len(),
                (self@, true) == commit_nonces(start, all.take(i as int)),
            decreases messages@.len() - i,
        {
            proof {
                assert(all.take(i + 1).drop_last() =~= all.take(i as int));
                assert(all.take(i + 1).last() == messages@[i as int].nonce);
            }
            let ghost before = self@;
            if !self.consume(messages[i].nonce) {
                proof {
                    assert(self@ =~= before);
                    lemma_commit_stops(start, all, i + 1);
                }
                return false;
            }
            i = i + 1;
        }
        proof {
            assert(all.take(i as int) =~= all);
        }
        true
    }
}

/// Once consumption has failed on a prefix, it fails on every longer prefix
/// and the set stays where it was.
proof fn lemma_commit_stops(used: Set<u64>, nonces: Seq<u64>, i: int)
    requires
        0 < i <= nonces.len(),
        !commit_nonces(used, nonces.take(i)).1,
    ensures
        commit_nonces(used, nonces) == commit_nonces(used, nonces.take(i)),
    decreases nonces.len() - i,
{
    if i < nonces.len() {
        assert(nonces.take(i + 1).drop_last() =~= nonces.take(i));
        lemma_commit_stops(used, nonces, i + 1);
    } else {
        assert(nonces.take(i) =~= nonces);
    }
}

/// The view of a single-message result.
pub open spec fn record_result(r: Result<PriceMessage, OracleError>) -> Result<PriceRecord, OracleError> {
    match r {
        Ok(m) => Ok(m@),
        Err(e) => Err(e),
    }
}

/// The view of a batch result.
pub open spec fn records_result(r: Result<Vec<PriceMessage>, OracleError>) -> Result<
    Seq<PriceRecord>,
    OracleError,
> {
    match r {
        Ok(v) => Ok(records_of(v@)),
        Err(e) => Err(e),
    }
}

/// What a request for one message returns, given whether its signature
/// verified and the nonces used before it.
pub open spec fn price_input_outcome(
    signature_valid: bool,
    used: Set<u64>,
    message: Seq<char>,
) -> Result<PriceRecord, OracleError> {
    if !signature_valid {
        Err(OracleError::InvalidSignature)
    } else {
        match parse_message(message) {
            None => Err(OracleError::MalformedMessage),
            Some(r) => if used.contains(r.nonce) {
                Err(OracleError::NonceReused)
            } else {
                Ok(r)
            },
        }
    }
}

/// The nonces used after a request for one message.
pub open spec fn used_after_price_input(
    signature_valid: bool,
    used: Set<u64>,
    message: Seq<char>,
) -> Set<u64> {
    match price_input_outcome(signature_valid, used, message) {
        Ok(r) => used.insert(r.nonce),
        Err(_) => used,
    }
}

/// What a request for a batch leaves and returns: the nonces used after
/// it, and its result.
pub open spec fn prices_input_outcome(
    signature_valid: bool,
    used: Set<u64>,
    message: Seq<char>,
) -> (Set<u64>, Result<Seq<PriceRecord>, OracleError>) {
    if !signature_valid {
        (used, Err(OracleError::InvalidSignature))
    } else {
        match parse_batch(message) {
            None => (used, Err(OracleError::MalformedMessage)),
            Some(rs) => {
                let (u, ok) = commit_nonces(used, nonces_of(rs));
                (u, if ok {
                    Ok(rs)
                } else {
                    Err(OracleError::NonceReused)
                })
            },
        }
    }
}

/// Admits one message whose signature check came out as `signature_valid`:
/// parses it and consumes its nonce in `nonces`.
pub fn admit_price_input(nonces: &mut NonceRegistry, message: &str, signature_valid: bool) -> (r:
    Result<PriceMessage, OracleError>)
    ensures
        record_result(r) == price_input_outcome(signature_valid, old(nonces)@, message@),
        final(nonces)@ == used_after_price_input(signature_valid, old(nonces)@, message@),
{
    if !signature_valid {
        return Err(OracleError::InvalidSignature);
    }
    let m = match parse_price_message(message) {
        Some(m) => m,
        None => return Err(OracleError::MalformedMessage),
    };
    if nonces.contains(m.nonce) {
        return Err(OracleError::NonceReused);
    }
    nonces.consume(m.nonce);
    Ok(m)
}

/// Admits a batch whose signature check came out as `signature_valid`:
/// parses every message, then consumes their nonces in order.
pub fn admit_prices_input(nonces: &mut NonceRegistry, message: &str, signature_valid: bool) -> (r:
    Result<Vec<PriceMessage>, OracleError>)
    ensures
        (final(nonces)@, records_result(r)) == prices_input_outcome(
            signature_valid,
            old(nonces)@,
            message@,
        ),
{
    if !signature_valid {
        return Err(OracleError::InvalidSignature);
    }
    let messages = match parse_price_batch(message) {
        Some(v) => v,
        None => return Err(OracleError::MalformedMessage),
    };
    if nonces.consume_all(&messages) {
        Ok(messages)
    } else {
        Err(OracleError::NonceReused)
    }
}

/// The notification of a key rotation, for the host to publish.
#[derive(Debug, Clone, Copy, PartialEq, Eq)]
pub struct OraclePublicKeyUpdate {
    pub new_public_key: [u8; 48],
}

/// The one credential that authorizes key rotation. Only
/// [`MorpherOracle::instantiate`] makes one, and it cannot be copied.
#[derive(Debug)]
pub struct AdminBadge {
    seal: (),
}

/// The abstract state of an oracle: the authorized key and the nonces
/// consumed so far.
pub struct OracleState {
    pub key: Seq<u8>,
    pub used: Set<u64>,
}

/// What a request for one message returns in state `st`.
pub open spec fn check_outcome(st: OracleState, message: Seq<char>, signature: Seq<char>) -> Result<
    PriceRecord,
    OracleError,
> {
    price_input_outcome(signature_accepted(st.key, message, signature), st.used, message)
}

/// The state after a request for one message in state `st`.
pub open spec fn check_next(st: OracleState, message: Seq<char>, signature: Seq<char>) -> OracleState {
    OracleState {
        key: st.key,
        used: used_after_price_input(signature_accepted(st.key, message, signature), st.used, message),
    }
}

/// What a request for a batch returns in state `st`.
pub open spec fn check_batch_outcome(st: OracleState, message: Seq<char>, signature: Seq<char>) -> Result<
    Seq<PriceRecord>,
    OracleError,
> {
    prices_input_outcome(signature_accepted(st.key, message, signature), st.used, message).1
}

/// The state after a request for a batch in state `st`.
pub open spec fn check_batch_next(st: OracleState, message: Seq<char>, signature: Seq<char>) -> OracleState {
    OracleState {
        key: st.key,
        used: prices_input_outcome(signature_accepted(st.key, message, signature), st.used, message).0,
    }
}

/// A rotation to the key text `new_key` succeeded and led from `before` to
/// `after`.
pub open spec fn rotated(before: OracleState, new_key: Seq<char>, after: OracleState) -> bool {
    &&& is_hex_of_len(new_key, 48)
    &&& after.key == hex_decode(new_key)
    &&& after.used == before.used
}

/// A price oracle that trusts a single BLS12-381 public key.
pub struct MorpherOracle {
    authorized_pub_key: [u8; 48],
    used_nonce: NonceRegistry,
}

impl View for MorpherOracle {
    type V = OracleState;

    closed spec fn view(&self) -> OracleState {
        OracleState { key: self.authorized_pub_key@, used: self.used_nonce@ }
    }
}

impl MorpherOracle {
    /// Sets up an oracle that trusts the key whose hexadecimal text is
    /// `authorized_public_key`, with no nonce consumed, and issues the admin
    /// badge.
    pub fn instantiate(authorized_public_key: String) -> (r: Result<(MorpherOracle, AdminBadge), OracleError>)
        ensures
            r is Ok <==> is_hex_of_len(authorized_public_key@, 48),
            r is Err ==> r == Err::<(MorpherOracle, AdminBadge), OracleError>(OracleError::InvalidKeyEncoding),
            r matches Ok((o, _)) ==> o@.key == hex_decode(authorized_public_key@) && o@.used == Set::<u64>::empty(),
    {
        match decode_public_key(authorized_public_key.as_str()) {
            Some(key) => Ok((
                MorpherOracle { authorized_pub_key: key, used_nonce: NonceRegistry::new() },
                AdminBadge { seal: () },
            )),
            None => Err(OracleError::InvalidKeyEncoding),
        }
    }

    /// The authorized public key.
    pub fn public_key(&self) -> (r: [u8; 48])
        ensures
            r@ == self@.key,
    {
        self.authorized_pub_key
    }

    /// Whether `nonce` was consumed.
    pub fn is_nonce_used(&self, nonce: u64) -> (r: bool)
        ensures
            r == self@.used.contains(nonce),
    {
        self.used_nonce.contains(nonce)
    }

    /// Replaces the authorized key by the one whose hexadecimal text is
    /// `authorized_public_key`, on presentation of the admin badge, and
    /// returns the notification to publish. Consumed nonces stay consumed.
    pub fn set_oracle_public_key(&mut self, _badge: &AdminBadge, authorized_public_key: String) -> (r:
        Result<OraclePublicKeyUpdate, OracleError>)
        ensures
            r is Ok <==> is_hex_of_len(authorized_public_key@, 48),
            r matches Ok(ev) ==> ev.new_public_key@ == hex_decode(authorized_public_key@)
                && rotated(old(self)@, authorized_public_key@, final(self)@),
            r is Err ==> r == Err::<OraclePublicKeyUpdate, OracleError>(OracleError::InvalidKeyEncoding)
                && final(self)@ == old(self)@,
    {
        match decode_public_key(authorized_public_key.as_str()) {
            Some(key) => {
                self.authorized_pub_key = key;
                Ok(OraclePublicKeyUpdate { new_public_key: key })
            },
            None => Err(OracleError::InvalidKeyEncoding),
        }
    }

    /// Checks one signed message: its signature under the authorized key,
    /// then its format, then that its nonce is fresh, which it consumes.
    pub fn check_price_input(&mut self, message: String, signature: String) -> (r: Result<
        PriceMessage,
        OracleError,
    >)
        ensures
            record_result(r) == check_outcome(old(self)@, message@, signature@),
            final(self)@ == check_next(old(self)@, message@, signature@),
    {
        let valid = check_signature(message.as_str(), signature.as_str(), &self.authorized_pub_key);
        admit_price_input(&mut self.used_nonce, message.as_str(), valid)
    }

    /// Checks a comma-separated batch signed as a whole: the signature once,
    /// then the format of every message, then their nonces in order. On a
    /// reused nonce the nonces before it in the batch stay consumed.
    pub fn check_prices_input(&mut self, message: String, signature: String) -> (r: Result<
        Vec<PriceMessage>,
        OracleError,
    >)
        ensures
            records_result(r) == check_batch_outcome(old(self)@, message@, signature@),
            final(self)@ == check_batch_next(old(self)@, message@, signature@),
    {
        let valid = check_signature(message.as_str(), signature.as_str(), &self.authorized_pub_key);
        admit_prices_input(&mut self.used_nonce, message.as_str(), valid)
    }
}

/// Consumption only adds nonces; when it succeeds, every nonce was fresh,
/// none appears twice, and all of them are consumed after it.
proof fn lemma_commit_nonces(used: Set<u64>, nonces: Seq<u64>)
    ensures
        used.subset_of(commit_nonces(used, nonces).0),
        commit_nonces(used, nonces).1 ==> forall|i: int|
            0 <= i < nonces.len() ==> commit_nonces(used, nonces).0.contains(#[trigger] nonces[i])
                && !used.contains(nonces[i]),
        commit_nonces(used, nonces).1 ==> forall|i: int, j: int|
            0 <= i < j < nonces.len() ==> #[trigger] nonces[i] != #[trigger] nonces[j],
    decreases nonces.len(),
{
    if nonces.len() > 0 {
        let init = nonces.drop_last();
        lemma_commit_nonces(used, init);
        let (u, ok) = commit_nonces(used, init);
        if ok && !u.contains(nonces.last()) {
            assert forall|i: int| 0 <= i < nonces.len() implies commit_nonces(used, nonces).0.contains(
                #[trigger] nonces[i],
            ) && !used.contains(nonces[i]) by {
                if i < nonces.len() - 1 {
                    assert(init[i] == nonces[i]);
                }
            }
            assert forall|i: int, j: int| 0 <= i < j < nonces.len() implies #[trigger] nonces[i]
                != #[trigger] nonces[j] by {
                assert(init[i] == nonces[i]);
                if j < nonces.len() - 1 {
                    assert(init[j] == nonces[j]);
                } else {
                    assert(u.contains(init[i]));
                }
            }
        }
    }
}

/// The consumed nonces only grow: neither kind of request removes one.
pub proof fn lemma_used_nonces_grow(st: OracleState, message: Seq<char>, signature: Seq<char>)
    ensures
        st.used.subset_of(check_next(st, message, signature).used),
        st.used.subset_of(check_batch_next(st, message, signature).used),
{
    match parse_batch(message) {
        Some(rs) => lemma_commit_nonces(st.used, nonces_of(rs)),
        None => {},
    }
}

/// An accepted request consumes the nonces it returns, none of which was
/// consumed before it, and a batch never accepts one nonce twice.
pub proof fn lemma_accepted_nonces_consumed(st: OracleState, message: Seq<char>, signature: Seq<char>)
    ensures
        check_outcome(st, message, signature) matches Ok(r) ==> !st.used.contains(r.nonce)
            && check_next(st, message, signature).used.contains(r.nonce),
        check_batch_outcome(st, message, signature) matches Ok(rs) ==> (forall|i: int|
            0 <= i < rs.len() ==> !st.used.contains(#[trigger] rs[i].nonce) && check_batch_next(
                st,
                message,
                signature,
            ).used.contains(rs[i].nonce)) && (forall|i: int, j: int|
            0 <= i < j < rs.len() ==> #[trigger] rs[i].nonce != #[trigger] rs[j].nonce),
{
    match parse_batch(message) {
        Some(rs) => {
            let ns = nonces_of(rs);
            lemma_commit_nonces(st.used, ns);
            assert(forall|i: int| 0 <= i < rs.len() ==> #[trigger] rs[i].nonce == ns[i]);
        },
        None => {},
    }
}

/// A message whose nonce was consumed is never accepted again, in any
/// state, under any key; with a valid signature it is refused as a reused
/// nonce. With the two lemmas above: no two accepted requests ever carry
/// the same nonce.
pub proof fn lemma_used_nonce_refused(st: OracleState, message: Seq<char>, signature: Seq<char>)
    requires
        parse_message(message) is Some,
        st.used.contains(parse_message(message)->Some_0.nonce),
    ensures
        !(check_outcome(st, message, signature) is Ok),
        check_next(st, message, signature) == st,
        signature_accepted(st.key, message, signature) ==> check_outcome(st, message, signature)
            == Err::<PriceRecord, OracleError>(OracleError::NonceReused),
{
}

/// Two accepted requests for single messages never carry the same nonce:
/// once `first` was accepted in `st1`, every state `st2` whose consumed
/// nonces include those after it (every state reached from there, as the
/// set only grows) refuses a message with that nonce, as a reused nonce
/// when its signature verifies.
pub proof fn lemma_nonce_never_accepted_twice(
    st1: OracleState,
    first: Seq<char>,
    first_signature: Seq<char>,
    st2: OracleState,
    second: Seq<char>,
    second_signature: Seq<char>,
)
    requires
        check_outcome(st1, first, first_signature) is Ok,
        check_next(st1, first, first_signature).used.subset_of(st2.used),
        parse_message(second) is Some,
        parse_message(second)->Some_0.nonce == check_outcome(st1, first, first_signature)->Ok_0.nonce,
    ensures
        !(check_outcome(st2, second, second_signature) is Ok),
        signature_accepted(st2.key, second, second_signature) ==> check_outcome(
            st2,
            second,
            second_signature,
        ) == Err::<PriceRecord, OracleError>(OracleError::NonceReused),
{
    lemma_accepted_nonces_consumed(st1, first, first_signature);
    lemma_used_nonce_refused(st2, second, second_signature);
}

/// After a rotation to `new_key`, only `new_key` decides signatures: a
/// signature that does not verify under it is refused and changes nothing,
/// whatever key was trusted before, and a well-formed message signed under
/// it with a nonce never consumed before the rotation is accepted.
pub proof fn lemma_rotation_isolation(
    before: OracleState,
    new_key: Seq<char>,
    after: OracleState,
    message: Seq<char>,
    signature: Seq<char>,
)
    requires
        rotated(before, new_key, after),
    ensures
        !bls12381_v1_verifies(encode_utf8(message), hex_decode(new_key), hex_decode(signature))
            ==> check_outcome(after, message, signature) == Err::<PriceRecord, OracleError>(
            OracleError::InvalidSignature,
        ) && check_next(after, message, signature) == after,
        parse_message(message) matches Some(r) ==> (is_hex_of_len(signature, 96)
            && bls12381_v1_verifies(encode_utf8(message), hex_decode(new_key), hex_decode(signature))
            && !before.used.contains(r.nonce) ==> check_outcome(after, message, signature) == Ok::<
            PriceRecord,
            OracleError,
        >(r)),
{
}

/// A batch whose signature does not verify is refused as a whole: no
/// message of it is parsed and no nonce is consumed.
pub proof fn lemma_unsigned_batch_refused(st: OracleState, message: Seq<char>, signature: Seq<char>)
    requires
        !signature_accepted(st.key, message, signature),
    ensures
        check_batch_outcome(st, message, signature) == Err::<Seq<PriceRecord>, OracleError>(
            OracleError::InvalidSignature,
        ),
        check_batch_next(st, message, signature) == st,
{
}

} // verus!
